use vstd::prelude::*;
use crate::comments::{
    Comment, CommentNode, CommentRaw, CommentV, NodeV, TreeError, TreeErrorV, comment_spec,
    display_author, display_text, first_dup_upto, first_missing_upto, has_id, ids_at,
    ids_unique, idx_view, is_child_of, is_root, kids_upto, list_spec, node_spec, node_view,
    nodes_view, parent_missing, roots_upto, same_id, strings_view, tree_spec, forest_spec,
    created_times, time_view, times_view,
};
use crate::story::parse_created_at;
use crate::text::{is_blank, is_blank_seq, remove_char, without_char};
use crate::ui_text::{decimal, push_decimal};

verus! {

pub(crate) proof fn lemma_no_dup_unique(cs: Seq<CommentRaw>, n: int)
    requires
        0 <= n <= cs.len(),
        first_dup_upto(cs, n) is None,
    ensures
        forall|i: int, j: int| 0 <= i < n && 0 <= j < n && i != j ==> !same_id(cs, i, j),
    decreases n,
{
    if n > 0 {
        lemma_no_dup_unique(cs, n - 1);
        assert forall|i: int, j: int| 0 <= i < n && 0 <= j < n && i != j implies !same_id(
            cs,
            i,
            j,
        ) by {
            if j == n - 1 {
                assert(!same_id(cs, i, n - 1));
            } else if i == n - 1 {
                assert(!same_id(cs, j, n - 1));
            }
        }
    }
}

proof fn lemma_no_missing(cs: Seq<CommentRaw>, n: int)
    requires
        0 <= n <= cs.len(),
        first_missing_upto(cs, n) is None,
    ensures
        forall|j: int| 0 <= j < n ==> !parent_missing(cs, j),
    decreases n,
{
    if n > 0 {
        lemma_no_missing(cs, n - 1);
    }
}

/// The first comment whose id an earlier comment already has.
fn find_duplicate(cs: &Vec<CommentRaw>) -> (r: Option<usize>)
    ensures
        match r {
            Some(j) => first_dup_upto(cs@, cs.len() as int) == Some(j as int) && j < cs.len(),
            None => first_dup_upto(cs@, cs.len() as int) is None,
        },
{
    let n = cs.len();
    for j in 0..n
        invariant
            n == cs.len(),
            first_dup_upto(cs@, j as int) is None,
    {
        for i in 0..j
            invariant
                n == cs.len(),
                j < n,
                first_dup_upto(cs@, j as int) is None,
                forall|k: int| 0 <= k < i ==> !same_id(cs@, k, j as int),
        {
            if cs[i].short_id == cs[j].short_id {
                assert(same_id(cs@, i as int, (j + 1) - 1));
                assert(first_dup_upto(cs@, j + 1) == Some(j as int));
                proof {
                    lemma_dup_stays(cs@, j + 1, cs.len() as int);
                }
                return Some(j);
            }
        }
        assert(first_dup_upto(cs@, j + 1) is None);
    }
    None
}

proof fn lemma_dup_stays(cs: Seq<CommentRaw>, m: int, n: int)
    requires
        0 <= m <= n,
        first_dup_upto(cs, m) is Some,
    ensures
        first_dup_upto(cs, n) == first_dup_upto(cs, m),
    decreases n - m,
{
    if m < n {
        lemma_dup_stays(cs, m, n - 1);
    }
}

proof fn lemma_missing_stays(cs: Seq<CommentRaw>, m: int, n: int)
    requires
        0 <= m <= n,
        first_missing_upto(cs, m) is Some,
    ensures
        first_missing_upto(cs, n) == first_missing_upto(cs, m),
    decreases n - m,
{
    if m < n {
        lemma_missing_stays(cs, m, n - 1);
    }
}

/// Where the comment with id `id` stands, if any.
fn position_of_id(cs: &Vec<CommentRaw>, id: &String) -> (r: Option<usize>)
    ensures
        match r {
            Some(k) => k < cs.len() && cs@[k as int].short_id@ == id@,
            None => !has_id(cs@, id@),
        },
{
    for k in 0..cs.len()
        invariant
            forall|m: int| 0 <= m < k ==> cs@[m].short_id@ != id@,
    {
        if cs[k].short_id == *id {
            return Some(k);
        }
    }
    None
}

/// The first comment whose parent is not in the list.
fn find_missing_parent(cs: &Vec<CommentRaw>) -> (r: Option<usize>)
    ensures
        match r {
            Some(j) => first_missing_upto(cs@, cs.len() as int) == Some(j as int) && j < cs.len(),
            None => first_missing_upto(cs@, cs.len() as int) is None,
        },
{
    let n = cs.len();
    for j in 0..n
        invariant
            n == cs.len(),
            first_missing_upto(cs@, j as int) is None,
    {
        if let Some(p) = &cs[j].parent_comment {
            if position_of_id(cs, p).is_none() {
                assert(parent_missing(cs@, j as int));
                assert(first_missing_upto(cs@, j + 1) == Some(j as int));
                proof {
                    lemma_missing_stays(cs@, j + 1, cs.len() as int);
                }
                return Some(j);
            }
        }
        assert(first_missing_upto(cs@, j + 1) is None);
    }
    None
}

/// The comments without a parent, in list order.
fn root_positions(cs: &Vec<CommentRaw>) -> (r: Vec<usize>)
    ensures
        idx_view(r@) == roots_upto(cs@, cs.len() as int),
        forall|k: int| 0 <= k < r@.len() ==> r@[k] < cs.len(),
{
    let mut out: Vec<usize> = Vec::new();
    for j in 0..cs.len()
        invariant
            idx_view(out@) == roots_upto(cs@, j as int),
            forall|k: int| 0 <= k < out@.len() ==> out@[k] < j,
    {
        if cs[j].parent_comment.is_none() {
            out.push(j);
        }
        assert(idx_view(out@) =~= roots_upto(cs@, j + 1));
    }
    out
}

/// The replies to comment `i`, in list order.
fn kid_positions(cs: &Vec<CommentRaw>, i: usize) -> (r: Vec<usize>)
    requires
        i < cs.len(),
    ensures
        idx_view(r@) == kids_upto(cs@, i as int, cs.len() as int),
        forall|k: int| 0 <= k < r@.len() ==> r@[k] < cs.len(),
{
    let mut out: Vec<usize> = Vec::new();
    for j in 0..cs.len()
        invariant
            i < cs.len(),
            idx_view(out@) == kids_upto(cs@, i as int, j as int),
            forall|k: int| 0 <= k < out@.len() ==> out@[k] < j,
    {
        let is_kid = match &cs[j].parent_comment {
            Some(p) => *p == cs[i].short_id,
            None => false,
        };
        assert(is_kid == is_child_of(cs@, j as int, i as int));
        if is_kid {
            out.push(j);
        }
        assert(idx_view(out@) =~= kids_upto(cs@, i as int, j + 1));
    }
    out
}


/// `chain` lists the ancestors of comment `i`, from a root down to `i`'s parent.
pub open spec fn chain_ok(cs: Seq<CommentRaw>, chain: Seq<int>, i: int) -> bool {
    &&& 0 <= i < cs.len()
    &&& chain.no_duplicates()
    &&& forall|k: int| 0 <= k < chain.len() ==> 0 <= #[trigger] chain[k] < cs.len()
    &&& if chain.len() == 0 {
        is_root(cs, i)
    } else {
        &&& is_root(cs, chain[0])
        &&& is_child_of(cs, i, chain.last())
        &&& forall|k: int| 1 <= k < chain.len() ==> is_child_of(cs, #[trigger] chain[k], chain[k - 1])
    }
}

proof fn lemma_parent_unique(cs: Seq<CommentRaw>, j: int, a: int, b: int)
    requires
        ids_unique(cs),
        0 <= a < cs.len(),
        0 <= b < cs.len(),
        is_child_of(cs, j, a),
        is_child_of(cs, j, b),
    ensures
        a == b,
{
    if a != b {
        assert(!same_id(cs, a, b));
    }
}

pub(crate) proof fn lemma_chain_grows(cs: Seq<CommentRaw>, chain: Seq<int>, i: int)
    requires
        ids_unique(cs),
        chain_ok(cs, chain, i),
    ensures
        !chain.contains(i),
        chain.len() < cs.len(),
        chain.push(i).no_duplicates(),
{
    let len = chain.len();
    if chain.contains(i) {
        let k = choose|k: int| 0 <= k < len && chain[k] == i;
        if k == 0 {
            assert(is_root(cs, i));
        } else {
            assert(is_child_of(cs, chain[k], chain[k - 1]));
            lemma_parent_unique(cs, i, chain[k - 1], chain[len - 1]);
            assert(k - 1 == len - 1);
        }
    }
    let p = chain.push(i);
    assert forall|a: int, b: int| 0 <= a < p.len() && 0 <= b < p.len() && a != b implies p[a]
        != p[b] by {
        if a == len {
            assert(chain[b] == p[b]);
        } else if b == len {
            assert(chain[a] == p[a]);
        }
    }
    p.unique_seq_to_set();
    vstd::set_lib::lemma_int_range(0, cs.len() as int);
    assert(p.to_set().subset_of(vstd::set_lib::set_int_range(0, cs.len() as int))) by {
        assert forall|x: int| p.to_set().contains(x) implies 0 <= x < cs.len() by {
            let k = choose|k: int| 0 <= k < p.len() && p[k] == x;
            if k < len {
                assert(chain[k] == x);
            }
        }
    }
    vstd::set_lib::lemma_len_subset(p.to_set(), vstd::set_lib::set_int_range(0, cs.len() as int));
}

pub(crate) proof fn lemma_chain_extend(cs: Seq<CommentRaw>, chain: Seq<int>, i: int, j: int)
    requires
        ids_unique(cs),
        chain_ok(cs, chain, i),
        0 <= j < cs.len(),
        is_child_of(cs, j, i),
    ensures
        chain_ok(cs, chain.push(i), j),
{
    lemma_chain_grows(cs, chain, i);
    let p = chain.push(i);
    assert forall|k: int| 1 <= k < p.len() implies is_child_of(cs, #[trigger] p[k], p[k - 1]) by {
        if k == chain.len() {
        } else {
            assert(p[k] == chain[k] && p[k - 1] == chain[k - 1]);
        }
    }
    assert forall|k: int| 0 <= k < p.len() implies 0 <= #[trigger] p[k] < cs.len() by {
        if k < chain.len() {
            assert(p[k] == chain[k]);
        }
    }
    if chain.len() > 0 {
        assert(p[0] == chain[0]);
    }
}

pub(crate) proof fn lemma_kids_are_children(cs: Seq<CommentRaw>, i: int, n: int)
    requires
        0 <= n <= cs.len(),
    ensures
        forall|k: int|
            0 <= k < kids_upto(cs, i, n).len() ==> 0 <= #[trigger] kids_upto(cs, i, n)[k] < n
                && is_child_of(cs, kids_upto(cs, i, n)[k], i),
    decreases n,
{
    if n > 0 {
        lemma_kids_are_children(cs, i, n - 1);
        let prev = kids_upto(cs, i, n - 1);
        let cur = kids_upto(cs, i, n);
        assert forall|k: int| 0 <= k < cur.len() implies 0 <= #[trigger] cur[k] < n && is_child_of(
            cs,
            cur[k],
            i,
        ) by {
            if k < prev.len() {
                assert(cur[k] == prev[k]);
            }
        }
    }
}

pub(crate) proof fn lemma_roots_are_roots(cs: Seq<CommentRaw>, n: int)
    requires
        0 <= n <= cs.len(),
    ensures
        forall|k: int|
            0 <= k < roots_upto(cs, n).len() ==> 0 <= #[trigger] roots_upto(cs, n)[k] < n
                && is_root(cs, roots_upto(cs, n)[k]),
    decreases n,
{
    if n > 0 {
        lemma_roots_are_roots(cs, n - 1);
        let prev = roots_upto(cs, n - 1);
        let cur = roots_upto(cs, n);
        assert forall|k: int| 0 <= k < cur.len() implies 0 <= #[trigger] cur[k] < n && is_root(
            cs,
            cur[k],
        ) by {
            if k < prev.len() {
                assert(cur[k] == prev[k]);
            }
        }
    }
}

proof fn lemma_missing_found(cs: Seq<CommentRaw>, n: int)
    requires
        0 <= n <= cs.len(),
        first_missing_upto(cs, n) is Some,
    ensures
        0 <= first_missing_upto(cs, n)->0 < n,
        parent_missing(cs, first_missing_upto(cs, n)->0),
    decreases n,
{
    if n > 0 && first_missing_upto(cs, n - 1) is Some {
        lemma_missing_found(cs, n - 1);
    }
}

proof fn lemma_nodes_view_push(v: Seq<CommentNode>, x: CommentNode)
    ensures
        nodes_view(v.push(x)) == nodes_view(v).push(node_view(x)),
{
    assert(v.push(x).drop_last() =~= v);
}

proof fn lemma_nodes_view_index(v: Seq<CommentNode>)
    ensures
        nodes_view(v).len() == v.len(),
        forall|k: int| 0 <= k < v.len() ==> #[trigger] nodes_view(v)[k] == node_view(v[k]),
    decreases v.len(),
{
    if v.len() > 0 {
        lemma_nodes_view_index(v.drop_last());
        assert forall|k: int| 0 <= k < v.len() implies #[trigger] nodes_view(v)[k] == node_view(
            v[k],
        ) by {
            if k < v.len() - 1 {
                assert(v.drop_last()[k] == v[k]);
            }
        }
    }
}

proof fn lemma_list_err_stays(
    cs: Seq<CommentRaw>,
    ts: Seq<Result<i64, Seq<char>>>,
    idx: Seq<int>,
    m: int,
    d: nat,
    chain: Seq<int>,
)
    requires
        0 <= m <= idx.len(),
        list_spec(cs, ts, idx.take(m), d, chain) is Err,
    ensures
        list_spec(cs, ts, idx, d, chain) == list_spec(cs, ts, idx.take(m), d, chain),
    decreases idx.len() - m,
{
    if m < idx.len() {
        assert(idx.drop_last().take(m) =~= idx.take(m));
        lemma_list_err_stays(cs, ts, idx.drop_last(), m, d, chain);
        assert(idx.drop_last().take(m) =~= idx.take(m));
    } else {
        assert(idx.take(m) =~= idx);
    }
}

/// The subtree of comment `i` at depth `d` under the ancestors `chain`.
fn build_node(
    cs: &Vec<CommentRaw>,
    ts: &Vec<Result<i64, String>>,
    i: usize,
    d: usize,
    Ghost(chain): Ghost<Seq<int>>,
) -> (r: Result<CommentNode, TreeError>)
    requires
        ids_unique(cs@),
        ts.len() == cs.len(),
        chain_ok(cs@, chain, i as int),
        d == chain.len(),
    ensures
        match node_spec(cs@, times_view(ts@), i as int, d as nat, chain) {
            Ok(v) => r matches Ok(n) && node_view(n) == v,
            Err(e) => r matches Err(x) && x@ == e,
        },
    decreases cs.len() - chain.len(), 0int,
{
    let raw = &cs[i];
    if raw.depth != d {
        return Err(
            TreeError::DepthMismatch { id: raw.short_id.clone(), api: raw.depth, expected: d },
        );
    }
    let kids = kid_positions(cs, i);
    let time = match &ts[i] {
        Ok(t) => *t,
        Err(reason) => {
            return Err(
                TreeError::BadTimestamp { created_at: raw.created_at.clone(), reason: reason.clone() },
            );
        },
    };
    let by = match &raw.commenting_user {
        Some(u) => if is_blank(u.as_str()) {
            None
        } else {
            Some(u.clone())
        },
        None => None,
    };
    let mut text = remove_char(raw.comment_plain.as_str(), '\r');
    if is_blank(text.as_str()) {
        text =
        if raw.is_deleted {
            String::from_str("[deleted]")
        } else if raw.is_moderated {
            String::from_str("[moderated]")
        } else {
            String::from_str("[no text]")
        };
    }
    let mut kid_ids: Vec<String> = Vec::new();
    for k in 0..kids.len()
        invariant
            forall|m: int| 0 <= m < kids@.len() ==> kids@[m] < cs.len(),
            strings_view(kid_ids@) == ids_at(cs@, idx_view(kids@).take(k as int)),
    {
        let ghost prev = kid_ids@;
        let kid_id = cs[kids[k]].short_id.clone();
        kid_ids.push(kid_id);
        assert(idx_view(kids@).take(k + 1) =~= idx_view(kids@).take(k as int).push(
            kids@[k as int] as int,
        ));
        assert(strings_view(kid_ids@) =~= strings_view(prev).push(kid_id@));
        assert(strings_view(kid_ids@) =~= ids_at(cs@, idx_view(kids@).take(k + 1)));
    }
    assert(idx_view(kids@).take(kids.len() as int) =~= idx_view(kids@));
    let ghost kid_seq = kids_upto(cs@, i as int, cs.len() as int);
    proof {
        lemma_chain_grows(cs@, chain, i as int);
        lemma_kids_are_children(cs@, i as int, cs.len() as int);
        assert forall|k: int| 0 <= k < kids@.len() implies chain_ok(
            cs@,
            chain.push(i as int),
            #[trigger] kids@[k] as int,
        ) by {
            assert(kid_seq[k] == kids@[k] as int);
            lemma_chain_extend(cs@, chain, i as int, kids@[k] as int);
        }
    }
    let children = match build_list(cs, ts, &kids, d + 1, Ghost(chain.push(i as int))) {
        Ok(c) => c,
        Err(e) => return Err(e),
    };
    let collapsed = kids.len() > 0;
    let comment = Comment {
        id: raw.short_id.clone(),
        by,
        time: Some(time),
        text,
        kids: kid_ids,
        depth: d,
        collapsed,
        children_loading: false,
        deleted: raw.is_deleted,
        moderated: raw.is_moderated,
    };
    let node = CommentNode { comment, children };
    proof {
        assert(node.comment@ == comment_spec(cs@, i as int, d as nat, time));
    }
    Ok(node)
}

/// The subtrees of the comments `idx`, in order, at depth `d` under `chain`.
fn build_list(
    cs: &Vec<CommentRaw>,
    ts: &Vec<Result<i64, String>>,
    idx: &Vec<usize>,
    d: usize,
    Ghost(chain): Ghost<Seq<int>>,
) -> (r: Result<Vec<CommentNode>, TreeError>)
    requires
        ids_unique(cs@),
        ts.len() == cs.len(),
        d == chain.len(),
        forall|k: int| 0 <= k < idx@.len() ==> chain_ok(cs@, chain, #[trigger] idx@[k] as int),
    ensures
        match list_spec(cs@, times_view(ts@), idx_view(idx@), d as nat, chain) {
            Ok(v) => r matches Ok(nodes) && nodes_view(nodes@) == v,
            Err(e) => r matches Err(x) && x@ == e,
        },
    decreases cs.len() - chain.len(), 1int,
{
    let ghost s = idx_view(idx@);
    let mut out: Vec<CommentNode> = Vec::new();
    assert(s.take(0) =~= Seq::<int>::empty());
    for k in 0..idx.len()
        invariant
            ids_unique(cs@),
            ts.len() == cs.len(),
            d == chain.len(),
            s == idx_view(idx@),
            forall|m: int| 0 <= m < idx@.len() ==> chain_ok(cs@, chain, #[trigger] idx@[m] as int),
            list_spec(cs@, times_view(ts@), s.take(k as int), d as nat, chain) == Ok::<Seq<NodeV>, TreeErrorV>(
                nodes_view(out@),
            ),
    {
        assert(s.take(k + 1).drop_last() =~= s.take(k as int));
        assert(s.take(k + 1).last() == idx@[k as int] as int);
        let node = match build_node(cs, ts, idx[k], d, Ghost(chain)) {
            Ok(n) => n,
            Err(e) => {
                proof {
                    lemma_list_err_stays(cs@, times_view(ts@), s, k + 1, d as nat, chain);
                }
                return Err(e);
            },
        };
        proof {
            lemma_nodes_view_push(out@, node);
        }
        out.push(node);
    }
    assert(s.take(idx.len() as int) =~= s);
    Ok(out)
}

/// Builds the thread forest of a flat comment list whose comments were created at
/// the times `times` (one per comment, or why its `created_at` is not RFC 3339):
/// the comments without a parent are the roots, in list order, and each comment's
/// replies are its children, in list order. Fails on a repeated id, on a parent that
/// is not in the list, on a non-empty list without roots, on a comment whose depth
/// is not its depth in the tree, and on a comment without a time (with the reason);
/// `forest_spec` says
/// which error comes first.
pub fn assemble_comment_tree(comments: Vec<CommentRaw>, times: Vec<Result<i64, String>>) -> (r: Result<
    Vec<CommentNode>,
    TreeError,
>)
    requires
        times.len() == comments.len(),
    ensures
        match forest_spec(comments@, times_view(times@)) {
            Ok(v) => r matches Ok(nodes) && nodes_view(nodes@) == v,
            Err(e) => r matches Err(x) && x@ == e,
        },
{
    let cs = &comments;
    if cs.len() == 0 {
        return Ok(Vec::new());
    }
    if let Some(j) = find_duplicate(cs) {
        return Err(TreeError::DuplicateId { id: cs[j].short_id.clone() });
    }
    if let Some(j) = find_missing_parent(cs) {
        let parent_id = match &cs[j].parent_comment {
            Some(p) => p.clone(),
            None => {
                proof {
                    lemma_missing_found(cs@, cs.len() as int);
                }
                assert(false);
                String::new()
            },
        };
        return Err(TreeError::ParentMissing { id: cs[j].short_id.clone(), parent_id });
    }
    let roots = root_positions(cs);
    if roots.len() == 0 {
        return Err(TreeError::NoRoots);
    }
    proof {
        lemma_no_dup_unique(cs@, cs.len() as int);
        lemma_roots_are_roots(cs@, cs.len() as int);
        let rs = roots_upto(cs@, cs.len() as int);
        assert forall|k: int| 0 <= k < roots@.len() implies chain_ok(
            cs@,
            Seq::<int>::empty(),
            #[trigger] roots@[k] as int,
        ) by {
            assert(rs[k] == roots@[k] as int);
        }
    }
    build_list(cs, &times, &roots, 0, Ghost(Seq::empty()))
}

/// Builds the thread forest of a flat comment list, each comment's time read from
/// its `created_at` with `chrono`; see `assemble_comment_tree`.
pub fn build_comment_tree(comments: Vec<CommentRaw>) -> (r: Result<Vec<CommentNode>, TreeError>)
    ensures
        match tree_spec(comments@) {
            Ok(v) => r matches Ok(nodes) && nodes_view(nodes@) == v,
            Err(e) => r matches Err(x) && x@ == e,
        },
{
    let mut times: Vec<Result<i64, String>> = Vec::new();
    for k in 0..comments.len()
        invariant
            times_view(times@) == created_times(comments@).take(k as int),
    {
        let ghost prev = times@;
        let t = match parse_created_at(comments[k].created_at.as_str()) {
            Ok(t) => Ok(t),
            Err(e) => Err(e.reason),
        };
        assert(time_view(t) == created_times(comments@)[k as int]);
        times.push(t);
        assert(times_view(times@) =~= times_view(prev).push(time_view(t)));
        assert(times_view(times@) =~= created_times(comments@).take(k + 1));
    }
    assert(times_view(times@) =~= created_times(comments@));
    assemble_comment_tree(comments, times)
}


/// The first `k` nodes of `ns` after the first comment in depth-first order whose id
/// is `target` has had its collapsed flag set to `c`; and whether one was found.
pub open spec fn set_collapse_upto(ns: Seq<NodeV>, k: int, target: Seq<char>, c: bool) -> (Seq<
    NodeV,
>, bool)
    decreases ns, k,
{
    if k <= 0 || k > ns.len() {
        (Seq::empty(), false)
    } else {
        let (prev, found) = set_collapse_upto(ns, k - 1, target, c);
        let n = ns[k - 1];
        if found {
            (prev.push(n), true)
        } else if n.comment.id == target {
            (prev.push(NodeV { comment: CommentV { collapsed: c, ..n.comment }, ..n }), true)
        } else {
            let (ch, f) = set_collapse_upto(n.children, n.children.len() as int, target, c);
            (prev.push(NodeV { children: ch, ..n }), f)
        }
    }
}

pub open spec fn set_collapse_spec(ns: Seq<NodeV>, target: Seq<char>, c: bool) -> (Seq<NodeV>, bool) {
    set_collapse_upto(ns, ns.len() as int, target, c)
}

/// Sets the collapsed flag of the first comment in depth-first order whose id is
/// `target`; `None` when no comment has that id (the tree is then unchanged).
pub fn set_collapse_in_tree(tree: &mut Vec<CommentNode>, target: &String, collapsed: bool) -> (r:
    Option<()>)
    ensures
        nodes_view(final(tree)@) == set_collapse_spec(nodes_view(old(tree)@), target@, collapsed).0,
        r is Some == set_collapse_spec(nodes_view(old(tree)@), target@, collapsed).1,
    decreases old(tree)@,
{
    let mut old_nodes: Vec<CommentNode> = Vec::new();
    std::mem::swap(&mut old_nodes, tree);
    let ghost src = old_nodes@;
    let mut found = false;
    for node in it: old_nodes.into_iter()
        invariant
            it.seq() == src,
            src == old(tree)@,
            tree@.len() == it.index(),
            (nodes_view(tree@), found) == set_collapse_upto(
                nodes_view(src),
                it.index() as int,
                target@,
                collapsed,
            ),
    {
        let ghost k = it.index();
        assert(node == src[k as int]);
        let mut node = node;
        proof {
            lemma_nodes_view_index(src);
        }
        if !found {
            if node.comment.id == *target {
                node.comment.collapsed = collapsed;
                found = true;
            } else {
                assert(decreases_to!(old(tree)@ => node.children@)) by {
                    assert(decreases_to!(src => src[k as int]));
                    assert(decreases_to!(src[k as int] => src[k as int].children));
                    assert(decreases_to!(src[k as int].children => src[k as int].children@));
                }
                if set_collapse_in_tree(&mut node.children, target, collapsed).is_some() {
                    found = true;
                }
            }
        }
        proof {
            lemma_nodes_view_push(tree@, node);
        }
        tree.push(node);
    }
    proof {
        lemma_nodes_view_index(src);
    }
    if found {
        Some(())
    } else {
        None
    }
}


pub open spec fn comments_view(v: Seq<Comment>) -> Seq<CommentV> {
    v.map_values(|c: Comment| c@)
}

/// The comments of the first `k` nodes of `ns` in depth-first order, leaving out
/// the replies below a collapsed comment.
pub open spec fn visible_upto(ns: Seq<NodeV>, k: int) -> Seq<CommentV>
    decreases ns, k,
{
    if k <= 0 || k > ns.len() {
        Seq::empty()
    } else {
        let prev = visible_upto(ns, k - 1);
        let n = ns[k - 1];
        if n.comment.collapsed {
            prev.push(n.comment)
        } else {
            prev.push(n.comment) + visible_upto(n.children, n.children.len() as int)
        }
    }
}

/// The comments shown for a thread forest, in display order.
pub open spec fn visible_comments(ns: Seq<NodeV>) -> Seq<CommentV> {
    visible_upto(ns, ns.len() as int)
}

impl Comment {
    /// A copy of the comment.
    pub fn duplicate(&self) -> (r: Comment)
        ensures
            r@ == self@,
    {
        let by = match &self.by {
            Some(b) => Some(b.clone()),
            None => None,
        };
        let kids = self.kids.clone();
        proof {
            assert(strings_view(kids@) =~= strings_view(self.kids@));
        }
        Comment {
            id: self.id.clone(),
            by,
            time: self.time,
            text: self.text.clone(),
            kids,
            depth: self.depth,
            collapsed: self.collapsed,
            children_loading: self.children_loading,
            deleted: self.deleted,
            moderated: self.moderated,
        }
    }
}

/// Appends to `out` the comments of `nodes` that are shown, in display order.
pub fn push_visible(nodes: &Vec<CommentNode>, out: &mut Vec<Comment>)
    ensures
        comments_view(final(out)@) == comments_view(old(out)@) + visible_comments(
            nodes_view(nodes@),
        ),
    decreases nodes@,
{
    let ghost start = comments_view(out@);
    proof {
        lemma_nodes_view_index(nodes@);
    }
    for k in 0..nodes.len()
        invariant
            start == comments_view(old(out)@),
            nodes_view(nodes@).len() == nodes@.len(),
            forall|m: int| 0 <= m < nodes@.len() ==> #[trigger] nodes_view(nodes@)[m] == node_view(nodes@[m]),
            comments_view(out@) == start + visible_upto(nodes_view(nodes@), k as int),
    {
        let node = &nodes[k];
        let ghost before = comments_view(out@);
        let c = node.comment.duplicate();
        out.push(c);
        assert(comments_view(out@) =~= before.push(c@));
        if !node.comment.collapsed {
            assert(decreases_to!(nodes@ => node.children@)) by {
                assert(decreases_to!(nodes@ => nodes@[k as int]));
                assert(decreases_to!(nodes@[k as int] => nodes@[k as int].children));
                assert(decreases_to!(nodes@[k as int].children => nodes@[k as int].children@));
            }
            push_visible(&node.children, out);
        }
        assert(comments_view(out@) =~= start + visible_upto(nodes_view(nodes@), k + 1));
    }
}

/// The first `k` nodes of `ns` with every comment above depth `e` that has replies
/// opened.
pub open spec fn expand_upto(ns: Seq<NodeV>, k: int, e: nat) -> Seq<NodeV>
    decreases ns, k,
{
    if k <= 0 || k > ns.len() {
        Seq::empty()
    } else {
        let n = ns[k - 1];
        let comment = if n.comment.depth < e && n.comment.kids.len() > 0 {
            CommentV { collapsed: false, ..n.comment }
        } else {
            n.comment
        };
        expand_upto(ns, k - 1, e).push(
            NodeV { comment, children: expand_upto(n.children, n.children.len() as int, e) },
        )
    }
}

pub open spec fn expand_spec(ns: Seq<NodeV>, e: nat) -> Seq<NodeV> {
    expand_upto(ns, ns.len() as int, e)
}

/// Opens every comment with replies whose depth is below `expand_depth_exclusive`;
/// leaves every other flag as it was.
pub fn expand_to_depth(tree: &mut Vec<CommentNode>, expand_depth_exclusive: usize)
    ensures
        nodes_view(final(tree)@) == expand_spec(nodes_view(old(tree)@), expand_depth_exclusive as nat),
    decreases old(tree)@,
{
    let mut old_nodes: Vec<CommentNode> = Vec::new();
    std::mem::swap(&mut old_nodes, tree);
    let ghost src = old_nodes@;
    proof {
        lemma_nodes_view_index(src);
    }
    for node in it: old_nodes.into_iter()
        invariant
            it.seq() == src,
            src == old(tree)@,
            nodes_view(src).len() == src.len(),
            forall|m: int| 0 <= m < src.len() ==> #[trigger] nodes_view(src)[m] == node_view(src[m]),
            tree@.len() == it.index(),
            nodes_view(tree@) == expand_upto(
                nodes_view(src),
                it.index() as int,
                expand_depth_exclusive as nat,
            ),
    {
        let ghost k = it.index();
        assert(node == src[k as int]);
        assert(nodes_view(src)[k as int] == node_view(src[k as int]));
        let mut node = node;
        if node.comment.depth < expand_depth_exclusive && !node.comment.kids.is_empty() {
            node.comment.collapsed = false;
        }
        if !node.children.is_empty() {
            assert(decreases_to!(old(tree)@ => node.children@)) by {
                assert(decreases_to!(src => src[k as int]));
                assert(decreases_to!(src[k as int] => src[k as int].children));
                assert(decreases_to!(src[k as int].children => src[k as int].children@));
            }
            expand_to_depth(&mut node.children, expand_depth_exclusive);
        } else {
            assert(nodes_view(node.children@) =~= Seq::<NodeV>::empty());
        }
        proof {
            let n = nodes_view(src)[k as int];
            let e = expand_depth_exclusive as nat;
            let comment = if n.comment.depth < e && n.comment.kids.len() > 0 {
                CommentV { collapsed: false, ..n.comment }
            } else {
                n.comment
            };
            assert(node.comment@ == comment);
            assert(nodes_view(node.children@) == expand_upto(n.children, n.children.len() as int, e));
            lemma_nodes_view_push(tree@, node);
        }
        tree.push(node);
    }
}

/// The text of a tree error.
pub open spec fn tree_error_text(e: TreeErrorV) -> Seq<char> {
    match e {
        TreeErrorV::DuplicateId { id } => "duplicate comment id="@ + id,
        TreeErrorV::ParentMissing { id, parent_id } => "comment parent missing id="@ + id
            + " parent_id="@ + parent_id,
        TreeErrorV::NoRoots => "comments present but no root comments"@,
        TreeErrorV::DepthMismatch { id, api, expected } => "comment depth mismatch id="@ + id
            + ": api="@ + decimal(api) + " expected="@ + decimal(expected),
        TreeErrorV::BadTimestamp { created_at, reason } => "parse created_at rfc3339: "@
            + created_at + ": "@ + reason,
    }
}

impl TreeError {
    /// The error's text, naming the comment at fault.
    pub fn message(&self) -> (r: String)
        ensures
            r@ == tree_error_text(self@),
    {
        match self {
            TreeError::DuplicateId { id } => {
                let mut out = String::from_str("duplicate comment id=");
                out.append(id.as_str());
                out
            },
            TreeError::ParentMissing { id, parent_id } => {
                let mut out = String::from_str("comment parent missing id=");
                out.append(id.as_str());
                out.append(" parent_id=");
                out.append(parent_id.as_str());
                out
            },
            TreeError::NoRoots => String::from_str("comments present but no root comments"),
            TreeError::DepthMismatch { id, api, expected } => {
                let mut out = String::from_str("comment depth mismatch id=");
                out.append(id.as_str());
                out.append(": api=");
                push_decimal(&mut out, *api as u64);
                out.append(" expected=");
                push_decimal(&mut out, *expected as u64);
                out
            },
            TreeError::BadTimestamp { created_at, reason } => {
                let mut out = String::from_str("parse created_at rfc3339: ");
                out.append(created_at.as_str());
                out.append(": ");
                out.append(reason.as_str());
                out
            },
        }
    }
}

} // verus!
