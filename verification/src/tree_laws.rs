use vstd::prelude::*;
use crate::comments::{
    CommentRaw, CommentV, NodeV, forest_spec, ids_at, ids_unique, kids_upto, list_spec,
    node_spec, roots_upto, tree_spec,
};
use crate::tree::{
    chain_ok, lemma_chain_extend, lemma_chain_grows, lemma_kids_are_children,
    lemma_no_dup_unique, lemma_roots_are_roots, set_collapse_spec, set_collapse_upto,
    expand_spec, expand_upto, visible_comments, visible_upto,
};

verus! {

/// The collapsed flag of the first comment in depth-first order among the first `k`
/// nodes of `ns` whose id is `target`, if there is one.
pub open spec fn collapsed_flag_upto(ns: Seq<NodeV>, k: int, target: Seq<char>) -> Option<bool>
    decreases ns, k,
{
    if k <= 0 || k > ns.len() {
        None
    } else {
        match collapsed_flag_upto(ns, k - 1, target) {
            Some(b) => Some(b),
            None => {
                let n = ns[k - 1];
                if n.comment.id == target {
                    Some(n.comment.collapsed)
                } else {
                    collapsed_flag_upto(n.children, n.children.len() as int, target)
                }
            },
        }
    }
}

/// The collapsed flag of the comment that `set_collapse_spec` would change.
pub open spec fn collapsed_flag(ns: Seq<NodeV>, target: Seq<char>) -> Option<bool> {
    collapsed_flag_upto(ns, ns.len() as int, target)
}

proof fn lemma_upto_len(ns: Seq<NodeV>, k: int, target: Seq<char>, c: bool)
    requires
        0 <= k <= ns.len(),
    ensures
        set_collapse_upto(ns, k, target, c).0.len() == k,
    decreases k,
{
    if k > 0 {
        lemma_upto_len(ns, k - 1, target, c);
    }
}

proof fn lemma_upto_prefix(ns: Seq<NodeV>, ms: Seq<NodeV>, k: int, target: Seq<char>, c: bool)
    requires
        0 <= k <= ns.len(),
        k <= ms.len(),
        forall|i: int| 0 <= i < k ==> ns[i] == ms[i],
    ensures
        set_collapse_upto(ns, k, target, c) == set_collapse_upto(ms, k, target, c),
    decreases k,
{
    if k > 0 {
        lemma_upto_prefix(ns, ms, k - 1, target, c);
    }
}

proof fn lemma_found_ignores_flag(ns: Seq<NodeV>, k: int, target: Seq<char>, c1: bool, c2: bool)
    ensures
        set_collapse_upto(ns, k, target, c1).1 == set_collapse_upto(ns, k, target, c2).1,
        set_collapse_upto(ns, k, target, c1).1 == (collapsed_flag_upto(ns, k, target) is Some),
    decreases ns, k,
{
    if 0 < k <= ns.len() {
        lemma_found_ignores_flag(ns, k - 1, target, c1, c2);
        let n = ns[k - 1];
        if set_collapse_upto(ns, k - 1, target, c1).1 {
        } else if n.comment.id == target {
        } else {
            lemma_found_ignores_flag(n.children, n.children.len() as int, target, c1, c2);
        }
    }
}

proof fn lemma_last_write_wins_upto(ns: Seq<NodeV>, k: int, target: Seq<char>, c1: bool, c2: bool)
    requires
        0 <= k <= ns.len(),
    ensures
        set_collapse_upto(set_collapse_upto(ns, k, target, c1).0, k, target, c2)
            == set_collapse_upto(ns, k, target, c2),
    decreases ns, k,
{
    if k > 0 {
        let (prev_a, found) = set_collapse_upto(ns, k - 1, target, c1);
        let pa = set_collapse_upto(ns, k, target, c1).0;
        lemma_upto_len(ns, k - 1, target, c1);
        lemma_last_write_wins_upto(ns, k - 1, target, c1, c2);
        lemma_found_ignores_flag(ns, k - 1, target, c1, c2);
        assert(pa.len() == k);
        assert forall|i: int| 0 <= i < k - 1 implies pa[i] == prev_a[i] by {}
        lemma_upto_prefix(pa, prev_a, k - 1, target, c2);
        let n = ns[k - 1];
        if found {
        } else if n.comment.id == target {
            assert(CommentV { collapsed: c2, ..CommentV { collapsed: c1, ..n.comment } } == CommentV {
                collapsed: c2,
                ..n.comment
            });
        } else {
            let ch = n.children;
            lemma_upto_len(ch, ch.len() as int, target, c1);
            lemma_last_write_wins_upto(ch, ch.len() as int, target, c1, c2);
        }
    }
}

proof fn lemma_missing_unchanged_upto(ns: Seq<NodeV>, k: int, target: Seq<char>, c: bool)
    requires
        0 <= k <= ns.len(),
        !set_collapse_upto(ns, k, target, c).1,
    ensures
        set_collapse_upto(ns, k, target, c).0 == ns.take(k),
    decreases ns, k,
{
    if k > 0 {
        let n = ns[k - 1];
        assert(!set_collapse_upto(ns, k - 1, target, c).1);
        lemma_missing_unchanged_upto(ns, k - 1, target, c);
        let ch = n.children;
        assert(!set_collapse_upto(ch, ch.len() as int, target, c).1);
        lemma_missing_unchanged_upto(ch, ch.len() as int, target, c);
        assert(ch.take(ch.len() as int) =~= ch);
        assert(ns.take(k) =~= ns.take(k - 1).push(n));
    }
}

proof fn lemma_same_flag_unchanged_upto(ns: Seq<NodeV>, k: int, target: Seq<char>, c: bool)
    requires
        0 <= k <= ns.len(),
        collapsed_flag_upto(ns, k, target) != Some(!c),
    ensures
        set_collapse_upto(ns, k, target, c).0 == ns.take(k),
    decreases ns, k,
{
    if k > 0 {
        let n = ns[k - 1];
        let ch = n.children;
        lemma_found_ignores_flag(ns, k - 1, target, c, c);
        if collapsed_flag_upto(ns, k - 1, target) is Some {
            lemma_same_flag_unchanged_upto(ns, k - 1, target, c);
        } else {
            lemma_same_flag_unchanged_upto(ns, k - 1, target, c);
            if n.comment.id == target {
                assert(CommentV { collapsed: c, ..n.comment } == n.comment);
            } else {
                lemma_same_flag_unchanged_upto(ch, ch.len() as int, target, c);
                assert(ch.take(ch.len() as int) =~= ch);
            }
        }
        assert(ns.take(k) =~= ns.take(k - 1).push(n));
    }
}

/// Setting a comment's collapsed flag twice leaves the tree as the second call alone
/// would: the last write wins.
pub proof fn last_collapse_write_wins(ns: Seq<NodeV>, target: Seq<char>, c1: bool, c2: bool)
    ensures
        set_collapse_spec(set_collapse_spec(ns, target, c1).0, target, c2) == set_collapse_spec(
            ns,
            target,
            c2,
        ),
{
    lemma_upto_len(ns, ns.len() as int, target, c1);
    lemma_last_write_wins_upto(ns, ns.len() as int, target, c1, c2);
}

/// A comment id that is not in the tree changes nothing, and is reported as not
/// found; one that is, is reported as found.
pub proof fn unknown_comment_leaves_tree_unchanged(ns: Seq<NodeV>, target: Seq<char>, c: bool)
    ensures
        set_collapse_spec(ns, target, c).1 == (collapsed_flag(ns, target) is Some),
        collapsed_flag(ns, target) is None ==> set_collapse_spec(ns, target, c).0 == ns,
{
    lemma_found_ignores_flag(ns, ns.len() as int, target, c, c);
    if collapsed_flag(ns, target) is None {
        lemma_missing_unchanged_upto(ns, ns.len() as int, target, c);
        assert(ns.take(ns.len() as int) =~= ns);
    }
}

/// Collapsing a thread that is not collapsed and then expanding it again gives back
/// the tree that was there before.
pub proof fn collapse_then_expand_restores(ns: Seq<NodeV>, target: Seq<char>)
    requires
        collapsed_flag(ns, target) != Some(true),
    ensures
        set_collapse_spec(set_collapse_spec(ns, target, true).0, target, false).0 == ns,
{
    last_collapse_write_wins(ns, target, true, false);
    lemma_same_flag_unchanged_upto(ns, ns.len() as int, target, false);
    assert(ns.take(ns.len() as int) =~= ns);
}

/// The first `k` nodes of `ns` and everything below them are laid out as a built
/// tree is: each comment at depth `d` (its replies one deeper), collapsed exactly
/// when it has replies, with its replies' ids, in order, as its children's ids.
pub open spec fn shaped_upto(ns: Seq<NodeV>, k: int, d: nat) -> bool
    decreases ns, k,
{
    if k <= 0 || k > ns.len() {
        true
    } else {
        let n = ns[k - 1];
        &&& shaped_upto(ns, k - 1, d)
        &&& n.comment.depth == d
        &&& n.comment.collapsed == (n.comment.kids.len() > 0)
        &&& n.children.len() == n.comment.kids.len()
        &&& forall|j: int|
            0 <= j < n.children.len() ==> #[trigger] n.children[j].comment.id == n.comment.kids[j]
        &&& shaped_upto(n.children, n.children.len() as int, d + 1)
    }
}

/// A forest whose roots are at depth `d`, laid out as a built tree is.
pub open spec fn shaped(ns: Seq<NodeV>, d: nat) -> bool {
    shaped_upto(ns, ns.len() as int, d)
}

/// One node at depth `d`, laid out as in a built tree.
pub open spec fn node_shaped(n: NodeV, d: nat) -> bool {
    &&& n.comment.depth == d
    &&& n.comment.collapsed == (n.comment.kids.len() > 0)
    &&& n.children.len() == n.comment.kids.len()
    &&& forall|j: int|
        0 <= j < n.children.len() ==> #[trigger] n.children[j].comment.id == n.comment.kids[j]
    &&& shaped(n.children, d + 1)
}

proof fn lemma_shaped_prefix(ns: Seq<NodeV>, ms: Seq<NodeV>, k: int, d: nat)
    requires
        0 <= k <= ns.len(),
        k <= ms.len(),
        forall|i: int| 0 <= i < k ==> ns[i] == ms[i],
    ensures
        shaped_upto(ns, k, d) == shaped_upto(ms, k, d),
    decreases k,
{
    if k > 0 {
        lemma_shaped_prefix(ns, ms, k - 1, d);
    }
}

proof fn lemma_node_shaped(cs: Seq<CommentRaw>, ts: Seq<Result<i64, Seq<char>>>, i: int, d: nat, chain: Seq<int>)
    requires
        ids_unique(cs),
        chain_ok(cs, chain, i),
        node_spec(cs, ts, i, d, chain) is Ok,
    ensures
        node_shaped(node_spec(cs, ts, i, d, chain)->Ok_0, d),
        node_spec(cs, ts, i, d, chain)->Ok_0.comment.id == cs[i].short_id@,
    decreases cs.len() - chain.len(), 0int,
{
    lemma_chain_grows(cs, chain, i);
    let kids = kids_upto(cs, i, cs.len() as int);
    lemma_kids_are_children(cs, i, cs.len() as int);
    assert forall|k: int| 0 <= k < kids.len() implies chain_ok(cs, chain.push(i), #[trigger] kids[k]) by {
        lemma_chain_extend(cs, chain, i, kids[k]);
    }
    lemma_list_shaped(cs, ts, kids, d + 1, chain.push(i));
    let n = node_spec(cs, ts, i, d, chain)->Ok_0;
    assert forall|j: int| 0 <= j < n.children.len() implies #[trigger] n.children[j].comment.id
        == n.comment.kids[j] by {
        assert(n.comment.kids == ids_at(cs, kids));
    }
}

proof fn lemma_list_shaped(cs: Seq<CommentRaw>, ts: Seq<Result<i64, Seq<char>>>, idx: Seq<int>, d: nat, chain: Seq<int>)
    requires
        ids_unique(cs),
        forall|k: int| 0 <= k < idx.len() ==> chain_ok(cs, chain, #[trigger] idx[k]),
        list_spec(cs, ts, idx, d, chain) is Ok,
    ensures
        list_spec(cs, ts, idx, d, chain)->Ok_0.len() == idx.len(),
        forall|k: int|
            0 <= k < idx.len() ==> #[trigger] list_spec(cs, ts, idx, d, chain)->Ok_0[k].comment.id
                == cs[idx[k]].short_id@,
        shaped(list_spec(cs, ts, idx, d, chain)->Ok_0, d),
    decreases cs.len() - chain.len(), 1int, idx.len(),
{
    if idx.len() > 0 {
        let pre = idx.drop_last();
        assert forall|k: int| 0 <= k < pre.len() implies chain_ok(cs, chain, #[trigger] pre[k]) by {
            assert(pre[k] == idx[k]);
        }
        lemma_list_shaped(cs, ts, pre, d, chain);
        assert(chain_ok(cs, chain, idx[idx.len() - 1]));
        lemma_node_shaped(cs, ts, idx.last(), d, chain);
        let prefix = list_spec(cs, ts, pre, d, chain)->Ok_0;
        let ns = list_spec(cs, ts, idx, d, chain)->Ok_0;
        assert(ns == prefix.push(node_spec(cs, ts, idx.last(), d, chain)->Ok_0));
        lemma_shaped_prefix(ns, prefix, prefix.len() as int, d);
        assert forall|k: int| 0 <= k < idx.len() implies #[trigger] ns[k].comment.id == cs[idx[k]].short_id@ by {
            if k < pre.len() {
                assert(ns[k] == prefix[k]);
                assert(pre[k] == idx[k]);
            }
        }
    }
}

/// In a tree assembled from a flat comment list, whatever the comments' times, every
/// comment sits one level below its parent (the roots at depth 0), starts collapsed
/// exactly when it has replies, and has its replies, in order, as its children.
pub proof fn assembled_tree_is_well_shaped(cs: Seq<CommentRaw>, ts: Seq<Result<i64, Seq<char>>>)
    requires
        forest_spec(cs, ts) is Ok,
    ensures
        shaped(forest_spec(cs, ts)->Ok_0, 0),
{
    let n = cs.len() as int;
    if n > 0 {
        lemma_no_dup_unique(cs, n);
        lemma_roots_are_roots(cs, n);
        let roots = roots_upto(cs, n);
        assert forall|k: int| 0 <= k < roots.len() implies chain_ok(cs, Seq::<int>::empty(), #[trigger] roots[k]) by {}
        lemma_list_shaped(cs, ts, roots, 0, Seq::empty());
    }
}

/// The same of a tree built with the comments' own times.
pub proof fn built_tree_is_well_shaped(cs: Seq<CommentRaw>)
    requires
        tree_spec(cs) is Ok,
    ensures
        shaped(tree_spec(cs)->Ok_0, 0),
{
    assembled_tree_is_well_shaped(cs, crate::comments::created_times(cs));
}

/// Every comment of the first `k` trees of a forest, in depth-first order: each
/// comment, then all of its replies' comments, whatever the collapsed flags say.
pub open spec fn all_upto(ns: Seq<NodeV>, k: int) -> Seq<CommentV>
    decreases ns, k,
{
    if k <= 0 || k > ns.len() {
        Seq::empty()
    } else {
        let n = ns[k - 1];
        all_upto(ns, k - 1).push(n.comment) + all_upto(n.children, n.children.len() as int)
    }
}

/// Every comment of a forest, in depth-first order.
pub open spec fn all_comments(ns: Seq<NodeV>) -> Seq<CommentV> {
    all_upto(ns, ns.len() as int)
}

/// Every comment of the first `k` trees of a forest, in depth-first order, each with
/// whether it lies below a collapsed comment (or the whole forest does, `hidden`).
pub open spec fn marked_upto(ns: Seq<NodeV>, k: int, hidden: bool) -> Seq<(CommentV, bool)>
    decreases ns, k,
{
    if k <= 0 || k > ns.len() {
        Seq::empty()
    } else {
        let n = ns[k - 1];
        marked_upto(ns, k - 1, hidden).push((n.comment, hidden)) + marked_upto(
            n.children,
            n.children.len() as int,
            hidden || n.comment.collapsed,
        )
    }
}

/// The comments of `m` that are not marked hidden, in order.
pub open spec fn unhidden(m: Seq<(CommentV, bool)>) -> Seq<CommentV>
    decreases m.len(),
{
    if m.len() == 0 {
        Seq::empty()
    } else if m.last().1 {
        unhidden(m.drop_last())
    } else {
        unhidden(m.drop_last()).push(m.last().0)
    }
}

proof fn lemma_unhidden_add(x: Seq<(CommentV, bool)>, y: Seq<(CommentV, bool)>)
    ensures
        unhidden(x + y) == unhidden(x) + unhidden(y),
    decreases y.len(),
{
    if y.len() == 0 {
        assert(x + y =~= x);
        assert(unhidden(x) + unhidden(y) =~= unhidden(x));
    } else {
        lemma_unhidden_add(x, y.drop_last());
        assert((x + y).drop_last() =~= x + y.drop_last());
        if !y.last().1 {
            assert(unhidden(x) + unhidden(y) =~= (unhidden(x) + unhidden(y.drop_last())).push(y.last().0));
        }
    }
}

proof fn lemma_unhidden_one(c: CommentV, h: bool)
    ensures
        unhidden(seq![(c, h)]) == if h { Seq::<CommentV>::empty() } else { seq![c] },
{
    let m = seq![(c, h)];
    assert(m.drop_last() =~= Seq::<(CommentV, bool)>::empty());
    assert(m.last() == (c, h));
    assert(unhidden(m.drop_last()) == Seq::<CommentV>::empty());
    assert(Seq::<CommentV>::empty().push(c) =~= seq![c]);
}

proof fn lemma_marked_unhidden(ns: Seq<NodeV>, k: int, hidden: bool)
    requires
        0 <= k <= ns.len(),
    ensures
        unhidden(marked_upto(ns, k, hidden)) == if hidden { Seq::<CommentV>::empty() } else {
            visible_upto(ns, k)
        },
        marked_upto(ns, k, hidden).map_values(|p: (CommentV, bool)| p.0) == all_upto(ns, k),
    decreases ns, k,
{
    if k > 0 {
        let n = ns[k - 1];
        let ch = n.children;
        let prev = marked_upto(ns, k - 1, hidden);
        let sub = marked_upto(ch, ch.len() as int, hidden || n.comment.collapsed);
        lemma_marked_unhidden(ns, k - 1, hidden);
        lemma_marked_unhidden(ch, ch.len() as int, hidden || n.comment.collapsed);
        lemma_marked_unhidden(ch, ch.len() as int, true);
        assert(prev.push((n.comment, hidden)) =~= prev + seq![(n.comment, hidden)]);
        lemma_unhidden_add(prev + seq![(n.comment, hidden)], sub);
        lemma_unhidden_add(prev, seq![(n.comment, hidden)]);
        lemma_unhidden_one(n.comment, hidden);
        if !hidden {
            assert(visible_upto(ns, k - 1) + seq![n.comment] =~= visible_upto(ns, k - 1).push(n.comment));
            assert(unhidden(marked_upto(ns, k, hidden)) =~= visible_upto(ns, k));
        } else {
            assert(unhidden(marked_upto(ns, k, hidden)) =~= Seq::<CommentV>::empty());
        }
        let f = |p: (CommentV, bool)| p.0;
        assert((prev.push((n.comment, hidden)) + sub).map_values(f) =~= prev.map_values(f).push(
            n.comment,
        ) + sub.map_values(f));
    }
}

/// The comments shown for a forest are exactly its comments in depth-first order
/// that do not lie below a collapsed comment: every comment that is not collapsed
/// shows its replies, at any depth, and a collapsed one hides all that lies below it.
pub proof fn visible_comments_are_the_unhidden_ones(ns: Seq<NodeV>)
    ensures
        visible_comments(ns) == unhidden(marked_upto(ns, ns.len() as int, false)),
        marked_upto(ns, ns.len() as int, false).map_values(|p: (CommentV, bool)| p.0) == all_comments(ns),
{
    lemma_marked_unhidden(ns, ns.len() as int, false);
}

/// Where no comment is collapsed, every comment is shown.
pub proof fn expanded_forest_shows_everything(ns: Seq<NodeV>)
    requires
        forall|i: int| 0 <= i < all_comments(ns).len() ==> !(#[trigger] all_comments(ns)[i]).collapsed,
    ensures
        visible_comments(ns) == all_comments(ns),
{
    let all = all_upto(ns, ns.len() as int);
    assert forall|i: int| 0 <= i < all.len() implies !(#[trigger] all[i]).collapsed by {
        assert(all_comments(ns)[i] == all[i]);
    }
    lemma_all_expanded_visible(ns, ns.len() as int);
}

proof fn lemma_all_prefix(ns: Seq<NodeV>, k: int)
    requires
        0 < k <= ns.len(),
    ensures
        all_upto(ns, k) == all_upto(ns, k - 1).push(ns[k - 1].comment) + all_upto(
            ns[k - 1].children,
            ns[k - 1].children.len() as int,
        ),
{
}

proof fn lemma_all_expanded_visible(ns: Seq<NodeV>, k: int)
    requires
        0 <= k <= ns.len(),
        forall|i: int| 0 <= i < all_upto(ns, k).len() ==> !(#[trigger] all_upto(ns, k)[i]).collapsed,
    ensures
        visible_upto(ns, k) == all_upto(ns, k),
    decreases ns, k,
{
    if k > 0 {
        let n = ns[k - 1];
        let ch = n.children;
        let prev = all_upto(ns, k - 1);
        let sub = all_upto(ch, ch.len() as int);
        let whole = all_upto(ns, k);
        assert(whole == prev.push(n.comment) + sub);
        assert forall|i: int| 0 <= i < prev.len() implies !(#[trigger] prev[i]).collapsed by {
            assert(whole[i] == prev[i]);
        }
        assert forall|i: int| 0 <= i < sub.len() implies !(#[trigger] sub[i]).collapsed by {
            assert(whole[prev.len() + 1 + i] == sub[i]);
        }
        assert(whole[prev.len() as int] == n.comment);
        lemma_all_expanded_visible(ns, k - 1);
        lemma_all_expanded_visible(ch, ch.len() as int);
    }
}

/// A comment opened by default expansion to depth `e`: opened where it has replies
/// and lies above depth `e`, else as it was.
pub open spec fn opened(c: CommentV, e: nat) -> CommentV {
    if c.depth < e && c.kids.len() > 0 {
        CommentV { collapsed: false, ..c }
    } else {
        c
    }
}

proof fn lemma_expand_all(ns: Seq<NodeV>, k: int, e: nat)
    requires
        0 <= k <= ns.len(),
    ensures
        expand_upto(ns, k, e).len() == k,
        all_upto(expand_upto(ns, k, e), k) == all_upto(ns, k).map_values(|c: CommentV| opened(c, e)),
    decreases ns, k,
{
    if k > 0 {
        let n = ns[k - 1];
        let ch = n.children;
        lemma_expand_all(ns, k - 1, e);
        lemma_expand_all(ch, ch.len() as int, e);
        let x = expand_upto(ns, k, e);
        let xp = expand_upto(ns, k - 1, e);
        assert(x == xp.push(x[k - 1]));
        lemma_all_prefix_eq(x, xp, k - 1);
        let f = |c: CommentV| opened(c, e);
        assert((all_upto(ns, k - 1).push(n.comment) + all_upto(ch, ch.len() as int)).map_values(f)
            =~= all_upto(ns, k - 1).map_values(f).push(opened(n.comment, e)) + all_upto(
            ch,
            ch.len() as int,
        ).map_values(f));
    }
}

proof fn lemma_all_prefix_eq(x: Seq<NodeV>, y: Seq<NodeV>, k: int)
    requires
        0 <= k <= y.len(),
        k <= x.len(),
        forall|i: int| 0 <= i < k ==> x[i] == y[i],
    ensures
        all_upto(x, k) == all_upto(y, k),
    decreases k,
{
    if k > 0 {
        lemma_all_prefix_eq(x, y, k - 1);
    }
}

/// Opening a forest to depth `e` opens every comment with replies above depth `e`,
/// wherever it stands among its siblings, and leaves every other comment as it was:
/// the comments in depth-first order are the old ones, each opened by that rule.
pub proof fn expansion_opens_every_upper_thread(ns: Seq<NodeV>, e: nat)
    ensures
        expand_spec(ns, e).len() == ns.len(),
        all_comments(expand_spec(ns, e)) == all_comments(ns).map_values(|c: CommentV| opened(c, e)),
{
    lemma_expand_all(ns, ns.len() as int, e);
}

proof fn lemma_set_then_flag(ns: Seq<NodeV>, k: int, target: Seq<char>, c: bool)
    requires
        0 <= k <= ns.len(),
    ensures
        set_collapse_upto(ns, k, target, c).1 ==> collapsed_flag_upto(
            set_collapse_upto(ns, k, target, c).0,
            k,
            target,
        ) == Some(c),
        !set_collapse_upto(ns, k, target, c).1 ==> collapsed_flag_upto(
            set_collapse_upto(ns, k, target, c).0,
            k,
            target,
        ) is None,
    decreases ns, k,
{
    if k > 0 {
        let (prev, found) = set_collapse_upto(ns, k - 1, target, c);
        let r = set_collapse_upto(ns, k, target, c).0;
        lemma_set_then_flag(ns, k - 1, target, c);
        lemma_upto_len(ns, k - 1, target, c);
        lemma_upto_len(ns, k, target, c);
        assert forall|i: int| 0 <= i < k - 1 implies r[i] == prev[i] by {}
        lemma_flag_prefix(r, prev, k - 1, target);
        let n = ns[k - 1];
        if !found && n.comment.id != target {
            lemma_set_then_flag(n.children, n.children.len() as int, target, c);
            lemma_upto_len(n.children, n.children.len() as int, target, c);
        }
    }
}

proof fn lemma_flag_prefix(ns: Seq<NodeV>, ms: Seq<NodeV>, k: int, target: Seq<char>)
    requires
        0 <= k <= ns.len(),
        k <= ms.len(),
        forall|i: int| 0 <= i < k ==> ns[i] == ms[i],
    ensures
        collapsed_flag_upto(ns, k, target) == collapsed_flag_upto(ms, k, target),
    decreases k,
{
    if k > 0 {
        lemma_flag_prefix(ns, ms, k - 1, target);
    }
}

/// Setting a comment's collapsed flag, where the tree has that comment, leaves it
/// with that flag.
pub proof fn set_collapse_sets_the_flag(ns: Seq<NodeV>, target: Seq<char>, c: bool)
    ensures
        set_collapse_spec(ns, target, c).1 ==> collapsed_flag(set_collapse_spec(ns, target, c).0, target)
            == Some(c),
{
    lemma_set_then_flag(ns, ns.len() as int, target, c);
    lemma_upto_len(ns, ns.len() as int, target, c);
}

proof fn lemma_visible_has_flag(ns: Seq<NodeV>, k: int, i: int)
    requires
        0 <= k <= ns.len(),
        0 <= i < visible_upto(ns, k).len(),
    ensures
        collapsed_flag_upto(ns, k, visible_upto(ns, k)[i].id) is Some,
    decreases ns, k,
{
    if k > 0 {
        let n = ns[k - 1];
        let prev = visible_upto(ns, k - 1);
        let id = visible_upto(ns, k)[i].id;
        if i < prev.len() {
            assert(visible_upto(ns, k)[i] == prev[i]);
            lemma_visible_has_flag(ns, k - 1, i);
        } else if i > prev.len() {
            let ch = n.children;
            assert(visible_upto(ns, k)[i] == visible_upto(ch, ch.len() as int)[i - prev.len() - 1]);
            lemma_visible_has_flag(ch, ch.len() as int, i - prev.len() - 1);
        }
    }
}

/// Every comment shown for a forest is in it: the tree has a comment with its id.
pub proof fn shown_comments_are_in_the_tree(ns: Seq<NodeV>, i: int)
    requires
        0 <= i < visible_comments(ns).len(),
    ensures
        collapsed_flag(ns, visible_comments(ns)[i].id) is Some,
{
    lemma_visible_has_flag(ns, ns.len() as int, i);
}

/// Setting a comment's flag away from its value and back gives back the tree.
pub proof fn flag_there_and_back_restores(ns: Seq<NodeV>, target: Seq<char>, f: bool)
    requires
        collapsed_flag(ns, target) == Some(f),
    ensures
        set_collapse_spec(set_collapse_spec(ns, target, !f).0, target, f).0 == ns,
{
    last_collapse_write_wins(ns, target, !f, f);
    lemma_same_flag_unchanged_upto(ns, ns.len() as int, target, f);
    assert(ns.take(ns.len() as int) =~= ns);
}

/// The first `k` trees of a forest with every collapsed flag cleared: what is left
/// when the flags are set aside.
pub open spec fn unflagged_upto(ns: Seq<NodeV>, k: int) -> Seq<NodeV>
    decreases ns, k,
{
    if k <= 0 || k > ns.len() {
        Seq::empty()
    } else {
        let n = ns[k - 1];
        unflagged_upto(ns, k - 1).push(
            NodeV {
                comment: CommentV { collapsed: false, ..n.comment },
                children: unflagged_upto(n.children, n.children.len() as int),
            },
        )
    }
}

/// A forest with its collapsed flags set aside.
pub open spec fn shape(ns: Seq<NodeV>) -> Seq<NodeV> {
    unflagged_upto(ns, ns.len() as int)
}

proof fn lemma_unflagged_prefix(x: Seq<NodeV>, y: Seq<NodeV>, k: int)
    requires
        0 <= k <= y.len(),
        k <= x.len(),
        forall|i: int| 0 <= i < k ==> x[i] == y[i],
    ensures
        unflagged_upto(x, k) == unflagged_upto(y, k),
    decreases k,
{
    if k > 0 {
        lemma_unflagged_prefix(x, y, k - 1);
    }
}

proof fn lemma_expand_shape(ns: Seq<NodeV>, k: int, e: nat)
    requires
        0 <= k <= ns.len(),
    ensures
        unflagged_upto(expand_upto(ns, k, e), k) == unflagged_upto(ns, k),
    decreases ns, k,
{
    if k > 0 {
        let n = ns[k - 1];
        let ch = n.children;
        lemma_expand_shape(ns, k - 1, e);
        lemma_expand_shape(ch, ch.len() as int, e);
        lemma_expand_all(ns, k - 1, e);
        lemma_expand_all(ch, ch.len() as int, e);
        let x = expand_upto(ns, k, e);
        let xp = expand_upto(ns, k - 1, e);
        assert(x == xp.push(x[k - 1]));
        lemma_unflagged_prefix(x, xp, k - 1);
        assert(CommentV { collapsed: false, ..x[k - 1].comment } == CommentV {
            collapsed: false,
            ..n.comment
        });
    }
}

/// Opening a forest to a depth changes no comment but its collapsed flag, and moves
/// nothing: set aside the flags, the forest is the same.
pub proof fn expansion_keeps_the_shape(ns: Seq<NodeV>, e: nat)
    ensures
        shape(expand_spec(ns, e)) == shape(ns),
{
    lemma_expand_all(ns, ns.len() as int, e);
    lemma_expand_shape(ns, ns.len() as int, e);
}

proof fn lemma_set_shape(ns: Seq<NodeV>, k: int, target: Seq<char>, c: bool)
    requires
        0 <= k <= ns.len(),
    ensures
        unflagged_upto(set_collapse_upto(ns, k, target, c).0, k) == unflagged_upto(ns, k),
    decreases ns, k,
{
    if k > 0 {
        let n = ns[k - 1];
        let ch = n.children;
        let (prev, found) = set_collapse_upto(ns, k - 1, target, c);
        let x = set_collapse_upto(ns, k, target, c).0;
        lemma_set_shape(ns, k - 1, target, c);
        lemma_upto_len(ns, k - 1, target, c);
        assert(x == prev.push(x[k - 1]));
        lemma_unflagged_prefix(x, prev, k - 1);
        if !found && n.comment.id != target {
            lemma_set_shape(ch, ch.len() as int, target, c);
            lemma_upto_len(ch, ch.len() as int, target, c);
        }
        assert(CommentV { collapsed: false, ..x[k - 1].comment } == CommentV {
            collapsed: false,
            ..n.comment
        });
    }
}

/// Two lists of comments alike but for the collapsed flags of comments with id `t`.
pub open spec fn alike_but(x: Seq<CommentV>, y: Seq<CommentV>, t: Seq<char>) -> bool {
    &&& x.len() == y.len()
    &&& forall|i: int| 0 <= i < x.len() ==> (#[trigger] x[i]).id != t ==> x[i] == y[i]
    &&& forall|i: int| 0 <= i < x.len() ==> #[trigger] x[i] == (CommentV { collapsed: x[i].collapsed, ..y[i] })
}

proof fn lemma_alike_join(
    p1: Seq<CommentV>,
    p2: Seq<CommentV>,
    c1: CommentV,
    c2: CommentV,
    s1: Seq<CommentV>,
    s2: Seq<CommentV>,
    t: Seq<char>,
)
    requires
        alike_but(p1, p2, t),
        alike_but(s1, s2, t),
        c1.id != t ==> c1 == c2,
        c1 == (CommentV { collapsed: c1.collapsed, ..c2 }),
    ensures
        alike_but(p1.push(c1) + s1, p2.push(c2) + s2, t),
{
    let x = p1.push(c1) + s1;
    let y = p2.push(c2) + s2;
    assert forall|i: int| 0 <= i < x.len() implies ((#[trigger] x[i]).id != t ==> x[i] == y[i]) && x[i]
        == CommentV { collapsed: x[i].collapsed, ..y[i] } by {
        if i < p1.len() {
            assert(x[i] == p1[i] && y[i] == p2[i]);
        } else if i == p1.len() {
        } else {
            assert(x[i] == s1[i - p1.len() - 1] && y[i] == s2[i - p1.len() - 1]);
        }
    }
}

proof fn lemma_set_alike(ns: Seq<NodeV>, k: int, target: Seq<char>, c: bool)
    requires
        0 <= k <= ns.len(),
    ensures
        alike_but(all_upto(set_collapse_upto(ns, k, target, c).0, k), all_upto(ns, k), target),
    decreases ns, k,
{
    if k > 0 {
        let n = ns[k - 1];
        let ch = n.children;
        let (prev, found) = set_collapse_upto(ns, k - 1, target, c);
        let x = set_collapse_upto(ns, k, target, c).0;
        lemma_set_alike(ns, k - 1, target, c);
        lemma_upto_len(ns, k - 1, target, c);
        assert(x == prev.push(x[k - 1]));
        lemma_all_prefix_eq(x, prev, k - 1);
        if !found && n.comment.id != target {
            lemma_set_alike(ch, ch.len() as int, target, c);
            lemma_upto_len(ch, ch.len() as int, target, c);
        } else {
            assert(x[k - 1].children == ch);
            assert(alike_but(all_upto(ch, ch.len() as int), all_upto(ch, ch.len() as int), target));
        }
        lemma_alike_join(
            all_upto(prev, k - 1),
            all_upto(ns, k - 1),
            x[k - 1].comment,
            n.comment,
            all_upto(x[k - 1].children, x[k - 1].children.len() as int),
            all_upto(ch, ch.len() as int),
            target,
        );
    }
}

/// Setting a comment's collapsed flag moves nothing and changes no other field; a
/// comment with another id keeps even its flag.
pub proof fn set_collapse_touches_only_that_flag(ns: Seq<NodeV>, target: Seq<char>, c: bool)
    ensures
        shape(set_collapse_spec(ns, target, c).0) == shape(ns),
        alike_but(all_comments(set_collapse_spec(ns, target, c).0), all_comments(ns), target),
{
    lemma_set_shape(ns, ns.len() as int, target, c);
    lemma_set_alike(ns, ns.len() as int, target, c);
    lemma_upto_len(ns, ns.len() as int, target, c);
}

} // verus!
