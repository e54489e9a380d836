use vstd::prelude::*;
use crate::text::{is_blank, is_blank_seq, remove_char, without_char};
use crate::story::rfc3339_parse;

verus! {

/// A comment after it has been placed in the thread tree.
pub struct Comment {
    pub id: String,
    pub by: Option<String>,
    pub time: Option<i64>,
    pub text: String,
    pub kids: Vec<String>,
    pub depth: usize,
    pub collapsed: bool,
    pub children_loading: bool,
    pub deleted: bool,
    pub moderated: bool,
}

/// A comment with its replies.
pub struct CommentNode {
    pub comment: Comment,
    pub children: Vec<CommentNode>,
}

pub ghost struct CommentV {
    pub id: Seq<char>,
    pub by: Option<Seq<char>>,
    pub time: Option<i64>,
    pub text: Seq<char>,
    pub kids: Seq<Seq<char>>,
    pub depth: nat,
    pub collapsed: bool,
    pub children_loading: bool,
    pub deleted: bool,
    pub moderated: bool,
}

pub ghost struct NodeV {
    pub comment: CommentV,
    pub children: Seq<NodeV>,
}

pub open spec fn opt_str_view(o: Option<String>) -> Option<Seq<char>> {
    match o {
        Some(s) => Some(s@),
        None => None,
    }
}

pub open spec fn strings_view(v: Seq<String>) -> Seq<Seq<char>> {
    v.map_values(|s: String| s@)
}

impl View for Comment {
    type V = CommentV;

    open spec fn view(&self) -> CommentV {
        CommentV {
            id: self.id@,
            by: opt_str_view(self.by),
            time: self.time,
            text: self.text@,
            kids: strings_view(self.kids@),
            depth: self.depth as nat,
            collapsed: self.collapsed,
            children_loading: self.children_loading,
            deleted: self.deleted,
            moderated: self.moderated,
        }
    }
}

pub open spec fn node_view(n: CommentNode) -> NodeV
    decreases n, 0nat,
{
    NodeV { comment: n.comment@, children: nodes_view(n.children@) }
}

pub open spec fn nodes_view(v: Seq<CommentNode>) -> Seq<NodeV>
    decreases v, v.len(),
{
    if v.len() == 0 {
        Seq::empty()
    } else {
        nodes_view(v.drop_last()).push(node_view(v.last()))
    }
}


/// A comment as the API sends it, flat, with a link to its parent.
pub struct CommentRaw {
    pub short_id: String,
    pub created_at: String,
    pub is_deleted: bool,
    pub is_moderated: bool,
    pub parent_comment: Option<String>,
    pub comment_plain: String,
    pub depth: usize,
    pub commenting_user: Option<String>,
}

/// Why a flat comment list does not make a thread tree.
pub enum TreeError {
    DuplicateId { id: String },
    ParentMissing { id: String, parent_id: String },
    NoRoots,
    DepthMismatch { id: String, api: usize, expected: usize },
    BadTimestamp { created_at: String, reason: String },
}

pub ghost enum TreeErrorV {
    DuplicateId { id: Seq<char> },
    ParentMissing { id: Seq<char>, parent_id: Seq<char> },
    NoRoots,
    DepthMismatch { id: Seq<char>, api: nat, expected: nat },
    BadTimestamp { created_at: Seq<char>, reason: Seq<char> },
}

impl View for TreeError {
    type V = TreeErrorV;

    open spec fn view(&self) -> TreeErrorV {
        match self {
            TreeError::DuplicateId { id } => TreeErrorV::DuplicateId { id: id@ },
            TreeError::ParentMissing { id, parent_id } => TreeErrorV::ParentMissing {
                id: id@,
                parent_id: parent_id@,
            },
            TreeError::NoRoots => TreeErrorV::NoRoots,
            TreeError::DepthMismatch { id, api, expected } => TreeErrorV::DepthMismatch {
                id: id@,
                api: *api as nat,
                expected: *expected as nat,
            },
            TreeError::BadTimestamp { created_at, reason } => TreeErrorV::BadTimestamp {
                created_at: created_at@,
                reason: reason@,
            },
        }
    }
}

pub open spec fn idx_view(v: Seq<usize>) -> Seq<int> {
    v.map_values(|x: usize| x as int)
}

pub open spec fn same_id(cs: Seq<CommentRaw>, i: int, j: int) -> bool {
    cs[i].short_id@ == cs[j].short_id@
}

/// No two comments share an id.
pub open spec fn ids_unique(cs: Seq<CommentRaw>) -> bool {
    forall|i: int, j: int|
        0 <= i < cs.len() && 0 <= j < cs.len() && i != j ==> !same_id(cs, i, j)
}

/// Among the first `n` comments, the first whose id some earlier comment already has.
pub open spec fn first_dup_upto(cs: Seq<CommentRaw>, n: int) -> Option<int>
    decreases n,
{
    if n <= 0 {
        None
    } else {
        match first_dup_upto(cs, n - 1) {
            Some(j) => Some(j),
            None => if exists|i: int| 0 <= i < n - 1 && #[trigger] same_id(cs, i, n - 1) {
                Some(n - 1)
            } else {
                None
            },
        }
    }
}

pub open spec fn has_id(cs: Seq<CommentRaw>, id: Seq<char>) -> bool {
    exists|k: int| 0 <= k < cs.len() && cs[k].short_id@ == id
}

/// Comment `j` names a parent that is not in the list.
pub open spec fn parent_missing(cs: Seq<CommentRaw>, j: int) -> bool {
    match cs[j].parent_comment {
        Some(p) => !has_id(cs, p@),
        None => false,
    }
}

/// Among the first `n` comments, the first whose parent is not in the list.
pub open spec fn first_missing_upto(cs: Seq<CommentRaw>, n: int) -> Option<int>
    decreases n,
{
    if n <= 0 {
        None
    } else {
        match first_missing_upto(cs, n - 1) {
            Some(j) => Some(j),
            None => if parent_missing(cs, n - 1) {
                Some(n - 1)
            } else {
                None
            },
        }
    }
}

/// Comment `j` is a reply to comment `i`.
pub open spec fn is_child_of(cs: Seq<CommentRaw>, j: int, i: int) -> bool {
    match cs[j].parent_comment {
        Some(p) => p@ == cs[i].short_id@,
        None => false,
    }
}

pub open spec fn is_root(cs: Seq<CommentRaw>, j: int) -> bool {
    cs[j].parent_comment is None
}

/// The replies to comment `i` among the first `n` comments, in list order.
pub open spec fn kids_upto(cs: Seq<CommentRaw>, i: int, n: int) -> Seq<int>
    decreases n,
{
    if n <= 0 {
        Seq::empty()
    } else if is_child_of(cs, n - 1, i) {
        kids_upto(cs, i, n - 1).push(n - 1)
    } else {
        kids_upto(cs, i, n - 1)
    }
}

/// The comments without a parent among the first `n`, in list order.
pub open spec fn roots_upto(cs: Seq<CommentRaw>, n: int) -> Seq<int>
    decreases n,
{
    if n <= 0 {
        Seq::empty()
    } else if is_root(cs, n - 1) {
        roots_upto(cs, n - 1).push(n - 1)
    } else {
        roots_upto(cs, n - 1)
    }
}

/// The text shown for a comment: its plain text without carriage returns, or a
/// placeholder where that is blank.
pub open spec fn display_text(c: CommentRaw) -> Seq<char> {
    let t = without_char(c.comment_plain@, '\r');
    if is_blank_seq(t) {
        if c.is_deleted {
            "[deleted]"@
        } else if c.is_moderated {
            "[moderated]"@
        } else {
            "[no text]"@
        }
    } else {
        t
    }
}

/// The author shown for a comment: none where the name is missing or blank.
pub open spec fn display_author(c: CommentRaw) -> Option<Seq<char>> {
    match c.commenting_user {
        Some(u) => if is_blank_seq(u@) {
            None
        } else {
            Some(u@)
        },
        None => None,
    }
}

pub open spec fn ids_at(cs: Seq<CommentRaw>, idx: Seq<int>) -> Seq<Seq<char>> {
    idx.map_values(|k: int| cs[k].short_id@)
}

/// The comment that raw comment `i` becomes at depth `d`, created at time `t`.
/// A comment with replies starts collapsed.
pub open spec fn comment_spec(cs: Seq<CommentRaw>, i: int, d: nat, t: i64) -> CommentV {
    let kids = kids_upto(cs, i, cs.len() as int);
    CommentV {
        id: cs[i].short_id@,
        by: display_author(cs[i]),
        time: Some(t),
        text: display_text(cs[i]),
        kids: ids_at(cs, kids),
        depth: d,
        collapsed: kids.len() > 0,
        children_loading: false,
        deleted: cs[i].is_deleted,
        moderated: cs[i].is_moderated,
    }
}

/// The times the comments were created, as `chrono` reads their `created_at`, or
/// chrono's reason where it cannot.
pub open spec fn created_times(cs: Seq<CommentRaw>) -> Seq<Result<i64, Seq<char>>> {
    Seq::new(cs.len(), |i: int| rfc3339_parse(cs[i].created_at@))
}

/// A comment's time, or why there is none, with the reason as text.
pub open spec fn time_view(r: Result<i64, String>) -> Result<i64, Seq<char>> {
    match r {
        Ok(t) => Ok(t),
        Err(e) => Err(e@),
    }
}

/// The times of a list of comments, as texts.
pub open spec fn times_view(v: Seq<Result<i64, String>>) -> Seq<Result<i64, Seq<char>>> {
    v.map_values(|r: Result<i64, String>| time_view(r))
}

/// The subtree of comment `i`, expected at depth `d` below the comments in `chain`,
/// with the comments created at the times `ts` (an error, with its reason, where
/// `created_at` is not RFC 3339), or the first error met in a depth-first walk of it.
pub open spec fn node_spec(cs: Seq<CommentRaw>, ts: Seq<Result<i64, Seq<char>>>, i: int, d: nat, chain: Seq<int>) -> Result<
    NodeV,
    TreeErrorV,
>
    decreases cs.len() - chain.len(), 0int, 0int,
{
    if cs[i].depth != d {
        Err(TreeErrorV::DepthMismatch { id: cs[i].short_id@, api: cs[i].depth as nat, expected: d })
    } else {
        match ts[i] {
            Err(reason) => Err(TreeErrorV::BadTimestamp { created_at: cs[i].created_at@, reason }),
            Ok(t) => {
                if chain.len() >= cs.len() {
                    Ok(NodeV { comment: comment_spec(cs, i, d, t), children: Seq::empty() })
                } else {
                    match list_spec(
                        cs,
                        ts,
                        kids_upto(cs, i, cs.len() as int),
                        d + 1,
                        chain.push(i),
                    ) {
                        Ok(children) => Ok(NodeV { comment: comment_spec(cs, i, d, t), children }),
                        Err(e) => Err(e),
                    }
                }
            },
        }
    }
}

/// The subtrees of the comments `idx`, in order, or the first error among them.
pub open spec fn list_spec(cs: Seq<CommentRaw>, ts: Seq<Result<i64, Seq<char>>>, idx: Seq<int>, d: nat, chain: Seq<int>) -> Result<
    Seq<NodeV>,
    TreeErrorV,
>
    decreases cs.len() - chain.len(), 1int, idx.len(),
{
    if idx.len() == 0 {
        Ok(Seq::empty())
    } else {
        match list_spec(cs, ts, idx.drop_last(), d, chain) {
            Err(e) => Err(e),
            Ok(prefix) => match node_spec(cs, ts, idx.last(), d, chain) {
                Err(e) => Err(e),
                Ok(n) => Ok(prefix.push(n)),
            },
        }
    }
}

/// The thread forest of a flat comment list whose comments were created at the
/// times `ts`, or why there is none.
pub open spec fn forest_spec(cs: Seq<CommentRaw>, ts: Seq<Result<i64, Seq<char>>>) -> Result<Seq<NodeV>, TreeErrorV> {
    let n = cs.len() as int;
    if n == 0 {
        Ok(Seq::empty())
    } else {
        match first_dup_upto(cs, n) {
            Some(j) => Err(TreeErrorV::DuplicateId { id: cs[j].short_id@ }),
            None => match first_missing_upto(cs, n) {
                Some(j) => Err(
                    TreeErrorV::ParentMissing {
                        id: cs[j].short_id@,
                        parent_id: cs[j].parent_comment->0@,
                    },
                ),
                None => if roots_upto(cs, n).len() == 0 {
                    Err(TreeErrorV::NoRoots)
                } else {
                    list_spec(cs, ts, roots_upto(cs, n), 0, Seq::empty())
                },
            },
        }
    }
}

/// The thread forest of a flat comment list, or why there is none.
pub open spec fn tree_spec(cs: Seq<CommentRaw>) -> Result<Seq<NodeV>, TreeErrorV> {
    forest_spec(cs, created_times(cs))
}

} // verus!
