use vstd::prelude::*;
use crate::nav::{
    ListSelection, ensure_comment_visible_spec, ensure_visible_spec, item_height, line_start,
    move_down_spec, move_up_spec, page_down_spec, page_up_spec, sel_or_zero,
};

verus! {

/// The viewport height in items that a page size stands for (at least one).
pub open spec fn page_of(page_size: usize) -> nat {
    if page_size == 0 { 1 } else { page_size as nat }
}

/// The selection is on an item of a list of `len` items, in a viewport of
/// `page_size` items that starts at the offset.
pub open spec fn on_screen(s: ListSelection, len: usize, page_size: usize) -> bool {
    &&& s.selected is Some
    &&& sel_or_zero(s) < len
    &&& s.offset <= sel_or_zero(s) < s.offset + page_of(page_size)
}

/// Scrolling to a selection that is on the list puts it on screen, and keeps it.
pub proof fn ensure_visible_shows_selection(s: ListSelection, len: usize, page_size: usize)
    requires
        s.selected is Some,
        sel_or_zero(s) < len,
    ensures
        ensure_visible_spec(s, len, page_size).selected == s.selected,
        on_screen(ensure_visible_spec(s, len, page_size), len, page_size),
{
}

/// On a list that is not empty, moving down, then scrolling, leaves the selection
/// on an item and on screen; so does paging down.
pub proof fn moving_down_stays_on_screen(s: ListSelection, len: usize, page_size: usize)
    requires
        len > 0,
    ensures
        on_screen(ensure_visible_spec(move_down_spec(s, len), len, page_size), len, page_size),
        on_screen(page_down_spec(s, len, page_size), len, page_size),
{
}

/// Moving up, then scrolling, leaves a selection that was on the list on an item
/// and on screen; paging up never leaves the offset below the selection.
pub proof fn moving_up_stays_on_screen(s: ListSelection, len: usize, page_size: usize)
    requires
        sel_or_zero(s) < len,
    ensures
        on_screen(ensure_visible_spec(move_up_spec(s), len, page_size), len, page_size),
        page_up_spec(s, page_size).offset <= sel_or_zero(page_up_spec(s, page_size)),
        sel_or_zero(page_up_spec(s, page_size)) <= sel_or_zero(s),
{
}

/// Moving up undoes moving down from any item but the last.
pub proof fn move_up_undoes_move_down(s: ListSelection, len: usize)
    requires
        s.selected is Some,
        sel_or_zero(s) + 1 < len,
    ensures
        move_up_spec(move_down_spec(s, len)) == s,
{
}

/// The item that a selection stands for on a list of `len` items: the selected one,
/// or the last where the selection is past the end.
pub open spec fn clamped(s: ListSelection, len: usize) -> int {
    if sel_or_zero(s) < len { sel_or_zero(s) as int } else { len - 1 }
}

/// Keeping the selected comment on screen clamps the selection to the list and
/// scrolls so that the comment's first line is on screen, and all its lines where
/// they fit; its lines are counted without overflow.
pub proof fn selected_comment_is_on_screen(
    s: ListSelection,
    line_offset: usize,
    len: usize,
    heights: Seq<usize>,
    viewport: usize,
)
    requires
        len > 0,
        viewport > 0,
        line_start(heights, clamped(s, len)) + item_height(heights, clamped(s, len)) <= usize::MAX,
    ensures
        ({
            let (t, off) = ensure_comment_visible_spec(s, line_offset, len, heights, viewport);
            let i = sel_or_zero(t) as int;
            &&& t.selected is Some
            &&& i == clamped(s, len)
            &&& off <= line_start(heights, i) < off + viewport
            &&& item_height(heights, i) <= viewport ==> line_start(heights, i) + item_height(
                heights,
                i,
            ) <= off + viewport
        }),
{
}

} // verus!
