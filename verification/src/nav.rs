use vstd::prelude::*;

verus! {

/// Which item of a list is selected and which item is at the top of its viewport.
#[derive(Clone, Copy, PartialEq, Eq, Structural, Debug)]
pub struct ListSelection {
    pub selected: Option<usize>,
    pub offset: usize,
}

/// The selected index, or 0 where nothing is selected.
pub open spec fn sel_or_zero(s: ListSelection) -> nat {
    match s.selected {
        Some(i) => i as nat,
        None => 0,
    }
}

pub open spec fn move_down_spec(s: ListSelection, len: usize) -> ListSelection {
    if len == 0 {
        s
    } else if sel_or_zero(s) + 1 < len {
        ListSelection { selected: Some((sel_or_zero(s) + 1) as usize), ..s }
    } else {
        ListSelection { selected: Some((len - 1) as usize), ..s }
    }
}

pub open spec fn move_up_spec(s: ListSelection) -> ListSelection {
    ListSelection {
        selected: Some(if sel_or_zero(s) > 0 { (sel_or_zero(s) - 1) as usize } else { 0 }),
        ..s
    }
}

/// The selection with its offset moved just enough for the selected item to lie in
/// a viewport of `page_size` items (at least one).
pub open spec fn ensure_visible_spec(s: ListSelection, len: usize, page_size: usize) -> ListSelection {
    let page: nat = if page_size == 0 { 1 } else { page_size as nat };
    if len == 0 {
        ListSelection { offset: 0, ..s }
    } else {
        let sel: nat = if sel_or_zero(s) < len { sel_or_zero(s) } else { (len - 1) as nat };
        if sel < s.offset {
            ListSelection { offset: sel as usize, ..s }
        } else if sel >= s.offset + page {
            ListSelection { offset: (sel + 1 - page) as usize, ..s }
        } else {
            s
        }
    }
}

pub open spec fn page_down_spec(s: ListSelection, len: usize, page_size: usize) -> ListSelection {
    let page: nat = if page_size == 0 { 1 } else { page_size as nat };
    if len == 0 {
        s
    } else {
        let target: nat = if sel_or_zero(s) + page < len { sel_or_zero(s) + page } else { (len - 1) as nat };
        ensure_visible_spec(ListSelection { selected: Some(target as usize), ..s }, len, page_size)
    }
}

pub open spec fn page_up_spec(s: ListSelection, page_size: usize) -> ListSelection {
    let page: nat = if page_size == 0 { 1 } else { page_size as nat };
    let target: nat = if sel_or_zero(s) >= page { (sel_or_zero(s) - page) as nat } else { 0 };
    ListSelection {
        selected: Some(target as usize),
        offset: if target < s.offset { target as usize } else { s.offset },
    }
}

/// Selects the next item; stays on the last one.
pub fn move_selection_down(s: &mut ListSelection, len: usize)
    ensures
        *final(s) == move_down_spec(*old(s), len),
{
    if len == 0 {
        return;
    }
    let cur = match s.selected {
        Some(i) => i,
        None => 0,
    };
    if cur < len - 1 {
        s.selected = Some(cur + 1);
    } else {
        s.selected = Some(len - 1);
    }
}

/// Selects the previous item; stays on the first one.
pub fn move_selection_up(s: &mut ListSelection)
    ensures
        *final(s) == move_up_spec(*old(s)),
{
    let cur = match s.selected {
        Some(i) => i,
        None => 0,
    };
    s.selected = Some(if cur > 0 { cur - 1 } else { 0 });
}

/// Moves the offset just enough for the selected item to be on screen.
pub fn ensure_visible(s: &mut ListSelection, len: usize, page_size: usize)
    ensures
        *final(s) == ensure_visible_spec(*old(s), len, page_size),
{
    let page = if page_size == 0 { 1 } else { page_size };
    if len == 0 {
        s.offset = 0;
        return;
    }
    let cur = match s.selected {
        Some(i) => i,
        None => 0,
    };
    let sel = if cur < len { cur } else { len - 1 };
    if sel < s.offset {
        s.offset = sel;
    } else if sel - s.offset >= page {
        s.offset = sel + 1 - page;
    }
}

/// Moves the selection one page down and keeps it on screen.
pub fn page_down(s: &mut ListSelection, len: usize, page_size: usize)
    ensures
        *final(s) == page_down_spec(*old(s), len, page_size),
{
    let page = if page_size == 0 { 1 } else { page_size };
    if len == 0 {
        return;
    }
    let cur = match s.selected {
        Some(i) => i,
        None => 0,
    };
    let target = if cur < len && len - cur > page { cur + page } else { len - 1 };
    s.selected = Some(target);
    ensure_visible(s, len, page_size);
}

/// Moves the selection one page up and keeps it on screen.
pub fn page_up(s: &mut ListSelection, page_size: usize)
    ensures
        *final(s) == page_up_spec(*old(s), page_size),
{
    let page = if page_size == 0 { 1 } else { page_size };
    let cur = match s.selected {
        Some(i) => i,
        None => 0,
    };
    let target = if cur >= page { cur - page } else { 0 };
    s.selected = Some(target);
    if target < s.offset {
        s.offset = target;
    }
}

/// `a + b`, or `usize::MAX` where that overflows.
pub open spec fn sat_add(a: nat, b: nat) -> nat {
    if a + b > usize::MAX {
        usize::MAX as nat
    } else {
        a + b
    }
}

/// The number of screen lines of item `i`: its measured height (at least one), or
/// one where it has not been measured.
pub open spec fn item_height(heights: Seq<usize>, i: int) -> nat {
    if 0 <= i < heights.len() && heights[i] > 0 {
        heights[i] as nat
    } else {
        1
    }
}

/// The first screen line of item `i`.
pub open spec fn line_start(heights: Seq<usize>, i: int) -> nat
    decreases i,
{
    if i <= 0 {
        0
    } else {
        sat_add(line_start(heights, i - 1), item_height(heights, i - 1))
    }
}

/// The line offset that keeps the selected item `sel` on a screen of `viewport` lines.
pub open spec fn line_offset_spec(heights: Seq<usize>, sel: int, offset: usize, viewport: usize) -> usize {
    let start = line_start(heights, sel);
    let end = sat_add(start, item_height(heights, sel));
    if start < offset {
        start as usize
    } else if end > offset + viewport {
        if item_height(heights, sel) >= viewport {
            start as usize
        } else {
            (end - viewport) as usize
        }
    } else {
        offset
    }
}

pub open spec fn ensure_comment_visible_spec(
    s: ListSelection,
    line_offset: usize,
    len: usize,
    heights: Seq<usize>,
    viewport: usize,
) -> (ListSelection, usize) {
    if len == 0 {
        (ListSelection { selected: Some(0), offset: 0 }, 0)
    } else {
        let sel: nat = if sel_or_zero(s) < len { sel_or_zero(s) } else { (len - 1) as nat };
        (
            ListSelection { selected: Some(sel as usize), ..s },
            line_offset_spec(heights, sel as int, line_offset, viewport),
        )
    }
}

/// The first screen line of item `i`, counted with saturation.
pub fn first_line_of(heights: &Vec<usize>, i: usize) -> (r: usize)
    ensures
        r == line_start(heights@, i as int),
{
    let mut acc: usize = 0;
    let mut k: usize = 0;
    while k < i
        invariant
            k <= i,
            acc == line_start(heights@, k as int),
        decreases i - k,
    {
        let h: usize = if k < heights.len() && heights[k] > 0 { heights[k] } else { 1 };
        acc = if acc > usize::MAX - h { usize::MAX } else { acc + h };
        k = k + 1;
    }
    acc
}

/// Clamps the selection to the list and moves the line offset just enough for the
/// selected comment's lines to be on screen (its first line where it is taller).
pub fn ensure_comment_visible(
    s: &mut ListSelection,
    line_offset: &mut usize,
    len: usize,
    heights: &Vec<usize>,
    viewport: usize,
)
    ensures
        (*final(s), *final(line_offset)) == ensure_comment_visible_spec(
            *old(s),
            *old(line_offset),
            len,
            heights@,
            viewport,
        ),
{
    if len == 0 {
        s.selected = Some(0);
        s.offset = 0;
        *line_offset = 0;
        return;
    }
    let cur = match s.selected {
        Some(i) => i,
        None => 0,
    };
    let sel = if cur < len { cur } else { len - 1 };
    s.selected = Some(sel);
    let start = first_line_of(heights, sel);
    let h: usize = if sel < heights.len() && heights[sel] > 0 { heights[sel] } else { 1 };
    let end = if start > usize::MAX - h { usize::MAX } else { start + h };
    if start < *line_offset {
        *line_offset = start;
    } else if end - *line_offset > viewport {
        if h >= viewport {
            *line_offset = start;
        } else {
            *line_offset = end - viewport;
        }
    }
}

/// Keeps the selected comment's lines on screen, over the measured comments.
pub fn ensure_comment_line_offset(
    s: &mut ListSelection,
    line_offset: &mut usize,
    heights: &Vec<usize>,
    viewport: usize,
)
    ensures
        (*final(s), *final(line_offset)) == ensure_comment_visible_spec(
            *old(s),
            *old(line_offset),
            heights@.len() as usize,
            heights@,
            viewport,
        ),
{
    ensure_comment_visible(s, line_offset, heights.len(), heights, viewport);
}

/// Moves the comment selection one page down and keeps it on screen.
pub fn page_down_comment_list(
    s: &mut ListSelection,
    len: usize,
    page_size: usize,
    line_offset: &mut usize,
    heights: &Vec<usize>,
    viewport: usize,
)
    ensures
        (*final(s), *final(line_offset)) == ensure_comment_visible_spec(
            page_down_spec(*old(s), len, page_size),
            *old(line_offset),
            len,
            heights@,
            viewport,
        ),
{
    page_down(s, len, page_size);
    ensure_comment_visible(s, line_offset, len, heights, viewport);
}

/// Moves the comment selection one page up and keeps it on screen.
pub fn page_up_comment_list(
    s: &mut ListSelection,
    len: usize,
    page_size: usize,
    line_offset: &mut usize,
    heights: &Vec<usize>,
    viewport: usize,
)
    ensures
        (*final(s), *final(line_offset)) == ensure_comment_visible_spec(
            page_up_spec(*old(s), page_size),
            *old(line_offset),
            len,
            heights@,
            viewport,
        ),
{
    page_up(s, page_size);
    ensure_comment_visible(s, line_offset, len, heights, viewport);
}

} // verus!
