use vstd::prelude::*;
use crate::model::{App, AppV, keys_unique};
use crate::nav::{ListSelection, ensure_comment_visible, ensure_comment_visible_spec};

verus! {

proof fn lemma_keys_unique_same(a: AppV, b: AppV)
    requires
        keys_unique(a),
        a.in_flight == b.in_flight,
        a.generations == b.generations,
        a.cache == b.cache,
    ensures
        keys_unique(b),
{
}

/// The sum of the heights.
pub open spec fn heights_total(h: Seq<usize>) -> nat
    decreases h.len(),
{
    if h.len() == 0 {
        0
    } else {
        heights_total(h.drop_last()) + h.last() as nat
    }
}

/// How many comments of average height fit on a screen of `vp` lines (at least one).
pub open spec fn page_size_spec(total: int, n: int, vp: int) -> int {
    let avg: int = if n == 0 { 1 } else if total / n < 1 { 1 } else { total / n };
    if vp / avg < 1 { 1 } else { vp / avg }
}

/// The comment list laid out for a screen of `viewport_height` lines, its comments
/// measured at `heights` lines each: a page is as many comments of average height
/// as fit; the selected comment is kept on screen, and the screen does not scroll
/// past the end.
pub open spec fn layout_spec(a: AppV, heights: Seq<usize>, viewport_height: usize) -> AppV {
    let vp: int = if viewport_height == 0 { 1 } else { viewport_height as int };
    if a.comment_list.len() == 0 {
        AppV {
            comment_item_heights: Seq::empty(),
            comment_line_offset: 0,
            comment_viewport_height: viewport_height,
            comment_page_size: vp as usize,
            ..a
        }
    } else {
        let total = heights_total(heights) as int;
        let page = page_size_spec(total, heights.len() as int, vp);
        let sel = match a.comment_list_state.selected {
            None => ListSelection { selected: Some(0), ..a.comment_list_state },
            Some(_) => a.comment_list_state,
        };
        let (s2, off) = ensure_comment_visible_spec(
            sel,
            a.comment_line_offset,
            heights.len() as usize,
            heights,
            viewport_height,
        );
        let max_off: int = if total >= vp { total - vp } else { 0 };
        AppV {
            comment_item_heights: heights,
            comment_viewport_height: viewport_height,
            comment_page_size: page as usize,
            comment_list_state: s2,
            comment_line_offset: if off < max_off { off } else { max_off as usize },
            ..a
        }
    }
}

fn total_height(heights: &Vec<usize>) -> (r: usize)
    requires
        heights_total(heights@) <= usize::MAX,
    ensures
        r == heights_total(heights@),
{
    let mut total: usize = 0;
    for i in 0..heights.len()
        invariant
            heights_total(heights@) <= usize::MAX,
            total == heights_total(heights@.take(i as int)),
    {
        proof {
            assert(heights@.take(i + 1).drop_last() =~= heights@.take(i as int));
            lemma_heights_prefix(heights@, i + 1);
        }
        total = total + heights[i];
    }
    assert(heights@.take(heights.len() as int) =~= heights@);
    total
}

fn page_for(total: usize, n: usize, vp: usize) -> (r: usize)
    requires
        vp >= 1,
    ensures
        r == page_size_spec(total as int, n as int, vp as int),
{
    let avg = if n == 0 {
        1
    } else if total / n < 1 {
        1
    } else {
        total / n
    };
    if vp / avg < 1 { 1 } else { vp / avg }
}

impl App {
    /// Lays the comment list out for a screen of `viewport_height` lines, given the
    /// number of lines each shown comment takes.
    #[verifier::rlimit(60)]
    pub fn layout_comments(&mut self, heights: Vec<usize>, viewport_height: usize)
        requires
            heights_total(heights@) <= usize::MAX,
            keys_unique(old(self)@),
        ensures
            final(self)@ == layout_spec(old(self)@, heights@, viewport_height),
            keys_unique(final(self)@),
    {
        let vp = if viewport_height == 0 { 1 } else { viewport_height };
        if self.comment_list.len() == 0 {
            self.comment_item_heights = Vec::new();
            self.comment_line_offset = 0;
            self.comment_viewport_height = viewport_height;
            self.comment_page_size = vp;
            proof {
                lemma_keys_unique_same(old(self)@, self@);
            }
            return;
        }
        let total = total_height(&heights);
        let page = page_for(total, heights.len(), vp);
        self.comment_item_heights = heights;
        self.comment_viewport_height = viewport_height;
        self.comment_page_size = page;
        if self.comment_list_state.selected.is_none() {
            self.comment_list_state.selected = Some(0);
        }
        let n = self.comment_item_heights.len();
        ensure_comment_visible(
            &mut self.comment_list_state,
            &mut self.comment_line_offset,
            n,
            &self.comment_item_heights,
            viewport_height,
        );
        let max_off = if total >= vp { total - vp } else { 0 };
        if self.comment_line_offset > max_off {
            self.comment_line_offset = max_off;
        }
        proof {
            lemma_keys_unique_same(old(self)@, self@);
        }
    }
}

proof fn lemma_heights_prefix(h: Seq<usize>, k: int)
    requires
        0 <= k <= h.len(),
    ensures
        heights_total(h.take(k)) <= heights_total(h),
    decreases h.len() - k,
{
    if k < h.len() {
        lemma_heights_prefix(h.drop_last(), k);
        assert(h.drop_last().take(k) =~= h.take(k));
    } else {
        assert(h.take(k) =~= h);
    }
}

} // verus!
