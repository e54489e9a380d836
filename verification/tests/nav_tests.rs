use lstui::nav::{
    ensure_comment_visible, ensure_visible, first_line_of, move_selection_down,
    move_selection_up, page_down, page_up, ListSelection,
};

fn sel(selected: Option<usize>, offset: usize) -> ListSelection {
    ListSelection { selected, offset }
}

#[test]
fn moving_down_stops_at_the_last_item() {
    let mut s = sel(Some(3), 0);
    move_selection_down(&mut s, 5);
    assert_eq!(s.selected, Some(4));
    move_selection_down(&mut s, 5);
    assert_eq!(s.selected, Some(4));
    let mut empty = sel(Some(2), 1);
    move_selection_down(&mut empty, 0);
    assert_eq!(empty, sel(Some(2), 1));
}

#[test]
fn moving_up_undoes_moving_down() {
    let mut s = sel(Some(2), 1);
    move_selection_down(&mut s, 10);
    move_selection_up(&mut s);
    assert_eq!(s, sel(Some(2), 1));
    let mut top = sel(None, 0);
    move_selection_up(&mut top);
    assert_eq!(top.selected, Some(0));
}

#[test]
fn scrolling_brings_the_selection_on_screen() {
    let mut below = sel(Some(12), 0);
    ensure_visible(&mut below, 20, 5);
    assert_eq!(below, sel(Some(12), 8));
    let mut above = sel(Some(2), 6);
    ensure_visible(&mut above, 20, 5);
    assert_eq!(above, sel(Some(2), 2));
    let mut inside = sel(Some(7), 6);
    ensure_visible(&mut inside, 20, 5);
    assert_eq!(inside, sel(Some(7), 6));
}

#[test]
fn paging_moves_a_page_and_stays_on_screen() {
    let mut s = sel(Some(1), 0);
    page_down(&mut s, 20, 5);
    assert_eq!(s, sel(Some(6), 2));
    page_down(&mut s, 8, 5);
    assert_eq!(s, sel(Some(7), 3));
    page_up(&mut s, 5);
    assert_eq!(s, sel(Some(2), 2));
    page_up(&mut s, 5);
    assert_eq!(s, sel(Some(0), 0));
}

#[test]
fn line_starts_add_up_heights() {
    let heights = vec![2, 0, 3];
    assert_eq!(first_line_of(&heights, 0), 0);
    assert_eq!(first_line_of(&heights, 2), 3);
    assert_eq!(first_line_of(&heights, 4), 7);
}

#[test]
fn selected_comment_lines_come_on_screen() {
    let heights = vec![3, 3, 3, 3];
    let mut s = sel(Some(3), 0);
    let mut offset = 0;
    ensure_comment_visible(&mut s, &mut offset, 4, &heights, 5);
    assert_eq!(offset, 7);
    let mut up = sel(Some(0), 0);
    let mut off2 = 6;
    ensure_comment_visible(&mut up, &mut off2, 4, &heights, 5);
    assert_eq!(off2, 0);
    let mut past = sel(Some(9), 0);
    let mut off3 = 0;
    ensure_comment_visible(&mut past, &mut off3, 4, &heights, 5);
    assert_eq!(past.selected, Some(3));
    assert_eq!(off3, 7);
}
