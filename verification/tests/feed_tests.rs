use lstui::cli::Feed;
use lstui::feed::{
    after_feed_page, appended_page_result, feed_page_url, story_detail_url, trim_base_url,
    FeedProgress,
};

#[test]
fn empty_page_ends_the_feed_at_that_page() {
    assert_eq!(after_feed_page(12, 0, 30, 3), FeedProgress::Done { next_page: 3, end_reached: true });
}

#[test]
fn enough_stories_stop_before_the_next_page() {
    assert_eq!(after_feed_page(25, 25, 30, 2), FeedProgress::Done { next_page: 3, end_reached: false });
    assert_eq!(after_feed_page(0, 30, 30, 1), FeedProgress::Done { next_page: 2, end_reached: false });
}

#[test]
fn too_few_stories_fetch_the_next_page() {
    assert_eq!(after_feed_page(0, 25, 30, 1), FeedProgress::More { next_page: 2 });
}

#[test]
fn appended_page_moves_on_unless_empty() {
    assert_eq!(appended_page_result(4, 25), (5, false));
    assert_eq!(appended_page_result(4, 0), (4, true));
}

#[test]
fn base_url_loses_trailing_slashes() {
    assert_eq!(trim_base_url("https://lobste.rs//"), "https://lobste.rs");
    assert_eq!(trim_base_url("https://lobste.rs"), "https://lobste.rs");
    assert_eq!(trim_base_url("///"), "");
}

#[test]
fn endpoint_urls() {
    assert_eq!(feed_page_url("https://lobste.rs", Feed::Newest, 12), "https://lobste.rs/newest.json?page=12");
    assert_eq!(story_detail_url("https://lobste.rs", "abc123"), "https://lobste.rs/s/abc123.json");
}
