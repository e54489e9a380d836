use lstui::cli::{Cli, CliError, Feed};
use lstui::logging::{env_log_file, init, log_error, log_info, log_line};
use lstui::rate_limiter::{next_allowed, prune_hits, LimiterState, LIMIT_1S, WINDOW_1S};
use lstui::store::{check_story_list_state, now_unix as store_now_unix, StoreError};
use lstui::story::{parse_created_at, Story, StoryRaw};
use lstui::text::{chars_of, is_blank, remove_char};
use lstui::ui_text::{
    author_label, centered, comment_age, comment_heights, comment_widths, domain_from_url, format_age,
    format_error, now_unix, thread_marker, Rect,
};
use std::collections::VecDeque;

fn cli() -> Cli {
    Cli {
        feed: Feed::Hottest,
        count: 30,
        concurrency: 8,
        no_cache: false,
        cache_dir: None,
        log_file: None,
        base_url: "https://lobste.rs".to_string(),
        ui_config: None,
    }
}

#[test]
fn feed_paths() {
    assert_eq!(Feed::Hottest.path(), "hottest");
    assert_eq!(Feed::Newest.path(), "newest");
    assert_eq!(Feed::Active.path(), "active");
}

#[test]
fn command_line_rules() {
    assert!(cli().validate().is_ok());
    let mut c = cli();
    c.count = 0;
    assert_eq!(c.validate(), Err(CliError::CountZero));
    assert_eq!(CliError::CountZero.message(), "--count must be > 0");
    let mut c = cli();
    c.concurrency = 0;
    assert_eq!(c.validate(), Err(CliError::ConcurrencyZero));
    let mut c = cli();
    c.base_url = " \t ".to_string();
    assert_eq!(c.validate(), Err(CliError::BaseUrlEmpty));
    let mut c = cli();
    c.ui_config = Some(String::new());
    assert_eq!(c.validate(), Err(CliError::UiConfigEmpty));
    let mut c = cli();
    c.log_file = Some(String::new());
    assert_eq!(c.validate(), Err(CliError::LogFileEmpty));
    assert_eq!(CliError::LogFileEmpty.message(), "--log-file must be non-empty");
}

#[test]
fn ages_use_the_largest_unit() {
    assert_eq!(format_age(100, 145), "45s");
    assert_eq!(format_age(200, 100), "0s");
    assert_eq!(format_age(0, 60), "1m");
    assert_eq!(format_age(0, 3599), "59m");
    assert_eq!(format_age(0, 3600), "1h");
    assert_eq!(format_age(0, 47 * 3600), "47h");
    assert_eq!(format_age(0, 48 * 3600), "2d");
    assert_eq!(format_age(0, 364 * 86400), "364d");
    assert_eq!(format_age(0, 730 * 86400), "2y");
    assert_eq!(format_age(i64::MIN, i64::MAX), format!("{}y", i64::MAX / 60 / 60 / 24 / 365));
}

#[test]
fn domains_of_urls() {
    assert_eq!(domain_from_url("https://www.example.com/a/b"), Some("example.com".to_string()));
    assert_eq!(domain_from_url("http://user@host.org:8080/x"), Some("host.org:8080".to_string()));
    assert_eq!(domain_from_url("example.net/path"), Some("example.net".to_string()));
    assert_eq!(domain_from_url("https://www.www.a.io"), Some("a.io".to_string()));
    assert_eq!(domain_from_url("a://b://c"), Some("b".to_string()));
}

#[test]
fn errors_name_the_log() {
    assert_eq!(format_error("boom", None), "boom");
    assert_eq!(format_error("boom", Some("/tmp/l.log")), "boom | log: /tmp/l.log");
}

#[test]
fn clock_readings() {
    assert_eq!(now_unix(None), 0);
    assert_eq!(now_unix(Some(5)), 5);
    assert_eq!(now_unix(Some(u64::MAX)), i64::MAX);
    assert_eq!(store_now_unix(None), Err(StoreError::ClockBeforeEpoch));
    assert_eq!(store_now_unix(Some(u64::MAX)), Err(StoreError::SecondsOverflow));
    assert_eq!(store_now_unix(Some(7)), Ok(7));
    assert_eq!(StoreError::SecondsOverflow.message(), "unix seconds overflow i64");
}

#[test]
fn popup_is_centred_and_clipped() {
    let area = Rect { x: 0, y: 0, width: 100, height: 40 };
    assert_eq!(centered(area, 76, 30), Rect { x: 12, y: 5, width: 76, height: 30 });
    let small = Rect { x: 3, y: 4, width: 20, height: 10 };
    assert_eq!(centered(small, 76, 30), Rect { x: 3, y: 4, width: 20, height: 10 });
}

#[test]
fn comment_row_parts() {
    assert_eq!(comment_widths(80, 2, 5, 6), (61, 74));
    assert_eq!(comment_widths(5, 3, 5, 6), (1, 1));
    let raw = lstui::comments::CommentRaw {
        short_id: "a".to_string(),
        created_at: "2024-01-01T00:00:00Z".to_string(),
        is_deleted: true,
        is_moderated: false,
        parent_comment: None,
        comment_plain: String::new(),
        depth: 0,
        commenting_user: None,
    };
    let forest = lstui::tree::build_comment_tree(vec![raw]).ok().unwrap();
    let c = &forest[0].comment;
    assert_eq!(author_label(c), "[deleted]");
    assert_eq!(thread_marker(c, '*'), ' ');
    assert_eq!(comment_age(c, 1704067200 + 90), "1m");
}

#[test]
fn limiter_admits_up_to_the_limit_then_waits() {
    let mut st = LimiterState::new(0);
    for i in 0..LIMIT_1S as u64 {
        assert_eq!(st.try_acquire(i), None);
    }
    assert_eq!(st.hits_1s.len(), LIMIT_1S);
    let wait = st.try_acquire(10).expect("full window waits");
    assert_eq!(wait, WINDOW_1S - 10);
    assert_eq!(st.try_acquire(WINDOW_1S), None);
    assert!(st.hits_1s.len() <= LIMIT_1S);
}

#[test]
fn throttling_blocks_until_it_ends() {
    let mut st = LimiterState::new(0);
    st.throttle(100, 500);
    assert_eq!(st.blocked_until, 600);
    assert_eq!(st.try_acquire(200), Some(400));
    st.throttle(100, 0);
    assert_eq!(st.blocked_until, 600);
    assert_eq!(st.try_acquire(600), None);
}

#[test]
fn pruning_drops_only_expired_front_hits() {
    let mut hits: VecDeque<u64> = VecDeque::from(vec![0, 5, 20]);
    prune_hits(&mut hits, 10, 16);
    assert_eq!(hits, VecDeque::from(vec![20]));
    assert_eq!(next_allowed(&hits, 1, 10, 25), 30);
    assert_eq!(next_allowed(&hits, 2, 10, 25), 25);
}

#[test]
fn log_lines() {
    assert_eq!(log_line(12, "WARN", "x"), "12 WARN x\n");
    assert_eq!(log_error(0, "bad"), "0 ERROR bad\n");
    assert_eq!(log_info(1700000000, "log started"), "1700000000 INFO log started\n");
    assert_eq!(env_log_file(Some("  /tmp/a.log \n")), Some("/tmp/a.log".to_string()));
    assert_eq!(env_log_file(Some("   ")), None);
    assert_eq!(init(Some("cli.log".to_string()), Some("env.log")), Some("cli.log".to_string()));
    assert_eq!(init(None, Some("env.log")), Some("env.log".to_string()));
    assert_eq!(init(None, None), None);
}

#[test]
fn story_list_save_rules() {
    assert_eq!(check_story_list_state(" ", 1, 1), Err(StoreError::EmptyFeed));
    assert_eq!(check_story_list_state("hottest", 0, 1), Err(StoreError::NextPageZero));
    assert_eq!(check_story_list_state("hottest", 1, 0), Err(StoreError::EmptyStories));
    assert_eq!(check_story_list_state("hottest", 1, 1), Ok(()));
}

#[test]
fn created_at_is_read_with_chrono() {
    assert_eq!(parse_created_at("2024-01-01T00:00:00Z").ok(), Some(1704067200));
    assert_eq!(parse_created_at("2024-01-01T00:00:00.500-01:00").ok(), Some(1704070800));
    let err = parse_created_at("not a date").err().unwrap();
    let why = chrono::DateTime::parse_from_rfc3339("not a date").unwrap_err().to_string();
    assert!(!why.is_empty());
    assert_eq!(err.reason, why);
    assert_eq!(err.message(), format!("parse created_at rfc3339: not a date: {why}"));
}

#[test]
fn raw_stories_become_stories() {
    let raw = StoryRaw {
        short_id: "abc".to_string(),
        created_at: "1970-01-01T00:01:00Z".to_string(),
        title: "T".to_string(),
        url: None,
        score: 7,
        comment_count: 2,
        submitter_user: "dan".to_string(),
        tags: vec!["a".to_string()],
        short_id_url: "u".to_string(),
        comments_url: "c".to_string(),
    };
    let s: Story = Story::from_raw(raw).ok().unwrap();
    assert_eq!(s.time, 60);
    assert_eq!(s.by, "dan");
    assert_eq!(s.duplicate().short_id, "abc");
}

#[test]
fn story_from_parts_takes_the_given_time() {
    let raw = StoryRaw {
        short_id: "xyz".to_string(),
        created_at: "not a date".to_string(),
        title: "T".to_string(),
        url: Some("https://example.com/a".to_string()),
        score: 1,
        comment_count: 0,
        submitter_user: "eve".to_string(),
        tags: Vec::new(),
        short_id_url: "u".to_string(),
        comments_url: "c".to_string(),
    };
    let s = Story::from_parts(raw, 42);
    assert_eq!(s.time, 42);
    assert_eq!(s.url.as_deref(), Some("https://example.com/a"));
    assert_eq!(s.by, "eve");
}

#[test]
fn text_helpers() {
    assert!(is_blank(" \u{a0}\u{3000}\t"));
    assert!(!is_blank(" x "));
    assert_eq!(remove_char("a\rb\r", '\r'), "ab");
    assert_eq!(chars_of("h\u{e9}"), vec!['h', '\u{e9}']);
}

fn plain_comment(text: &str, time: Option<i64>) -> lstui::comments::Comment {
    lstui::comments::Comment {
        id: "c".to_string(),
        by: Some("al".to_string()),
        time,
        text: text.to_string(),
        kids: Vec::new(),
        depth: 0,
        collapsed: false,
        children_loading: false,
        deleted: false,
        moderated: false,
    }
}

#[test]
fn comment_heights_follow_the_wrapped_text() {
    let list = vec![plain_comment("one two three four", Some(0)), plain_comment("", None)];
    assert_eq!(comment_heights(&list, 20, usize::MAX, 30), vec![2, 1]);
    assert_eq!(comment_heights(&list, 20, 1, 30), vec![1, 1]);
    assert_eq!(comment_heights(&list, 20, 0, 30), vec![1, 1]);
    assert!(comment_heights(&Vec::new(), 20, 5, 30).is_empty());
}

#[test]
fn admitted_requests_never_overfill_a_window() {
    let mut st = LimiterState::new(0);
    let mut admitted: Vec<u64> = Vec::new();
    let step: u64 = 50_000_000;
    for k in 0..4000u64 {
        let now = k * step;
        if st.try_acquire(now).is_none() {
            admitted.push(now);
            for (limit, window) in [(4usize, 1_000_000_000u64), (30, 60_000_000_000)] {
                let inside = admitted.iter().filter(|&&h| now - h < window).count();
                assert!(inside <= limit);
            }
        }
    }
    assert!(admitted.len() >= 30);
}
