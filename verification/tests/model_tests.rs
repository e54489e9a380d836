use lstui::cli::Feed;
use lstui::comments::CommentRaw;
use lstui::input::{Key, KeyState};
use lstui::model::{AppEvent, App, Effect, StoriesLoadMode};
use lstui::screen::{Action, View};
use lstui::story::Story;
use lstui::tree::build_comment_tree;

const IDLE: u64 = 1_000_000_000;

fn story(id: &str, comments: i64) -> Story {
    Story {
        short_id: id.to_string(),
        title: format!("title {id}"),
        url: Some(format!("https://example.com/{id}")),
        score: 1,
        by: "bob".to_string(),
        time: 0,
        comment_count: comments,
        tags: vec!["rust".to_string()],
        short_id_url: format!("https://lobste.rs/s/{id}"),
        comments_url: format!("https://lobste.rs/s/{id}/c"),
    }
}

fn loaded_app(n: usize) -> App {
    let mut app = App::new(Feed::Hottest, 30, false, 2, 0);
    let mut fx = Vec::new();
    app.refresh_stories(&mut fx);
    let stories: Vec<Story> = (0..n).map(|i| story(&format!("s{i}"), 0)).collect();
    app.handle_app_event(
        AppEvent::StoriesLoaded {
            generation: app.stories_generation,
            mode: StoriesLoadMode::Replace,
            stories,
            next_page: 2,
            end_reached: false,
        },
        0,
        &mut fx,
    );
    app
}

fn thread() -> Vec<lstui::comments::CommentNode> {
    let raw = |id: &str, parent: Option<&str>, depth: usize| CommentRaw {
        short_id: id.to_string(),
        created_at: "2024-01-01T00:00:00Z".to_string(),
        is_deleted: false,
        is_moderated: false,
        parent_comment: parent.map(|p| p.to_string()),
        comment_plain: format!("text {id}"),
        depth,
        commenting_user: Some("carol".to_string()),
    };
    build_comment_tree(vec![raw("a", None, 0), raw("b", Some("a"), 1), raw("c", Some("b"), 2)])
        .ok()
        .unwrap()
}

#[test]
fn refresh_asks_for_the_feed_with_a_new_generation() {
    let mut app = App::new(Feed::Newest, 25, false, 2, 0);
    let mut fx = Vec::new();
    app.refresh_stories(&mut fx);
    assert!(app.story_loading);
    assert_eq!(fx.len(), 1);
    assert!(matches!(fx[0], Effect::FetchFeed { generation: 1, feed: Feed::Newest, count: 25 }));
}

#[test]
fn stale_story_pages_are_ignored() {
    let mut app = App::new(Feed::Hottest, 30, false, 2, 0);
    let mut fx = Vec::new();
    app.refresh_stories(&mut fx);
    app.refresh_stories(&mut fx);
    app.handle_app_event(
        AppEvent::StoriesLoaded {
            generation: 1,
            mode: StoriesLoadMode::Replace,
            stories: vec![story("x", 0)],
            next_page: 2,
            end_reached: false,
        },
        0,
        &mut fx,
    );
    assert!(app.stories.is_empty());
    assert!(app.story_loading);
}

#[test]
fn loaded_stories_replace_the_list_and_keep_the_selection() {
    let mut app = loaded_app(3);
    assert_eq!(app.stories.len(), 3);
    assert!(!app.story_loading);
    assert_eq!(app.story_next_page, 2);
    let mut fx = Vec::new();
    app.handle_action(Action::MoveDown, 0, &mut fx);
    app.handle_action(Action::MoveDown, 0, &mut fx);
    assert_eq!(app.story_list_state.selected, Some(2));
    app.refresh_stories(&mut fx);
    let stories = vec![story("new", 0), story("s2", 0), story("s0", 0)];
    app.handle_app_event(
        AppEvent::StoriesLoaded {
            generation: app.stories_generation,
            mode: StoriesLoadMode::Replace,
            stories,
            next_page: 0,
            end_reached: true,
        },
        0,
        &mut fx,
    );
    assert_eq!(app.story_list_state.selected, Some(1));
    assert_eq!(app.story_next_page, 1);
    assert!(app.story_end_reached);
}

#[test]
fn help_overlay_takes_the_keys() {
    let mut app = loaded_app(3);
    let mut fx = Vec::new();
    app.handle_action(Action::ToggleHelp, 0, &mut fx);
    assert!(app.help_visible);
    app.handle_action(Action::MoveDown, 0, &mut fx);
    assert_eq!(app.story_list_state.selected, Some(0));
    app.handle_action(Action::BackOrQuit, 0, &mut fx);
    assert!(!app.help_visible);
    assert!(!app.should_quit());
    app.handle_action(Action::BackOrQuit, 0, &mut fx);
    assert!(app.should_quit());
}

#[test]
fn selection_stays_within_the_list() {
    let mut app = loaded_app(2);
    let mut fx = Vec::new();
    for _ in 0..5 {
        app.handle_action(Action::MoveDown, 0, &mut fx);
    }
    assert_eq!(app.story_list_state.selected, Some(1));
    app.handle_action(Action::GoTop, 0, &mut fx);
    assert_eq!(app.story_list_state.selected, Some(0));
    app.handle_action(Action::MoveUp, 0, &mut fx);
    assert_eq!(app.story_list_state.selected, Some(0));
    app.handle_action(Action::GoBottom, 0, &mut fx);
    assert_eq!(app.story_list_state.selected, Some(1));
}

#[test]
fn nearing_the_end_asks_for_the_next_page() {
    let mut app = loaded_app(12);
    let mut fx = Vec::new();
    app.handle_action(Action::GoBottom, 0, &mut fx);
    assert!(app.prefetch_in_flight);
    assert!(fx.iter().any(|e| matches!(e, Effect::FetchFeedPage { page: 2, .. })));
}

#[test]
fn opening_a_story_loads_its_thread_and_shows_it() {
    let mut app = loaded_app(3);
    let mut fx = Vec::new();
    app.handle_action(Action::Enter, 0, &mut fx);
    assert_eq!(app.view, View::Comments);
    assert!(app.comment_loading);
    let generation = match fx.last() {
        Some(Effect::LoadComments { generation, story_id }) => {
            assert_eq!(story_id, "s0");
            *generation
        }
        _ => panic!("expected a comment load"),
    };
    app.handle_app_event(
        AppEvent::CommentsLoaded {
            generation,
            story_id: "s0".to_string(),
            story: story("s0", 3),
            comments: thread(),
        },
        0,
        &mut fx,
    );
    assert!(!app.comment_loading);
    let shown: Vec<String> = app.comment_list.iter().map(|c| c.id.clone()).collect();
    assert_eq!(shown, vec!["a", "b"]);
    app.handle_action(Action::Collapse, 0, &mut fx);
    let shown: Vec<String> = app.comment_list.iter().map(|c| c.id.clone()).collect();
    assert_eq!(shown, vec!["a"]);
    app.handle_action(Action::Expand, 0, &mut fx);
    let shown: Vec<String> = app.comment_list.iter().map(|c| c.id.clone()).collect();
    assert_eq!(shown, vec!["a", "b"]);
    app.handle_action(Action::BackOrQuit, 0, &mut fx);
    assert_eq!(app.view, View::Stories);
    assert!(!app.should_quit());
}

#[test]
fn idle_story_list_prefetches_at_most_three_threads() {
    let mut app = App::new(Feed::Hottest, 30, false, 2, 0);
    let mut fx = Vec::new();
    app.refresh_stories(&mut fx);
    let stories: Vec<Story> = (0..6).map(|i| story(&format!("p{i}"), 5)).collect();
    app.handle_app_event(
        AppEvent::StoriesLoaded {
            generation: app.stories_generation,
            mode: StoriesLoadMode::Replace,
            stories,
            next_page: 2,
            end_reached: false,
        },
        0,
        &mut fx,
    );
    assert!(app.comment_prefetch_in_flight_ids.is_empty());
    let mut fx = Vec::new();
    app.tick(IDLE, &mut fx);
    assert_eq!(app.comment_prefetch_in_flight_ids, vec!["p0", "p1", "p2"]);
    let prefetches = fx.iter().filter(|e| matches!(e, Effect::PrefetchComments { .. })).count();
    assert_eq!(prefetches, 3);
    app.tick(IDLE, &mut fx);
    assert_eq!(app.comment_prefetch_in_flight_ids.len(), 3);
}

#[test]
fn prefetched_thread_is_kept_and_opened_at_once() {
    let mut app = App::new(Feed::Hottest, 30, false, 2, 0);
    let mut fx = Vec::new();
    app.refresh_stories(&mut fx);
    app.handle_app_event(
        AppEvent::StoriesLoaded {
            generation: app.stories_generation,
            mode: StoriesLoadMode::Replace,
            stories: vec![story("q", 5)],
            next_page: 2,
            end_reached: false,
        },
        0,
        &mut fx,
    );
    let mut fx = Vec::new();
    app.tick(IDLE, &mut fx);
    let generation = match fx.last() {
        Some(Effect::PrefetchComments { generation, .. }) => *generation,
        _ => panic!("expected a prefetch"),
    };
    app.handle_app_event(
        AppEvent::CommentsPrefetched {
            generation,
            story_id: "q".to_string(),
            story: story("q", 5),
            comments: thread(),
        },
        IDLE,
        &mut fx,
    );
    assert!(app.comment_prefetch_in_flight_ids.is_empty());
    assert_eq!(app.prefetched_comments_cache.len(), 1);
    let mut fx = Vec::new();
    app.handle_action(Action::Enter, IDLE, &mut fx);
    assert!(fx.is_empty());
    assert_eq!(app.view, View::Comments);
    assert_eq!(app.comment_list.len(), 2);
    assert!(app.prefetched_comments_cache.is_empty());
}

#[test]
fn load_errors_are_shown_and_logged() {
    let mut app = App::new(Feed::Hottest, 30, false, 2, 0);
    let mut fx = Vec::new();
    app.refresh_stories(&mut fx);
    let mut fx = Vec::new();
    app.handle_app_event(AppEvent::Error { generation: 1, message: "boom".to_string() }, 0, &mut fx);
    assert_eq!(app.last_error, Some("boom".to_string()));
    assert!(!app.story_loading);
    assert!(matches!(&fx[0], Effect::LogError { message } if message == "load error: boom"));
    let mut fx = Vec::new();
    app.handle_app_event(AppEvent::Error { generation: 7, message: "old".to_string() }, 0, &mut fx);
    assert_eq!(app.last_error, Some("boom".to_string()));
    assert!(fx.is_empty());
}

#[test]
fn browser_links_follow_the_view() {
    let mut app = loaded_app(1);
    let mut fx = Vec::new();
    app.handle_action(Action::OpenPrimaryBrowser, 0, &mut fx);
    app.handle_action(Action::OpenSecondaryBrowser, 0, &mut fx);
    assert!(matches!(&fx[0], Effect::OpenStory { url } if url == "https://example.com/s0"));
    assert!(matches!(&fx[1], Effect::OpenStoryComments { url } if url == "https://lobste.rs/s/s0/c"));
    let mut empty = App::new(Feed::Hottest, 30, false, 2, 0);
    let mut fx = Vec::new();
    empty.handle_action(Action::OpenPrimaryBrowser, 0, &mut fx);
    assert_eq!(empty.last_error, Some("no selected story".to_string()));
    assert!(fx.is_empty());
}

#[test]
fn refresh_without_a_story_reports_it() {
    let mut app = App::new(Feed::Hottest, 30, false, 2, 0);
    let mut fx = Vec::new();
    app.refresh_comments(&mut fx);
    assert_eq!(app.last_error, Some("no current story".to_string()));
}

#[test]
fn restore_checks_the_saved_list() {
    let mut app = App::new(Feed::Active, 30, false, 2, 0);
    app.restore_story_list_state("hottest".to_string(), 2, false, vec![story("a", 0)]);
    assert_eq!(
        app.last_error,
        Some("refusing to restore story list state: feed mismatch (state=hottest, cli=active)".to_string())
    );
    app.restore_story_list_state("active".to_string(), 2, false, Vec::new());
    assert_eq!(app.last_error, Some("refusing to restore empty story list state".to_string()));
    app.restore_story_list_state("active".to_string(), 0, false, vec![story("a", 0)]);
    assert_eq!(app.last_error, Some("refusing to restore next_page=0".to_string()));
    app.restore_story_list_state("active".to_string(), 3, true, vec![story("a", 0)]);
    assert_eq!(app.stories.len(), 1);
    assert_eq!(app.story_next_page, 3);
    assert!(app.story_end_reached);
}

#[test]
fn saving_needs_a_store_and_stories() {
    let mut with_store = App::new(Feed::Hottest, 30, true, 2, 0);
    let mut fx = Vec::new();
    with_store.save_story_list_state_background(&mut fx);
    assert!(fx.is_empty());
    with_store.restore_story_list_state("hottest".to_string(), 2, false, vec![story("a", 0)]);
    with_store.save_story_list_state_background(&mut fx);
    assert!(matches!(&fx[0], Effect::SaveStories { next_page: 2, end_reached: false, stories, .. } if stories.len() == 1));
}

#[test]
fn keys_map_to_actions() {
    let mut app = loaded_app(3);
    let mut keys = KeyState::new();
    let mut fx = Vec::new();
    app.handle_key(&mut keys, Key::Char('j'), 5, &mut fx);
    assert_eq!(app.story_list_state.selected, Some(1));
    assert_eq!(app.last_user_activity, 5);
    app.handle_key(&mut keys, Key::Char('g'), 6, &mut fx);
    assert!(keys.pending_g);
    app.handle_key(&mut keys, Key::Char('g'), 7, &mut fx);
    assert_eq!(app.story_list_state.selected, Some(0));
    app.handle_key(&mut keys, Key::Char('G'), 8, &mut fx);
    assert_eq!(app.story_list_state.selected, Some(2));
    app.handle_key(&mut keys, Key::Char('?'), 9, &mut fx);
    assert!(app.help_visible);
}

#[test]
fn spinner_turns_only_while_busy() {
    let mut app = App::new(Feed::Hottest, 30, false, 2, 0);
    let mut fx = Vec::new();
    app.tick(0, &mut fx);
    assert_eq!(app.spinner_idx, 0);
    assert_eq!(app.spinner_frame(), '\u{280b}');
    app.refresh_stories(&mut fx);
    app.tick(0, &mut fx);
    assert_eq!(app.spinner_idx, 1);
    assert_eq!(app.spinner_frame(), '\u{2819}');
}

#[test]
fn comment_layout_sets_page_and_clamps_offset() {
    let mut app = loaded_app(1);
    let mut fx = Vec::new();
    app.handle_action(Action::Enter, 0, &mut fx);
    let generation = app.comments_generation;
    app.handle_app_event(
        AppEvent::CommentsLoaded { generation, story_id: "s0".to_string(), story: story("s0", 3), comments: thread() },
        0,
        &mut fx,
    );
    app.comment_line_offset = 50;
    app.layout_comments(vec![3, 5], 4);
    assert_eq!(app.comment_page_size, 1);
    assert_eq!(app.comment_line_offset, 0);
    assert_eq!(app.comment_viewport_height, 4);
}

#[test]
fn finished_prefetch_makes_room_for_one_more() {
    let mut app = App::new(Feed::Hottest, 30, false, 2, 0);
    let mut fx = Vec::new();
    app.refresh_stories(&mut fx);
    let stories: Vec<Story> = (0..6).map(|i| story(&format!("p{i}"), 5)).collect();
    app.handle_app_event(
        AppEvent::StoriesLoaded {
            generation: app.stories_generation,
            mode: StoriesLoadMode::Replace,
            stories,
            next_page: 2,
            end_reached: false,
        },
        0,
        &mut fx,
    );
    let mut fx = Vec::new();
    app.tick(IDLE, &mut fx);
    let generation = match fx.first() {
        Some(Effect::PrefetchComments { generation, .. }) => *generation,
        _ => panic!("expected a prefetch"),
    };
    let mut fx = Vec::new();
    app.handle_app_event(
        AppEvent::PrefetchError { generation, story_id: "p0".to_string(), message: "boom".to_string() },
        IDLE,
        &mut fx,
    );
    assert_eq!(app.comment_prefetch_in_flight_ids, vec!["p1", "p2", "p0"]);
    assert_eq!(app.last_error.as_deref(), Some("boom"));
    app.handle_action(Action::MoveDown, IDLE, &mut fx);
    assert_eq!(app.comment_prefetch_in_flight_ids.len(), 3);
}

#[test]
fn stale_prefetch_answers_are_ignored() {
    let mut app = App::new(Feed::Hottest, 30, false, 2, 0);
    let mut fx = Vec::new();
    app.refresh_stories(&mut fx);
    app.handle_app_event(
        AppEvent::StoriesLoaded {
            generation: app.stories_generation,
            mode: StoriesLoadMode::Replace,
            stories: vec![story("q", 5)],
            next_page: 2,
            end_reached: false,
        },
        0,
        &mut fx,
    );
    let mut fx = Vec::new();
    app.tick(IDLE, &mut fx);
    let generation = match fx.last() {
        Some(Effect::PrefetchComments { generation, .. }) => *generation,
        _ => panic!("expected a prefetch"),
    };
    let mut fx = Vec::new();
    app.handle_app_event(
        AppEvent::CommentsPrefetched {
            generation: generation.wrapping_add(7),
            story_id: "q".to_string(),
            story: story("q", 5),
            comments: thread(),
        },
        IDLE,
        &mut fx,
    );
    app.handle_app_event(
        AppEvent::PrefetchError {
            generation: generation.wrapping_add(7),
            story_id: "q".to_string(),
            message: "late".to_string(),
        },
        IDLE,
        &mut fx,
    );
    assert!(fx.is_empty());
    assert_eq!(app.comment_prefetch_in_flight_ids, vec!["q"]);
    assert!(app.prefetched_comments_cache.is_empty());
    assert_eq!(app.last_error, None);
}

#[test]
fn ticks_come_faster_while_busy() {
    let mut app = App::new(Feed::Hottest, 30, false, 2, 0);
    assert_eq!(app.tick_interval_ms(), 200);
    let mut fx = Vec::new();
    app.refresh_stories(&mut fx);
    assert_eq!(app.tick_interval_ms(), 120);
}

#[test]
fn quitting_saves_only_a_list_with_a_cache() {
    assert!(!loaded_app(3).save_on_quit());
    let mut app = App::new(Feed::Newest, 30, true, 2, 0);
    assert!(!app.save_on_quit());
    let mut fx = Vec::new();
    app.refresh_stories(&mut fx);
    app.handle_app_event(
        AppEvent::StoriesLoaded {
            generation: app.stories_generation,
            mode: StoriesLoadMode::Replace,
            stories: vec![story("s", 0)],
            next_page: 2,
            end_reached: false,
        },
        0,
        &mut fx,
    );
    assert!(app.save_on_quit());
}

#[test]
fn prefetches_start_with_the_stories_nearest_the_selection() {
    let mut app = App::new(Feed::Hottest, 30, false, 2, 0);
    let mut fx = Vec::new();
    app.refresh_stories(&mut fx);
    let stories: Vec<Story> = (0..6).map(|i| story(&format!("p{i}"), 5)).collect();
    app.handle_app_event(
        AppEvent::StoriesLoaded {
            generation: app.stories_generation,
            mode: StoriesLoadMode::Replace,
            stories,
            next_page: 2,
            end_reached: false,
        },
        0,
        &mut fx,
    );
    for _ in 0..3 {
        app.handle_action(Action::MoveDown, 0, &mut fx);
    }
    assert!(app.comment_prefetch_in_flight_ids.is_empty());
    app.tick(IDLE, &mut fx);
    assert_eq!(app.comment_prefetch_in_flight_ids, vec!["p3", "p2", "p4"]);
}

#[test]
fn shown_comments_follow_the_tree() {
    let mut app = loaded_app(1);
    let mut fx = Vec::new();
    app.apply_comments_for_story(story("s0", 3), thread(), true);
    let flat = |app: &App| {
        let mut shown = Vec::new();
        lstui::tree::push_visible(&app.comment_tree, &mut shown);
        shown.iter().map(|c| c.id.clone()).collect::<Vec<_>>()
    };
    let ids = |app: &App| app.comment_list.iter().map(|c| c.id.clone()).collect::<Vec<_>>();
    assert_eq!(ids(&app), flat(&app));
    for action in [Action::MoveDown, Action::Expand, Action::Collapse, Action::ToggleCollapse, Action::MoveUp, Action::Collapse] {
        app.handle_action(action, 0, &mut fx);
        assert_eq!(ids(&app), flat(&app));
    }
}

#[test]
fn story_pages_fit_the_screen() {
    let mut app = App::new(Feed::Hottest, 30, false, 2, 0);
    app.set_story_viewport(21);
    assert_eq!(app.story_page_size, 10);
    app.set_story_viewport(1);
    assert_eq!(app.story_page_size, 1);
    app.set_story_viewport(0);
    assert_eq!(app.story_page_size, 1);
}
