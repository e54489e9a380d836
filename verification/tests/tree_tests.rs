use lstui::comments::{CommentNode, CommentRaw, TreeError};
use lstui::tree::{
    assemble_comment_tree, build_comment_tree, expand_to_depth, push_visible, set_collapse_in_tree,
};

fn raw(id: &str, parent: Option<&str>, depth: usize, text: &str) -> CommentRaw {
    CommentRaw {
        short_id: id.to_string(),
        created_at: "2024-01-01T00:00:00Z".to_string(),
        is_deleted: false,
        is_moderated: false,
        parent_comment: parent.map(|p| p.to_string()),
        comment_plain: text.to_string(),
        depth,
        commenting_user: Some("alice".to_string()),
    }
}

fn ids(nodes: &[CommentNode]) -> Vec<String> {
    nodes.iter().map(|n| n.comment.id.clone()).collect()
}

#[test]
fn empty_list_makes_empty_forest() {
    let r = build_comment_tree(Vec::new());
    assert!(matches!(r, Ok(ref v) if v.is_empty()));
}

#[test]
fn replies_become_children_in_list_order() {
    let cs = vec![
        raw("a", None, 0, "first"),
        raw("b", Some("a"), 1, "reply one"),
        raw("c", None, 0, "second"),
        raw("d", Some("a"), 1, "reply two"),
        raw("e", Some("b"), 2, "deep"),
    ];
    let forest = match build_comment_tree(cs) {
        Ok(f) => f,
        Err(_) => panic!("tree should build"),
    };
    assert_eq!(ids(&forest), vec!["a", "c"]);
    let a = &forest[0];
    assert_eq!(ids(&a.children), vec!["b", "d"]);
    assert_eq!(a.comment.kids, vec!["b".to_string(), "d".to_string()]);
    assert!(a.comment.collapsed);
    assert_eq!(a.comment.depth, 0);
    assert_eq!(a.comment.time, Some(1704067200));
    assert_eq!(a.children[0].comment.depth, 1);
    assert_eq!(ids(&a.children[0].children), vec!["e"]);
    assert_eq!(a.children[0].children[0].comment.depth, 2);
    assert!(!forest[1].comment.collapsed);
    assert!(forest[1].comment.kids.is_empty());
}

#[test]
fn repeated_id_is_refused() {
    let cs = vec![raw("a", None, 0, "x"), raw("b", None, 0, "y"), raw("a", None, 0, "z")];
    match build_comment_tree(cs) {
        Err(TreeError::DuplicateId { id }) => assert_eq!(id, "a"),
        _ => panic!("expected a duplicate id"),
    }
}

#[test]
fn missing_parent_is_refused() {
    let cs = vec![raw("a", None, 0, "x"), raw("b", Some("zz"), 1, "y")];
    match build_comment_tree(cs) {
        Err(TreeError::ParentMissing { id, parent_id }) => {
            assert_eq!(id, "b");
            assert_eq!(parent_id, "zz");
        }
        _ => panic!("expected a missing parent"),
    }
}

#[test]
fn list_without_roots_is_refused() {
    let cs = vec![raw("a", Some("b"), 1, "x"), raw("b", Some("a"), 1, "y")];
    assert!(matches!(build_comment_tree(cs), Err(TreeError::NoRoots)));
}

#[test]
fn wrong_depth_is_refused() {
    let cs = vec![raw("a", None, 0, "x"), raw("b", Some("a"), 3, "y")];
    match build_comment_tree(cs) {
        Err(TreeError::DepthMismatch { id, api, expected }) => {
            assert_eq!(id, "b");
            assert_eq!(api, 3);
            assert_eq!(expected, 1);
        }
        _ => panic!("expected a depth mismatch"),
    }
}

#[test]
fn bad_timestamp_is_refused() {
    let mut c = raw("a", None, 0, "x");
    c.created_at = "yesterday".to_string();
    match build_comment_tree(vec![c]) {
        Err(TreeError::BadTimestamp { created_at, reason }) => {
            assert_eq!(created_at, "yesterday");
            let why = chrono::DateTime::parse_from_rfc3339("yesterday").unwrap_err().to_string();
            assert_eq!(reason, why);
        }
        _ => panic!("expected a bad timestamp"),
    }
}

#[test]
fn timestamp_with_offset_is_read_as_unix_time() {
    let mut c = raw("a", None, 0, "x");
    c.created_at = "2024-01-01T02:00:00+02:00".to_string();
    let forest = build_comment_tree(vec![c]).ok().unwrap();
    assert_eq!(forest[0].comment.time, Some(1704067200));
}

#[test]
fn text_and_author_are_cleaned() {
    let mut deleted = raw("a", None, 0, " \r\n ");
    deleted.is_deleted = true;
    deleted.commenting_user = Some("   ".to_string());
    let mut moderated = raw("b", None, 0, "");
    moderated.is_moderated = true;
    let plain = raw("c", None, 0, "line one\r\nline two");
    let empty = raw("d", None, 0, "");
    let forest = build_comment_tree(vec![deleted, moderated, plain, empty]).ok().unwrap();
    assert_eq!(forest[0].comment.text, "[deleted]");
    assert_eq!(forest[0].comment.by, None);
    assert_eq!(forest[1].comment.text, "[moderated]");
    assert_eq!(forest[2].comment.text, "line one\nline two");
    assert_eq!(forest[2].comment.by, Some("alice".to_string()));
    assert_eq!(forest[3].comment.text, "[no text]");
}

fn sample_forest() -> Vec<CommentNode> {
    let cs = vec![
        raw("a", None, 0, "first"),
        raw("b", Some("a"), 1, "reply"),
        raw("c", Some("b"), 2, "deep"),
        raw("d", None, 0, "second"),
    ];
    build_comment_tree(cs).ok().unwrap()
}

#[test]
fn collapsed_threads_hide_their_replies() {
    let forest = sample_forest();
    let mut shown = Vec::new();
    push_visible(&forest, &mut shown);
    let shown_ids: Vec<String> = shown.iter().map(|c| c.id.clone()).collect();
    assert_eq!(shown_ids, vec!["a", "d"]);
}

#[test]
fn expanding_to_a_depth_opens_upper_threads() {
    let mut forest = sample_forest();
    expand_to_depth(&mut forest, 1);
    assert!(!forest[0].comment.collapsed);
    assert!(forest[0].children[0].comment.collapsed);
    let mut shown = Vec::new();
    push_visible(&forest, &mut shown);
    let shown_ids: Vec<String> = shown.iter().map(|c| c.id.clone()).collect();
    assert_eq!(shown_ids, vec!["a", "b", "d"]);
}

#[test]
fn collapse_flag_is_set_on_the_named_comment() {
    let mut forest = sample_forest();
    assert!(set_collapse_in_tree(&mut forest, &"b".to_string(), false).is_some());
    assert!(!forest[0].children[0].comment.collapsed);
    assert!(forest[0].comment.collapsed);
    assert!(set_collapse_in_tree(&mut forest, &"nope".to_string(), false).is_none());
}

#[test]
fn collapse_then_expand_restores_the_thread() {
    let mut forest = sample_forest();
    expand_to_depth(&mut forest, 5);
    assert!(set_collapse_in_tree(&mut forest, &"a".to_string(), true).is_some());
    assert!(set_collapse_in_tree(&mut forest, &"a".to_string(), false).is_some());
    let mut shown = Vec::new();
    push_visible(&forest, &mut shown);
    let shown_ids: Vec<String> = shown.iter().map(|c| c.id.clone()).collect();
    assert_eq!(shown_ids, vec!["a", "b", "c", "d"]);
}

#[test]
fn tree_error_texts_name_the_comment() {
    let dup = TreeError::DuplicateId { id: "a".to_string() };
    assert_eq!(dup.message(), "duplicate comment id=a");
    let missing = TreeError::ParentMissing { id: "b".to_string(), parent_id: "z".to_string() };
    assert_eq!(missing.message(), "comment parent missing id=b parent_id=z");
    assert_eq!(TreeError::NoRoots.message(), "comments present but no root comments");
    let depth = TreeError::DepthMismatch { id: "c".to_string(), api: 3, expected: 1 };
    assert_eq!(depth.message(), "comment depth mismatch id=c: api=3 expected=1");
    let ts = TreeError::BadTimestamp {
        created_at: "yesterday".to_string(),
        reason: "input contains invalid characters".to_string(),
    };
    assert_eq!(ts.message(), "parse created_at rfc3339: yesterday: input contains invalid characters");
}

#[test]
fn last_collapse_write_wins() {
    let mut twice = sample_forest();
    assert!(set_collapse_in_tree(&mut twice, &"b".to_string(), false).is_some());
    assert!(set_collapse_in_tree(&mut twice, &"b".to_string(), true).is_some());
    let mut once = sample_forest();
    assert!(set_collapse_in_tree(&mut once, &"b".to_string(), true).is_some());
    assert_eq!(twice[0].children[0].comment.collapsed, once[0].children[0].comment.collapsed);
    assert!(twice[0].children[0].comment.collapsed);
}

#[test]
fn unknown_comment_changes_nothing() {
    let mut forest = sample_forest();
    assert!(set_collapse_in_tree(&mut forest, &"zz".to_string(), false).is_none());
    let fresh = sample_forest();
    assert_eq!(ids(&forest), ids(&fresh));
    assert_eq!(forest[0].comment.collapsed, fresh[0].comment.collapsed);
    assert_eq!(forest[0].children[0].comment.collapsed, fresh[0].children[0].comment.collapsed);
}

#[test]
fn assembling_uses_the_given_times() {
    let cs = vec![raw("a", None, 0, "x"), raw("b", Some("a"), 1, "y")];
    let forest = match assemble_comment_tree(cs, vec![Ok(10), Ok(20)]) {
        Ok(f) => f,
        Err(_) => panic!("tree should assemble"),
    };
    assert_eq!(forest[0].comment.time, Some(10));
    assert_eq!(forest[0].children[0].comment.time, Some(20));
}

#[test]
fn assembling_refuses_a_comment_without_a_time() {
    let cs = vec![raw("a", None, 0, "x"), raw("b", Some("a"), 1, "y")];
    match assemble_comment_tree(cs, vec![Ok(10), Err("premature end of input".to_string())]) {
        Err(TreeError::BadTimestamp { created_at, reason }) => {
            assert_eq!(created_at, "2024-01-01T00:00:00Z");
            assert_eq!(reason, "premature end of input");
        }
        _ => panic!("expected a missing time"),
    }
    let wrong_depth = vec![raw("a", None, 0, "x"), raw("b", Some("a"), 2, "y")];
    match assemble_comment_tree(wrong_depth, vec![Ok(10), Err("x".to_string())]) {
        Err(TreeError::DepthMismatch { id, api, expected }) => {
            assert_eq!((id.as_str(), api, expected), ("b", 2, 1));
        }
        _ => panic!("depth is checked before the time"),
    }
}
