use lstui::wrap::{collapse_spaces, flush_line, split_at_char_width, wrap_comment};

#[test]
fn prose_is_filled_to_the_widths() {
    let lines = wrap_comment("hello world foo bar", 11, 7, 10);
    assert_eq!(lines, vec!["hello world", "foo bar"]);
}

#[test]
fn first_line_uses_its_own_width() {
    let lines = wrap_comment("aa bb cc dd", 2, 5, 10);
    assert_eq!(lines, vec!["aa", "bb cc", "dd"]);
}

#[test]
fn long_word_stays_whole() {
    let lines = wrap_comment("abcdefghij xy", 4, 4, 10);
    assert_eq!(lines, vec!["abcdefghij", "xy"]);
}

#[test]
fn zero_line_limit_gives_one_empty_line() {
    assert_eq!(wrap_comment("anything", 10, 10, 0), vec![String::new()]);
}

#[test]
fn empty_text_gives_one_empty_line() {
    assert_eq!(wrap_comment("", 10, 10, 3), vec![String::new()]);
}

#[test]
fn output_is_cut_at_the_line_limit() {
    let lines = wrap_comment("a b c d e f", 1, 1, 3);
    assert_eq!(lines, vec!["a", "b", "c"]);
}

#[test]
fn paragraphs_and_spaces() {
    let lines = wrap_comment("one   two\r\n\nthree", 20, 20, 10);
    assert_eq!(lines, vec!["one two", "three"]);
}

#[test]
fn code_lines_are_cut_not_filled() {
    let lines = wrap_comment("text\n    let x = 1;\nafter", 6, 6, 10);
    assert_eq!(lines, vec!["text", "    le", "t x = ", "1;", "after"]);
}

#[test]
fn fences_are_kept_and_their_lines_are_code() {
    let lines = wrap_comment("  ```rust\nfn  a()\n```\nb  c", 40, 40, 10);
    assert_eq!(lines, vec!["```rust", "fn  a()", "```", "b c"]);
}

#[test]
fn collapse_makes_single_spaces() {
    assert_eq!(collapse_spaces("a \t b\n\nc "), "a b c ");
}

#[test]
fn split_at_width_counts_characters() {
    assert_eq!(split_at_char_width("h\u{e9}llo", 2), ("h\u{e9}".to_string(), "llo".to_string()));
    assert_eq!(split_at_char_width("ab", 5), ("ab".to_string(), String::new()));
}

#[test]
fn flush_moves_the_open_line() {
    let mut out = vec!["x".to_string()];
    let mut cur = "y".to_string();
    flush_line(&mut out, &mut cur, 5);
    assert_eq!(out, vec!["x", "y"]);
    assert!(cur.is_empty());
    let mut empty = String::new();
    flush_line(&mut out, &mut empty, 5);
    assert_eq!(out.len(), 2);
}

#[test]
fn a_line_limit_only_cuts_the_text_short() {
    let text = "alpha beta gamma delta\n    code line that is long\n\nepsilon zeta eta theta";
    let full = wrap_comment(text, 10, 12, usize::MAX);
    assert!(full.len() > 4);
    for m in 1..=full.len() + 2 {
        let capped = wrap_comment(text, 10, 12, m);
        assert_eq!(capped, full[..m.min(full.len())].to_vec());
    }
}
