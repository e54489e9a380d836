use vstd::prelude::*;
use crate::comments::{Comment, CommentV};
use crate::text::push_char;
use crate::wrap::{wrap_comment, wrap_spec, wrapped_line_count};

verus! {

broadcast use vstd::string::group_string_axioms;

/// The decimal digit for `d`.
pub open spec fn digit_char(d: nat) -> char {
    if d == 0 { '0' }
    else if d == 1 { '1' }
    else if d == 2 { '2' }
    else if d == 3 { '3' }
    else if d == 4 { '4' }
    else if d == 5 { '5' }
    else if d == 6 { '6' }
    else if d == 7 { '7' }
    else if d == 8 { '8' }
    else { '9' }
}

/// The decimal digits of `n`, without leading zeros.
pub open spec fn decimal(n: nat) -> Seq<char>
    decreases n,
{
    if n < 10 {
        seq![digit_char(n)]
    } else {
        decimal(n / 10).push(digit_char(n % 10))
    }
}

fn digit(d: u64) -> (c: char)
    requires
        d < 10,
    ensures
        c == digit_char(d as nat),
{
    if d == 0 { '0' }
    else if d == 1 { '1' }
    else if d == 2 { '2' }
    else if d == 3 { '3' }
    else if d == 4 { '4' }
    else if d == 5 { '5' }
    else if d == 6 { '6' }
    else if d == 7 { '7' }
    else if d == 8 { '8' }
    else { '9' }
}

/// Appends the decimal digits of `n`.
pub fn push_decimal(out: &mut String, n: u64)
    ensures
        final(out)@ == old(out)@ + decimal(n as nat),
    decreases n,
{
    if n >= 10 {
        push_decimal(out, n / 10);
    }
    push_char(out, digit(n % 10));
    proof {
        if n >= 10 {
            assert(old(out)@ + decimal(n as nat) =~= (old(out)@ + decimal((n / 10) as nat)).push(
                digit_char((n % 10) as nat),
            ));
        } else {
            assert(old(out)@ + decimal(n as nat) =~= old(out)@.push(digit_char(n as nat)));
        }
    }
}

/// The seconds from `item_time` to `now`, never below zero (`saturating_sub`, then
/// `max(0)`).
pub open spec fn age_seconds(item_time: i64, now: i64) -> int {
    let d = now - item_time;
    if d > i64::MAX {
        i64::MAX as int
    } else if d < 0 {
        0
    } else {
        d
    }
}

/// An age as its largest whole unit: seconds below a minute, minutes below an hour,
/// hours below two days, days below a year, else years.
pub open spec fn age_text(item_time: i64, now: i64) -> Seq<char> {
    let diff = age_seconds(item_time, now);
    let minutes = diff / 60;
    let hours = minutes / 60;
    let days = hours / 24;
    if diff < 60 {
        decimal(diff as nat) + "s"@
    } else if minutes < 60 {
        decimal(minutes as nat) + "m"@
    } else if hours < 48 {
        decimal(hours as nat) + "h"@
    } else if days < 365 {
        decimal(days as nat) + "d"@
    } else {
        decimal((days / 365) as nat) + "y"@
    }
}

/// How long ago `item_time` was, at `now`, as `45s`, `12m`, `30h`, `200d` or `3y`.
pub fn format_age(item_time: i64, now: i64) -> (r: String)
    ensures
        r@ == age_text(item_time, now),
{
    let d: i128 = now as i128 - item_time as i128;
    let diff: u64 = if d > i64::MAX as i128 {
        i64::MAX as u64
    } else if d < 0 {
        0
    } else {
        d as u64
    };
    let mut out = String::new();
    if diff < 60 {
        push_decimal(&mut out, diff);
        out.append("s");
        return out;
    }
    let minutes = diff / 60;
    if minutes < 60 {
        push_decimal(&mut out, minutes);
        out.append("m");
        return out;
    }
    let hours = minutes / 60;
    if hours < 48 {
        push_decimal(&mut out, hours);
        out.append("h");
        return out;
    }
    let days = hours / 24;
    if days < 365 {
        push_decimal(&mut out, days);
        out.append("d");
        return out;
    }
    push_decimal(&mut out, days / 365);
    out.append("y");
    out
}

/// The current Unix time from the seconds since the epoch (`None` where the clock
/// is before it, which counts as zero), saturating at `i64::MAX`.
pub fn now_unix(secs_since_epoch: Option<u64>) -> (r: i64)
    ensures
        r == match secs_since_epoch {
            Some(s) => if s > i64::MAX as u64 { i64::MAX } else { s as i64 },
            None => 0,
        },
{
    let secs = match secs_since_epoch {
        Some(s) => s,
        None => 0,
    };
    if secs > i64::MAX as u64 {
        i64::MAX
    } else {
        secs as i64
    }
}

/// An error text, with the log file's path where there is a log.
pub fn format_error(err: &str, log_path: Option<&str>) -> (r: String)
    ensures
        r@ == match log_path {
            Some(p) => err@ + " | log: "@ + p@,
            None => err@,
        },
{
    let mut out = String::from_str(err);
    if let Some(path) = log_path {
        out.append(" | log: ");
        out.append(path);
    }
    out
}

/// A screen rectangle.
#[derive(Clone, Copy, PartialEq, Eq, Structural, Debug)]
pub struct Rect {
    pub x: u16,
    pub y: u16,
    pub width: u16,
    pub height: u16,
}

pub open spec fn sat_add_u16(a: u16, b: int) -> u16 {
    if a + b > u16::MAX { u16::MAX } else { (a + b) as u16 }
}

/// A `width` by `height` rectangle (clipped to `area`) centred in `area`.
pub open spec fn centered_spec(area: Rect, width: u16, height: u16) -> Rect {
    let w = if width < area.width { width } else { area.width };
    let h = if height < area.height { height } else { area.height };
    Rect {
        x: sat_add_u16(area.x, (area.width - w) / 2),
        y: sat_add_u16(area.y, (area.height - h) / 2),
        width: w,
        height: h,
    }
}

/// Centres a box of the given size in `area`.
pub fn centered(area: Rect, width: u16, height: u16) -> (r: Rect)
    ensures
        r == centered_spec(area, width, height),
{
    let w = if width < area.width { width } else { area.width };
    let h = if height < area.height { height } else { area.height };
    let dx = (area.width - w) / 2;
    let dy = (area.height - h) / 2;
    let x = if area.x > u16::MAX - dx { u16::MAX } else { area.x + dx };
    let y = if area.y > u16::MAX - dy { u16::MAX } else { area.y + dy };
    Rect { x, y, width: w, height: h }
}

/// The first place at or after `from` where `p` occurs in `s`.
pub open spec fn find_from(s: Seq<char>, p: Seq<char>, from: int) -> Option<int>
    decreases s.len() + 1 - from,
{
    if from < 0 || from + p.len() > s.len() {
        None
    } else if s.subrange(from, from + p.len()) == p {
        Some(from)
    } else {
        find_from(s, p, from + 1)
    }
}

/// `s.split(p).nth(1).unwrap_or(s)`: the text between the first and second `p`, or
/// all of `s` where there is no `p`.
pub open spec fn second_piece(s: Seq<char>, p: Seq<char>) -> Seq<char> {
    match find_from(s, p, 0) {
        None => s,
        Some(i) => {
            let rest = s.skip(i + p.len());
            match find_from(rest, p, 0) {
                None => rest,
                Some(j) => rest.take(j),
            }
        },
    }
}

/// `s` up to its first `c`.
pub open spec fn before_char(s: Seq<char>, c: char) -> Seq<char> {
    match find_from(s, seq![c], 0) {
        None => s,
        Some(i) => s.take(i),
    }
}

/// The last index of `c` in `s` below `n`.
pub open spec fn last_index(s: Seq<char>, c: char, n: int) -> Option<int>
    decreases n,
{
    if n <= 0 {
        None
    } else if s[n - 1] == c {
        Some(n - 1)
    } else {
        last_index(s, c, n - 1)
    }
}

/// `s` after its last `c`.
pub open spec fn after_last(s: Seq<char>, c: char) -> Seq<char> {
    match last_index(s, c, s.len() as int) {
        None => s,
        Some(i) => s.skip(i + 1),
    }
}

/// `s` with every leading `www.` taken off.
pub open spec fn strip_www(s: Seq<char>) -> Seq<char>
    decreases s.len(),
{
    if s.len() >= 4 && s[0] == 'w' && s[1] == 'w' && s[2] == 'w' && s[3] == '.' {
        strip_www(s.skip(4))
    } else {
        s
    }
}

/// The host (and port) of a URL: after the scheme, before the path, after any
/// user part, without leading `www.`.
pub open spec fn domain_spec(url: Seq<char>) -> Seq<char> {
    strip_www(after_last(before_char(second_piece(url, "://"@), '/'), '@'))
}

proof fn lemma_find_from(s: Seq<char>, p: Seq<char>, from: int)
    requires
        find_from(s, p, from) is Some,
    ensures
        from <= find_from(s, p, from)->0,
        find_from(s, p, from)->0 + p.len() <= s.len(),
    decreases s.len() + 1 - from,
{
    if !(from < 0 || from + p.len() > s.len()) && s.subrange(from, from + p.len()) != p {
        lemma_find_from(s, p, from + 1);
    }
}

fn find_at(s: &Vec<char>, p: &Vec<char>, from: usize) -> (r: Option<usize>)
    requires
        from <= s.len(),
    ensures
        match find_from(s@, p@, from as int) {
            Some(i) => r == Some(i as usize),
            None => r is None,
        },
{
    let mut i = from;
    while p.len() <= s.len() - i
        invariant
            from <= i <= s.len(),
            find_from(s@, p@, from as int) == find_from(s@, p@, i as int),
        decreases s.len() - i,
    {
        let mut same = true;
        let mut k: usize = 0;
        while k < p.len()
            invariant
                i + p.len() <= s.len(),
                k <= p.len(),
                same == (forall|m: int| 0 <= m < k ==> s@[i + m] == p@[m]),
            decreases p.len() - k,
        {
            if s[i + k] != p[k] {
                same = false;
            }
            k = k + 1;
        }
        if same {
            assert(s@.subrange(i as int, i + p.len()) =~= p@);
            return Some(i);
        } else {
            assert(s@.subrange(i as int, i + p.len()) != p@) by {
                let m = choose|m: int| 0 <= m < p.len() && s@[i + m] != p@[m];
                assert(s@.subrange(i as int, i + p.len())[m] != p@[m]);
            }
        }
        i = i + 1;
    }
    None
}

fn seq_to_string(v: &Vec<char>, from: usize, to: usize) -> (r: String)
    requires
        from <= to <= v.len(),
    ensures
        r@ == v@.subrange(from as int, to as int),
{
    let mut out = String::new();
    let mut i = from;
    while i < to
        invariant
            from <= i <= to,
            to <= v.len(),
            out@ == v@.subrange(from as int, i as int),
        decreases to - i,
    {
        push_char(&mut out, v[i]);
        assert(out@ =~= v@.subrange(from as int, i + 1));
        i = i + 1;
    }
    out
}

fn scheme_less(url: &str) -> (r: String)
    ensures
        r@ == second_piece(url@, "://"@),
{
    let s = crate::text::chars_of(url);
    let sep = crate::text::chars_of("://");
    proof {
        reveal_strlit("://");
    }
    match find_at(&s, &sep, 0) {
        None => {
            assert(s@.subrange(0, s.len() as int) =~= s@);
            seq_to_string(&s, 0, s.len())
        },
        Some(i) => {
            proof {
                lemma_find_from(s@, sep@, 0);
            }
            let lo = i + 3;
            let rest = seq_to_string(&s, lo, s.len());
            let rv = crate::text::chars_of(rest.as_str());
            assert(rv@ =~= s@.skip(i + 3));
            match find_at(&rv, &sep, 0) {
                None => rest,
                Some(j) => {
                    proof {
                        lemma_find_from(rv@, sep@, 0);
                    }
                    let out = seq_to_string(&rv, 0, j);
                    assert(out@ =~= rv@.take(j as int));
                    out
                },
            }
        },
    }
}

fn up_to_slash(text: &str) -> (r: String)
    ensures
        r@ == before_char(text@, '/'),
{
    let v1 = crate::text::chars_of(text);
    let slash = crate::text::chars_of("/");
    proof {
        reveal_strlit("/");
        assert(slash@ =~= seq!['/']);
    }
    match find_at(&v1, &slash, 0) {
        None => {
            let out = seq_to_string(&v1, 0, v1.len());
            assert(out@ =~= v1@);
            out
        },
        Some(k) => {
            proof {
                lemma_find_from(v1@, slash@, 0);
            }
            let out = seq_to_string(&v1, 0, k);
            assert(out@ =~= v1@.take(k as int));
            out
        },
    }
}

fn after_last_at(text: &str) -> (r: String)
    ensures
        r@ == after_last(text@, '@'),
{
    let v2 = crate::text::chars_of(text);
    let mut k: usize = v2.len();
    while k > 0 && v2[k - 1] != '@'
        invariant
            k <= v2.len(),
            last_index(v2@, '@', v2.len() as int) == last_index(v2@, '@', k as int),
        decreases k,
    {
        k = k - 1;
    }
    let out = seq_to_string(&v2, k, v2.len());
    assert(out@ =~= after_last(v2@, '@')) by {
        if k == 0 {
            assert(v2@.subrange(0, v2.len() as int) =~= v2@);
        } else {
            assert(v2@.subrange(k as int, v2.len() as int) =~= v2@.skip(k as int));
        }
    }
    out
}

fn strip_www_text(text: &str) -> (r: String)
    ensures
        r@ == strip_www(text@),
{
    let v3 = crate::text::chars_of(text);
    let mut from: usize = 0;
    assert(v3@.skip(0) =~= v3@);
    while 4 <= v3.len() - from && v3[from] == 'w' && v3[from + 1] == 'w' && v3[from + 2] == 'w'
        && v3[from + 3] == '.'
        invariant
            from <= v3.len(),
            strip_www(v3@) == strip_www(v3@.skip(from as int)),
        decreases v3.len() - from,
    {
        assert(v3@.skip(from as int).skip(4) =~= v3@.skip(from + 4));
        from = from + 4;
    }
    let out = seq_to_string(&v3, from, v3.len());
    assert(out@ =~= v3@.skip(from as int));
    out
}

/// The host of a URL, as `domain_spec` says; there always is one.
pub fn domain_from_url(url: &str) -> (r: Option<String>)
    ensures
        r matches Some(d) && d@ == domain_spec(url@),
{
    let without_scheme = scheme_less(url);
    let host_port = up_to_slash(without_scheme.as_str());
    let host = after_last_at(host_port.as_str());
    Some(strip_www_text(host.as_str()))
}


/// The mark before a comment: none without replies, closed, turning while replies
/// load, or open.
pub open spec fn marker_spec(c: CommentV, spinner: char) -> char {
    if c.kids.len() == 0 {
        ' '
    } else if c.collapsed {
        '\u{25b8}'
    } else if c.children_loading {
        spinner
    } else {
        '\u{25be}'
    }
}

/// The thread mark shown before a comment.
pub fn thread_marker(c: &Comment, spinner: char) -> (r: char)
    ensures
        r == marker_spec(c@, spinner),
{
    if c.kids.len() == 0 {
        ' '
    } else if c.collapsed {
        '\u{25b8}'
    } else if c.children_loading {
        spinner
    } else {
        '\u{25be}'
    }
}

/// The author shown for a comment, or why there is none.
pub open spec fn author_label_spec(c: CommentV) -> Seq<char> {
    match c.by {
        Some(b) => b,
        None => if c.deleted {
            "[deleted]"@
        } else if c.moderated {
            "[moderated]"@
        } else {
            "[unknown]"@
        },
    }
}

/// The author shown for a comment.
pub fn author_label(c: &Comment) -> (r: String)
    ensures
        r@ == author_label_spec(c@),
{
    match &c.by {
        Some(b) => b.clone(),
        None => if c.deleted {
            String::from_str("[deleted]")
        } else if c.moderated {
            String::from_str("[moderated]")
        } else {
            String::from_str("[unknown]")
        },
    }
}

/// The age shown for a comment at `now`, or `?` without a time.
pub fn comment_age(c: &Comment, now: i64) -> (r: String)
    ensures
        r@ == match c.time {
            Some(t) => age_text(t, now),
            None => "?"@,
        },
{
    match c.time {
        Some(t) => format_age(t, now),
        None => String::from_str("?"),
    }
}

pub open spec fn sat_sub(a: int, b: int) -> int {
    if a >= b { a - b } else { 0 }
}

/// The widths for wrapping a comment: its first line shares the row with the
/// indent, the mark, the author and the age; the next lines follow the indent.
pub open spec fn comment_widths_spec(content_width: usize, depth: usize, by_chars: usize, tail_chars: usize) -> (int, int) {
    let indent = 2 * depth;
    let prefix = indent + 2 + by_chars + 2;
    let first = sat_sub(sat_sub(content_width as int, prefix), tail_chars as int);
    let next = sat_sub(sat_sub(content_width as int, indent), 2);
    (if first < 1 { 1 } else { first }, if next < 1 { 1 } else { next })
}

/// The first-line and next-line widths for a comment at `depth` whose author takes
/// `by_chars` characters and whose age tail takes `tail_chars`.
pub fn comment_widths(content_width: usize, depth: usize, by_chars: usize, tail_chars: usize) -> (r: (usize, usize))
    ensures
        r.0 as int == comment_widths_spec(content_width, depth, by_chars, tail_chars).0,
        r.1 as int == comment_widths_spec(content_width, depth, by_chars, tail_chars).1,
{
    let indent: u128 = 2 * depth as u128;
    let prefix: u128 = indent + 2 + by_chars as u128 + 2;
    let cw = content_width as u128;
    let a = if cw >= prefix { cw - prefix } else { 0 };
    let first = if a >= tail_chars as u128 { a - tail_chars as u128 } else { 0 };
    let b = if cw >= indent { cw - indent } else { 0 };
    let next = if b >= 2 { b - 2 } else { 0 };
    let f = if first < 1 { 1 } else { first as usize };
    let n = if next < 1 { 1 } else { next as usize };
    (f, n)
}

/// The age shown for a comment at `now`, or `?` without a time.
pub open spec fn comment_age_spec(c: CommentV, now: i64) -> Seq<char> {
    match c.time {
        Some(t) => age_text(t, now),
        None => "?"@,
    }
}

/// The number of screen lines a comment takes on rows `width` wide: its text wrapped
/// to the widths its row leaves (after the indent, mark, author and ` | age` tail),
/// cut after `max_lines` lines, at least one.
pub open spec fn comment_height_spec(c: CommentV, width: usize, max_lines: usize, now: i64) -> nat {
    let by = author_label_spec(c);
    let tail = " | "@ + comment_age_spec(c, now);
    let w = comment_widths_spec(width, c.depth as usize, by.len() as usize, tail.len() as usize);
    let n = wrap_spec(c.text, w.0 as usize, w.1 as usize, max_lines).len();
    if n < 1 { 1 } else { n }
}

/// The number of screen lines each comment of `list` takes, in order; each is at
/// least one and at most the line limit (one where the limit is zero).
pub fn comment_heights(list: &Vec<Comment>, width: usize, max_lines: usize, now: i64) -> (r: Vec<usize>)
    ensures
        r@.len() == list@.len(),
        forall|i: int| 0 <= i < r@.len() ==> #[trigger] r@[i] as nat == comment_height_spec(list@[i]@, width, max_lines, now),
        forall|i: int| 0 <= i < r@.len() ==> 1 <= #[trigger] r@[i] <= if max_lines == 0 { 1 } else { max_lines },
{
    let mut out: Vec<usize> = Vec::new();
    for k in 0..list.len()
        invariant
            out@.len() == k,
            forall|i: int| 0 <= i < k ==> #[trigger] out@[i] as nat == comment_height_spec(list@[i]@, width, max_lines, now),
            forall|i: int| 0 <= i < k ==> 1 <= #[trigger] out@[i] <= if max_lines == 0 { 1 } else { max_lines },
    {
        let c = &list[k];
        let by = author_label(c);
        let mut tail = String::from_str(" | ");
        let age = comment_age(c, now);
        tail.append(age.as_str());
        let by_chars = by.as_str().unicode_len();
        let tail_chars = tail.as_str().unicode_len();
        let (first, next) = comment_widths(width, c.depth, by_chars, tail_chars);
        let wrapped = wrap_comment(c.text.as_str(), first, next, max_lines);
        proof {
            wrapped_line_count(c.text@, first, next, max_lines);
        }
        let n = wrapped.len();
        let h = if n < 1 { 1 } else { n };
        out.push(h);
    }
    out
}

} // verus!
