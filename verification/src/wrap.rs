use vstd::prelude::*;
use crate::comments::strings_view;
use crate::text::{is_whitespace_char, is_ws, push_char, remove_char, without_char};

verus! {

broadcast use vstd::string::group_string_axioms;

/// `s` without its leading white space.
pub open spec fn trim_start_seq(s: Seq<char>) -> Seq<char>
    decreases s.len(),
{
    if s.len() > 0 && is_ws(s[0]) {
        trim_start_seq(s.drop_first())
    } else {
        s
    }
}

/// `s` without its trailing white space.
pub open spec fn trim_end_seq(s: Seq<char>) -> Seq<char>
    decreases s.len(),
{
    if s.len() > 0 && is_ws(s.last()) {
        trim_end_seq(s.drop_last())
    } else {
        s
    }
}

/// `s` without leading or trailing white space.
pub open spec fn trim_seq(s: Seq<char>) -> Seq<char> {
    trim_end_seq(trim_start_seq(s))
}

pub open spec fn starts_with(s: Seq<char>, p: Seq<char>) -> bool {
    p.len() <= s.len() && s.take(p.len() as int) == p
}

/// The pieces of `s` cut at each `'\n'`, all but the last done, the last still open.
pub open spec fn split_state(s: Seq<char>) -> (Seq<Seq<char>>, Seq<char>)
    decreases s.len(),
{
    if s.len() == 0 {
        (Seq::empty(), Seq::empty())
    } else {
        let (ps, cur) = split_state(s.drop_last());
        if s.last() == '\n' {
            (ps.push(cur), Seq::empty())
        } else {
            (ps, cur.push(s.last()))
        }
    }
}

/// `s.split('\n')`: the lines of `s`; there is always at least one.
pub open spec fn split_lines(s: Seq<char>) -> Seq<Seq<char>> {
    split_state(s).0.push(split_state(s).1)
}

/// `collapse_spaces` as a state: the text so far, and whether it ends in white space.
pub open spec fn collapse_state(s: Seq<char>) -> (Seq<char>, bool)
    decreases s.len(),
{
    if s.len() == 0 {
        (Seq::empty(), false)
    } else {
        let (out, prev_space) = collapse_state(s.drop_last());
        if is_ws(s.last()) {
            if prev_space {
                (out, true)
            } else {
                (out.push(' '), true)
            }
        } else {
            (out.push(s.last()), false)
        }
    }
}

/// Every run of white space in `s` made one space.
pub open spec fn collapse_seq(s: Seq<char>) -> Seq<char> {
    collapse_state(s).0
}

/// The words of `s` so far, and the word still open.
pub open spec fn words_state(s: Seq<char>) -> (Seq<Seq<char>>, Seq<char>)
    decreases s.len(),
{
    if s.len() == 0 {
        (Seq::empty(), Seq::empty())
    } else {
        let (ws, cur) = words_state(s.drop_last());
        if is_ws(s.last()) {
            if cur.len() > 0 {
                (ws.push(cur), Seq::empty())
            } else {
                (ws, cur)
            }
        } else {
            (ws, cur.push(s.last()))
        }
    }
}

/// `s.split_whitespace()`: the non-empty runs of non-white-space characters.
pub open spec fn words_of(s: Seq<char>) -> Seq<Seq<char>> {
    let (ws, cur) = words_state(s);
    if cur.len() > 0 {
        ws.push(cur)
    } else {
        ws
    }
}

/// A text with every run of white space made one space.
pub fn collapse_spaces(s: &str) -> (r: String)
    ensures
        r@ == collapse_seq(s@),
{
    let mut out = String::new();
    let mut prev_space = false;
    for ch in it: s.chars()
        invariant
            it.seq() == s@,
            (out@, prev_space) == collapse_state(it.seq().take(it.index() as int)),
    {
        assert(it.seq().take(it.index() + 1).drop_last() =~= it.seq().take(it.index() as int));
        if is_whitespace_char(ch) {
            if !prev_space {
                push_char(&mut out, ' ');
            }
            prev_space = true;
        } else {
            prev_space = false;
            push_char(&mut out, ch);
        }
    }
    assert(s@.take(s@.len() as int) =~= s@);
    out
}

/// The first `width` characters of `s`, and the rest.
pub fn split_at_char_width(s: &str, width: usize) -> (r: (String, String))
    ensures
        r.0@ == s@.take(if width < s@.len() { width as int } else { s@.len() as int }),
        r.1@ == s@.skip(if width < s@.len() { width as int } else { s@.len() as int }),
{
    let n = s.unicode_len();
    let mut head = String::new();
    let mut tail = String::new();
    let mut idx: usize = 0;
    for ch in it: s.chars()
        invariant
            it.seq() == s@,
            n == s@.len(),
            idx == it.index(),
            head@ == s@.take(if width < it.index() { width as int } else { it.index() as int }),
            tail@ == (if width < it.index() { s@.subrange(width as int, it.index() as int) } else {
                Seq::empty()
            }),
    {
        let ghost i = it.index() as int;
        if idx < width {
            push_char(&mut head, ch);
            assert(head@ =~= s@.take(if width < i + 1 { width as int } else { i + 1 }));
        } else {
            push_char(&mut tail, ch);
            assert(tail@ =~= s@.subrange(width as int, i + 1));
        }
        idx = idx + 1;
    }
    if width < n {
        assert(s@.subrange(width as int, s@.len() as int) =~= s@.skip(width as int));
    } else {
        assert(s@.skip(s@.len() as int) =~= Seq::<char>::empty());
    }
    (head, tail)
}

/// Splits a text at each `'\n'`.
fn split_on_newlines(s: &str) -> (r: Vec<String>)
    ensures
        strings_view(r@) == split_lines(s@),
{
    let mut pieces: Vec<String> = Vec::new();
    let mut cur = String::new();
    for ch in it: s.chars()
        invariant
            it.seq() == s@,
            (strings_view(pieces@), cur@) == split_state(it.seq().take(it.index() as int)),
    {
        assert(it.seq().take(it.index() + 1).drop_last() =~= it.seq().take(it.index() as int));
        if ch == '\n' {
            let mut done = String::new();
            std::mem::swap(&mut done, &mut cur);
            let ghost prev = pieces@;
            pieces.push(done);
            assert(strings_view(pieces@) =~= strings_view(prev).push(done@));
        } else {
            push_char(&mut cur, ch);
        }
    }
    assert(s@.take(s@.len() as int) =~= s@);
    let ghost prev = pieces@;
    let ghost last = cur@;
    pieces.push(cur);
    assert(strings_view(pieces@) =~= strings_view(prev).push(last));
    pieces
}

/// The words of a text.
fn split_words(s: &str) -> (r: Vec<String>)
    ensures
        strings_view(r@) == words_of(s@),
{
    let mut words: Vec<String> = Vec::new();
    let mut cur = String::new();
    for ch in it: s.chars()
        invariant
            it.seq() == s@,
            (strings_view(words@), cur@) == words_state(it.seq().take(it.index() as int)),
    {
        assert(it.seq().take(it.index() + 1).drop_last() =~= it.seq().take(it.index() as int));
        if is_whitespace_char(ch) {
            if !cur.as_str().is_empty() {
                let mut done = String::new();
                std::mem::swap(&mut done, &mut cur);
                let ghost prev = words@;
                words.push(done);
                assert(strings_view(words@) =~= strings_view(prev).push(done@));
            }
        } else {
            push_char(&mut cur, ch);
        }
    }
    assert(s@.take(s@.len() as int) =~= s@);
    if !cur.as_str().is_empty() {
        let ghost prev = words@;
        let ghost last = cur@;
        words.push(cur);
        assert(strings_view(words@) =~= strings_view(prev).push(last));
    }
    words
}

proof fn lemma_trim_start_at(s: Seq<char>, k: int)
    requires
        0 <= k <= s.len(),
        forall|i: int| 0 <= i < k ==> is_ws(#[trigger] s[i]),
        k == s.len() || !is_ws(s[k]),
    ensures
        trim_start_seq(s) == s.skip(k),
    decreases k,
{
    if k == 0 {
        assert(s.skip(0) =~= s);
    } else {
        lemma_trim_start_at(s.drop_first(), k - 1);
        assert(s.drop_first().skip(k - 1) =~= s.skip(k));
    }
}

proof fn lemma_trim_end_at(s: Seq<char>, k: int)
    requires
        0 <= k <= s.len(),
        forall|i: int| k <= i < s.len() ==> is_ws(#[trigger] s[i]),
        k == 0 || !is_ws(s[k - 1]),
    ensures
        trim_end_seq(s) == s.take(k),
    decreases s.len() - k,
{
    if k == s.len() {
        assert(s.take(k) =~= s);
    } else {
        lemma_trim_end_at(s.drop_last(), k);
        assert(s.drop_last().take(k) =~= s.take(k));
    }
}

/// A text without its leading white space.
fn trim_start_text(s: &str) -> (r: String)
    ensures
        r@ == trim_start_seq(s@),
{
    let mut out = String::new();
    let mut started = false;
    let ghost mut k: int = 0;
    for ch in it: s.chars()
        invariant
            it.seq() == s@,
            0 <= k <= it.index(),
            !started ==> k == it.index(),
            forall|i: int| 0 <= i < k ==> is_ws(#[trigger] s@[i]),
            started ==> k < s@.len() && !is_ws(s@[k]),
            out@ == s@.subrange(k, it.index() as int),
    {
        let ghost i = it.index() as int;
        if !started && is_whitespace_char(ch) {
            proof {
                k = k + 1;
            }
        } else {
            started = true;
            push_char(&mut out, ch);
        }
        assert(out@ =~= s@.subrange(k, i + 1));
    }
    proof {
        lemma_trim_start_at(s@, k);
        assert(s@.subrange(k, s@.len() as int) =~= s@.skip(k));
    }
    out
}

/// A text without leading or trailing white space.
pub fn trim_text(s: &str) -> (r: String)
    ensures
        r@ == trim_seq(s@),
{
    let t = trim_start_text(s);
    let n = t.as_str().unicode_len();
    let ghost ts = t@;
    let mut end: usize = 0;
    let mut pos: usize = 0;
    for ch in it: t.as_str().chars()
        invariant
            it.seq() == ts,
            n == ts.len(),
            pos == it.index(),
            end <= pos,
            forall|i: int| end <= i < pos ==> is_ws(#[trigger] ts[i]),
            end == 0 || !is_ws(ts[end - 1]),
    {
        if !is_whitespace_char(ch) {
            end = pos + 1;
        }
        pos = pos + 1;
    }
    let mut out = String::new();
    let mut idx: usize = 0;
    for ch in it: t.as_str().chars()
        invariant
            it.seq() == ts,
            n == ts.len(),
            idx == it.index(),
            end <= ts.len(),
            out@ == ts.take(if idx < end { idx as int } else { end as int }),
    {
        if idx < end {
            push_char(&mut out, ch);
            assert(out@ =~= ts.take(idx + 1));
        }
        idx = idx + 1;
    }
    proof {
        lemma_trim_end_at(ts, end as int);
    }
    out
}


/// The lines wrapped so far, the line being filled, whether a code fence is open,
/// and whether the line limit has been reached.
pub ghost struct WrapV {
    pub out: Seq<Seq<char>>,
    pub current: Seq<char>,
    pub in_fence: bool,
    pub done: bool,
}

pub open spec fn flush_spec(st: WrapV) -> WrapV {
    if st.current.len() == 0 {
        st
    } else {
        WrapV { out: st.out.push(st.current), current: Seq::empty(), ..st }
    }
}

pub open spec fn check_spec(st: WrapV, max: usize) -> WrapV {
    WrapV { done: st.done || st.out.len() >= max, ..st }
}

pub open spec fn push_line_spec(st: WrapV, l: Seq<char>) -> WrapV {
    WrapV { out: st.out.push(l), ..st }
}

/// The width of the next line: the first line's width until a line is out, then the
/// others' width; at least one.
pub open spec fn width_of(st: WrapV, first_width: usize, next_width: usize) -> nat {
    let w = if st.out.len() == 0 { first_width } else { next_width };
    if w == 0 { 1 } else { w as nat }
}

/// A code line cut into pieces of `width` characters.
pub open spec fn chunks_spec(st: WrapV, rest: Seq<char>, width: nat, max: usize) -> WrapV
    decreases rest.len(),
{
    if width > 0 && rest.len() > width {
        let st1 = check_spec(push_line_spec(st, rest.take(width as int)), max);
        if st1.done {
            st1
        } else {
            chunks_spec(st1, rest.skip(width as int), width, max)
        }
    } else {
        check_spec(push_line_spec(st, rest), max)
    }
}

/// One word added: to the line being filled where it fits, else on a new line.
pub open spec fn add_word_spec(st: WrapV, w: Seq<char>, first_width: usize, next_width: usize, max: usize) -> WrapV {
    if st.done {
        st
    } else if st.current.len() == 0 {
        WrapV { current: w, ..st }
    } else if st.current.len() + 1 + w.len() <= width_of(st, first_width, next_width) {
        WrapV { current: st.current.push(' ') + w, ..st }
    } else {
        let st1 = check_spec(WrapV { out: st.out.push(st.current), current: Seq::empty(), ..st }, max);
        if st1.done {
            st1
        } else {
            WrapV { current: w, ..st1 }
        }
    }
}

/// The first `k` words added.
pub open spec fn add_words_spec(st: WrapV, words: Seq<Seq<char>>, k: int, first_width: usize, next_width: usize, max: usize) -> WrapV
    decreases k,
{
    if k <= 0 || k > words.len() {
        st
    } else {
        add_word_spec(add_words_spec(st, words, k - 1, first_width, next_width, max), words[k - 1], first_width, next_width, max)
    }
}

/// One line of the comment wrapped: a fence line is kept as it is and opens or
/// closes code; a code line is cut at the width; prose is filled word by word.
pub open spec fn line_spec(st: WrapV, line: Seq<char>, first_width: usize, next_width: usize, max: usize) -> WrapV {
    if st.done {
        st
    } else {
        let fence = trim_start_seq(line);
        if starts_with(fence, "```"@) {
            let st1 = check_spec(flush_spec(st), max);
            if st1.done {
                st1
            } else {
                let st2 = check_spec(push_line_spec(st1, fence), max);
                if st2.done {
                    st2
                } else {
                    WrapV { in_fence: !st2.in_fence, ..st2 }
                }
            }
        } else if st.in_fence || starts_with(line, "    "@) || starts_with(line, "\t"@) {
            let st1 = check_spec(flush_spec(st), max);
            if st1.done {
                st1
            } else if line.len() == 0 {
                check_spec(push_line_spec(st1, Seq::empty()), max)
            } else {
                chunks_spec(st1, line, width_of(st1, first_width, next_width), max)
            }
        } else {
            let l = collapse_seq(trim_seq(line));
            if l.len() == 0 {
                check_spec(flush_spec(st), max)
            } else {
                let ws = words_of(l);
                let st1 = add_words_spec(st, ws, ws.len() as int, first_width, next_width, max);
                if st1.done {
                    st1
                } else {
                    check_spec(flush_spec(st1), max)
                }
            }
        }
    }
}

/// The first `k` lines wrapped.
pub open spec fn lines_spec(lines: Seq<Seq<char>>, k: int, first_width: usize, next_width: usize, max: usize) -> WrapV
    decreases k,
{
    if k <= 0 || k > lines.len() {
        WrapV { out: Seq::empty(), current: Seq::empty(), in_fence: false, done: false }
    } else {
        line_spec(lines_spec(lines, k - 1, first_width, next_width, max), lines[k - 1], first_width, next_width, max)
    }
}

/// A comment wrapped to the widths, cut off after `max_lines` lines: the first line
/// is `first_width` wide, the others `next_width`; there is always a line.
pub open spec fn wrap_spec(s: Seq<char>, first_width: usize, next_width: usize, max_lines: usize) -> Seq<Seq<char>> {
    if max_lines == 0 {
        seq![Seq::empty()]
    } else {
        let lines = split_lines(without_char(s, '\r'));
        let st = lines_spec(lines, lines.len() as int, first_width, next_width, max_lines);
        if st.done {
            st.out
        } else {
            let st2 = flush_spec(st);
            if st2.out.len() == 0 {
                seq![Seq::empty()]
            } else {
                st2.out
            }
        }
    }
}

/// Moves the line being filled, if any, to the lines out.
pub fn flush_line(out: &mut Vec<String>, current: &mut String, max_lines: usize)
    ensures
        old(current)@.len() == 0 ==> strings_view(final(out)@) == strings_view(old(out)@)
            && final(current)@ == old(current)@,
        old(current)@.len() > 0 ==> strings_view(final(out)@) == strings_view(old(out)@).push(
            old(current)@,
        ) && final(current)@.len() == 0,
{
    if current.as_str().is_empty() {
        return;
    }
    let mut taken = String::new();
    std::mem::swap(&mut taken, current);
    let ghost prev = out@;
    let ghost line = taken@;
    out.push(taken);
    assert(strings_view(out@) =~= strings_view(prev).push(line));
    if out.len() >= max_lines {
        *current = String::new();
    }
}

/// The state of wrapping a comment.
pub struct WrapState {
    pub out: Vec<String>,
    pub current: String,
    pub in_fence: bool,
    pub done: bool,
}

impl View for WrapState {
    type V = WrapV;

    open spec fn view(&self) -> WrapV {
        WrapV { out: strings_view(self.out@), current: self.current@, in_fence: self.in_fence, done: self.done }
    }
}

fn check_full(st: &mut WrapState, max: usize)
    ensures
        final(st)@ == check_spec(old(st)@, max),
{
    if st.out.len() >= max {
        st.done = true;
    }
}

fn push_out(st: &mut WrapState, l: String)
    ensures
        final(st)@ == push_line_spec(old(st)@, l@),
{
    let ghost prev = st.out@;
    let ghost lv = l@;
    st.out.push(l);
    assert(strings_view(st.out@) =~= strings_view(prev).push(lv));
}

fn flush_state(st: &mut WrapState, max: usize)
    ensures
        final(st)@ == flush_spec(old(st)@),
{
    flush_line(&mut st.out, &mut st.current, max);
    proof {
        if old(st)@.current.len() > 0 {
            assert(st.current@ =~= Seq::<char>::empty());
        }
    }
}

fn width_for(st: &WrapState, first_width: usize, next_width: usize) -> (r: usize)
    ensures
        r == width_of(st@, first_width, next_width),
        r >= 1,
{
    let w = if st.out.len() == 0 { first_width } else { next_width };
    if w == 0 { 1 } else { w }
}

/// Cuts a code line into pieces of `width` characters.
fn emit_chunks(st: &mut WrapState, line: String, width: usize, max: usize)
    requires
        width >= 1,
    ensures
        final(st)@ == chunks_spec(old(st)@, line@, width as nat, max),
{
    let ghost target = chunks_spec(st@, line@, width as nat, max);
    let mut rest = line;
    loop
        invariant
            width >= 1,
            target == chunks_spec(old(st)@, line@, width as nat, max),
            chunks_spec(st@, rest@, width as nat, max) == target,
        decreases rest@.len(),
    {
        let n = rest.as_str().unicode_len();
        if n > width {
            let (head, tail) = split_at_char_width(rest.as_str(), width);
            push_out(st, head);
            check_full(st, max);
            if st.done {
                return;
            }
            rest = tail;
        } else {
            push_out(st, rest);
            check_full(st, max);
            return;
        }
    }
}

/// Adds one word of prose.
fn add_word(st: &mut WrapState, word: String, first_width: usize, next_width: usize, max: usize)
    ensures
        final(st)@ == add_word_spec(old(st)@, word@, first_width, next_width, max),
{
    if st.done {
        return;
    }
    let width = width_for(st, first_width, next_width);
    if st.current.as_str().is_empty() {
        st.current = word;
        return;
    }
    let cur_len = st.current.as_str().unicode_len();
    let word_len = word.as_str().unicode_len();
    if cur_len < width && word_len <= width - 1 - cur_len {
        push_char(&mut st.current, ' ');
        st.current.append(word.as_str());
        return;
    }
    let mut taken = String::new();
    std::mem::swap(&mut taken, &mut st.current);
    push_out(st, taken);
    check_full(st, max);
    if st.done {
        return;
    }
    st.current = word;
}

/// Whether `s` begins with `p`.
fn has_prefix(s: &str, p: &str) -> (r: bool)
    ensures
        r == starts_with(s@, p@),
{
    let sv = crate::text::chars_of(s);
    let pv = crate::text::chars_of(p);
    if pv.len() > sv.len() {
        return false;
    }
    for i in 0..pv.len()
        invariant
            pv@ == p@,
            sv@ == s@,
            pv.len() <= sv.len(),
            forall|j: int| 0 <= j < i ==> sv@[j] == pv@[j],
    {
        if sv[i] != pv[i] {
            assert(s@.take(p@.len() as int)[i as int] != p@[i as int]);
            return false;
        }
    }
    assert(s@.take(p@.len() as int) =~= p@);
    true
}

/// Wraps one line of the comment.
fn wrap_line(st: &mut WrapState, line: &String, first_width: usize, next_width: usize, max: usize)
    ensures
        final(st)@ == line_spec(old(st)@, line@, first_width, next_width, max),
{
    if st.done {
        return;
    }
    let fence = trim_start_text(line.as_str());
    if has_prefix(fence.as_str(), "```") {
        flush_state(st, max);
        check_full(st, max);
        if st.done {
            return;
        }
        push_out(st, fence);
        check_full(st, max);
        if st.done {
            return;
        }
        st.in_fence = !st.in_fence;
        return;
    }
    if st.in_fence || has_prefix(line.as_str(), "    ") || has_prefix(line.as_str(), "\t") {
        flush_state(st, max);
        check_full(st, max);
        if st.done {
            return;
        }
        let width = width_for(st, first_width, next_width);
        if line.as_str().is_empty() {
            push_out(st, String::new());
            check_full(st, max);
            return;
        }
        emit_chunks(st, line.clone(), width, max);
        return;
    }
    let trimmed = trim_text(line.as_str());
    let collapsed = collapse_spaces(trimmed.as_str());
    if collapsed.as_str().is_empty() {
        flush_state(st, max);
        check_full(st, max);
        return;
    }
    let words = split_words(collapsed.as_str());
    let ghost ws = strings_view(words@);
    let ghost st0 = st@;
    for k in 0..words.len()
        invariant
            ws == strings_view(words@),
            st@ == add_words_spec(st0, ws, k as int, first_width, next_width, max),
    {
        add_word(st, words[k].clone(), first_width, next_width, max);
    }
    if st.done {
        return;
    }
    flush_state(st, max);
    check_full(st, max);
}

/// Wraps a comment's text to the widths, cut off after `max_lines` lines.
pub fn wrap_comment(s: &str, first_width: usize, next_width: usize, max_lines: usize) -> (r: Vec<String>)
    ensures
        strings_view(r@) == wrap_spec(s@, first_width, next_width, max_lines),
{
    if max_lines == 0 {
        let mut v: Vec<String> = Vec::new();
        v.push(String::new());
        assert(strings_view(v@) =~= seq![Seq::<char>::empty()]);
        return v;
    }
    let text = remove_char(s, '\r');
    let lines = split_on_newlines(text.as_str());
    let ghost ls = strings_view(lines@);
    let mut st = WrapState { out: Vec::new(), current: String::new(), in_fence: false, done: false };
    assert(st@ == lines_spec(ls, 0, first_width, next_width, max_lines)) by {
        assert(strings_view(st.out@) =~= Seq::<Seq<char>>::empty());
    }
    for k in 0..lines.len()
        invariant
            ls == strings_view(lines@),
            st@ == lines_spec(ls, k as int, first_width, next_width, max_lines),
    {
        wrap_line(&mut st, &lines[k], first_width, next_width, max_lines);
    }
    if st.done {
        return st.out;
    }
    flush_state(&mut st, max_lines);
    if st.out.len() == 0 {
        st.out.push(String::new());
        assert(strings_view(st.out@) =~= seq![Seq::<char>::empty()]);
    }
    st.out
}


/// Fewer lines out than the limit while wrapping goes on, at most the limit once it
/// stops, at least the limit when it stops.
pub open spec fn within_limit(st: WrapV, max: usize) -> bool {
    &&& st.out.len() <= max
    &&& !st.done ==> st.out.len() < max
    &&& st.done ==> st.out.len() >= max
}

proof fn lemma_chunks_limit(st: WrapV, rest: Seq<char>, width: nat, max: usize)
    requires
        within_limit(st, max),
        !st.done,
    ensures
        within_limit(chunks_spec(st, rest, width, max), max),
    decreases rest.len(),
{
    if width > 0 && rest.len() > width {
        let st1 = check_spec(push_line_spec(st, rest.take(width as int)), max);
        if !st1.done {
            lemma_chunks_limit(st1, rest.skip(width as int), width, max);
        }
    }
}

proof fn lemma_add_words_limit(st: WrapV, words: Seq<Seq<char>>, k: int, fw: usize, nw: usize, max: usize)
    requires
        within_limit(st, max),
    ensures
        within_limit(add_words_spec(st, words, k, fw, nw, max), max),
    decreases k,
{
    if !(k <= 0 || k > words.len()) {
        lemma_add_words_limit(st, words, k - 1, fw, nw, max);
    }
}

proof fn lemma_lines_limit(lines: Seq<Seq<char>>, k: int, fw: usize, nw: usize, max: usize)
    requires
        max >= 1,
    ensures
        within_limit(lines_spec(lines, k, fw, nw, max), max),
    decreases k,
{
    if !(k <= 0 || k > lines.len()) {
        lemma_lines_limit(lines, k - 1, fw, nw, max);
        let st = lines_spec(lines, k - 1, fw, nw, max);
        let line = lines[k - 1];
        if !st.done {
            let fence = trim_start_seq(line);
            if !starts_with(fence, "```"@) && (st.in_fence || starts_with(line, "    "@) || starts_with(line, "\t"@)) {
                let st1 = check_spec(flush_spec(st), max);
                if !st1.done && line.len() != 0 {
                    lemma_chunks_limit(st1, line, width_of(st1, fw, nw), max);
                }
            } else if !starts_with(fence, "```"@) {
                let l = collapse_seq(trim_seq(line));
                if l.len() != 0 {
                    let ws = words_of(l);
                    lemma_add_words_limit(st, ws, ws.len() as int, fw, nw, max);
                }
            }
        }
    }
}

/// A wrapped comment has at least one line and no more than the limit (one line
/// where the limit is zero).
pub proof fn wrapped_line_count(s: Seq<char>, first_width: usize, next_width: usize, max_lines: usize)
    ensures
        1 <= wrap_spec(s, first_width, next_width, max_lines).len(),
        wrap_spec(s, first_width, next_width, max_lines).len() <= if max_lines == 0 { 1 } else { max_lines as int },
{
    if max_lines > 0 {
        let lines = split_lines(without_char(s, '\r'));
        lemma_lines_limit(lines, lines.len() as int, first_width, next_width, max_lines);
    }
}


proof fn lemma_collapse_state(s: Seq<char>)
    ensures
        forall|i: int| 0 <= i < collapse_state(s).0.len() && is_ws(#[trigger] collapse_state(s).0[i]) ==> collapse_state(s).0[i] == ' ',
        forall|i: int| 0 <= i < collapse_state(s).0.len() - 1 ==> !(#[trigger] collapse_state(s).0[i] == ' ' && collapse_state(s).0[i + 1] == ' '),
        collapse_state(s).1 <==> (collapse_state(s).0.len() > 0 && collapse_state(s).0.last() == ' '),
    decreases s.len(),
{
    if s.len() > 0 {
        lemma_collapse_state(s.drop_last());
        let (out, prev) = collapse_state(s.drop_last());
        let r = collapse_state(s).0;
        assert forall|i: int| 0 <= i < r.len() && is_ws(#[trigger] r[i]) implies r[i] == ' ' by {
            if i < out.len() {
                assert(r[i] == out[i]);
            }
        }
        assert forall|i: int| 0 <= i < r.len() - 1 implies !(#[trigger] r[i] == ' ' && r[i + 1] == ' ') by {
            if i + 1 < out.len() {
                assert(r[i] == out[i] && r[i + 1] == out[i + 1]);
            } else {
                assert(r[i] == out[i]);
            }
        }
    }
}

/// A collapsed text has no white space but single spaces: every white-space
/// character is a space, and no two spaces are adjacent.
pub proof fn collapsed_spaces_are_single(s: Seq<char>)
    ensures
        forall|i: int| 0 <= i < collapse_seq(s).len() && is_ws(#[trigger] collapse_seq(s)[i]) ==> collapse_seq(s)[i] == ' ',
        forall|i: int| 0 <= i < collapse_seq(s).len() - 1 ==> !(#[trigger] collapse_seq(s)[i] == ' ' && collapse_seq(s)[i + 1] == ' '),
{
    lemma_collapse_state(s);
}

/// Splitting at a width loses nothing: the head followed by the tail is the text.
pub proof fn split_at_width_keeps_text(s: Seq<char>, width: usize)
    ensures
        ({
            let w = if width < s.len() { width as int } else { s.len() as int };
            s.take(w) + s.skip(w) == s
        }),
{
    let w = if width < s.len() { width as int } else { s.len() as int };
    assert(s.take(w) + s.skip(w) =~= s);
}

/// `x` begins with the lines of `y`.
pub open spec fn extends(x: Seq<Seq<char>>, y: Seq<Seq<char>>) -> bool {
    y.len() <= x.len() && x.take(y.len() as int) == y
}

proof fn lemma_extends_refl(x: Seq<Seq<char>>)
    ensures
        extends(x, x),
{
    assert(x.take(x.len() as int) =~= x);
}

proof fn lemma_extends_push(x: Seq<Seq<char>>, l: Seq<char>)
    ensures
        extends(x.push(l), x),
{
    assert(x.push(l).take(x.len() as int) =~= x);
}

proof fn lemma_extends_trans(x: Seq<Seq<char>>, y: Seq<Seq<char>>, z: Seq<Seq<char>>)
    requires
        extends(x, y),
        extends(y, z),
    ensures
        extends(x, z),
{
    assert forall|i: int| 0 <= i < z.len() implies x.take(z.len() as int)[i] == z[i] by {
        assert(x.take(y.len() as int)[i] == y[i]);
        assert(y.take(z.len() as int)[i] == z[i]);
    }
    assert(x.take(z.len() as int) =~= z);
}

proof fn lemma_flush_ext(st: WrapV)
    ensures
        extends(flush_spec(st).out, st.out),
{
    lemma_extends_refl(st.out);
    lemma_extends_push(st.out, st.current);
}

proof fn lemma_chunks_ext(st: WrapV, rest: Seq<char>, width: nat, max: usize)
    ensures
        extends(chunks_spec(st, rest, width, max).out, st.out),
    decreases rest.len(),
{
    lemma_extends_push(st.out, rest.take(width as int));
    lemma_extends_push(st.out, rest);
    if width > 0 && rest.len() > width {
        let st1 = check_spec(push_line_spec(st, rest.take(width as int)), max);
        if !st1.done {
            lemma_chunks_ext(st1, rest.skip(width as int), width, max);
            lemma_extends_trans(chunks_spec(st1, rest.skip(width as int), width, max).out, st1.out, st.out);
        }
    }
}

proof fn lemma_add_word_ext(st: WrapV, w: Seq<char>, fw: usize, nw: usize, max: usize)
    ensures
        extends(add_word_spec(st, w, fw, nw, max).out, st.out),
{
    lemma_extends_refl(st.out);
    lemma_extends_push(st.out, st.current);
}

proof fn lemma_add_words_ext(st: WrapV, words: Seq<Seq<char>>, k: int, fw: usize, nw: usize, max: usize)
    ensures
        extends(add_words_spec(st, words, k, fw, nw, max).out, st.out),
    decreases k,
{
    if k <= 0 || k > words.len() {
        lemma_extends_refl(st.out);
    } else {
        let prev = add_words_spec(st, words, k - 1, fw, nw, max);
        lemma_add_words_ext(st, words, k - 1, fw, nw, max);
        lemma_add_word_ext(prev, words[k - 1], fw, nw, max);
        lemma_extends_trans(add_word_spec(prev, words[k - 1], fw, nw, max).out, prev.out, st.out);
    }
}

proof fn lemma_line_ext(st: WrapV, line: Seq<char>, fw: usize, nw: usize, max: usize)
    ensures
        extends(line_spec(st, line, fw, nw, max).out, st.out),
{
    lemma_extends_refl(st.out);
    if !st.done {
        let fence = trim_start_seq(line);
        let st1 = check_spec(flush_spec(st), max);
        lemma_flush_ext(st);
        if starts_with(fence, "```"@) {
            lemma_extends_push(st1.out, fence);
            lemma_extends_trans(st1.out.push(fence), st1.out, st.out);
        } else if st.in_fence || starts_with(line, "    "@) || starts_with(line, "\t"@) {
            lemma_extends_push(st1.out, Seq::empty());
            lemma_extends_trans(st1.out.push(Seq::empty()), st1.out, st.out);
            let w = width_of(st1, fw, nw);
            lemma_chunks_ext(st1, line, w, max);
            lemma_extends_trans(chunks_spec(st1, line, w, max).out, st1.out, st.out);
        } else {
            let l = collapse_seq(trim_seq(line));
            let ws = words_of(l);
            let st2 = add_words_spec(st, ws, ws.len() as int, fw, nw, max);
            lemma_add_words_ext(st, ws, ws.len() as int, fw, nw, max);
            lemma_flush_ext(st2);
            lemma_extends_trans(flush_spec(st2).out, st2.out, st.out);
        }
    }
}

/// The run capped at `m` lines and the run capped at `big` lines agree: the same
/// state until the first stops, after which the other begins with its lines.
pub open spec fn capped_runs(a: WrapV, b: WrapV, m: usize) -> bool {
    &&& within_limit(a, m)
    &&& !a.done ==> a == b
    &&& a.done ==> extends(b.out, a.out)
}

proof fn lemma_check_runs(y: WrapV, m: usize, big: usize)
    requires
        !y.done,
        y.out.len() <= m,
        1 <= m <= big,
    ensures
        capped_runs(check_spec(y, m), check_spec(y, big), m),
{
    lemma_extends_refl(y.out);
}

proof fn lemma_chunks_runs(x: WrapV, rest: Seq<char>, width: nat, m: usize, big: usize)
    requires
        !x.done,
        within_limit(x, m),
        1 <= m <= big,
    ensures
        capped_runs(chunks_spec(x, rest, width, m), chunks_spec(x, rest, width, big), m),
    decreases rest.len(),
{
    if width > 0 && rest.len() > width {
        let y = push_line_spec(x, rest.take(width as int));
        lemma_check_runs(y, m, big);
        let a1 = check_spec(y, m);
        let b1 = check_spec(y, big);
        if a1.done {
            if !b1.done {
                lemma_chunks_ext(b1, rest.skip(width as int), width, big);
                lemma_extends_trans(chunks_spec(b1, rest.skip(width as int), width, big).out, b1.out, a1.out);
            }
        } else {
            lemma_chunks_runs(a1, rest.skip(width as int), width, m, big);
        }
    } else {
        lemma_check_runs(push_line_spec(x, rest), m, big);
    }
}

proof fn lemma_add_word_runs(x: WrapV, w: Seq<char>, fw: usize, nw: usize, m: usize, big: usize)
    requires
        !x.done,
        within_limit(x, m),
        1 <= m <= big,
    ensures
        capped_runs(add_word_spec(x, w, fw, nw, m), add_word_spec(x, w, fw, nw, big), m),
{
    if x.current.len() != 0 && !(x.current.len() + 1 + w.len() <= width_of(x, fw, nw)) {
        let y = WrapV { out: x.out.push(x.current), current: Seq::empty(), ..x };
        lemma_check_runs(y, m, big);
    }
}

proof fn lemma_add_words_runs(x: WrapV, words: Seq<Seq<char>>, k: int, fw: usize, nw: usize, m: usize, big: usize)
    requires
        !x.done,
        within_limit(x, m),
        1 <= m <= big,
    ensures
        capped_runs(add_words_spec(x, words, k, fw, nw, m), add_words_spec(x, words, k, fw, nw, big), m),
    decreases k,
{
    if !(k <= 0 || k > words.len()) {
        lemma_add_words_runs(x, words, k - 1, fw, nw, m, big);
        let a = add_words_spec(x, words, k - 1, fw, nw, m);
        let b = add_words_spec(x, words, k - 1, fw, nw, big);
        if a.done {
            lemma_add_word_ext(b, words[k - 1], fw, nw, big);
            lemma_extends_trans(add_word_spec(b, words[k - 1], fw, nw, big).out, b.out, a.out);
        } else {
            lemma_add_word_runs(a, words[k - 1], fw, nw, m, big);
        }
    }
}

proof fn lemma_line_runs(x: WrapV, line: Seq<char>, fw: usize, nw: usize, m: usize, big: usize)
    requires
        !x.done,
        within_limit(x, m),
        1 <= m <= big,
    ensures
        capped_runs(line_spec(x, line, fw, nw, m), line_spec(x, line, fw, nw, big), m),
{
    let fence = trim_start_seq(line);
    let f = flush_spec(x);
    lemma_check_runs(f, m, big);
    let a1 = check_spec(f, m);
    let b1 = check_spec(f, big);
    if starts_with(fence, "```"@) {
        if a1.done {
            lemma_extends_push(b1.out, fence);
            lemma_extends_trans(b1.out.push(fence), b1.out, a1.out);
        } else {
            lemma_check_runs(push_line_spec(a1, fence), m, big);
        }
    } else if x.in_fence || starts_with(line, "    "@) || starts_with(line, "\t"@) {
        if a1.done {
            lemma_extends_push(b1.out, Seq::empty());
            lemma_extends_trans(b1.out.push(Seq::empty()), b1.out, a1.out);
            lemma_chunks_ext(b1, line, width_of(b1, fw, nw), big);
            lemma_extends_trans(chunks_spec(b1, line, width_of(b1, fw, nw), big).out, b1.out, a1.out);
        } else if line.len() == 0 {
            lemma_check_runs(push_line_spec(a1, Seq::empty()), m, big);
        } else {
            lemma_chunks_runs(a1, line, width_of(a1, fw, nw), m, big);
        }
    } else {
        let l = collapse_seq(trim_seq(line));
        if l.len() != 0 {
            let ws = words_of(l);
            lemma_add_words_runs(x, ws, ws.len() as int, fw, nw, m, big);
            let a2 = add_words_spec(x, ws, ws.len() as int, fw, nw, m);
            let b2 = add_words_spec(x, ws, ws.len() as int, fw, nw, big);
            if a2.done {
                if !b2.done {
                    lemma_flush_ext(b2);
                    lemma_extends_trans(flush_spec(b2).out, b2.out, a2.out);
                }
            } else {
                lemma_check_runs(flush_spec(a2), m, big);
            }
        }
    }
}

proof fn lemma_lines_runs(lines: Seq<Seq<char>>, k: int, fw: usize, nw: usize, m: usize, big: usize)
    requires
        1 <= m <= big,
    ensures
        capped_runs(lines_spec(lines, k, fw, nw, m), lines_spec(lines, k, fw, nw, big), m),
    decreases k,
{
    if !(k <= 0 || k > lines.len()) {
        lemma_lines_runs(lines, k - 1, fw, nw, m, big);
        let a = lines_spec(lines, k - 1, fw, nw, m);
        let b = lines_spec(lines, k - 1, fw, nw, big);
        if a.done {
            lemma_line_ext(b, lines[k - 1], fw, nw, big);
            lemma_extends_trans(line_spec(b, lines[k - 1], fw, nw, big).out, b.out, a.out);
        } else {
            lemma_line_runs(a, lines[k - 1], fw, nw, m, big);
        }
    }
}

/// A line limit only cuts the wrapped text short: wrapping with a limit of `m` lines
/// gives the first lines (up to `m`) of wrapping with any larger limit `big`, such as
/// `usize::MAX`; the lines that are kept do not change.
pub proof fn capped_wrap_is_a_prefix(s: Seq<char>, first_width: usize, next_width: usize, m: usize, big: usize)
    requires
        1 <= m <= big,
    ensures
        ({
            let full = wrap_spec(s, first_width, next_width, big);
            wrap_spec(s, first_width, next_width, m) == full.take(
                if m < full.len() { m as int } else { full.len() as int },
            )
        }),
{
    let lines = split_lines(without_char(s, '\r'));
    let n = lines.len() as int;
    lemma_lines_runs(lines, n, first_width, next_width, m, big);
    let a = lines_spec(lines, n, first_width, next_width, m);
    let b = lines_spec(lines, n, first_width, next_width, big);
    let full = wrap_spec(s, first_width, next_width, big);
    wrapped_line_count(s, first_width, next_width, m);
    if a.done {
        lemma_flush_ext(b);
        if !b.done {
            lemma_extends_trans(flush_spec(b).out, b.out, a.out);
        }
        assert(extends(full, a.out));
        assert(full.take(m as int) =~= a.out);
    } else {
        assert(full.take(full.len() as int) =~= full);
    }
}

} // verus!
