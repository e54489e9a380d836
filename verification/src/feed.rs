use vstd::prelude::*;
use crate::cli::{Feed, feed_path};
use crate::text::{chars_of, push_char};
use crate::ui_text::{decimal, push_decimal};

verus! {

/// Where fetching a feed stands after one more page has come in.
#[derive(Clone, Copy, PartialEq, Eq, Structural, Debug)]
pub enum FeedProgress {
    /// Not enough stories yet: fetch `next_page`.
    More { next_page: usize },
    /// Stop; the list goes on at `next_page` later, unless the feed has ended.
    Done { next_page: usize, end_reached: bool },
}

/// Fetching a feed page by page until `count` stories are in: an empty page ends the
/// feed; otherwise stop once `collected` (with this page) reaches `count`.
pub open spec fn feed_progress_spec(collected: nat, page_len: nat, count: nat, page: nat) -> FeedProgress {
    if page_len == 0 {
        FeedProgress::Done { next_page: page as usize, end_reached: true }
    } else if collected + page_len >= count {
        FeedProgress::Done { next_page: (page + 1) as usize, end_reached: false }
    } else {
        FeedProgress::More { next_page: (page + 1) as usize }
    }
}

/// The step after page `page` brought `page_len` stories to the `collected` before it.
pub fn after_feed_page(collected: usize, page_len: usize, count: usize, page: usize) -> (r: FeedProgress)
    requires
        page < usize::MAX,
    ensures
        r == feed_progress_spec(collected as nat, page_len as nat, count as nat, page as nat),
{
    if page_len == 0 {
        FeedProgress::Done { next_page: page, end_reached: true }
    } else if page_len >= count || collected >= count - page_len {
        FeedProgress::Done { next_page: page + 1, end_reached: false }
    } else {
        FeedProgress::More { next_page: page + 1 }
    }
}

/// After one more page was appended: an empty page ends the feed and the next page
/// stays; else the next page is the one after.
pub fn appended_page_result(page: usize, page_len: usize) -> (r: (usize, bool))
    requires
        page < usize::MAX,
    ensures
        r.1 == (page_len == 0),
        r.0 == if page_len == 0 { page as int } else { page + 1 },
{
    let end_reached = page_len == 0;
    let next_page = if end_reached { page } else { page + 1 };
    (next_page, end_reached)
}

/// `s` without the slashes at its end.
pub open spec fn trim_end_slashes(s: Seq<char>) -> Seq<char>
    decreases s.len(),
{
    if s.len() > 0 && s.last() == '/' {
        trim_end_slashes(s.drop_last())
    } else {
        s
    }
}

proof fn lemma_trim_end_slashes(s: Seq<char>, n: int)
    requires
        0 <= n <= s.len(),
        forall|i: int| n <= i < s.len() ==> s[i] == '/',
    ensures
        trim_end_slashes(s) == trim_end_slashes(s.take(n)),
    decreases s.len() - n,
{
    if n < s.len() {
        assert(s.drop_last().take(n) =~= s.take(n));
        lemma_trim_end_slashes(s.drop_last(), n);
    } else {
        assert(s.take(n) =~= s);
    }
}

/// The base URL of the API with the slashes at its end taken off.
pub fn trim_base_url(s: &str) -> (r: String)
    ensures
        r@ == trim_end_slashes(s@),
{
    let cs = chars_of(s);
    let mut n: usize = cs.len();
    while n > 0 && cs[n - 1] == '/'
        invariant
            cs@ == s@,
            n <= cs.len(),
            forall|i: int| n <= i < cs.len() ==> cs@[i] == '/',
        decreases n,
    {
        n = n - 1;
    }
    proof {
        lemma_trim_end_slashes(s@, n as int);
        assert(n == 0 ==> s@.take(0) =~= Seq::<char>::empty());
    }
    let mut out = String::new();
    let mut i: usize = 0;
    while i < n
        invariant
            cs@ == s@,
            n <= cs.len(),
            i <= n,
            out@ == s@.take(i as int),
        decreases n - i,
    {
        push_char(&mut out, cs[i]);
        assert(s@.take(i + 1) =~= s@.take(i as int).push(s@[i as int]));
        i = i + 1;
    }
    out
}

/// The JSON endpoint of page `page` of a feed.
pub open spec fn feed_page_url_spec(base: Seq<char>, feed: Feed, page: nat) -> Seq<char> {
    base + "/"@ + feed_path(feed) + ".json?page="@ + decimal(page)
}

/// The URL of page `page` of `feed` under the (trimmed) base URL.
pub fn feed_page_url(base: &str, feed: Feed, page: usize) -> (r: String)
    ensures
        r@ == feed_page_url_spec(base@, feed, page as nat),
{
    let mut out = String::from_str(base);
    out.append("/");
    out.append(feed.path());
    out.append(".json?page=");
    push_decimal(&mut out, page as u64);
    out
}

/// The JSON endpoint of a story with its comments.
pub open spec fn story_detail_url_spec(base: Seq<char>, short_id: Seq<char>) -> Seq<char> {
    base + "/s/"@ + short_id + ".json"@
}

/// The URL of the story `short_id` with its comments, under the (trimmed) base URL.
pub fn story_detail_url(base: &str, short_id: &str) -> (r: String)
    ensures
        r@ == story_detail_url_spec(base@, short_id@),
{
    let mut out = String::from_str(base);
    out.append("/s/");
    out.append(short_id);
    out.append(".json");
    out
}

} // verus!
