use vstd::prelude::*;
use crate::comments::{opt_str_view, strings_view};

verus! {

/// What `chrono::DateTime::parse_from_rfc3339` gives for a text: the parsed
/// date-time read as whole seconds since the Unix epoch (`DateTime::timestamp`), or
/// the text of chrono's parse error where the text is not an RFC 3339 date-time.
pub uninterp spec fn rfc3339_parse(s: Seq<char>) -> Result<i64, Seq<char>>;

/// The Unix time of an RFC 3339 text, where it is one.
pub open spec fn rfc3339_unix_seconds(s: Seq<char>) -> Option<i64> {
    match rfc3339_parse(s) {
        Ok(t) => Some(t),
        Err(_) => None,
    }
}

/// Why a text is not an RFC 3339 date-time, in chrono's words.
pub open spec fn rfc3339_reason(s: Seq<char>) -> Seq<char> {
    match rfc3339_parse(s) {
        Ok(_) => Seq::empty(),
        Err(r) => r,
    }
}

/// Parses `s` with `chrono::DateTime::parse_from_rfc3339` and, on success, reads
/// `timestamp()` of the parsed date-time; on failure gives the parse error's text
/// (`to_string`). The contract claims only that the result is the named value for
/// the text: the same text always gives the same result.
#[verifier::external_body]
fn rfc3339_seconds(s: &str) -> (r: Result<i64, String>)
    ensures
        match r {
            Ok(t) => rfc3339_parse(s@) == Ok::<i64, Seq<char>>(t),
            Err(e) => rfc3339_parse(s@) == Err::<i64, Seq<char>>(e@),
        },
{
    match chrono::DateTime::parse_from_rfc3339(s) {
        Ok(dt) => Ok(dt.timestamp()),
        Err(e) => Err(e.to_string()),
    }
}

/// A `created_at` text that is not an RFC 3339 date-time, and why.
pub struct TimestampError {
    pub created_at: String,
    pub reason: String,
}

impl TimestampError {
    /// The error's text: the value, then chrono's reason.
    pub fn message(&self) -> (r: String)
        ensures
            r@ == "parse created_at rfc3339: "@ + self.created_at@ + ": "@ + self.reason@,
    {
        let mut out = String::from_str("parse created_at rfc3339: ");
        out.append(self.created_at.as_str());
        out.append(": ");
        out.append(self.reason.as_str());
        out
    }
}

/// The Unix time of an RFC 3339 `created_at` value.
pub fn parse_created_at(created_at: &str) -> (r: Result<i64, TimestampError>)
    ensures
        match rfc3339_parse(created_at@) {
            Ok(t) => r == Ok::<i64, TimestampError>(t),
            Err(why) => r matches Err(e) && e.created_at@ == created_at@ && e.reason@ == why,
        },
{
    match rfc3339_seconds(created_at) {
        Ok(t) => Ok(t),
        Err(reason) => Err(TimestampError { created_at: String::from_str(created_at), reason }),
    }
}

/// A story as the API sends it.
pub struct StoryRaw {
    pub short_id: String,
    pub created_at: String,
    pub title: String,
    pub url: Option<String>,
    pub score: i64,
    pub comment_count: i64,
    pub submitter_user: String,
    pub tags: Vec<String>,
    pub short_id_url: String,
    pub comments_url: String,
}

/// A story of a feed.
pub struct Story {
    pub short_id: String,
    pub title: String,
    pub url: Option<String>,
    pub score: i64,
    pub by: String,
    pub time: i64,
    pub comment_count: i64,
    pub tags: Vec<String>,
    pub short_id_url: String,
    pub comments_url: String,
}

pub ghost struct StoryV {
    pub short_id: Seq<char>,
    pub title: Seq<char>,
    pub url: Option<Seq<char>>,
    pub score: i64,
    pub by: Seq<char>,
    pub time: i64,
    pub comment_count: i64,
    pub tags: Seq<Seq<char>>,
    pub short_id_url: Seq<char>,
    pub comments_url: Seq<char>,
}

impl View for Story {
    type V = StoryV;

    open spec fn view(&self) -> StoryV {
        StoryV {
            short_id: self.short_id@,
            title: self.title@,
            url: opt_str_view(self.url),
            score: self.score,
            by: self.by@,
            time: self.time,
            comment_count: self.comment_count,
            tags: strings_view(self.tags@),
            short_id_url: self.short_id_url@,
            comments_url: self.comments_url@,
        }
    }
}

/// The story that a raw story becomes, given the time its `created_at` stands for.
pub open spec fn story_from_raw_spec(raw: StoryRaw, time: i64) -> StoryV {
    StoryV {
        short_id: raw.short_id@,
        title: raw.title@,
        url: opt_str_view(raw.url),
        score: raw.score,
        by: raw.submitter_user@,
        time,
        comment_count: raw.comment_count,
        tags: strings_view(raw.tags@),
        short_id_url: raw.short_id_url@,
        comments_url: raw.comments_url@,
    }
}

impl Story {
    /// The story that a raw story becomes when its `created_at` stands for `time`.
    pub fn from_parts(raw: StoryRaw, time: i64) -> (r: Story)
        ensures
            r@ == story_from_raw_spec(raw, time),
    {
        Story {
            short_id: raw.short_id,
            title: raw.title,
            url: raw.url,
            score: raw.score,
            by: raw.submitter_user,
            time,
            comment_count: raw.comment_count,
            tags: raw.tags,
            short_id_url: raw.short_id_url,
            comments_url: raw.comments_url,
        }
    }

    /// Turns a raw story into a story; fails exactly when `created_at` is not RFC 3339.
    pub fn from_raw(raw: StoryRaw) -> (r: Result<Story, TimestampError>)
        ensures
            match rfc3339_unix_seconds(raw.created_at@) {
                Some(t) => r matches Ok(s) && s@ == story_from_raw_spec(raw, t),
                None => r matches Err(e) && e.created_at@ == raw.created_at@ && e.reason@
                    == rfc3339_reason(raw.created_at@),
            },
    {
        let time = match parse_created_at(raw.created_at.as_str()) {
            Ok(t) => t,
            Err(e) => return Err(e),
        };
        Ok(Story::from_parts(raw, time))
    }

    /// A copy of the story.
    pub fn duplicate(&self) -> (r: Story)
        ensures
            r@ == self@,
    {
        let url = match &self.url {
            Some(u) => Some(u.clone()),
            None => None,
        };
        let tags = self.tags.clone();
        proof {
            assert(strings_view(tags@) =~= strings_view(self.tags@));
        }
        Story {
            short_id: self.short_id.clone(),
            title: self.title.clone(),
            url,
            score: self.score,
            by: self.by.clone(),
            time: self.time,
            comment_count: self.comment_count,
            tags,
            short_id_url: self.short_id_url.clone(),
            comments_url: self.comments_url.clone(),
        }
    }
}

} // verus!
