use vstd::prelude::*;
use crate::text::{is_blank, is_blank_seq};

verus! {

/// Why a story list is not saved, or the time of saving cannot be read.
#[derive(Clone, Copy, PartialEq, Eq, Structural, Debug)]
pub enum StoreError {
    EmptyFeed,
    NextPageZero,
    EmptyStories,
    ClockBeforeEpoch,
    SecondsOverflow,
}

pub open spec fn store_error_text(e: StoreError) -> Seq<char> {
    match e {
        StoreError::EmptyFeed => "refusing to save empty feed"@,
        StoreError::NextPageZero => "refusing to save next_page=0"@,
        StoreError::EmptyStories => "refusing to save empty stories state"@,
        StoreError::ClockBeforeEpoch => "system time before unix epoch"@,
        StoreError::SecondsOverflow => "unix seconds overflow i64"@,
    }
}

impl StoreError {
    /// The error's text.
    pub fn message(&self) -> (r: &'static str)
        ensures
            r@ == store_error_text(*self),
    {
        match self {
            StoreError::EmptyFeed => "refusing to save empty feed",
            StoreError::NextPageZero => "refusing to save next_page=0",
            StoreError::EmptyStories => "refusing to save empty stories state",
            StoreError::ClockBeforeEpoch => "system time before unix epoch",
            StoreError::SecondsOverflow => "unix seconds overflow i64",
        }
    }
}

/// A story list is saved only with a feed that is not blank, a next page and at
/// least one story; the error names the first rule broken.
pub fn check_story_list_state(feed: &str, next_page: usize, stories_len: usize) -> (r: Result<(), StoreError>)
    ensures
        is_blank_seq(feed@) ==> r == Err::<(), StoreError>(StoreError::EmptyFeed),
        !is_blank_seq(feed@) && next_page == 0 ==> r == Err::<(), StoreError>(StoreError::NextPageZero),
        !is_blank_seq(feed@) && next_page > 0 && stories_len == 0 ==> r == Err::<(), StoreError>(
            StoreError::EmptyStories,
        ),
        !is_blank_seq(feed@) && next_page > 0 && stories_len > 0 ==> r is Ok,
{
    if is_blank(feed) {
        return Err(StoreError::EmptyFeed);
    }
    if next_page == 0 {
        return Err(StoreError::NextPageZero);
    }
    if stories_len == 0 {
        return Err(StoreError::EmptyStories);
    }
    Ok(())
}

/// The Unix time of saving, from the seconds since the epoch (`None` where the
/// clock is before it).
pub fn now_unix(secs_since_epoch: Option<u64>) -> (r: Result<i64, StoreError>)
    ensures
        match secs_since_epoch {
            None => r == Err::<i64, StoreError>(StoreError::ClockBeforeEpoch),
            Some(s) => if s > i64::MAX as u64 {
                r == Err::<i64, StoreError>(StoreError::SecondsOverflow)
            } else {
                r == Ok::<i64, StoreError>(s as i64)
            },
        },
{
    match secs_since_epoch {
        None => Err(StoreError::ClockBeforeEpoch),
        Some(s) => if s > i64::MAX as u64 {
            Err(StoreError::SecondsOverflow)
        } else {
            Ok(s as i64)
        },
    }
}

} // verus!
