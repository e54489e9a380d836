use vstd::prelude::*;
use crate::text::{is_blank, is_blank_seq};

verus! {

/// Which story feed to show.
#[derive(Clone, Copy, PartialEq, Eq, Structural, Debug)]
pub enum Feed {
    Hottest,
    Newest,
    Active,
}

/// The path segment of a feed's JSON endpoint.
pub open spec fn feed_path(f: Feed) -> Seq<char> {
    match f {
        Feed::Hottest => "hottest"@,
        Feed::Newest => "newest"@,
        Feed::Active => "active"@,
    }
}

impl Feed {
    /// The feed's path segment: `hottest`, `newest` or `active`.
    pub fn path(self) -> (r: &'static str)
        ensures
            r@ == feed_path(self),
    {
        match self {
            Feed::Hottest => "hottest",
            Feed::Newest => "newest",
            Feed::Active => "active",
        }
    }
}

/// The command line, with paths held as text.
pub struct Cli {
    pub feed: Feed,
    pub count: usize,
    pub concurrency: usize,
    pub no_cache: bool,
    pub cache_dir: Option<String>,
    pub log_file: Option<String>,
    pub base_url: String,
    pub ui_config: Option<String>,
}

/// A command line that `Cli::validate` refuses, by the first rule it breaks.
#[derive(Clone, Copy, PartialEq, Eq, Structural, Debug)]
pub enum CliError {
    CountZero,
    ConcurrencyZero,
    BaseUrlEmpty,
    UiConfigEmpty,
    LogFileEmpty,
}

impl CliError {
    /// The error's text.
    pub fn message(&self) -> (r: &'static str)
        ensures
            r@ == cli_error_text(*self),
    {
        match self {
            CliError::CountZero => "--count must be > 0",
            CliError::ConcurrencyZero => "--concurrency must be > 0",
            CliError::BaseUrlEmpty => "--base-url must be non-empty",
            CliError::UiConfigEmpty => "--ui-config must be non-empty",
            CliError::LogFileEmpty => "--log-file must be non-empty",
        }
    }
}

pub open spec fn cli_error_text(e: CliError) -> Seq<char> {
    match e {
        CliError::CountZero => "--count must be > 0"@,
        CliError::ConcurrencyZero => "--concurrency must be > 0"@,
        CliError::BaseUrlEmpty => "--base-url must be non-empty"@,
        CliError::UiConfigEmpty => "--ui-config must be non-empty"@,
        CliError::LogFileEmpty => "--log-file must be non-empty"@,
    }
}

/// The first rule of the command line that `cli` breaks, if any.
pub open spec fn cli_check(cli: Cli) -> Option<CliError> {
    if cli.count == 0 {
        Some(CliError::CountZero)
    } else if cli.concurrency == 0 {
        Some(CliError::ConcurrencyZero)
    } else if is_blank_seq(cli.base_url@) {
        Some(CliError::BaseUrlEmpty)
    } else if cli.ui_config matches Some(p) && p@.len() == 0 {
        Some(CliError::UiConfigEmpty)
    } else if cli.log_file matches Some(p) && p@.len() == 0 {
        Some(CliError::LogFileEmpty)
    } else {
        None
    }
}

impl Cli {
    /// Checks the command line: counts positive, base URL not blank, given paths not
    /// empty; the error names the first rule broken.
    pub fn validate(&self) -> (r: Result<(), CliError>)
        ensures
            match cli_check(*self) {
                None => r is Ok,
                Some(e) => r == Err::<(), CliError>(e),
            },
    {
        if self.count == 0 {
            return Err(CliError::CountZero);
        }
        if self.concurrency == 0 {
            return Err(CliError::ConcurrencyZero);
        }
        if is_blank(self.base_url.as_str()) {
            return Err(CliError::BaseUrlEmpty);
        }
        if let Some(path) = &self.ui_config {
            if path.as_str().is_empty() {
                return Err(CliError::UiConfigEmpty);
            }
        }
        if let Some(path) = &self.log_file {
            if path.as_str().is_empty() {
                return Err(CliError::LogFileEmpty);
            }
        }
        Ok(())
    }
}

} // verus!
