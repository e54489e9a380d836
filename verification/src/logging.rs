use vstd::prelude::*;
use crate::text::{is_blank, is_blank_seq};
use crate::ui_text::{decimal, push_decimal};
use crate::wrap::{trim_seq, trim_text};

verus! {

/// The log file named by the `LSTUI_LOG_FILE` value: its text trimmed, where that is
/// not empty.
pub open spec fn env_log_file_spec(value: Option<Seq<char>>) -> Option<Seq<char>> {
    match value {
        Some(v) => if trim_seq(v).len() == 0 {
            None
        } else {
            Some(trim_seq(v))
        },
        None => None,
    }
}

/// The log file that the `LSTUI_LOG_FILE` value names, if any.
pub fn env_log_file(value: Option<&str>) -> (r: Option<String>)
    ensures
        match env_log_file_spec(
            match value {
                Some(v) => Some(v@),
                None => None,
            },
        ) {
            Some(p) => r matches Some(s) && s@ == p,
            None => r is None,
        },
{
    let v = match value {
        Some(v) => v,
        None => return None,
    };
    let path = trim_text(v);
    if path.as_str().is_empty() {
        return None;
    }
    Some(path)
}

/// The log file that logging starts with: the one given on the command line, else
/// the one the environment names; none means logging is off.
pub fn init(log_file: Option<String>, env_value: Option<&str>) -> (r: Option<String>)
    ensures
        match log_file {
            Some(p) => r matches Some(s) && s@ == p@,
            None => match env_log_file_spec(
                match env_value {
                    Some(v) => Some(v@),
                    None => None,
                },
            ) {
                Some(p) => r matches Some(s) && s@ == p,
                None => r is None,
            },
        },
{
    match log_file {
        Some(p) => Some(p),
        None => env_log_file(env_value),
    }
}

/// One line of the log: the Unix time, the level and the message.
pub open spec fn log_line_spec(ts: u64, level: Seq<char>, message: Seq<char>) -> Seq<char> {
    decimal(ts as nat) + " "@ + level + " "@ + message + "\n"@
}

/// The text of one log line.
pub fn log_line(ts: u64, level: &str, message: &str) -> (r: String)
    ensures
        r@ == log_line_spec(ts, level@, message@),
{
    let mut out = String::new();
    push_decimal(&mut out, ts);
    out.append(" ");
    out.append(level);
    out.append(" ");
    out.append(message);
    out.append("\n");
    out
}

/// The log line of an error at `ts`.
pub fn log_error(ts: u64, message: &str) -> (r: String)
    ensures
        r@ == log_line_spec(ts, "ERROR"@, message@),
{
    log_line(ts, "ERROR", message)
}

/// The log line of a note at `ts`.
pub fn log_info(ts: u64, message: &str) -> (r: String)
    ensures
        r@ == log_line_spec(ts, "INFO"@, message@),
{
    log_line(ts, "INFO", message)
}

} // verus!
