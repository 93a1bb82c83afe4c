//! Fetching a file to disk: the decisions around one transfer.
//!
//! The bytes move in the caller; what is decided here is whether to ask for
//! a range, what the server's answer means, and how far along the transfer
//! is. A part-finished file from an interrupted run is resumed rather than
//! fetched again: large mods are hundreds of megabytes.

use vstd::prelude::*;

use crate::text::{chars_of, concat_chars, string_from_chars};
use crate::upscaler::{decimal, decimal_exec};

verus! {

/// Progress of one file transfer.
#[derive(Debug, Clone, Copy, PartialEq, Eq, Structural)]
pub struct Progress {
    pub done: u64,
    /// `None` when the server did not say how big the file is.
    pub total: Option<u64>,
}

/// The `Range` header that asks for the rest of a part-finished file:
/// `bytes=<already>-`. Nothing when nothing is on disk yet.
pub fn range_header(already: u64) -> (r: Option<String>)
    ensures
        match r {
            Some(h) => already > 0 && h@ == "bytes="@ + decimal(already as nat) + seq!['-'],
            None => already == 0,
        },
{
    if already == 0 {
        return None;
    }
    let mut v = concat_chars(chars_of("bytes=").as_slice(), decimal_exec(already).as_slice());
    v.push('-');
    Some(string_from_chars(v.as_slice()))
}

/// What the server's answer to a transfer request means.
#[derive(Debug, PartialEq, Eq, Structural)]
pub enum Answer {
    /// 429: the caller is being throttled, and nothing is written.
    Throttled,
    /// Any other status outside 2xx: refused, with the body as the reason.
    Refused,
    /// The bytes follow.
    Accepted(Transfer),
}

/// How an accepted transfer proceeds.
#[derive(Debug, PartialEq, Eq, Structural)]
pub struct Transfer {
    /// Append to what is on disk (the range was honoured), rather than start
    /// the file over.
    pub resuming: bool,
    /// Where the transfer stands before the first byte arrives.
    pub start: Progress,
}

/// Read the server's answer to a transfer request. `already` is what was on
/// disk when the request went out; `content_length` what the server says it
/// is sending. A 206 honours the range; a 200 sends the whole file, so
/// whatever is on disk has to be discarded. The total counts what was kept.
pub fn answer_of(status: u16, already: u64, content_length: Option<u64>) -> (r: Answer)
    requires
        content_length matches Some(n) ==> n + already <= u64::MAX,
    ensures
        status == 429 ==> r == Answer::Throttled,
        status != 429 && !(200 <= status <= 299) ==> r == Answer::Refused,
        status != 429 && 200 <= status <= 299 ==> ({
            let resuming = status == 206 && already > 0;
            let kept: u64 = if resuming { already } else { 0 };
            r == Answer::Accepted(Transfer {
                resuming,
                start: Progress {
                    done: kept,
                    total: match content_length {
                        Some(n) => Some((n + kept) as u64),
                        None => None,
                    },
                },
            })
        }),
{
    if status == 429 {
        return Answer::Throttled;
    }
    if !(200 <= status && status <= 299) {
        return Answer::Refused;
    }
    let resuming = status == 206 && already > 0;
    let kept: u64 = if resuming { already } else { 0 };
    let total = match content_length {
        Some(n) => Some(n + kept),
        None => None,
    };
    Answer::Accepted(Transfer { resuming, start: Progress { done: kept, total } })
}

/// Where a transfer stands once `bytes` more have been written.
pub fn advanced(progress: Progress, bytes: u64) -> (r: Progress)
    requires
        progress.done + bytes <= u64::MAX,
    ensures
        r.done == progress.done + bytes,
        r.total == progress.total,
{
    Progress { done: progress.done + bytes, total: progress.total }
}

} // verus!
