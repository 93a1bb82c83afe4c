//! Staying inside the Nexus API rate limits.
//!
//! Every response carries the remaining allowance in headers. Reading them is
//! cheaper than being cut off, and showing the number in the UI explains why a
//! big collection install slows down instead of leaving the user guessing.

use vstd::prelude::*;

use crate::plan::{trim, trim_exec};
use crate::text::{
    chars_eq, chars_of, lower, lower_chars, parse_i64, parse_i64_of, parse_unsigned,
    parse_unsigned_of,
};

verus! {

/// The allowance as of the last response.
#[derive(Debug, Clone, Copy, Default, PartialEq, Eq, Structural)]
pub struct RateLimit {
    pub hourly_remaining: Option<i64>,
    pub hourly_limit: Option<i64>,
    pub daily_remaining: Option<i64>,
    pub daily_limit: Option<i64>,
    /// Seconds until the hourly window resets, when the server said so.
    pub reset_after_secs: Option<u64>,
}

/// A number read from a header value, if it is one.
pub open spec fn header_i64(v: Seq<char>) -> Option<i64> {
    match parse_i64_of(trim(v)) {
        Some(n) => Some(n as i64),
        None => None,
    }
}

pub open spec fn header_u64(v: Seq<char>) -> Option<u64> {
    match parse_unsigned_of(trim(v), 0xffff_ffff_ffff_ffff) {
        Some(n) => Some(n as u64),
        None => None,
    }
}

/// The reading after one more header.
pub open spec fn with_header(l: RateLimit, name: Seq<char>, value: Seq<char>) -> RateLimit {
    let n = lower(name);
    if n == "x-rl-hourly-remaining"@ {
        RateLimit { hourly_remaining: header_i64(value), ..l }
    } else if n == "x-rl-hourly-limit"@ {
        RateLimit { hourly_limit: header_i64(value), ..l }
    } else if n == "x-rl-daily-remaining"@ {
        RateLimit { daily_remaining: header_i64(value), ..l }
    } else if n == "x-rl-daily-limit"@ {
        RateLimit { daily_limit: header_i64(value), ..l }
    } else if n == "retry-after"@ {
        RateLimit { reset_after_secs: header_u64(value), ..l }
    } else {
        l
    }
}

pub open spec fn no_reading() -> RateLimit {
    RateLimit {
        hourly_remaining: None,
        hourly_limit: None,
        daily_remaining: None,
        daily_limit: None,
        reset_after_secs: None,
    }
}

/// The reading a list of headers gives, later headers winning.
pub open spec fn reading_of(headers: Seq<(Seq<char>, Seq<char>)>) -> RateLimit
    decreases headers.len(),
{
    if headers.len() == 0 {
        no_reading()
    } else {
        with_header(reading_of(headers.drop_last()), headers.last().0, headers.last().1)
    }
}

pub open spec fn header_views(h: Seq<(&str, &str)>) -> Seq<(Seq<char>, Seq<char>)> {
    h.map_values(|p: (&str, &str)| (p.0@, p.1@))
}

/// A fresh reading over an older one: what the fresh one knows wins.
pub open spec fn merged(old: RateLimit, newer: RateLimit) -> RateLimit {
    RateLimit {
        hourly_remaining: if newer.hourly_remaining is Some {
            newer.hourly_remaining
        } else {
            old.hourly_remaining
        },
        hourly_limit: if newer.hourly_limit is Some {
            newer.hourly_limit
        } else {
            old.hourly_limit
        },
        daily_remaining: if newer.daily_remaining is Some {
            newer.daily_remaining
        } else {
            old.daily_remaining
        },
        daily_limit: if newer.daily_limit is Some {
            newer.daily_limit
        } else {
            old.daily_limit
        },
        reset_after_secs: if newer.reset_after_secs is Some {
            newer.reset_after_secs
        } else {
            old.reset_after_secs
        },
    }
}

pub open spec fn exhausted(l: RateLimit) -> bool {
    (match l.hourly_remaining {
        Some(n) => n <= 0,
        None => false,
    }) || (match l.daily_remaining {
        Some(n) => n <= 0,
        None => false,
    })
}

fn header_i64_exec(v: &str) -> (r: Option<i64>)
    ensures
        r == header_i64(v@),
{
    let t = trim_exec(chars_of(v).as_slice());
    parse_i64(t.as_slice())
}

fn header_u64_exec(v: &str) -> (r: Option<u64>)
    ensures
        r == header_u64(v@),
{
    let t = trim_exec(chars_of(v).as_slice());
    parse_unsigned(t.as_slice(), 0xffff_ffff_ffff_ffff)
}

impl RateLimit {
    /// A reading that knows nothing yet.
    pub fn unknown() -> (r: RateLimit)
        ensures
            r == no_reading(),
    {
        RateLimit {
            hourly_remaining: None,
            hourly_limit: None,
            daily_remaining: None,
            daily_limit: None,
            reset_after_secs: None,
        }
    }

    /// Read the `X-RL-*` headers. Names are matched case-insensitively because
    /// header casing is not guaranteed.
    pub fn from_headers(headers: &[(&str, &str)]) -> (r: RateLimit)
        ensures
            r == reading_of(header_views(headers@)),
    {
        let ghost hv = header_views(headers@);
        let mut limit = RateLimit::unknown();
        let mut i: usize = 0;
        while i < headers.len()
            invariant
                i <= headers.len(),
                hv == header_views(headers@),
                limit == reading_of(hv.subrange(0, i as int)),
            decreases headers.len() - i,
        {
            let ghost t = hv.subrange(0, i + 1);
            assert(t.drop_last() =~= hv.subrange(0, i as int));
            let (name, value) = headers[i];
            assert(t.last() == (name@, value@));
            let n = lower_chars(chars_of(name).as_slice());
            if chars_eq(n.as_slice(), chars_of("x-rl-hourly-remaining").as_slice()) {
                limit.hourly_remaining = header_i64_exec(value);
            } else if chars_eq(n.as_slice(), chars_of("x-rl-hourly-limit").as_slice()) {
                limit.hourly_limit = header_i64_exec(value);
            } else if chars_eq(n.as_slice(), chars_of("x-rl-daily-remaining").as_slice()) {
                limit.daily_remaining = header_i64_exec(value);
            } else if chars_eq(n.as_slice(), chars_of("x-rl-daily-limit").as_slice()) {
                limit.daily_limit = header_i64_exec(value);
            } else if chars_eq(n.as_slice(), chars_of("retry-after").as_slice()) {
                limit.reset_after_secs = header_u64_exec(value);
            }
            i = i + 1;
        }
        assert(hv.subrange(0, headers.len() as int) =~= hv);
        limit
    }

    /// True when the next call would almost certainly be refused.
    pub fn is_exhausted(&self) -> (r: bool)
        ensures
            r == exhausted(*self),
    {
        (match self.hourly_remaining {
            Some(n) => n <= 0,
            None => false,
        }) || (match self.daily_remaining {
            Some(n) => n <= 0,
            None => false,
        })
    }

    /// Merge a fresh reading over the previous one, keeping known values.
    pub fn merge(&mut self, newer: RateLimit)
        ensures
            *final(self) == merged(*old(self), newer),
            final(self).hourly_remaining == if newer.hourly_remaining is Some {
                newer.hourly_remaining
            } else {
                old(self).hourly_remaining
            },
            final(self).hourly_limit == if newer.hourly_limit is Some {
                newer.hourly_limit
            } else {
                old(self).hourly_limit
            },
            final(self).daily_remaining == if newer.daily_remaining is Some {
                newer.daily_remaining
            } else {
                old(self).daily_remaining
            },
            final(self).daily_limit == if newer.daily_limit is Some {
                newer.daily_limit
            } else {
                old(self).daily_limit
            },
            final(self).reset_after_secs == if newer.reset_after_secs is Some {
                newer.reset_after_secs
            } else {
                old(self).reset_after_secs
            },
    {
        if newer.hourly_remaining.is_some() {
            self.hourly_remaining = newer.hourly_remaining;
        }
        if newer.hourly_limit.is_some() {
            self.hourly_limit = newer.hourly_limit;
        }
        if newer.daily_remaining.is_some() {
            self.daily_remaining = newer.daily_remaining;
        }
        if newer.daily_limit.is_some() {
            self.daily_limit = newer.daily_limit;
        }
        if newer.reset_after_secs.is_some() {
            self.reset_after_secs = newer.reset_after_secs;
        }
    }
}

/// The wait before retry number `attempt`, in seconds.
pub open spec fn backoff_of(attempt: u32, retry_after: Option<u64>) -> u64 {
    match retry_after {
        Some(secs) => if secs < 3600 {
            secs
        } else {
            3600
        },
        None => {
            let e: nat = if attempt < 6 {
                attempt as nat
            } else {
                6
            };
            let p = vstd::arithmetic::power2::pow2(e);
            if p < 60 {
                p as u64
            } else {
                60
            }
        },
    }
}

/// How many seconds to wait before retrying attempt number `attempt`
/// (1-based).
///
/// A `Retry-After` from the server always wins, capped at an hour; otherwise
/// this backs off exponentially and stops growing at a minute, so a long
/// queue recovers on its own without hammering the API.
pub fn backoff(attempt: u32, retry_after: Option<u64>) -> (r: u64)
    ensures
        r == backoff_of(attempt, retry_after),
{
    match retry_after {
        Some(secs) => if secs < 3600 {
            secs
        } else {
            3600
        },
        None => {
            let e: u32 = if attempt < 6 {
                attempt
            } else {
                6
            };
            let mut p: u64 = 1;
            let mut k: u32 = 0;
            proof {
                vstd::arithmetic::power2::lemma2_to64();
            }
            while k < e
                invariant
                    k <= e,
                    e <= 6,
                    p == vstd::arithmetic::power2::pow2(k as nat),
                    p <= 64,
                decreases e - k,
            {
                proof {
                    vstd::arithmetic::power2::lemma2_to64();
                }
                p = p * 2;
                k = k + 1;
                proof {
                    vstd::arithmetic::power2::lemma2_to64();
                    assert(vstd::arithmetic::power2::pow2(k as nat) == 2 * vstd::arithmetic::power2::pow2((k - 1) as nat)) by {
                        vstd::arithmetic::power2::lemma_pow2_unfold(k as nat);
                    }
                }
            }
            if p < 60 {
                p
            } else {
                60
            }
        },
    }
}

/// Whether a status is worth trying again: throttling or a server fault.
pub fn is_retryable(status: u16) -> (r: bool)
    ensures
        r == (status == 429 || (500 <= status && status < 600)),
{
    status == 429 || (500 <= status && status < 600)
}

/// A newer reading replaces every value it carries and leaves the others as
/// they were; so a newer reading that finds either allowance used up makes
/// the merged allowance exhausted, whatever the older reading said, and
/// merging a reading that carries nothing changes nothing.
pub proof fn law_a_newer_reading_wins(older: RateLimit, newer: RateLimit)
    ensures
        newer.hourly_remaining is Some ==> merged(older, newer).hourly_remaining == newer.hourly_remaining,
        newer.hourly_remaining is None ==> merged(older, newer).hourly_remaining == older.hourly_remaining,
        newer.hourly_limit is Some ==> merged(older, newer).hourly_limit == newer.hourly_limit,
        newer.hourly_limit is None ==> merged(older, newer).hourly_limit == older.hourly_limit,
        newer.daily_remaining is Some ==> merged(older, newer).daily_remaining == newer.daily_remaining,
        newer.daily_remaining is None ==> merged(older, newer).daily_remaining == older.daily_remaining,
        newer.daily_limit is Some ==> merged(older, newer).daily_limit == newer.daily_limit,
        newer.daily_limit is None ==> merged(older, newer).daily_limit == older.daily_limit,
        newer.reset_after_secs is Some ==> merged(older, newer).reset_after_secs == newer.reset_after_secs,
        newer.reset_after_secs is None ==> merged(older, newer).reset_after_secs == older.reset_after_secs,
        (newer.daily_remaining matches Some(n) && n <= 0) ==> exhausted(merged(older, newer)),
        (newer.hourly_remaining matches Some(n) && n <= 0) ==> exhausted(merged(older, newer)),
        ({
            let nothing = RateLimit {
                hourly_remaining: None,
                hourly_limit: None,
                daily_remaining: None,
                daily_limit: None,
                reset_after_secs: None,
            };
            merged(older, nothing) == older
        }),
{
}

} // verus!
