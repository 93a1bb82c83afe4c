//! What the Discord presence says.
//!
//! It never names a mod, a collection or a game folder — only counts. What
//! somebody has installed is their business, and a friends list is not the
//! place to find out.

use vstd::prelude::*;

use crate::text::{chars_of, concat_chars, string_from_chars};
use crate::upscaler::{decimal, decimal_exec};

verus! {

/// What the presence should say.
#[derive(Debug, Clone, Copy, PartialEq, Eq, Structural)]
pub struct Presence {
    pub enabled: bool,
    /// How many mods are installed, and how many of those are switched on.
    pub installed: usize,
    pub enabled_mods: usize,
    /// Set while downloads are in flight.
    pub downloading: usize,
}

impl Presence {
    /// The line Discord shows under the app name. Counts only.
    pub fn details(&self) -> (r: String)
        ensures
            r@ == if self.downloading > 0 {
                "Downloading "@ + decimal(self.downloading as nat) + " mod"@ + if self.downloading == 1 {
                    Seq::<char>::empty()
                } else {
                    seq!['s']
                }
            } else {
                "Managing mods"@
            },
    {
        if self.downloading > 0 {
            let v = concat_chars(chars_of("Downloading ").as_slice(), decimal_exec(self.downloading as u64).as_slice());
            let mut v = concat_chars(v.as_slice(), chars_of(" mod").as_slice());
            if self.downloading != 1 {
                v.push('s');
            } else {
                assert(v@ + Seq::<char>::empty() =~= v@);
            }
            return string_from_chars(v.as_slice());
        }
        crate::text::owned("Managing mods")
    }

    pub fn state(&self) -> (r: String)
        ensures
            r@ == if self.installed == 0 {
                "Nothing installed yet"@
            } else {
                decimal(self.enabled_mods as nat) + " of "@ + decimal(self.installed as nat) + " enabled"@
            },
    {
        if self.installed == 0 {
            return crate::text::owned("Nothing installed yet");
        }
        let v = concat_chars(decimal_exec(self.enabled_mods as u64).as_slice(), chars_of(" of ").as_slice());
        let v = concat_chars(v.as_slice(), decimal_exec(self.installed as u64).as_slice());
        let v = concat_chars(v.as_slice(), chars_of(" enabled").as_slice());
        string_from_chars(v.as_slice())
    }
}

/// The publishing side of the presence: it remembers what was last sent so
/// an unchanged presence is not published twice.
pub struct Discord {
    last: Option<Presence>,
}

impl Discord {
    pub fn new() -> (r: Discord)
        ensures
            r.last_sent() is None,
    {
        Discord { last: None }
    }

    pub closed spec fn last_sent(&self) -> Option<Presence> {
        self.last
    }

    /// The presence to publish, if it says anything different from the last.
    pub fn update(&mut self, presence: Presence) -> (r: Option<Presence>)
        ensures
            (r, final(self).last_sent()) == published(old(self).last_sent(), presence),
    {
        let same = match &self.last {
            Some(p) => p.enabled == presence.enabled && p.installed == presence.installed
                && p.enabled_mods == presence.enabled_mods && p.downloading == presence.downloading,
            None => false,
        };
        if same {
            return None;
        }
        self.last = Some(presence);
        Some(presence)
    }
}

/// What an update sends, and what is remembered afterwards.
pub open spec fn published(last: Option<Presence>, p: Presence) -> (Option<Presence>, Option<Presence>) {
    if last == Some(p) {
        (None, last)
    } else {
        (Some(p), Some(p))
    }
}

/// Publishing the same presence twice sends it once: whatever was sent
/// before, a second update with the same presence sends nothing.
pub proof fn law_unchanged_presence_is_sent_once(last: Option<Presence>, p: Presence)
    ensures
        published(published(last, p).1, p).0 is None,
{
}

} // verus!
