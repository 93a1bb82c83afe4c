//! What the machine's graphics card can actually run.
//!
//! Installing a DLL the hardware cannot load is worse than doing nothing: the
//! game silently loses the feature and the cause is invisible. So the adapter
//! is identified first and the offer is narrowed to what it supports. The
//! classification works on the adapter description string, which is why it
//! can be checked against the real names cards report.

use vstd::prelude::*;

use crate::plan::{is_ws_exec, trim_start};
use crate::text::{
    all_digit_chars, chars_of, digits_value, is_digit, slice_chars, upper, upper_chars,
};

verus! {

#[derive(Debug, Clone, Copy, PartialEq, Eq, Structural, Hash)]
pub enum Vendor {
    Nvidia,
    Amd,
    Intel,
    Other,
}

/// The vendor behind a PCI vendor id, which is what DXGI reports.
pub open spec fn vendor_of(id: u32) -> Vendor {
    if id == 0x10DE {
        Vendor::Nvidia
    } else if id == 0x1002 || id == 0x1022 {
        Vendor::Amd
    } else if id == 0x8086 {
        Vendor::Intel
    } else {
        Vendor::Other
    }
}

impl Vendor {
    /// PCI vendor ids, which are what DXGI reports.
    pub fn from_pci_id(id: u32) -> (r: Vendor)
        ensures
            r == vendor_of(id),
    {
        if id == 0x10DE {
            Vendor::Nvidia
        } else if id == 0x1002 || id == 0x1022 {
            Vendor::Amd
        } else if id == 0x8086 {
            Vendor::Intel
        } else {
            Vendor::Other
        }
    }
}

/// A feature an upscaler DLL needs from the hardware.
#[derive(Debug, Clone, Copy, PartialEq, Eq, Structural, Hash)]
pub enum Capability {
    /// Anything that runs the game at all.
    Universal,
    /// Tensor cores: RTX 20 series and later.
    DlssSuperResolution,
    /// The optical flow accelerator: RTX 40 series and later.
    DlssFrameGeneration,
}

/// One display adapter, as reported by the system.
#[derive(Debug, Clone, PartialEq, Eq)]
pub struct Adapter {
    /// What the driver calls it, e.g. "NVIDIA GeForce RTX 4070 Ti".
    pub name: String,
    pub vendor: Vendor,
    /// Video memory in bytes, used only to pick the real card over a
    /// software or remote-desktop adapter.
    pub memory_bytes: u64,
}

/// `m` occurs in `s` at `i`.
pub open spec fn occurs_at(s: Seq<char>, m: Seq<char>, i: int) -> bool {
    0 <= i && i + m.len() <= s.len() && s.subrange(i, i + m.len()) == m
}

/// The first place at or after `i` where `m` occurs in `s`.
pub open spec fn find_from(s: Seq<char>, m: Seq<char>, i: int) -> Option<int>
    decreases s.len() + 1 - i,
{
    if i < 0 || i + m.len() > s.len() {
        None
    } else if occurs_at(s, m, i) {
        Some(i)
    } else {
        find_from(s, m, i + 1)
    }
}

/// `str::contains` for a text.
pub open spec fn contains_text(s: Seq<char>, m: Seq<char>) -> bool {
    find_from(s, m, 0) is Some
}

/// The ASCII digits a text starts with.
pub open spec fn leading_digits(s: Seq<char>) -> Seq<char>
    decreases s.len(),
{
    if s.len() > 0 && is_digit(s[0]) {
        seq![s[0]] + leading_digits(s.drop_first())
    } else {
        Seq::empty()
    }
}

/// The RTX series a card of this name and vendor belongs to.
///
/// Workstation cards carry the architecture in the name and are placed by
/// it; otherwise the four-digit model number after `RTX` gives the series,
/// and only series 20 to 50 count.
pub open spec fn rtx_series_of(name: Seq<char>, vendor: Vendor) -> Option<u16> {
    let u = upper(name);
    if vendor != Vendor::Nvidia {
        None
    } else if contains_text(u, "RTX A"@) {
        Some(30)
    } else if contains_text(u, "RTX 6000 ADA"@) || contains_text(u, "RTX 5000 ADA"@)
        || contains_text(u, "RTX 4500 ADA"@) || contains_text(u, "RTX 4000 ADA"@) {
        Some(40)
    } else {
        match find_from(u, seq!['R', 'T', 'X'], 0) {
            None => None,
            Some(i) => {
                let d = leading_digits(trim_start(u.subrange(i + 3, u.len() as int)));
                let series = digits_value(d) / 1000 * 10;
                if d.len() == 4 && 20 <= series <= 50 {
                    Some(series as u16)
                } else {
                    None
                }
            },
        }
    }
}

/// Whether a card can use a DLL needing `cap`.
pub open spec fn supports_of(name: Seq<char>, vendor: Vendor, cap: Capability) -> bool {
    match cap {
        Capability::Universal => true,
        Capability::DlssSuperResolution => vendor == Vendor::Nvidia && rtx_series_of(name, vendor) is Some,
        Capability::DlssFrameGeneration => vendor == Vendor::Nvidia && match rtx_series_of(name, vendor) {
            Some(s) => s >= 40,
            None => false,
        },
    }
}

/// A place `find_from` reports is a place `m` occurs.
pub proof fn lemma_find_from_occurs(s: Seq<char>, m: Seq<char>, i: int)
    ensures
        match find_from(s, m, i) {
            Some(j) => occurs_at(s, m, j),
            None => true,
        },
    decreases s.len() + 1 - i,
{
    if !(i < 0 || i + m.len() > s.len()) && !occurs_at(s, m, i) {
        lemma_find_from_occurs(s, m, i + 1);
    }
}

/// The first place at or after `from` where `m` occurs in `s`.
pub fn find_text(s: &[char], m: &[char], from: usize) -> (r: Option<usize>)
    ensures
        match r {
            Some(i) => find_from(s@, m@, from as int) == Some(i as int),
            None => find_from(s@, m@, from as int) is None,
        },
{
    let mut i: usize = from;
    while i <= s.len() && m.len() <= s.len() - i
        invariant
            from <= i,
            find_from(s@, m@, from as int) == find_from(s@, m@, i as int),
        decreases s.len() + 1 - i,
    {
        let mut k: usize = 0;
        while k < m.len() && s[i + k] == m[k]
            invariant
                k <= m.len(),
                i + m.len() <= s.len(),
                forall|j: int| 0 <= j < k ==> s@[i + j] == m@[j],
            decreases m.len() - k,
        {
            k = k + 1;
        }
        if k == m.len() {
            assert(s@.subrange(i as int, i + m.len()) =~= m@);
            return Some(i);
        }
        assert(s@.subrange(i as int, i + m.len())[k as int] != m@[k as int]);
        i = i + 1;
    }
    None
}

fn leading_digits_exec(s: &[char]) -> (r: Vec<char>)
    ensures
        r@ == leading_digits(s@),
{
    let mut i: usize = 0;
    assert(s@.subrange(0, s.len() as int) =~= s@);
    assert(s@.subrange(0, 0) + leading_digits(s@) =~= leading_digits(s@));
    while i < s.len() && '0' <= s[i] && s[i] <= '9'
        invariant
            i <= s.len(),
            leading_digits(s@) == s@.subrange(0, i as int) + leading_digits(s@.subrange(i as int, s.len() as int)),
        decreases s.len() - i,
    {
        let ghost rest = s@.subrange(i as int, s.len() as int);
        assert(rest.drop_first() =~= s@.subrange(i + 1, s.len() as int));
        assert(s@.subrange(0, i + 1) =~= s@.subrange(0, i as int) + seq![s@[i as int]]);
        i = i + 1;
    }
    assert(s@.subrange(0, 0) =~= Seq::<char>::empty());
    assert(leading_digits(s@.subrange(i as int, s.len() as int)) =~= Seq::<char>::empty());
    slice_chars(s, 0, i)
}

fn trim_start_exec(s: &[char]) -> (r: Vec<char>)
    ensures
        r@ == trim_start(s@),
{
    let mut i: usize = 0;
    assert(s@.subrange(0, s.len() as int) =~= s@);
    while i < s.len() && is_ws_exec(s[i])
        invariant
            i <= s.len(),
            trim_start(s@) == trim_start(s@.subrange(i as int, s.len() as int)),
        decreases s.len() - i,
    {
        assert(s@.subrange(i as int, s.len() as int).drop_first() =~= s@.subrange(i + 1, s.len() as int));
        i = i + 1;
    }
    slice_chars(s, i, s.len())
}

impl Adapter {
    pub fn new(name: &str, vendor: Vendor, memory_bytes: u64) -> (r: Adapter)
        ensures
            r.name@ == name@,
            r.vendor == vendor,
            r.memory_bytes == memory_bytes,
    {
        Adapter { name: crate::text::owned(name), vendor, memory_bytes }
    }

    /// Whether this card can make use of a DLL needing `capability`.
    pub fn supports(&self, capability: Capability) -> (r: bool)
        ensures
            r == supports_of(self.name@, self.vendor, capability),
    {
        match capability {
            Capability::Universal => true,
            Capability::DlssSuperResolution => {
                self.vendor == Vendor::Nvidia && self.rtx_generation().is_some()
            },
            Capability::DlssFrameGeneration => {
                self.vendor == Vendor::Nvidia && match self.rtx_generation() {
                    Some(series) => series >= 40,
                    None => false,
                }
            },
        }
    }

    /// The RTX series number — 20, 30, 40, 50 — or nothing for a card with no
    /// tensor cores.
    ///
    /// GTX cards, Quadro/Tesla parts and anything unrecognised come back as
    /// `None`, which is the safe answer: the offer is then withheld rather
    /// than made on a guess.
    pub fn rtx_generation(&self) -> (r: Option<u16>)
        ensures
            r == rtx_series_of(self.name@, self.vendor),
    {
        if self.vendor != Vendor::Nvidia {
            return None;
        }
        let u = upper_chars(chars_of(self.name.as_str()).as_slice());
        if find_text(u.as_slice(), chars_of("RTX A").as_slice(), 0).is_some() {
            return Some(30);
        }
        if find_text(u.as_slice(), chars_of("RTX 6000 ADA").as_slice(), 0).is_some()
            || find_text(u.as_slice(), chars_of("RTX 5000 ADA").as_slice(), 0).is_some()
            || find_text(u.as_slice(), chars_of("RTX 4500 ADA").as_slice(), 0).is_some()
            || find_text(u.as_slice(), chars_of("RTX 4000 ADA").as_slice(), 0).is_some() {
            return Some(40);
        }
        let mut rtx: Vec<char> = Vec::new();
        rtx.push('R');
        rtx.push('T');
        rtx.push('X');
        assert(rtx@ =~= seq!['R', 'T', 'X']);
        match find_text(u.as_slice(), rtx.as_slice(), 0) {
            None => None,
            Some(i) => {
                proof {
                    lemma_find_from_occurs(u@, rtx@, 0);
                    assert(occurs_at(u@, rtx@, i as int));
                }
                assert(i + 3 <= u.len());
                let after = trim_start_exec(slice_chars(u.as_slice(), i + 3, u.len()).as_slice());
                let d = leading_digits_exec(after.as_slice());
                if d.len() != 4 {
                    return None;
                }
                proof {
                    lemma_leading_digits_are_digits(after@);
                    assert(is_digit(d@[0]) && is_digit(d@[1]) && is_digit(d@[2]) && is_digit(d@[3]));
                }
                let model = ((d[0] as u32 - 48) * 1000 + (d[1] as u32 - 48) * 100 + (d[2] as u32
                    - 48) * 10 + (d[3] as u32 - 48)) as u16;
                proof {
                    lemma_leading_digits_are_digits(after@);
                    let dd = d@;
                    assert(dd.subrange(0, 3).drop_last() =~= dd.subrange(0, 2));
                    assert(dd.subrange(0, 2).drop_last() =~= dd.subrange(0, 1));
                    assert(dd.subrange(0, 1).drop_last() =~= Seq::<char>::empty());
                    assert(digits_value(Seq::<char>::empty()) == 0);
                    assert(dd.subrange(0, 1).last() == dd[0]);
                    assert(dd.subrange(0, 2).last() == dd[1]);
                    assert(dd.subrange(0, 3).last() == dd[2]);
                    assert(dd.subrange(0, 4).last() == dd[3]);
                    assert(dd.subrange(0, 4).drop_last() =~= dd.subrange(0, 3));
                    assert(dd.subrange(0, 4) =~= dd);
                    assert(is_digit(dd[0]) && is_digit(dd[1]) && is_digit(dd[2]) && is_digit(dd[3]));
                    assert(digits_value(dd.subrange(0, 1)) == (dd[0] as int) - 48);
                    assert(digits_value(dd.subrange(0, 2)) == digits_value(dd.subrange(0, 1)) * 10 + (dd[1] as int) - 48);
                    assert(digits_value(dd.subrange(0, 3)) == digits_value(dd.subrange(0, 2)) * 10 + (dd[2] as int) - 48);
                    assert(digits_value(dd) == digits_value(dd.subrange(0, 3)) * 10 + (dd[3] as int) - 48);
                    assert(model == digits_value(dd));
                }
                let series = model / 1000 * 10;
                if 20 <= series && series <= 50 {
                    Some(series)
                } else {
                    None
                }
            },
        }
    }
}

proof fn lemma_leading_digits_are_digits(s: Seq<char>)
    ensures
        all_digit_chars(leading_digits(s)),
    decreases s.len(),
{
    if s.len() > 0 && is_digit(s[0]) {
        lemma_leading_digits_are_digits(s.drop_first());
        let d = seq![s[0]] + leading_digits(s.drop_first());
        assert forall|i: int| 0 <= i < d.len() implies is_digit(#[trigger] d[i]) by {
            if i > 0 {
                assert(d[i] == leading_digits(s.drop_first())[i - 1]);
            }
        }
    }
}

/// One display adapter as the system describes it, before ranking.
#[derive(Debug, Clone)]
pub struct AdapterInfo {
    /// What the driver calls it.
    pub name: String,
    /// The PCI vendor id.
    pub vendor_id: u32,
    /// Dedicated video memory in bytes.
    pub memory_bytes: u64,
    /// Whether this is the software renderer, which every system lists and
    /// no game runs on.
    pub software: bool,
}

/// An adapter as plain values: its name, vendor and video memory.
pub type AdapterModel = (Seq<char>, Vendor, u64);

pub open spec fn adapter_view(a: Adapter) -> AdapterModel {
    (a.name@, a.vendor, a.memory_bytes)
}

pub open spec fn adapter_views(v: Seq<Adapter>) -> Seq<AdapterModel> {
    v.map_values(|a: Adapter| adapter_view(a))
}

/// The adapters a description list reports, software renderers left out,
/// in the order they were listed.
pub open spec fn reported(found: Seq<AdapterInfo>) -> Seq<AdapterModel>
    decreases found.len(),
{
    if found.len() == 0 {
        Seq::empty()
    } else {
        let rest = reported(found.drop_last());
        let d = found.last();
        if d.software {
            rest
        } else {
            rest.push((d.name@, vendor_of(d.vendor_id), d.memory_bytes))
        }
    }
}

/// `x` placed into `r` after every leading adapter with at least as much
/// memory: one step of a stable sort, most memory first.
pub open spec fn insert_by_memory(r: Seq<AdapterModel>, x: AdapterModel) -> Seq<AdapterModel>
    decreases r.len(),
{
    if r.len() == 0 {
        seq![x]
    } else if r[0].2 >= x.2 {
        seq![r[0]] + insert_by_memory(r.drop_first(), x)
    } else {
        seq![x] + r
    }
}

/// The adapters ordered most video memory first, adapters with equal memory
/// keeping the order they were listed in.
pub open spec fn by_memory(s: Seq<AdapterModel>) -> Seq<AdapterModel>
    decreases s.len(),
{
    if s.len() == 0 {
        Seq::empty()
    } else {
        insert_by_memory(by_memory(s.drop_last()), s.last())
    }
}

/// Placing `x` after the first `p` adapters, all with at least its memory,
/// when the next one has less (or there is none).
proof fn lemma_insert_at(r: Seq<AdapterModel>, x: AdapterModel, p: int)
    requires
        0 <= p <= r.len(),
        forall|k: int| 0 <= k < p ==> #[trigger] r[k].2 >= x.2,
        p < r.len() ==> r[p].2 < x.2,
    ensures
        insert_by_memory(r, x) == r.take(p) + seq![x] + r.skip(p),
    decreases p,
{
    if p == 0 {
        if r.len() == 0 {
            assert(r.take(0) + seq![x] + r.skip(0) =~= seq![x]);
        } else {
            assert(r.take(0) + seq![x] + r.skip(0) =~= seq![x] + r);
        }
    } else {
        let t = r.drop_first();
        assert forall|k: int| 0 <= k < p - 1 implies #[trigger] t[k].2 >= x.2 by {
            assert(t[k] == r[k + 1]);
        }
        if p - 1 < t.len() {
            assert(t[p - 1] == r[p]);
        }
        lemma_insert_at(t, x, p - 1);
        assert(seq![r[0]] + (t.take(p - 1) + seq![x] + t.skip(p - 1)) =~= r.take(p) + seq![x] + r.skip(p));
    }
}

/// Every display adapter the system reports, best first: the software
/// renderer left out, then the one with the most video memory first, since
/// a laptop lists its integrated chip too and the game runs on the card
/// with the most memory. Adapters with equal memory keep their order.
pub fn adapters(found: Vec<AdapterInfo>) -> (r: Vec<Adapter>)
    ensures
        adapter_views(r@) == by_memory(reported(found@)),
{
    let mut out: Vec<Adapter> = Vec::new();
    let mut i: usize = 0;
    assert(adapter_views(out@) =~= by_memory(reported(found@.subrange(0, 0))));
    while i < found.len()
        invariant
            i <= found.len(),
            adapter_views(out@) == by_memory(reported(found@.subrange(0, i as int))),
        decreases found.len() - i,
    {
        let ghost prev = found@.subrange(0, i as int);
        let ghost next = found@.subrange(0, i + 1);
        assert(next.drop_last() =~= prev);
        assert(next.last() == found@[i as int]);
        let d = &found[i];
        if !d.software {
            let a = Adapter { name: crate::text::owned(d.name.as_str()), vendor: Vendor::from_pci_id(d.vendor_id), memory_bytes: d.memory_bytes };
            let ghost x = adapter_view(a);
            let ghost r = adapter_views(out@);
            let mut p: usize = 0;
            while p < out.len() && out[p].memory_bytes >= a.memory_bytes
                invariant
                    p <= out.len(),
                    r == adapter_views(out@),
                    x == adapter_view(a),
                    forall|k: int| 0 <= k < p ==> #[trigger] r[k].2 >= x.2,
                decreases out.len() - p,
            {
                assert(r[p as int].2 == out@[p as int].memory_bytes);
                p = p + 1;
            }
            proof {
                if p < out.len() {
                    assert(r[p as int].2 == out@[p as int].memory_bytes);
                }
                lemma_insert_at(r, x, p as int);
            }
            out.insert(p, a);
            assert(adapter_views(out@) =~= r.take(p as int) + seq![x] + r.skip(p as int));
            assert(reported(next) == reported(prev).push(x));
            assert(reported(next).drop_last() =~= reported(prev));
        } else {
            assert(reported(next) == reported(prev));
        }
        i = i + 1;
    }
    assert(found@.subrange(0, found.len() as int) =~= found@);
    out
}

/// The adapter the game is most likely running on: the first of
/// [`adapters`], if there is any.
pub fn primary_adapter(found: Vec<AdapterInfo>) -> (r: Option<Adapter>)
    ensures
        r is None <==> by_memory(reported(found@)).len() == 0,
        r matches Some(a) ==> adapter_view(a) == by_memory(reported(found@))[0],
{
    let mut all = adapters(found);
    if all.len() > 0 {
        assert(adapter_views(all@)[0] == adapter_view(all@[0]));
        Some(all.remove(0))
    } else {
        None
    }
}

} // verus!
