//! Reading a DLL's version without loading it.
//!
//! The version has to come from the file itself: the game folder may hold a
//! DLL somebody swapped in by hand, and its name says nothing about what it
//! is. The `VS_FIXEDFILEINFO` structure is read out of the PE resource
//! directory directly, so this works on any machine.
//!
//! Only the fixed part is read. The string table underneath it is localised
//! and optional, whereas the fixed part is a plain struct behind a signature
//! that has not changed since Win32 was new.
//!
//! Positions are worked out as unbounded numbers and checked against the
//! image before anything is read, so a truncated or corrupt image gives no
//! version rather than a misread one.

use vstd::prelude::*;

use crate::bytes::{u16_le, u32_le};
use crate::upscaler::{UpscalerError, Version};

verus! {

/// Resource type 16 — `RT_VERSION`.
pub const RT_VERSION: u32 = 16;

/// Where `.rsrc` lives, in both address spaces.
#[derive(Debug, Clone, Copy, PartialEq, Eq, Structural)]
pub struct Section {
    pub virtual_address: u32,
    pub raw_offset: u32,
    pub raw_size: u32,
}

/// `b[at..at + m.len()]` is `m`.
pub open spec fn bytes_at(b: Seq<u8>, at: int, m: Seq<u8>) -> bool {
    0 <= at && at + m.len() <= b.len() && b.subrange(at, at + m.len()) == m
}

/// `MZ`.
pub open spec fn mz() -> Seq<u8> {
    seq![0x4Du8, 0x5Au8]
}

/// `PE\0\0`.
pub open spec fn pe_signature() -> Seq<u8> {
    seq![0x50u8, 0x45u8, 0u8, 0u8]
}

/// `.rsrc` padded to eight bytes.
pub open spec fn rsrc_name() -> Seq<u8> {
    seq![0x2Eu8, 0x72u8, 0x73u8, 0x72u8, 0x63u8, 0u8, 0u8, 0u8]
}

/// `VS_FIXEDFILEINFO.dwSignature`, little-endian on disk.
pub open spec fn fixed_info_signature() -> Seq<u8> {
    seq![0xBDu8, 0x04u8, 0xEFu8, 0xFEu8]
}

/// The file offset of a resource address: resource entries address each
/// other by RVA, the file is read by offset. An address outside the
/// section's raw data, or an offset past what 32 bits hold, is no place in
/// the file.
pub open spec fn offset_of(s: Section, rva: int) -> Option<int> {
    let delta = rva - s.virtual_address;
    if delta < 0 || delta >= s.raw_size || s.raw_offset + delta > u32::MAX {
        None
    } else {
        Some(s.raw_offset + delta)
    }
}

/// The `.rsrc` header among the `count` section headers at `table`, from the
/// `k`-th on.
pub open spec fn section_from(b: Seq<u8>, table: int, count: int, k: int) -> Option<Section>
    decreases count - k,
{
    if k < 0 || k >= count {
        None
    } else {
        let entry = table + 40 * k;
        if entry + 8 > b.len() {
            None
        } else if !bytes_at(b, entry, rsrc_name()) {
            section_from(b, table, count, k + 1)
        } else if entry + 24 > b.len() {
            None
        } else {
            Some(
                Section {
                    virtual_address: u32_le(b, entry + 12) as u32,
                    raw_size: u32_le(b, entry + 16) as u32,
                    raw_offset: u32_le(b, entry + 20) as u32,
                },
            )
        }
    }
}

/// Where `.rsrc` is: behind the `MZ` stub, the PE header its offset points
/// at, and the optional header, in the section table.
pub open spec fn resource_section(b: Seq<u8>) -> Option<Section> {
    if !bytes_at(b, 0, mz()) || b.len() < 0x40 {
        None
    } else {
        let pe = u32_le(b, 0x3c);
        if !bytes_at(b, pe, pe_signature()) || pe + 22 > b.len() {
            None
        } else {
            section_from(b, pe + 24 + u16_le(b, pe + 20), u16_le(b, pe + 6), 0)
        }
    }
}

/// The `(id, offset)` pairs of the resource directory at `at`: its named and
/// its numbered entries.
pub open spec fn directory_entries(b: Seq<u8>, at: int) -> Option<Seq<(u32, u32)>> {
    if at < 0 || at + 16 > b.len() {
        None
    } else {
        let n = u16_le(b, at + 12) + u16_le(b, at + 14);
        if n > 0 && at + 16 + 8 * n > b.len() {
            None
        } else {
            Some(
                Seq::new(
                    n as nat,
                    |i: int| (u32_le(b, at + 16 + 8 * i) as u32, u32_le(b, at + 20 + 8 * i) as u32),
                ),
            )
        }
    }
}

/// The first entry of the resource directory at `at`.
pub open spec fn first_entry(b: Seq<u8>, at: int) -> Option<(u32, u32)> {
    match directory_entries(b, at) {
        Some(es) => if es.len() > 0 {
            Some(es[0])
        } else {
            None
        },
        None => None,
    }
}

/// The index of the first entry with id `id`.
pub open spec fn first_with_id(es: Seq<(u32, u32)>, id: u32, i: int) -> Option<int>
    decreases es.len() - i,
{
    if i < 0 || i >= es.len() {
        None
    } else if es[i].0 == id {
        Some(i)
    } else {
        first_with_id(es, id, i + 1)
    }
}

/// Where an entry's offset points, inside the section: the high bit, which
/// marks a subdirectory, is dropped.
pub open spec fn child_at(s: Section, offset: u32) -> int {
    s.raw_offset + offset % 0x8000_0000
}

/// The bytes of the first `RT_VERSION` resource: type, then name, then
/// language, taking the first branch of the two lower levels (a DLL carries
/// one version resource, and its fixed part is the same in every language),
/// then the data entry's address and size.
pub open spec fn version_resource(b: Seq<u8>, s: Section) -> Option<Seq<u8>> {
    match offset_of(s, s.virtual_address as int) {
        None => None,
        Some(root) => match directory_entries(b, root) {
            None => None,
            Some(types) => match first_with_id(types, RT_VERSION, 0) {
                None => None,
                Some(t) => match first_entry(b, child_at(s, types[t].1)) {
                    None => None,
                    Some((_, language_dir)) => match first_entry(b, child_at(s, language_dir)) {
                        None => None,
                        Some((_, leaf)) => {
                            let entry = child_at(s, leaf);
                            if entry + 8 > b.len() {
                                None
                            } else {
                                match offset_of(s, u32_le(b, entry)) {
                                    None => None,
                                    Some(start) => {
                                        let size = u32_le(b, entry + 4);
                                        if start + size > b.len() {
                                            None
                                        } else {
                                            Some(b.subrange(start, start + size))
                                        }
                                    },
                                }
                            }
                        },
                    },
                },
            },
        },
    }
}

/// The first place at or after `i` where `m` occurs in `h`.
pub open spec fn find_bytes(h: Seq<u8>, m: Seq<u8>, i: int) -> Option<int>
    decreases h.len() + 1 - i,
{
    if i < 0 || i + m.len() > h.len() {
        None
    } else if bytes_at(h, i, m) {
        Some(i)
    } else {
        find_bytes(h, m, i + 1)
    }
}

/// The file version of a PE image: `dwFileVersionMS` and `dwFileVersionLS`
/// of the fixed file info, which follows its signature in the version
/// resource.
pub open spec fn version_of(b: Seq<u8>) -> Option<Version> {
    match resource_section(b) {
        None => None,
        Some(s) => match version_resource(b, s) {
            None => None,
            Some(data) => match find_bytes(data, fixed_info_signature(), 0) {
                None => None,
                Some(start) => if start + 24 > data.len() {
                    None
                } else {
                    let ms = u32_le(data, start + 8);
                    let ls = u32_le(data, start + 12);
                    Some(
                        Version(
                            (ms / 65536) as u16,
                            (ms % 65536) as u16,
                            (ls / 65536) as u16,
                            (ls % 65536) as u16,
                        ),
                    )
                },
            },
        },
    }
}

// ---------------------------------------------------------------------------
// Reading
// ---------------------------------------------------------------------------

/// The little-endian `u16` at `at`, when it is inside the image.
fn u16_at(b: &[u8], at: u64) -> (r: Option<u16>)
    ensures
        match r {
            Some(v) => at + 2 <= b.len() && v == u16_le(b@, at as int),
            None => at + 2 > b.len(),
        },
{
    if at > b.len() as u64 || (b.len() as u64) - at < 2 {
        return None;
    }
    let i = at as usize;
    Some(b[i] as u16 + (b[i + 1] as u16) * 256)
}

/// The little-endian `u32` at `at`, when it is inside the image.
fn u32_at(b: &[u8], at: u64) -> (r: Option<u32>)
    ensures
        match r {
            Some(v) => at + 4 <= b.len() && v == u32_le(b@, at as int),
            None => at + 4 > b.len(),
        },
{
    if at > b.len() as u64 || (b.len() as u64) - at < 4 {
        return None;
    }
    let i = at as usize;
    Some(b[i] as u32 + (b[i + 1] as u32) * 256 + (b[i + 2] as u32) * 65536 + (b[i + 3] as u32)
        * 16777216)
}

/// Whether `m` sits at `at`.
fn bytes_at_exec(b: &[u8], at: u64, m: &[u8]) -> (r: bool)
    ensures
        r == bytes_at(b@, at as int, m@),
{
    if at > b.len() as u64 || (b.len() as u64) - at < m.len() as u64 {
        return false;
    }
    let start = at as usize;
    let mut k: usize = 0;
    while k < m.len()
        invariant
            start + m.len() <= b.len(),
            start == at,
            k <= m.len(),
            forall|j: int| 0 <= j < k ==> b@[start + j] == m@[j],
        decreases m.len() - k,
    {
        if b[start + k] != m[k] {
            assert(b@.subrange(start as int, start + m.len())[k as int] != m@[k as int]);
            return false;
        }
        k = k + 1;
    }
    assert(b@.subrange(start as int, start + m.len()) =~= m@);
    true
}

fn offset_of_exec(s: Section, rva: u64) -> (r: Option<u64>)
    ensures
        match r {
            Some(o) => offset_of(s, rva as int) == Some(o as int),
            None => offset_of(s, rva as int) is None,
        },
{
    if rva < s.virtual_address as u64 {
        return None;
    }
    let delta = rva - s.virtual_address as u64;
    if delta >= s.raw_size as u64 {
        return None;
    }
    let o = s.raw_offset as u64 + delta;
    if o > 0xFFFF_FFFF {
        return None;
    }
    Some(o)
}

/// Where `.rsrc` is.
pub fn find_resource_section(b: &[u8]) -> (r: Option<Section>)
    ensures
        r == resource_section(b@),
{
    let stub: [u8; 2] = [0x4D, 0x5A];
    assert(stub@ =~= mz());
    if !bytes_at_exec(b, 0, &stub) || b.len() < 0x40 {
        return None;
    }
    let pe = match u32_at(b, 0x3c) {
        Some(v) => v as u64,
        None => return None,
    };
    let sig: [u8; 4] = [0x50, 0x45, 0, 0];
    assert(sig@ =~= pe_signature());
    if !bytes_at_exec(b, pe, &sig) || pe + 22 > b.len() as u64 {
        return None;
    }
    let count = match u16_at(b, pe + 6) {
        Some(v) => v as u64,
        None => return None,
    };
    let optional = match u16_at(b, pe + 20) {
        Some(v) => v as u64,
        None => return None,
    };
    let table = pe + 24 + optional;
    let name: [u8; 8] = [0x2E, 0x72, 0x73, 0x72, 0x63, 0, 0, 0];
    assert(name@ =~= rsrc_name());
    let mut k: u64 = 0;
    while k < count
        invariant
            name@ == rsrc_name(),
            resource_section(b@) == section_from(b@, table as int, count as int, 0),
            table <= 0xFFFF_FFFF + 24 + 0xFFFF,
            count <= 0xFFFF,
            k <= count,
            section_from(b@, table as int, count as int, k as int) == section_from(
                b@,
                table as int,
                count as int,
                0,
            ),
        decreases count - k,
    {
        let entry = table + 40 * k;
        if entry + 8 > b.len() as u64 {
            return None;
        }
        if bytes_at_exec(b, entry, &name) {
            if entry + 24 > b.len() as u64 {
                return None;
            }
            let va = match u32_at(b, entry + 12) {
                Some(v) => v,
                None => return None,
            };
            let size = match u32_at(b, entry + 16) {
                Some(v) => v,
                None => return None,
            };
            let raw = match u32_at(b, entry + 20) {
                Some(v) => v,
                None => return None,
            };
            return Some(Section { virtual_address: va, raw_size: size, raw_offset: raw });
        }
        k = k + 1;
    }
    None
}

/// The entries of the resource directory at `at`.
fn read_directory(b: &[u8], at: u64) -> (r: Option<Vec<(u32, u32)>>)
    requires
        at <= 0x1_0000_0000 + 0x8000_0000,
    ensures
        match r {
            Some(v) => directory_entries(b@, at as int) == Some(v@),
            None => directory_entries(b@, at as int) is None,
        },
{
    if at + 16 > b.len() as u64 {
        return None;
    }
    let named = match u16_at(b, at + 12) {
        Some(v) => v as u64,
        None => return None,
    };
    let by_id = match u16_at(b, at + 14) {
        Some(v) => v as u64,
        None => return None,
    };
    let n = named + by_id;
    if n > 0 && at + 16 + 8 * n > b.len() as u64 {
        return None;
    }
    let mut out: Vec<(u32, u32)> = Vec::new();
    let mut i: u64 = 0;
    while i < n
        invariant
            n == u16_le(b@, at + 12) + u16_le(b@, at + 14),
            n <= 0x1FFFE,
            at <= 0x1_0000_0000 + 0x8000_0000,
            n > 0 ==> at + 16 + 8 * n <= b.len(),
            i <= n,
            out@ =~= Seq::new(
                i as nat,
                |j: int| (u32_le(b@, at + 16 + 8 * j) as u32, u32_le(b@, at + 20 + 8 * j) as u32),
            ),
        decreases n - i,
    {
        let entry = at + 16 + 8 * i;
        let id = match u32_at(b, entry) {
            Some(v) => v,
            None => return None,
        };
        let offset = match u32_at(b, entry + 4) {
            Some(v) => v,
            None => return None,
        };
        out.push((id, offset));
        i = i + 1;
    }
    Some(out)
}

fn first_entry_exec(b: &[u8], at: u64) -> (r: Option<(u32, u32)>)
    requires
        at <= 0x1_0000_0000 + 0x8000_0000,
    ensures
        r == first_entry(b@, at as int),
{
    match read_directory(b, at) {
        Some(es) => if es.len() > 0 {
            Some(es[0])
        } else {
            None
        },
        None => None,
    }
}

fn child_at_exec(s: Section, offset: u32) -> (r: u64)
    ensures
        r == child_at(s, offset),
        r <= 0x1_0000_0000 + 0x8000_0000,
{
    let low = offset & 0x7fff_ffff;
    assert(offset & 0x7fff_ffff == offset % 0x8000_0000) by (bit_vector);
    s.raw_offset as u64 + low as u64
}

/// The bytes of the first `RT_VERSION` resource.
pub fn find_version_resource(b: &[u8], s: Section) -> (r: Option<Vec<u8>>)
    ensures
        match r {
            Some(v) => version_resource(b@, s) == Some(v@),
            None => version_resource(b@, s) is None,
        },
{
    let root = match offset_of_exec(s, s.virtual_address as u64) {
        Some(o) => o,
        None => return None,
    };
    let types = match read_directory(b, root) {
        Some(es) => es,
        None => return None,
    };
    let mut t: usize = 0;
    while t < types.len() && types[t].0 != RT_VERSION
        invariant
            t <= types.len(),
            first_with_id(types@, RT_VERSION, t as int) == first_with_id(types@, RT_VERSION, 0),
        decreases types.len() - t,
    {
        t = t + 1;
    }
    if t >= types.len() {
        return None;
    }
    let (_, language_dir) = match first_entry_exec(b, child_at_exec(s, types[t].1)) {
        Some(e) => e,
        None => return None,
    };
    let (_, leaf) = match first_entry_exec(b, child_at_exec(s, language_dir)) {
        Some(e) => e,
        None => return None,
    };
    let entry = child_at_exec(s, leaf);
    if entry + 8 > b.len() as u64 {
        return None;
    }
    let rva = match u32_at(b, entry) {
        Some(v) => v,
        None => return None,
    };
    let size = match u32_at(b, entry + 4) {
        Some(v) => v as u64,
        None => return None,
    };
    let start = match offset_of_exec(s, rva as u64) {
        Some(o) => o,
        None => return None,
    };
    if start + size > b.len() as u64 {
        return None;
    }
    Some(crate::pak::slice_bytes(b, start as usize, (start + size) as usize))
}

/// The first place where `m` occurs in `h`.
fn find_bytes_exec(h: &[u8], m: &[u8]) -> (r: Option<usize>)
    requires
        m.len() > 0,
    ensures
        match r {
            Some(i) => find_bytes(h@, m@, 0) == Some(i as int),
            None => find_bytes(h@, m@, 0) is None,
        },
{
    let mut i: usize = 0;
    while i <= h.len() && m.len() <= h.len() - i
        invariant
            m.len() > 0,
            find_bytes(h@, m@, 0) == find_bytes(h@, m@, i as int),
        decreases h.len() + 1 - i,
    {
        if bytes_at_exec(h, i as u64, m) {
            return Some(i);
        }
        i = i + 1;
    }
    None
}

/// Pull the version out of an in-memory PE image.
pub fn parse(bytes: &[u8]) -> (r: Option<Version>)
    ensures
        r == version_of(bytes@),
{
    let section = match find_resource_section(bytes) {
        Some(s) => s,
        None => return None,
    };
    let data = match find_version_resource(bytes, section) {
        Some(d) => d,
        None => return None,
    };
    let signature: [u8; 4] = [0xBD, 0x04, 0xEF, 0xFE];
    assert(signature@ =~= fixed_info_signature());
    let start = match find_bytes_exec(data.as_slice(), &signature) {
        Some(i) => i,
        None => return None,
    };
    if start > data.len() || data.len() - start < 24 {
        return None;
    }
    let ms = match u32_at(data.as_slice(), start as u64 + 8) {
        Some(v) => v,
        None => return None,
    };
    let ls = match u32_at(data.as_slice(), start as u64 + 12) {
        Some(v) => v,
        None => return None,
    };
    Some(Version((ms / 65536) as u16, (ms % 65536) as u16, (ls / 65536) as u16, (ls % 65536) as u16))
}

/// The file version of a DLL, given its contents; a file with no version
/// resource is an error naming it.
pub fn file_version(path: &str, contents: &[u8]) -> (r: Result<Version, UpscalerError>)
    ensures
        match version_of(contents@) {
            Some(v) => r == Ok::<Version, UpscalerError>(v),
            None => r matches Err(UpscalerError::NoVersion(p)) && p@ == path@,
        },
{
    match parse(contents) {
        Some(v) => Ok(v),
        None => Err(UpscalerError::NoVersion(crate::text::owned(path))),
    }
}

/// Same, but a file that could not be read (no contents) or parsed is simply
/// unknown: one odd file in the game folder should not abort a whole scan.
pub fn file_version_opt(contents: Option<&[u8]>) -> (r: Option<Version>)
    ensures
        r == match contents {
            Some(c) => version_of(c@),
            None => None,
        },
{
    match contents {
        Some(c) => parse(c),
        None => None,
    }
}

} // verus!
