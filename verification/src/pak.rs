//! Reading the index of an Unreal `.pak`.
//!
//! A pak is written back to front: the footer is the last bytes of the file
//! and points at the index. The footer's own length depends on the version,
//! and the version is inside the footer — so the only way in is to try each
//! known length and see which one puts the magic where it belongs. That is
//! what UnrealPak itself does.
//!
//! From version 10 the index holds a *full directory index*: directory names,
//! then file names within each, which is all this needs. Older paks store the
//! names interleaved with version-dependent entry records, and rather than
//! half-guess those, they are refused with a clear reason. Stellar Blade is
//! UE 4.26 and writes version 11, so this only affects paks from other games.
//!
//! The file is read by the caller in three pieces, each handed to a function
//! here: the last bytes of the file ([`locate_index`]), the index they point
//! at ([`parse_index`]), and the directory index that points at
//! ([`parse_directory_index`]).

use vstd::prelude::*;

use crate::assets::{
    asset_views, assets_sorted, insert_asset, normalise_of, trim_leading, trim_leading_text,
    trim_leading_text_exec, leading_count, Asset, AssetError, AssetModel,
};
use crate::bytes::{count_at, fstring_at, read_count, read_fstring, read_u32, read_u64, u32_le, u64_le};
use crate::text::{chars_of, concat_chars, slice_chars, string_from_chars};

verus! {

/// The pak footer's magic number.
pub const MAGIC: u32 = 0x5A6F_12E1;

/// The version that introduced the path hash and full directory indexes.
pub const VERSION_PATH_HASH_INDEX: u32 = 10;

// ---------------------------------------------------------------------------
// The footer
// ---------------------------------------------------------------------------

/// What the footer says about the index.
#[derive(Debug, Clone, Copy, PartialEq, Eq, Structural)]
pub struct PakFooter {
    pub version: u32,
    pub index_offset: u64,
    pub index_size: u64,
    pub encrypted: bool,
}

/// Every footer length Unreal has written, newest first: v11 with five
/// compression names, v8b with four, v7 with none, v4 without the encryption
/// key guid, v3 and older without encryption at all.
///
/// Trying the longest first matters: a short footer read at a long offset can
/// coincidentally land the magic somewhere plausible, whereas the real one is
/// checked against its own declared version.
pub open spec fn footer_size(k: int) -> int {
    if k == 0 {
        221
    } else if k == 1 {
        189
    } else if k == 2 {
        61
    } else if k == 3 {
        45
    } else {
        44
    }
}

/// How many bytes of a footer of this length are compression method names.
pub open spec fn compression_names(size: int) -> int {
    if size >= 221 {
        160
    } else if size >= 189 {
        128
    } else {
        0
    }
}

/// Where the magic sits in a footer of this length: after the optional key
/// guid and encrypted flag, whose presence is what the length encodes.
pub open spec fn footer_head(size: int) -> int {
    size - 44 - compression_names(size)
}

/// The footer whose magic is at `head` of `raw`, if it is one: the magic,
/// then a version that fits, then the index's offset and size. The encrypted
/// flag sits immediately before the magic when there is room for it.
pub open spec fn footer_at(raw: Seq<u8>, head: int) -> Option<PakFooter> {
    let version = u32_le(raw, head + 4);
    if u32_le(raw, head) != MAGIC {
        None
    } else if version == 0 || version > 20 {
        None
    } else {
        Some(
            PakFooter {
                version: version as u32,
                index_offset: u64_le(raw, head + 8) as u64,
                index_size: u64_le(raw, head + 16) as u64,
                encrypted: head > 0 && raw[head - 1] == 1,
            },
        )
    }
}

/// The footer found by trying the known lengths from the `k`-th on, against
/// the end of the file.
pub open spec fn footer_from(tail: Seq<u8>, k: int) -> Option<PakFooter>
    decreases 5 - k,
{
    if k < 0 || k >= 5 {
        None
    } else {
        let size = footer_size(k);
        if tail.len() < size {
            footer_from(tail, k + 1)
        } else {
            match footer_at(tail.subrange(tail.len() - size, tail.len() as int), footer_head(size)) {
                Some(f) => Some(f),
                None => footer_from(tail, k + 1),
            }
        }
    }
}

fn footer_size_exec(k: usize) -> (r: usize)
    requires
        k < 5,
    ensures
        r == footer_size(k as int),
{
    if k == 0 {
        221
    } else if k == 1 {
        189
    } else if k == 2 {
        61
    } else if k == 3 {
        45
    } else {
        44
    }
}

fn parse_footer(raw: &[u8], head: usize) -> (r: Option<PakFooter>)
    requires
        head + 24 <= raw.len(),
    ensures
        r == footer_at(raw@, head as int),
{
    let (magic, p) = match read_u32(raw, head) {
        Some(x) => x,
        None => return None,
    };
    if magic != MAGIC {
        return None;
    }
    let (version, q) = match read_u32(raw, p) {
        Some(x) => x,
        None => return None,
    };
    if version == 0 || version > 20 {
        return None;
    }
    let (index_offset, s) = match read_u64(raw, q) {
        Some(x) => x,
        None => return None,
    };
    let (index_size, _) = match read_u64(raw, s) {
        Some(x) => x,
        None => return None,
    };
    Some(PakFooter { version, index_offset, index_size, encrypted: head > 0 && raw[head - 1] == 1 })
}

/// The footer at the end of a pak, given the file's last bytes: at least its
/// last 221, or all of it when it is shorter than that.
pub fn find_footer(tail: &[u8]) -> (r: Option<PakFooter>)
    ensures
        r == footer_from(tail@, 0),
{
    let mut k: usize = 0;
    while k < 5
        invariant
            k <= 5,
            footer_from(tail@, k as int) == footer_from(tail@, 0),
        decreases 5 - k,
    {
        let size = footer_size_exec(k);
        if tail.len() >= size {
            let raw = slice_bytes(tail, tail.len() - size, tail.len());
            let head = if size >= 221 {
                size - 44 - 160
            } else if size >= 189 {
                size - 44 - 128
            } else {
                size - 44
            };
            assert(head == footer_head(size as int));
            if let Some(f) = parse_footer(raw.as_slice(), head) {
                return Some(f);
            }
        }
        k = k + 1;
    }
    None
}

pub(crate) fn slice_bytes(b: &[u8], start: usize, end: usize) -> (r: Vec<u8>)
    requires
        start <= end <= b.len(),
    ensures
        r@ == b@.subrange(start as int, end as int),
{
    let mut r: Vec<u8> = Vec::new();
    let mut i: usize = start;
    while i < end
        invariant
            start <= i <= end <= b.len(),
            r@ == b@.subrange(start as int, i as int),
        decreases end - i,
    {
        r.push(b[i]);
        assert(r@ =~= b@.subrange(start as int, i + 1));
        i = i + 1;
    }
    r
}

/// Where the pak's index is, given the file's last bytes (at least its last
/// 221, or all of it): the footer, when it is one this reader can follow.
pub fn locate_index(path: &str, tail: &[u8]) -> (r: Result<PakFooter, AssetError>)
    ensures
        match (r, footer_from(tail@, 0)) {
            (Ok(f), Some(g)) => f == g && !g.encrypted && g.version >= VERSION_PATH_HASH_INDEX,
            (Err(AssetError::NotAPak(p)), None) => p@ == path@,
            (Err(AssetError::Encrypted(p)), Some(g)) => g.encrypted && p@ == path@,
            (Err(AssetError::UnsupportedVersion(p)), Some(g)) => !g.encrypted && g.version
                < VERSION_PATH_HASH_INDEX && p@ == path@,
            _ => false,
        },
{
    match find_footer(tail) {
        None => Err(AssetError::NotAPak(crate::text::owned(path))),
        Some(f) => {
            if f.encrypted {
                Err(AssetError::Encrypted(crate::text::owned(path)))
            } else if f.version < VERSION_PATH_HASH_INDEX {
                Err(AssetError::UnsupportedVersion(crate::text::owned(path)))
            } else {
                Ok(f)
            }
        },
    }
}

// ---------------------------------------------------------------------------
// The index
// ---------------------------------------------------------------------------

/// What the index says: where its files mount, and where the full directory
/// index is, when there is one.
pub struct PakIndex {
    pub mount_point: String,
    pub directory: Option<(u64, u64)>,
}

/// A sub-index reference: a present flag, then offset, size and a 20-byte
/// hash. Gives the offset and size when present, and the position after it.
pub open spec fn block_at(b: Seq<u8>, at: int) -> Option<(Option<(u64, u64)>, int)> {
    if at < 0 || at + 4 > b.len() {
        None
    } else if u32_le(b, at) == 0 {
        Some((None, at + 4))
    } else if at + 4 + 8 + 8 + 20 > b.len() {
        None
    } else {
        Some((Some((u64_le(b, at + 4) as u64, u64_le(b, at + 12) as u64)), at + 40))
    }
}

/// The index: the mount point, the entry count, the path hash seed, the path
/// hash index reference, then the full directory index reference.
pub open spec fn index_of(b: Seq<u8>) -> Option<(Seq<char>, Option<(u64, u64)>)> {
    match fstring_at(b, 0) {
        None => None,
        Some((mount, p)) => if p + 12 > b.len() {
            None
        } else {
            match block_at(b, p + 12) {
                None => None,
                Some((_, q)) => match block_at(b, q) {
                    None => None,
                    Some((directory, _)) => Some((mount, directory)),
                },
            }
        },
    }
}

fn read_block(b: &[u8], at: usize) -> (r: Option<(Option<(u64, u64)>, usize)>)
    ensures
        match r {
            Some((x, next)) => block_at(b@, at as int) == Some((x, next as int)),
            None => block_at(b@, at as int) is None,
        },
{
    let (present, p) = match read_u32(b, at) {
        Some(x) => x,
        None => return None,
    };
    if present == 0 {
        return Some((None, p));
    }
    let (offset, q) = match read_u64(b, p) {
        Some(x) => x,
        None => return None,
    };
    let (size, s) = match read_u64(b, q) {
        Some(x) => x,
        None => return None,
    };
    if b.len() - s < 20 {
        return None;
    }
    Some((Some((offset, size)), s + 20))
}

/// Why an index that ends early is refused.
pub open spec fn short_index(path: Seq<char>, e: AssetError) -> bool {
    e matches AssetError::Malformed { path: p, reason: m } && p@ == path
        && m@ == "the index ends mid-record"@
}

fn short(path: &str) -> (e: AssetError)
    ensures
        short_index(path@, e),
{
    AssetError::malformed(path, "the index ends mid-record")
}

/// The index the footer points at.
pub fn parse_index(path: &str, blob: &[u8]) -> (r: Result<PakIndex, AssetError>)
    ensures
        match r {
            Ok(index) => index_of(blob@) == Some((index.mount_point@, index.directory)),
            Err(e) => index_of(blob@) is None && short_index(path@, e),
        },
{
    let (mount, p) = match read_fstring(blob, 0) {
        Some(x) => x,
        None => return Err(short(path)),
    };
    if blob.len() - p < 12 {
        return Err(short(path));
    }
    let (_, q) = match read_block(blob, p + 12) {
        Some(x) => x,
        None => return Err(short(path)),
    };
    let (directory, _) = match read_block(blob, q) {
        Some(x) => x,
        None => return Err(short(path)),
    };
    Ok(PakIndex { mount_point: mount, directory })
}

// ---------------------------------------------------------------------------
// The directory index
// ---------------------------------------------------------------------------

/// The first `n` file records at `at`: a name, then the entry offset (which
/// says where the file is, not what it is).
pub open spec fn files_at(b: Seq<u8>, at: int, n: nat) -> Option<(Seq<Seq<char>>, int)>
    decreases n,
{
    if n == 0 {
        Some((Seq::empty(), at))
    } else {
        match files_at(b, at, (n - 1) as nat) {
            None => None,
            Some((names, p)) => match fstring_at(b, p) {
                None => None,
                Some((name, q)) => if q + 4 > b.len() {
                    None
                } else {
                    Some((names.push(name), q + 4))
                },
            },
        }
    }
}

/// The first `n` directory records at `at`: a name, a count, then that many
/// file records.
pub open spec fn dirs_at(b: Seq<u8>, at: int, n: nat) -> Option<
    (Seq<(Seq<char>, Seq<Seq<char>>)>, int),
>
    decreases n,
{
    if n == 0 {
        Some((Seq::empty(), at))
    } else {
        match dirs_at(b, at, (n - 1) as nat) {
            None => None,
            Some((dirs, p)) => match fstring_at(b, p) {
                None => None,
                Some((dir, q)) => match count_at(b, q) {
                    None => None,
                    Some((m, s)) => match files_at(b, s, m) {
                        None => None,
                        Some((names, t)) => Some((dirs.push((dir, names)), t)),
                    },
                },
            },
        }
    }
}

/// The directories of a full directory index, each with its file names.
pub open spec fn directory_of(b: Seq<u8>) -> Option<Seq<(Seq<char>, Seq<Seq<char>>)>> {
    match count_at(b, 0) {
        None => None,
        Some((n, p)) => match dirs_at(b, p, n) {
            None => None,
            Some((dirs, _)) => Some(dirs),
        },
    }
}

/// A text that ends in `/`, unless it is empty.
pub open spec fn with_slash(s: Seq<char>) -> Seq<char> {
    if s.len() > 0 && s.last() != '/' {
        s.push('/')
    } else {
        s
    }
}

/// Where the names of a container with this mount point attach: the mount
/// point without its leading `../`s, normalised.
pub open spec fn mount_prefix(mount: Seq<char>) -> Seq<char> {
    normalise_of(trim_leading_text(mount, "../"@))
}

/// The asset a file of a directory stands for, under a mount prefix.
pub open spec fn entry_asset(prefix: Seq<char>, dir: Seq<char>, name: Seq<char>) -> AssetModel {
    AssetModel::Path(
        normalise_of(with_slash(with_slash(prefix) + trim_leading(dir, '/')) + name),
    )
}

/// Whether `x` is one of the files the directories list.
pub open spec fn listed(
    prefix: Seq<char>,
    dirs: Seq<(Seq<char>, Seq<Seq<char>>)>,
    x: AssetModel,
) -> bool {
    exists|i: int, j: int|
        0 <= i < dirs.len() && 0 <= j < dirs[i].1.len() && x == #[trigger] entry_asset(
            prefix,
            dirs[i].0,
            dirs[i].1[j],
        )
}

proof fn lemma_files_none(b: Seq<u8>, at: int, k: nat, n: nat)
    requires
        k <= n,
        files_at(b, at, k) is None,
    ensures
        files_at(b, at, n) is None,
    decreases n - k,
{
    if k < n {
        lemma_files_none(b, at, k, (n - 1) as nat);
    }
}

proof fn lemma_dirs_none(b: Seq<u8>, at: int, k: nat, n: nat)
    requires
        k <= n,
        dirs_at(b, at, k) is None,
    ensures
        dirs_at(b, at, n) is None,
    decreases n - k,
{
    if k < n {
        lemma_dirs_none(b, at, k, (n - 1) as nat);
    }
}

fn with_slash_exec(s: Vec<char>) -> (r: Vec<char>)
    ensures
        r@ == with_slash(s@),
{
    let mut s = s;
    if s.len() > 0 && s[s.len() - 1] != '/' {
        s.push('/');
    }
    s
}

/// The mount prefix of a mount point.
pub(crate) fn mount_prefix_exec(mount: &str) -> (r: Vec<char>)
    ensures
        r@ == mount_prefix(mount@),
{
    let t = trim_leading_text_exec(chars_of(mount).as_slice(), chars_of("../").as_slice());
    chars_of(crate::assets::normalise(string_from_chars(t.as_slice()).as_str()).as_str())
}

fn entry_asset_exec(prefix: &[char], dir: &[char], name: &str) -> (r: Asset)
    ensures
        r@ == entry_asset(prefix@, dir@, name@),
{
    let n = leading_count(dir, '/');
    let d = slice_chars(dir, n, dir.len());
    assert(d@ =~= dir@.skip(n as int));
    let a = with_slash_exec(slice_chars(prefix, 0, prefix.len()));
    assert(prefix@.subrange(0, prefix@.len() as int) =~= prefix@);
    let full = with_slash_exec(concat_chars(a.as_slice(), d.as_slice()));
    let full = concat_chars(full.as_slice(), chars_of(name).as_slice());
    Asset::path(string_from_chars(full.as_slice()).as_str())
}

/// Directory names, each followed by the files inside it, joined under the
/// mount point.
pub fn parse_directory_index(path: &str, blob: &[u8], mount_point: &str) -> (r: Result<
    Vec<Asset>,
    AssetError,
>)
    ensures
        match r {
            Ok(v) => directory_of(blob@) matches Some(dirs) && assets_sorted(asset_views(v@))
                && forall|x: AssetModel| #[trigger]
                asset_views(v@).contains(x) <==> listed(mount_prefix(mount_point@), dirs, x),
            Err(e) => directory_of(blob@) is None && short_index(path@, e),
        },
{
    let prefix = mount_prefix_exec(mount_point);
    let ghost b = blob@;
    let (n, start) = match read_count(blob, 0) {
        Some(x) => x,
        None => return Err(short(path)),
    };
    let mut assets: Vec<Asset> = Vec::new();
    let mut at: usize = start;
    let ghost mut dirs: Seq<(Seq<char>, Seq<Seq<char>>)> = Seq::empty();
    let mut k: usize = 0;
    while k < n
        invariant
            b == blob@,
            count_at(b, 0) == Some((n as nat, start as int)),
            k <= n,
            dirs_at(b, start as int, k as nat) == Some((dirs, at as int)),
            assets_sorted(asset_views(assets@)),
            forall|x: AssetModel| #[trigger]
                asset_views(assets@).contains(x) <==> listed(prefix@, dirs, x),
        decreases n - k,
    {
        let (dir, p) = match read_fstring(blob, at) {
            Some(x) => x,
            None => {
                proof {
                    lemma_dirs_none(b, start as int, (k + 1) as nat, n as nat);
                }
                return Err(short(path));
            },
        };
        let (m, q) = match read_count(blob, p) {
            Some(x) => x,
            None => {
                proof {
                    lemma_dirs_none(b, start as int, (k + 1) as nat, n as nat);
                }
                return Err(short(path));
            },
        };
        let dir_chars = chars_of(dir.as_str());
        let ghost base = asset_views(assets@);
        let ghost mut names: Seq<Seq<char>> = Seq::empty();
        let mut s: usize = q;
        let mut j: usize = 0;
        while j < m
            invariant
                b == blob@,
                count_at(b, 0) == Some((n as nat, start as int)),
                k < n,
                dirs_at(b, start as int, k as nat) == Some((dirs, at as int)),
                fstring_at(b, at as int) == Some((dir@, p as int)),
                count_at(b, p as int) == Some((m as nat, q as int)),
                dir_chars@ == dir@,
                j <= m,
                files_at(b, q as int, j as nat) == Some((names, s as int)),
                assets_sorted(asset_views(assets@)),
                forall|x: AssetModel| #[trigger]
                    asset_views(assets@).contains(x) <==> (base.contains(x) || exists|t: int|
                        0 <= t < names.len() && x == #[trigger] entry_asset(
                            prefix@,
                            dir_chars@,
                            names[t],
                        )),
            decreases m - j,
        {
            let (name, u) = match read_fstring(blob, s) {
                Some(x) => x,
                None => {
                    proof {
                        lemma_files_none(b, q as int, (j + 1) as nat, m as nat);
                        lemma_dirs_none(b, start as int, (k + 1) as nat, n as nat);
                    }
                    return Err(short(path));
                },
            };
            let (_, w) = match read_u32(blob, u) {
                Some(x) => x,
                None => {
                    proof {
                        lemma_files_none(b, q as int, (j + 1) as nat, m as nat);
                        lemma_dirs_none(b, start as int, (k + 1) as nat, n as nat);
                    }
                    return Err(short(path));
                },
            };
            let a = entry_asset_exec(prefix.as_slice(), dir_chars.as_slice(), name.as_str());
            let ghost av = a@;
            let ghost prev_names = names;
            insert_asset(&mut assets, a);
            proof {
                names = names.push(name@);
                assert forall|x: AssetModel| #[trigger]
                    asset_views(assets@).contains(x) <==> (base.contains(x) || exists|t: int|
                        0 <= t < names.len() && x == #[trigger] entry_asset(
                            prefix@,
                            dir_chars@,
                            names[t],
                        )) by {
                    if exists|t: int|
                        0 <= t < prev_names.len() && x == #[trigger] entry_asset(
                            prefix@,
                            dir_chars@,
                            prev_names[t],
                        ) {
                        let t = choose|t: int|
                            0 <= t < prev_names.len() && x == #[trigger] entry_asset(
                                prefix@,
                                dir_chars@,
                                prev_names[t],
                            );
                        assert(names[t] == prev_names[t]);
                    }
                    if x == av {
                        assert(names[prev_names.len() as int] == name@);
                    }
                    if exists|t: int|
                        0 <= t < names.len() && x == #[trigger] entry_asset(
                            prefix@,
                            dir_chars@,
                            names[t],
                        ) {
                        let t = choose|t: int|
                            0 <= t < names.len() && x == #[trigger] entry_asset(
                                prefix@,
                                dir_chars@,
                                names[t],
                            );
                        if t < prev_names.len() {
                            assert(names[t] == prev_names[t]);
                        }
                    }
                }
            }
            s = w;
            j = j + 1;
        }
        proof {
            let ghost prev = dirs;
            dirs = dirs.push((dir@, names));
            assert forall|x: AssetModel| #[trigger]
                asset_views(assets@).contains(x) <==> listed(prefix@, dirs, x) by {
                if listed(prefix@, prev, x) {
                    let (i, t) = choose|i: int, t: int|
                        0 <= i < prev.len() && 0 <= t < prev[i].1.len() && x
                            == #[trigger] entry_asset(prefix@, prev[i].0, prev[i].1[t]);
                    assert(dirs[i] == prev[i]);
                    assert(x == entry_asset(prefix@, dirs[i].0, dirs[i].1[t]));
                }
                if exists|t: int|
                    0 <= t < names.len() && x == #[trigger] entry_asset(
                        prefix@,
                        dir_chars@,
                        names[t],
                    ) {
                    let t = choose|t: int|
                        0 <= t < names.len() && x == #[trigger] entry_asset(
                            prefix@,
                            dir_chars@,
                            names[t],
                        );
                    assert(dirs[prev.len() as int] == (dir@, names));
                    assert(x == entry_asset(
                        prefix@,
                        dirs[prev.len() as int].0,
                        dirs[prev.len() as int].1[t],
                    ));
                }
                if listed(prefix@, dirs, x) {
                    let (i, t) = choose|i: int, t: int|
                        0 <= i < dirs.len() && 0 <= t < dirs[i].1.len() && x
                            == #[trigger] entry_asset(prefix@, dirs[i].0, dirs[i].1[t]);
                    if i < prev.len() {
                        assert(dirs[i] == prev[i]);
                        assert(x == entry_asset(prefix@, prev[i].0, prev[i].1[t]));
                    } else {
                        assert(x == entry_asset(prefix@, dir_chars@, names[t]));
                    }
                }
            }
        }
        at = s;
        k = k + 1;
    }
    Ok(assets)
}

} // verus!
