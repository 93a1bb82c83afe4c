//! Reading the table of contents of an IoStore container.
//!
//! A `.utoc` is a fixed 0x90-byte header followed by several arrays whose
//! lengths the header gives, and then the directory index — the part that
//! holds the actual file names. Everything before the directory index is
//! skipped by arithmetic rather than parsed, because none of it says anything
//! about which assets are present: a container with fifty thousand chunks is
//! read in two seeks.
//!
//! The caller reads the file; the functions here read the header
//! ([`TocHeader::parse`]), say where the directory index starts
//! ([`TocHeader::offset_before_signatures`],
//! [`TocHeader::offset_after_signatures`]), and list what the directory index
//! ([`parse_directory_index`]) or, without one, the chunk table
//! ([`chunk_assets`]) holds.

use vstd::prelude::*;

use crate::assets::{
    asset_views, assets_sorted, insert_asset, normalise_of, Asset, AssetError, AssetModel,
};
use crate::bytes::{
    count_at, fstring_at, hex, hex_of, read_count, read_fstring, read_u32, u32_le,
};
use crate::pak::{mount_prefix, with_slash};
use crate::text::{chars_of, concat_chars, string_from_chars};

verus! {

/// Epic asserts this exact header size; a different one means a format we do
/// not know.
pub const HEADER_SIZE: u32 = 0x90;

/// Sizes of the records sitting between the header and the directory index.
pub const CHUNK_ID_SIZE: u64 = 12;

pub const OFFSET_AND_LENGTH_SIZE: u64 = 10;

pub const PERFECT_HASH_SEED_SIZE: u64 = 4;

pub const SIGNATURE_HASH_SIZE: u64 = 20;

/// The version that added the perfect-hash tables.
pub const VERSION_PERFECT_HASH: u8 = 4;

/// The version that added the perfect-hash overflow array.
pub const VERSION_PERFECT_HASH_WITH_OVERFLOW: u8 = 5;

pub const FLAG_ENCRYPTED: u8 = 0b0010;

pub const FLAG_SIGNED: u8 = 0b0100;

/// Deep enough for any real asset tree, and a bound so a corrupt index that
/// points a directory at itself cannot spin forever.
pub const MAX_DEPTH: usize = 64;

// ---------------------------------------------------------------------------
// The header
// ---------------------------------------------------------------------------

/// The header fields that say where things are.
#[derive(Debug, Clone, Copy, PartialEq, Eq, Structural)]
pub struct TocHeader {
    pub version: u8,
    pub entry_count: u32,
    pub compressed_block_count: u32,
    pub compressed_block_size: u32,
    pub compression_name_count: u32,
    pub compression_name_length: u32,
    pub directory_index_size: u32,
    pub flags: u8,
    pub perfect_hash_seed_count: u32,
    pub chunks_without_perfect_hash: u32,
}

/// The magic the header opens with: `-==--==--==--==-`.
pub open spec fn magic_byte(i: int) -> u8 {
    if i % 4 == 0 || i % 4 == 3 {
        45u8
    } else {
        61u8
    }
}

pub open spec fn has_magic(b: Seq<u8>) -> bool {
    b.len() >= 16 && forall|i: int| 0 <= i < 16 ==> #[trigger] b[i] == magic_byte(i)
}

/// The header fields, read from their places in the 0x90 bytes.
pub open spec fn header_of(b: Seq<u8>) -> TocHeader {
    TocHeader {
        version: b[16],
        entry_count: u32_le(b, 24) as u32,
        compressed_block_count: u32_le(b, 28) as u32,
        compressed_block_size: u32_le(b, 32) as u32,
        compression_name_count: u32_le(b, 36) as u32,
        compression_name_length: u32_le(b, 40) as u32,
        directory_index_size: u32_le(b, 48) as u32,
        flags: b[80],
        perfect_hash_seed_count: u32_le(b, 84) as u32,
        chunks_without_perfect_hash: u32_le(b, 96) as u32,
    }
}

/// The perfect-hash tables, which only exist from version 4 onwards and
/// gained a second array in version 5.
pub open spec fn hash_map_size(h: TocHeader) -> int {
    if h.version < VERSION_PERFECT_HASH {
        0
    } else {
        let overflow = if h.version >= VERSION_PERFECT_HASH_WITH_OVERFLOW {
            h.chunks_without_perfect_hash as int
        } else {
            0
        };
        (h.perfect_hash_seed_count + overflow) * 4
    }
}

/// Where the signature block would start, which is everything before it
/// added up: the header, the chunk ids, their offsets and lengths, the hash
/// tables, the compression blocks and the compression method names.
pub open spec fn before_signatures(h: TocHeader) -> int {
    HEADER_SIZE + h.entry_count * 12 + h.entry_count * 10 + hash_map_size(h)
        + h.compressed_block_count * h.compressed_block_size + h.compression_name_count
        * h.compression_name_length
}

/// Where the directory index starts in a signed container whose signatures
/// are `signature_size` bytes: after the size itself, a signature over the
/// toc, one over the block table, and a hash per compression block.
pub open spec fn after_signatures(h: TocHeader, signature_size: int) -> int {
    before_signatures(h) + 4 + signature_size * 2 + h.compressed_block_count * 20
}

fn has_magic_exec(b: &[u8]) -> (r: bool)
    requires
        b.len() >= 16,
    ensures
        r == has_magic(b@),
{
    let mut i: usize = 0;
    while i < 16
        invariant
            b.len() >= 16,
            i <= 16,
            forall|k: int| 0 <= k < i ==> #[trigger] b@[k] == magic_byte(k),
        decreases 16 - i,
    {
        let want: u8 = if i % 4 == 0 || i % 4 == 3 {
            45
        } else {
            61
        };
        if b[i] != want {
            return false;
        }
        i = i + 1;
    }
    true
}

fn u32_at(b: &[u8], at: usize) -> (r: u32)
    requires
        at + 4 <= b.len(),
    ensures
        r == u32_le(b@, at as int),
{
    match read_u32(b, at) {
        Some((v, _)) => v,
        None => 0,
    }
}

impl TocHeader {
    /// The header, from the file's first 0x90 bytes (all of the file when it
    /// is shorter than that).
    pub fn parse(path: &str, bytes: &[u8]) -> (r: Result<TocHeader, AssetError>)
        ensures
            match r {
                Ok(h) => bytes.len() >= HEADER_SIZE && has_magic(bytes@) && u32_le(bytes@, 20)
                    == HEADER_SIZE && h == header_of(bytes@),
                Err(AssetError::NotAToc(p)) => p@ == path@ && (bytes.len() < HEADER_SIZE
                    || !has_magic(bytes@)),
                Err(AssetError::UnsupportedVersion(p)) => p@ == path@ && bytes.len()
                    >= HEADER_SIZE && has_magic(bytes@) && u32_le(bytes@, 20) != HEADER_SIZE,
                _ => false,
            },
    {
        if bytes.len() < 0x90 || !has_magic_exec(bytes) {
            return Err(AssetError::NotAToc(crate::text::owned(path)));
        }
        if u32_at(bytes, 20) != HEADER_SIZE {
            return Err(AssetError::UnsupportedVersion(crate::text::owned(path)));
        }
        Ok(
            TocHeader {
                version: bytes[16],
                entry_count: u32_at(bytes, 24),
                compressed_block_count: u32_at(bytes, 28),
                compressed_block_size: u32_at(bytes, 32),
                compression_name_count: u32_at(bytes, 36),
                compression_name_length: u32_at(bytes, 40),
                directory_index_size: u32_at(bytes, 48),
                flags: bytes[80],
                perfect_hash_seed_count: u32_at(bytes, 84),
                chunks_without_perfect_hash: u32_at(bytes, 96),
            },
        )
    }

    /// Whether the index is encrypted.
    pub fn is_encrypted(&self) -> (r: bool)
        ensures
            r == (self.flags & FLAG_ENCRYPTED != 0),
    {
        self.flags & FLAG_ENCRYPTED != 0
    }

    /// Whether a signature block sits in front of the directory index.
    pub fn is_signed(&self) -> (r: bool)
        ensures
            r == (self.flags & FLAG_SIGNED != 0),
    {
        self.flags & FLAG_SIGNED != 0
    }

    /// How many bytes the chunk id table takes.
    pub fn chunk_ids_size(&self) -> (r: u64)
        ensures
            r == self.entry_count * CHUNK_ID_SIZE,
    {
        self.entry_count as u64 * CHUNK_ID_SIZE
    }

    /// Whether the offsets this header implies fit in a file position, with a
    /// signature block of the given size (zero when there is none).
    pub fn offsets_fit(&self, signature_size: u32) -> (r: bool)
        ensures
            r == (after_signatures(*self, signature_size as int) <= u64::MAX),
    {
        let e = self.entry_count as u128;
        let overflow: u128 = if self.version >= VERSION_PERFECT_HASH_WITH_OVERFLOW {
            self.chunks_without_perfect_hash as u128
        } else {
            0
        };
        let hash: u128 = if self.version < VERSION_PERFECT_HASH {
            0
        } else {
            (self.perfect_hash_seed_count as u128 + overflow) * 4
        };
        let bc = self.compressed_block_count as u128;
        let bs = self.compressed_block_size as u128;
        assert(bc * bs <= 0xFFFF_FFFF * 0xFFFF_FFFF) by (nonlinear_arith)
            requires
                bc <= 0xFFFF_FFFF,
                bs <= 0xFFFF_FFFF,
        ;
        let blocks = bc * bs;
        let nc = self.compression_name_count as u128;
        let nl = self.compression_name_length as u128;
        assert(nc * nl <= 0xFFFF_FFFF * 0xFFFF_FFFF) by (nonlinear_arith)
            requires
                nc <= 0xFFFF_FFFF,
                nl <= 0xFFFF_FFFF,
        ;
        let names = nc * nl;
        let total: u128 = 0x90 + e * 12 + e * 10 + hash + blocks + names + 4 + signature_size as u128
            * 2 + self.compressed_block_count as u128 * 20;
        total <= 0xFFFF_FFFF_FFFF_FFFF
    }

    /// Where the signature block starts, or the directory index in an
    /// unsigned container.
    pub fn offset_before_signatures(&self) -> (r: u64)
        requires
            before_signatures(*self) <= u64::MAX,
        ensures
            r == before_signatures(*self),
    {
        let e = self.entry_count as u64;
        let overflow: u64 = if self.version >= VERSION_PERFECT_HASH_WITH_OVERFLOW {
            self.chunks_without_perfect_hash as u64
        } else {
            0
        };
        let hash: u64 = if self.version < VERSION_PERFECT_HASH {
            0
        } else {
            (self.perfect_hash_seed_count as u64 + overflow) * 4
        };
        let bc = self.compressed_block_count as u64;
        let bs = self.compressed_block_size as u64;
        let nc = self.compression_name_count as u64;
        let nl = self.compression_name_length as u64;
        assert(0 <= bc * bs && 0 <= nc * nl) by (nonlinear_arith);
        let blocks = bc * bs;
        let names = nc * nl;
        0x90 + e * 12 + e * 10 + hash + blocks + names
    }

    /// Where the directory index starts in a signed container whose
    /// signature block declares `signature_size`.
    pub fn offset_after_signatures(&self, signature_size: u32) -> (r: u64)
        requires
            after_signatures(*self, signature_size as int) <= u64::MAX,
        ensures
            r == after_signatures(*self, signature_size as int),
    {
        let before = self.offset_before_signatures();
        before + 4 + signature_size as u64 * 2 + self.compressed_block_count as u64 * 20
    }
}

// ---------------------------------------------------------------------------
// Chunk ids
// ---------------------------------------------------------------------------

/// The `i`-th chunk id of a chunk table, as hex.
pub open spec fn chunk_asset(raw: Seq<u8>, i: int) -> AssetModel {
    AssetModel::Chunk(hex_of(raw.subrange(12 * i, 12 * i + 12)))
}

/// A container with no directory index still has chunk ids, and two mods
/// shipping the same chunk still collide: the table's whole 12-byte ids, each
/// as hex.
pub fn chunk_assets(raw: &[u8]) -> (r: Vec<Asset>)
    ensures
        assets_sorted(asset_views(r@)),
        forall|x: AssetModel| #[trigger]
            asset_views(r@).contains(x) <==> exists|i: int|
                0 <= i < raw.len() / 12 && x == #[trigger] chunk_asset(raw@, i),
{
    let mut out: Vec<Asset> = Vec::new();
    let n = raw.len() / 12;
    let mut i: usize = 0;
    while i < n
        invariant
            n == raw.len() / 12,
            i <= n,
            assets_sorted(asset_views(out@)),
            forall|x: AssetModel| #[trigger]
                asset_views(out@).contains(x) <==> exists|k: int|
                    0 <= k < i && x == #[trigger] chunk_asset(raw@, k),
        decreases n - i,
    {
        let chunk = crate::pak::slice_bytes(raw, 12 * i, 12 * i + 12);
        let a = Asset::Chunk(hex(chunk.as_slice()));
        assert(a@ == chunk_asset(raw@, i as int));
        insert_asset(&mut out, a);
        assert forall|x: AssetModel| #[trigger]
            asset_views(out@).contains(x) <==> exists|k: int|
                0 <= k < i + 1 && x == #[trigger] chunk_asset(raw@, k) by {
            if x == chunk_asset(raw@, i as int) {
            }
            if exists|k: int| 0 <= k < i + 1 && x == #[trigger] chunk_asset(raw@, k) {
                let k = choose|k: int| 0 <= k < i + 1 && x == #[trigger] chunk_asset(raw@, k);
                if k < i {
                    assert(exists|k2: int| 0 <= k2 < i && x == #[trigger] chunk_asset(raw@, k2));
                }
            }
        }
        i = i + 1;
    }
    out
}

// ---------------------------------------------------------------------------
// The directory index
// ---------------------------------------------------------------------------

/// A directory: its name, first child, next sibling and first file, each an
/// index into one of the arrays or none.
#[derive(Debug, Clone, Copy, PartialEq, Eq, Structural)]
pub struct DirectoryEntry {
    pub name: Option<u32>,
    pub first_child: Option<u32>,
    pub next_sibling: Option<u32>,
    pub first_file: Option<u32>,
}

/// A file: its name and the next file of its directory.
#[derive(Debug, Clone, Copy, PartialEq, Eq, Structural)]
pub struct FileEntry {
    pub name: u32,
    pub next_file: Option<u32>,
}

/// The directory index: a mount point, then three flat arrays that form a
/// tree by index — directories, files, and the strings both refer to.
pub struct TocIndex {
    pub mount_point: String,
    pub directories: Vec<DirectoryEntry>,
    pub files: Vec<FileEntry>,
    pub strings: Vec<String>,
}

pub struct TocIndexModel {
    pub mount: Seq<char>,
    pub dirs: Seq<DirectoryEntry>,
    pub files: Seq<FileEntry>,
    pub strings: Seq<Seq<char>>,
}

impl View for TocIndex {
    type V = TocIndexModel;

    open spec fn view(&self) -> TocIndexModel {
        TocIndexModel {
            mount: self.mount_point@,
            dirs: self.directories@,
            files: self.files@,
            strings: self.strings@.map_values(|s: String| s@),
        }
    }
}

/// An index into one of the arrays; `u32::MAX` is Epic's "none".
pub open spec fn index_value(v: int) -> Option<u32> {
    if v == 0xFFFF_FFFF {
        None
    } else {
        Some(v as u32)
    }
}

pub open spec fn directory_at(b: Seq<u8>, at: int) -> DirectoryEntry {
    DirectoryEntry {
        name: index_value(u32_le(b, at)),
        first_child: index_value(u32_le(b, at + 4)),
        next_sibling: index_value(u32_le(b, at + 8)),
        first_file: index_value(u32_le(b, at + 12)),
    }
}

/// A file record: the name, the next file, then the chunk it lives in, which
/// is not needed to name it.
pub open spec fn file_at(b: Seq<u8>, at: int) -> FileEntry {
    FileEntry { name: u32_le(b, at) as u32, next_file: index_value(u32_le(b, at + 4)) }
}

/// A count followed by that many 16-byte directory records.
pub open spec fn directories_at(b: Seq<u8>, at: int) -> Option<(Seq<DirectoryEntry>, int)> {
    match count_at(b, at) {
        None => None,
        Some((n, p)) => if p + 16 * n > b.len() {
            None
        } else {
            Some((Seq::new(n, |i: int| directory_at(b, p + 16 * i)), p + 16 * n))
        },
    }
}

/// A count followed by that many 12-byte file records.
pub open spec fn files_at(b: Seq<u8>, at: int) -> Option<(Seq<FileEntry>, int)> {
    match count_at(b, at) {
        None => None,
        Some((n, p)) => if p + 12 * n > b.len() {
            None
        } else {
            Some((Seq::new(n, |i: int| file_at(b, p + 12 * i)), p + 12 * n))
        },
    }
}

/// The first `n` strings at `at`.
pub open spec fn strings_at(b: Seq<u8>, at: int, n: nat) -> Option<(Seq<Seq<char>>, int)>
    decreases n,
{
    if n == 0 {
        Some((Seq::empty(), at))
    } else {
        match strings_at(b, at, (n - 1) as nat) {
            None => None,
            Some((strings, p)) => match fstring_at(b, p) {
                None => None,
                Some((s, q)) => Some((strings.push(s), q)),
            },
        }
    }
}

/// The directory index held in `b`.
pub open spec fn index_of(b: Seq<u8>) -> Option<TocIndexModel> {
    match fstring_at(b, 0) {
        None => None,
        Some((mount, p)) => match directories_at(b, p) {
            None => None,
            Some((dirs, q)) => match files_at(b, q) {
                None => None,
                Some((files, r)) => match count_at(b, r) {
                    None => None,
                    Some((n, s)) => match strings_at(b, s, n) {
                        None => None,
                        Some((strings, _)) => Some(
                            TocIndexModel { mount, dirs, files, strings },
                        ),
                    },
                },
            },
        },
    }
}

/// The files of a directory: the chain from its first file through each
/// file's next, for at most `steps` links, stopping at an index that names no
/// file.
///
/// A chain is followed for at most as many links as there are files: a
/// longer one has to come back to a file it already named, and naming it again
/// adds nothing.
pub open spec fn file_chain(files: Seq<FileEntry>, at: Option<u32>, steps: nat) -> Seq<u32>
    decreases steps,
{
    match at {
        None => Seq::empty(),
        Some(i) => if steps == 0 || i >= files.len() {
            Seq::empty()
        } else {
            seq![i] + file_chain(files, files[i as int].next_file, (steps - 1) as nat)
        },
    }
}

/// The children of a directory: the chain from its first child through each
/// child's next sibling, for at most `steps` links. An index that names no
/// directory is visited (and holds nothing) and ends the chain.
///
/// As with files, a chain is followed for at most as many links as there are
/// directories: a longer one comes back to a directory it has already walked.
pub open spec fn sibling_chain(dirs: Seq<DirectoryEntry>, at: Option<u32>, steps: nat) -> Seq<u32>
    decreases steps,
{
    match at {
        None => Seq::empty(),
        Some(i) => if steps == 0 {
            Seq::empty()
        } else if i >= dirs.len() {
            seq![i]
        } else {
            seq![i] + sibling_chain(dirs, dirs[i as int].next_sibling, (steps - 1) as nat)
        },
    }
}

/// The path a directory's contents sit under: its parent's, then its own
/// name and a `/` when it has a name.
pub open spec fn named_base(ix: TocIndexModel, e: DirectoryEntry, base: Seq<char>) -> Seq<char> {
    match e.name {
        Some(i) => if i < ix.strings.len() {
            base + ix.strings[i as int] + seq!['/']
        } else {
            base
        },
        None => base,
    }
}

/// Whether `x` is one of the named files along a file chain.
pub open spec fn in_files(ix: TocIndexModel, chain: Seq<u32>, base: Seq<char>, x: AssetModel) -> bool {
    exists|t: int|
        0 <= t < chain.len() && ix.files[chain[t] as int].name < ix.strings.len() && x
            == #[trigger] file_asset(ix, chain[t], base)
}

/// The asset a file stands for under a directory path.
pub open spec fn file_asset(ix: TocIndexModel, f: u32, base: Seq<char>) -> AssetModel {
    AssetModel::Path(normalise_of(base + ix.strings[ix.files[f as int].name as int]))
}

/// Whether `x` is in the tree under directory `dir`, found within `budget`
/// more levels of depth.
pub open spec fn in_walk(ix: TocIndexModel, dir: int, base: Seq<char>, budget: nat, x: AssetModel) -> bool
    decreases budget, 1nat, 0nat,
{
    if dir < 0 || dir >= ix.dirs.len() {
        false
    } else {
        let e = ix.dirs[dir];
        let here = named_base(ix, e, base);
        in_files(ix, file_chain(ix.files, e.first_file, ix.files.len()), here, x) || (budget > 0
            && in_children(
            ix,
            sibling_chain(ix.dirs, e.first_child, ix.dirs.len()),
            here,
            budget,
            x,
        ))
    }
}

/// Whether `x` is in the tree under one of the directories of a sibling
/// chain, one level down.
pub open spec fn in_children(
    ix: TocIndexModel,
    chain: Seq<u32>,
    base: Seq<char>,
    budget: nat,
    x: AssetModel,
) -> bool
    decreases budget, 0nat, chain.len(),
{
    if budget == 0 || chain.len() == 0 {
        false
    } else {
        in_children(ix, chain.drop_last(), base, budget, x) || in_walk(
            ix,
            chain.last() as int,
            base,
            (budget - 1) as nat,
            x,
        )
    }
}

/// Everything the directory index names: the tree walked from the root,
/// at most `MAX_DEPTH` levels down, each file named by the directories above
/// it under the mount point.
pub open spec fn index_assets(ix: TocIndexModel, x: AssetModel) -> bool {
    in_walk(ix, 0, with_slash(mount_prefix(ix.mount)), MAX_DEPTH as nat, x)
}

/// Why a directory index that ends early is refused.
pub open spec fn short_directory(path: Seq<char>, e: AssetError) -> bool {
    e matches AssetError::Malformed { path: p, reason: m } && p@ == path
        && m@ == "the directory index ends mid-record"@
}

fn short(path: &str) -> (e: AssetError)
    ensures
        short_directory(path@, e),
{
    AssetError::malformed(path, "the directory index ends mid-record")
}

fn index_value_exec(v: u32) -> (r: Option<u32>)
    ensures
        r == index_value(v as int),
{
    if v == 0xFFFF_FFFF {
        None
    } else {
        Some(v)
    }
}

fn read_directories(b: &[u8], at: usize) -> (r: Option<(Vec<DirectoryEntry>, usize)>)
    ensures
        match r {
            Some((v, next)) => directories_at(b@, at as int) == Some((v@, next as int)),
            None => directories_at(b@, at as int) is None,
        },
{
    let (n, p) = match read_count(b, at) {
        Some(x) => x,
        None => return None,
    };
    if n > (b.len() - p) / 16 {
        return None;
    }
    let mut v: Vec<DirectoryEntry> = Vec::new();
    let mut i: usize = 0;
    while i < n
        invariant
            p + 16 * n <= b.len(),
            i <= n,
            v@ =~= Seq::new(i as nat, |k: int| directory_at(b@, p + 16 * k)),
        decreases n - i,
    {
        let q = p + 16 * i;
        let e = DirectoryEntry {
            name: index_value_exec(u32_at(b, q)),
            first_child: index_value_exec(u32_at(b, q + 4)),
            next_sibling: index_value_exec(u32_at(b, q + 8)),
            first_file: index_value_exec(u32_at(b, q + 12)),
        };
        v.push(e);
        i = i + 1;
    }
    Some((v, p + 16 * n))
}

fn read_files(b: &[u8], at: usize) -> (r: Option<(Vec<FileEntry>, usize)>)
    ensures
        match r {
            Some((v, next)) => files_at(b@, at as int) == Some((v@, next as int)),
            None => files_at(b@, at as int) is None,
        },
{
    let (n, p) = match read_count(b, at) {
        Some(x) => x,
        None => return None,
    };
    if n > (b.len() - p) / 12 {
        return None;
    }
    let mut v: Vec<FileEntry> = Vec::new();
    let mut i: usize = 0;
    while i < n
        invariant
            p + 12 * n <= b.len(),
            i <= n,
            v@ =~= Seq::new(i as nat, |k: int| file_at(b@, p + 12 * k)),
        decreases n - i,
    {
        let q = p + 12 * i;
        let e = FileEntry { name: u32_at(b, q), next_file: index_value_exec(u32_at(b, q + 4)) };
        v.push(e);
        i = i + 1;
    }
    Some((v, p + 12 * n))
}

proof fn lemma_strings_none(b: Seq<u8>, at: int, k: nat, n: nat)
    requires
        k <= n,
        strings_at(b, at, k) is None,
    ensures
        strings_at(b, at, n) is None,
    decreases n - k,
{
    if k < n {
        lemma_strings_none(b, at, k, (n - 1) as nat);
    }
}

fn read_strings(b: &[u8], at: usize, n: usize) -> (r: Option<Vec<String>>)
    ensures
        match r {
            Some(v) => strings_at(b@, at as int, n as nat) matches Some((s, _)) && v@.map_values(
                |x: String| x@,
            ) == s,
            None => strings_at(b@, at as int, n as nat) is None,
        },
{
    let mut v: Vec<String> = Vec::new();
    let mut p: usize = at;
    let mut i: usize = 0;
    while i < n
        invariant
            i <= n,
            strings_at(b@, at as int, i as nat) == Some((v@.map_values(|x: String| x@), p as int)),
        decreases n - i,
    {
        match read_fstring(b, p) {
            None => {
                proof {
                    lemma_strings_none(b@, at as int, (i + 1) as nat, n as nat);
                }
                return None;
            },
            Some((s, q)) => {
                let ghost prev = v@.map_values(|x: String| x@);
                v.push(s);
                assert(v@.map_values(|x: String| x@) =~= prev.push(s@));
                p = q;
            },
        }
        i = i + 1;
    }
    Some(v)
}

/// The directory index's arrays, read but not yet walked.
pub fn parse_index(path: &str, blob: &[u8]) -> (r: Result<TocIndex, AssetError>)
    ensures
        match r {
            Ok(ix) => index_of(blob@) == Some(ix@),
            Err(e) => index_of(blob@) is None && short_directory(path@, e),
        },
{
    let (mount_point, p) = match read_fstring(blob, 0) {
        Some(x) => x,
        None => return Err(short(path)),
    };
    let (directories, q) = match read_directories(blob, p) {
        Some(x) => x,
        None => return Err(short(path)),
    };
    let (files, r) = match read_files(blob, q) {
        Some(x) => x,
        None => return Err(short(path)),
    };
    let (n, s) = match read_count(blob, r) {
        Some(x) => x,
        None => return Err(short(path)),
    };
    let strings = match read_strings(blob, s, n) {
        Some(x) => x,
        None => return Err(short(path)),
    };
    let ix = TocIndex { mount_point, directories, files, strings };
    assert(ix@.strings == strings@.map_values(|x: String| x@));
    Ok(ix)
}

/// The set `in_children` describes, grown by one more child.
proof fn lemma_children_push(
    ix: TocIndexModel,
    chain: Seq<u32>,
    c: u32,
    base: Seq<char>,
    budget: nat,
    x: AssetModel,
)
    requires
        budget > 0,
    ensures
        in_children(ix, chain.push(c), base, budget, x) == (in_children(ix, chain, base, budget, x)
            || in_walk(ix, c as int, base, (budget - 1) as nat, x)),
{
    assert(chain.push(c).drop_last() =~= chain);
}

proof fn lemma_files_push(ix: TocIndexModel, chain: Seq<u32>, f: u32, base: Seq<char>, x: AssetModel)
    ensures
        in_files(ix, chain.push(f), base, x) == (in_files(ix, chain, base, x) || (
        ix.files[f as int].name < ix.strings.len() && x == file_asset(ix, f, base))),
{
    let longer = chain.push(f);
    if in_files(ix, chain, base, x) {
        let t = choose|t: int|
            0 <= t < chain.len() && ix.files[chain[t] as int].name < ix.strings.len() && x
                == #[trigger] file_asset(ix, chain[t], base);
        assert(longer[t] == chain[t]);
    }
    if ix.files[f as int].name < ix.strings.len() && x == file_asset(ix, f, base) {
        assert(longer[chain.len() as int] == f);
    }
    if in_files(ix, longer, base, x) {
        let t = choose|t: int|
            0 <= t < longer.len() && ix.files[longer[t] as int].name < ix.strings.len() && x
                == #[trigger] file_asset(ix, longer[t], base);
        if t < chain.len() {
            assert(longer[t] == chain[t]);
        }
    }
}

/// Add the named files along a directory's file chain.
fn add_files(ix: &TocIndex, first: Option<u32>, base: &[char], out: &mut Vec<Asset>)
    requires
        assets_sorted(asset_views(old(out)@)),
    ensures
        assets_sorted(asset_views(final(out)@)),
        forall|x: AssetModel| #[trigger]
            asset_views(final(out)@).contains(x) <==> (asset_views(old(out)@).contains(x)
                || in_files(ix@, file_chain(ix@.files, first, ix@.files.len()), base@, x)),
{
    let ghost m = ix@;
    let ghost full = file_chain(m.files, first, m.files.len());
    let ghost mut seen: Seq<u32> = Seq::empty();
    let ghost start = asset_views(out@);
    let mut file = first;
    let mut steps: usize = ix.files.len();
    while steps > 0 && file.is_some() && (file.unwrap() as usize) < ix.files.len()
        invariant
            m == ix@,
            full == file_chain(m.files, first, m.files.len()),
            full == seen + file_chain(m.files, file, steps as nat),
            assets_sorted(asset_views(out@)),
            forall|x: AssetModel| #[trigger]
                asset_views(out@).contains(x) <==> (start.contains(x) || in_files(
                    m,
                    seen,
                    base@,
                    x,
                )),
        decreases steps,
    {
        let index = file.unwrap();
        let entry = ix.files[index as usize];
        assert(m.files[index as int] == entry);
        let ghost prev_seen = seen;
        if (entry.name as usize) < ix.strings.len() {
            let name = &ix.strings[entry.name as usize];
            assert(m.strings[entry.name as int] == name@);
            let full_path = concat_chars(base, chars_of(name.as_str()).as_slice());
            let a = Asset::path(string_from_chars(full_path.as_slice()).as_str());
            assert(a@ == file_asset(m, index, base@));
            insert_asset(out, a);
        }
        proof {
            seen = seen.push(index);
            assert(file_chain(m.files, file, steps as nat) =~= seq![index] + file_chain(
                m.files,
                entry.next_file,
                (steps - 1) as nat,
            ));
            assert(full =~= seen + file_chain(m.files, entry.next_file, (steps - 1) as nat));
            assert forall|x: AssetModel| #[trigger]
                asset_views(out@).contains(x) <==> (start.contains(x) || in_files(
                    m,
                    seen,
                    base@,
                    x,
                )) by {
                lemma_files_push(m, prev_seen, index, base@, x);
            }
        }
        file = entry.next_file;
        steps = steps - 1;
    }
    assert(file_chain(m.files, file, steps as nat) =~= Seq::<u32>::empty());
    assert(full =~= seen);
}

/// Add everything under directory `dir`, its contents named under `base`,
/// going at most `budget` more levels down.
fn walk(ix: &TocIndex, dir: u32, base: &[char], budget: usize, out: &mut Vec<Asset>)
    requires
        assets_sorted(asset_views(old(out)@)),
    ensures
        assets_sorted(asset_views(final(out)@)),
        forall|x: AssetModel| #[trigger]
            asset_views(final(out)@).contains(x) <==> (asset_views(old(out)@).contains(x)
                || in_walk(ix@, dir as int, base@, budget as nat, x)),
    decreases budget,
{
    let ghost m = ix@;
    if dir as usize >= ix.directories.len() {
        return;
    }
    let entry = ix.directories[dir as usize];
    assert(m.dirs[dir as int] == entry);
    let here: Vec<char> = match entry.name {
        Some(i) => {
            if (i as usize) < ix.strings.len() {
                let named = concat_chars(base, chars_of(ix.strings[i as usize].as_str()).as_slice());
                let mut named = named;
                named.push('/');
                named
            } else {
                crate::text::copy_chars(base)
            }
        },
        None => crate::text::copy_chars(base),
    };
    assert(here@ =~= named_base(m, entry, base@));
    let ghost start = asset_views(out@);
    add_files(ix, entry.first_file, here.as_slice(), out);
    if budget == 0 {
        return;
    }
    let ghost full = sibling_chain(m.dirs, entry.first_child, m.dirs.len());
    let ghost mut seen: Seq<u32> = Seq::empty();
    let ghost after_files = asset_views(out@);
    let mut child = entry.first_child;
    let mut steps: usize = ix.directories.len();
    while steps > 0 && child.is_some()
        invariant
            m == ix@,
            budget > 0,
            full == sibling_chain(m.dirs, entry.first_child, m.dirs.len()),
            full == seen + sibling_chain(m.dirs, child, steps as nat),
            assets_sorted(asset_views(out@)),
            forall|x: AssetModel| #[trigger]
                asset_views(out@).contains(x) <==> (after_files.contains(x) || in_children(
                    m,
                    seen,
                    here@,
                    budget as nat,
                    x,
                )),
        decreases steps,
    {
        let index = child.unwrap();
        let ghost before_child = asset_views(out@);
        walk(ix, index, here.as_slice(), budget - 1, out);
        let ghost prev_seen = seen;
        proof {
            seen = seen.push(index);
            assert forall|x: AssetModel| #[trigger]
                asset_views(out@).contains(x) <==> (after_files.contains(x) || in_children(
                    m,
                    seen,
                    here@,
                    budget as nat,
                    x,
                )) by {
                lemma_children_push(m, prev_seen, index, here@, budget as nat, x);
            }
        }
        if (index as usize) < ix.directories.len() {
            let next = ix.directories[index as usize].next_sibling;
            assert(sibling_chain(m.dirs, child, steps as nat) =~= seq![index] + sibling_chain(
                m.dirs,
                next,
                (steps - 1) as nat,
            ));
            child = next;
            steps = steps - 1;
        } else {
            assert(sibling_chain(m.dirs, child, steps as nat) =~= seq![index]);
            assert(full =~= seen);
            child = None;
            steps = 0;
        }
    }
    assert(sibling_chain(m.dirs, child, steps as nat) =~= Seq::<u32>::empty());
    assert(full =~= seen);
}

/// Everything the container's directory index names, walked from the root
/// directory and joined under the mount point.
pub fn parse_directory_index(path: &str, blob: &[u8]) -> (r: Result<Vec<Asset>, AssetError>)
    ensures
        match r {
            Ok(v) => index_of(blob@) matches Some(ix) && assets_sorted(asset_views(v@)) && forall|
                x: AssetModel,
            | #[trigger] asset_views(v@).contains(x) <==> index_assets(ix, x),
            Err(e) => index_of(blob@) is None && short_directory(path@, e),
        },
{
    let ix = match parse_index(path, blob) {
        Ok(ix) => ix,
        Err(e) => return Err(e),
    };
    let mut assets: Vec<Asset> = Vec::new();
    let prefix = crate::pak::mount_prefix_exec(ix.mount_point.as_str());
    let mut base = crate::text::copy_chars(prefix.as_slice());
    if base.len() > 0 && base[base.len() - 1] != '/' {
        base.push('/');
    }
    assert(base@ == with_slash(mount_prefix(ix@.mount)));
    walk(&ix, 0, base.as_slice(), MAX_DEPTH, &mut assets);
    Ok(assets)
}

} // verus!
