//! Telling archive formats apart, and keeping extraction inside its folder.

use vstd::prelude::*;

use crate::loadorder::{path_extension, path_extension_exec};
use crate::text::{chars_eq, chars_of, split, split_chars, views};

verus! {

#[derive(Debug, Clone, Copy, PartialEq, Eq, Structural)]
pub enum ArchiveKind {
    Zip,
    SevenZ,
    Rar,
}

/// `bytes` starts with `magic`.
pub open spec fn starts_with_bytes(bytes: Seq<u8>, magic: Seq<u8>) -> bool {
    magic.len() <= bytes.len() && bytes.subrange(0, magic.len() as int) == magic
}

/// The format the first bytes of a file announce.
pub open spec fn kind_of_magic(m: Seq<u8>) -> Option<ArchiveKind> {
    if starts_with_bytes(m, seq![0x50u8, 0x4Bu8, 0x03u8, 0x04u8]) || starts_with_bytes(m, seq![0x50u8, 0x4Bu8, 0x05u8, 0x06u8]) {
        Some(ArchiveKind::Zip)
    } else if starts_with_bytes(m, seq![0x37u8, 0x7Au8, 0xBCu8, 0xAFu8, 0x27u8, 0x1Cu8]) {
        Some(ArchiveKind::SevenZ)
    } else if starts_with_bytes(m, seq![0x52u8, 0x61u8, 0x72u8, 0x21u8, 0x1Au8, 0x07u8]) {
        Some(ArchiveKind::Rar)
    } else {
        None
    }
}

/// The format a file name's extension claims.
pub open spec fn kind_of_extension(path: Seq<char>) -> Option<ArchiveKind> {
    match path_extension(path) {
        Some(e) => if e == "zip"@ {
            Some(ArchiveKind::Zip)
        } else if e == "7z"@ {
            Some(ArchiveKind::SevenZ)
        } else if e == "rar"@ {
            Some(ArchiveKind::Rar)
        } else {
            None
        },
        None => None,
    }
}

fn starts_with_bytes_exec(bytes: &[u8], magic: &[u8]) -> (r: bool)
    ensures
        r == starts_with_bytes(bytes@, magic@),
{
    if magic.len() > bytes.len() {
        return false;
    }
    let mut i: usize = 0;
    while i < magic.len()
        invariant
            i <= magic.len(),
            magic.len() <= bytes.len(),
            forall|k: int| 0 <= k < i ==> bytes@[k] == magic@[k],
        decreases magic.len() - i,
    {
        if bytes[i] != magic[i] {
            assert(bytes@.subrange(0, magic@.len() as int)[i as int] != magic@[i as int]);
            return false;
        }
        i = i + 1;
    }
    assert(bytes@.subrange(0, magic@.len() as int) =~= magic@);
    true
}

/// Identify an archive by the first bytes of the file.
pub fn kind_from_magic(magic: &[u8]) -> (r: Option<ArchiveKind>)
    ensures
        r == kind_of_magic(magic@),
{
    let zip1: [u8; 4] = [0x50, 0x4B, 0x03, 0x04];
    let zip2: [u8; 4] = [0x50, 0x4B, 0x05, 0x06];
    let sz: [u8; 6] = [0x37, 0x7A, 0xBC, 0xAF, 0x27, 0x1C];
    let rar: [u8; 6] = [0x52, 0x61, 0x72, 0x21, 0x1A, 0x07];
    assert(zip1@ =~= seq![0x50u8, 0x4Bu8, 0x03u8, 0x04u8]);
    assert(zip2@ =~= seq![0x50u8, 0x4Bu8, 0x05u8, 0x06u8]);
    assert(sz@ =~= seq![0x37u8, 0x7Au8, 0xBCu8, 0xAFu8, 0x27u8, 0x1Cu8]);
    assert(rar@ =~= seq![0x52u8, 0x61u8, 0x72u8, 0x21u8, 0x1Au8, 0x07u8]);
    if starts_with_bytes_exec(magic, &zip1) || starts_with_bytes_exec(magic, &zip2) {
        Some(ArchiveKind::Zip)
    } else if starts_with_bytes_exec(magic, &sz) {
        Some(ArchiveKind::SevenZ)
    } else if starts_with_bytes_exec(magic, &rar) {
        Some(ArchiveKind::Rar)
    } else {
        None
    }
}

/// Identify an archive by its magic bytes, falling back to the extension.
///
/// Magic bytes come first because mods are routinely uploaded with the wrong
/// extension — a `.zip` that is really a RAR is common enough to matter.
/// `magic` is the first bytes of the file, or nothing when it could not be
/// read.
pub fn detect_kind(path: &str, magic: Option<&[u8]>) -> (r: Option<ArchiveKind>)
    ensures
        r == match magic {
            Some(m) => match kind_of_magic(m@) {
                Some(k) => Some(k),
                None => kind_of_extension(path@),
            },
            None => kind_of_extension(path@),
        },
{
    match magic {
        Some(m) => {
            match kind_from_magic(m) {
                Some(k) => {
                    return Some(k);
                },
                None => {},
            }
        },
        None => {},
    }
    match path_extension_exec(chars_of(path).as_slice()) {
        Some(e) => {
            if chars_eq(e.as_slice(), chars_of("zip").as_slice()) {
                Some(ArchiveKind::Zip)
            } else if chars_eq(e.as_slice(), chars_of("7z").as_slice()) {
                Some(ArchiveKind::SevenZ)
            } else if chars_eq(e.as_slice(), chars_of("rar").as_slice()) {
                Some(ArchiveKind::Rar)
            } else {
                None
            }
        },
        None => None,
    }
}

/// A path separator as Windows reads one: `/` or `\\`.
pub open spec fn is_separator(c: char) -> bool {
    c == '/' || c == '\\'
}

/// The path with every separator written as `/`.
pub open spec fn with_slashes(p: Seq<char>) -> Seq<char> {
    p.map_values(|c: char| if is_separator(c) { '/' } else { c })
}

/// A drive prefix such as `C:`, which Windows reads before any separator.
pub open spec fn has_drive_prefix(p: Seq<char>) -> bool {
    p.len() >= 2 && (('a' <= p[0] && p[0] <= 'z') || ('A' <= p[0] && p[0] <= 'Z')) && p[1] == ':'
}

/// A relative path that stays where it is put, read as Windows (the game's
/// platform) reads it: it starts with no separator and no drive prefix,
/// and no piece between separators is `..`.
pub open spec fn safe_relative(p: Seq<char>) -> bool {
    let q = with_slashes(p);
    &&& !(q.len() > 0 && q[0] == '/')
    &&& !has_drive_prefix(q)
    &&& !split(q, '/').contains(seq!['.', '.'])
}

/// The path with `\\` written as `/`.
pub fn with_slashes_exec(p: &[char]) -> (r: Vec<char>)
    ensures
        r@ == with_slashes(p@),
{
    let mut out: Vec<char> = Vec::new();
    let mut i: usize = 0;
    while i < p.len()
        invariant
            i <= p.len(),
            out@ == with_slashes(p@.subrange(0, i as int)),
        decreases p.len() - i,
    {
        let c = p[i];
        if c == '/' || c == '\\' {
            out.push('/');
        } else {
            out.push(c);
        }
        assert(with_slashes(p@.subrange(0, i + 1)) =~= with_slashes(p@.subrange(0, i as int)).push(
            if is_separator(c) { '/' } else { c },
        ));
        i = i + 1;
    }
    assert(p@.subrange(0, p.len() as int) =~= p@);
    out
}

/// Whether an archive entry's path stays inside the extraction folder.
pub fn is_safe_relative(path: &str) -> (r: bool)
    ensures
        r == safe_relative(path@),
{
    let p = with_slashes_exec(chars_of(path).as_slice());
    if p.len() > 0 && p[0] == '/' {
        return false;
    }
    if p.len() >= 2 && (('a' <= p[0] && p[0] <= 'z') || ('A' <= p[0] && p[0] <= 'Z')) && p[1] == ':' {
        return false;
    }
    let pieces = split_chars(p.as_slice(), '/');
    let mut dots: Vec<char> = Vec::new();
    dots.push('.');
    dots.push('.');
    assert(dots@ =~= seq!['.', '.']);
    !crate::text::contains_piece(&pieces, dots.as_slice())
}

} // verus!
