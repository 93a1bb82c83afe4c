//! Reading binary indexes: little-endian integers, Unreal's length-prefixed
//! strings, and the text decodings they rely on.
//!
//! Every reader here is bounds-checked against the blob it is given and
//! answers `None` rather than reading past its end, so a truncated or corrupt
//! index is refused instead of misread.

use vstd::prelude::*;

verus! {

// ---------------------------------------------------------------------------
// Integers
// ---------------------------------------------------------------------------

/// The little-endian `u16` at `at`.
pub open spec fn u16_le(b: Seq<u8>, at: int) -> int {
    b[at] as int + 256 * (b[at + 1] as int)
}

/// The little-endian `u32` at `at`.
pub open spec fn u32_le(b: Seq<u8>, at: int) -> int {
    u16_le(b, at) + 65536 * u16_le(b, at + 2)
}

/// The little-endian `u64` at `at`.
pub open spec fn u64_le(b: Seq<u8>, at: int) -> int {
    u32_le(b, at) + 4294967296 * u32_le(b, at + 4)
}

/// The `u32` at `at`, and the position after it; `None` when fewer than four
/// bytes are left.
pub fn read_u32(b: &[u8], at: usize) -> (r: Option<(u32, usize)>)
    ensures
        match r {
            Some((v, next)) => at + 4 <= b.len() && v == u32_le(b@, at as int) && next == at + 4,
            None => at + 4 > b.len(),
        },
{
    if at > b.len() || b.len() - at < 4 {
        return None;
    }
    let v: u32 = b[at] as u32 + (b[at + 1] as u32) * 256 + (b[at + 2] as u32) * 65536 + (
    b[at + 3] as u32) * 16777216;
    Some((v, at + 4))
}

/// The `u64` at `at`, and the position after it; `None` when fewer than eight
/// bytes are left.
pub fn read_u64(b: &[u8], at: usize) -> (r: Option<(u64, usize)>)
    ensures
        match r {
            Some((v, next)) => at + 8 <= b.len() && v == u64_le(b@, at as int) && next == at + 8,
            None => at + 8 > b.len(),
        },
{
    match read_u32(b, at) {
        None => None,
        Some((lo, p)) => match read_u32(b, p) {
            None => None,
            Some((hi, q)) => {
                let v: u64 = lo as u64 + (hi as u64) * 4294967296;
                Some((v, q))
            },
        },
    }
}

/// A count that cannot be larger than the blob it indexes into, and the
/// position after it.
pub open spec fn count_at(b: Seq<u8>, at: int) -> Option<(nat, int)> {
    if at < 0 || at + 4 > b.len() || u32_le(b, at) > b.len() {
        None
    } else {
        Some((u32_le(b, at) as nat, at + 4))
    }
}

/// A count that cannot be larger than the blob, and the position after it.
pub fn read_count(b: &[u8], at: usize) -> (r: Option<(usize, usize)>)
    ensures
        match r {
            Some((n, next)) => count_at(b@, at as int) == Some((n as nat, next as int)),
            None => count_at(b@, at as int) is None,
        },
{
    match read_u32(b, at) {
        None => None,
        Some((n, p)) => {
            if n as usize > b.len() {
                None
            } else {
                Some((n as usize, p))
            }
        },
    }
}

// ---------------------------------------------------------------------------
// Strings
// ---------------------------------------------------------------------------

/// `e` is where the text in `s` ends: the first `nul`, or the end of `s`.
pub open spec fn is_text_end<A>(s: Seq<A>, nul: A, e: int) -> bool {
    &&& 0 <= e <= s.len()
    &&& forall|k: int| 0 <= k < e ==> s[k] != nul
    &&& (e == s.len() || s[e] == nul)
}

/// Where the text in `s` ends.
pub open spec fn text_end<A>(s: Seq<A>, nul: A) -> int {
    choose|e: int| is_text_end(s, nul, e)
}

/// The text in `s`: everything before the first `nul`.
pub open spec fn up_to_nul<A>(s: Seq<A>, nul: A) -> Seq<A> {
    s.take(text_end(s, nul))
}

/// Only one position can be where a text ends.
pub proof fn lemma_text_end<A>(s: Seq<A>, nul: A, e: int)
    requires
        is_text_end(s, nul, e),
    ensures
        text_end(s, nul) == e,
        up_to_nul(s, nul) == s.take(e),
{
    let c = text_end(s, nul);
    assert(is_text_end(s, nul, c));
    if c < e {
        assert(s[c] != nul);
    } else if e < c {
        assert(s[e] != nul);
    }
}

/// Pairs of bytes read as little-endian `u16` code units.
pub open spec fn utf16_units(raw: Seq<u8>) -> Seq<u16> {
    Seq::new((raw.len() / 2) as nat, |i: int| u16_le(raw, 2 * i) as u16)
}

/// What `String::from_utf8_lossy` makes of some bytes: valid UTF-8 decoded,
/// anything else replaced by U+FFFD.
pub uninterp spec fn utf8_lossy(b: Seq<u8>) -> Seq<char>;

/// What `String::from_utf16_lossy` makes of some code units: valid UTF-16
/// decoded, unpaired surrogates replaced by U+FFFD.
pub uninterp spec fn utf16_lossy(units: Seq<u16>) -> Seq<char>;

/// `String::from_utf8_lossy`: decodes UTF-8, replacing what is not valid.
#[verifier::external_body]
pub(crate) fn lossy_string(b: &[u8]) -> (r: String)
    ensures
        r@ == utf8_lossy(b@),
{
    String::from_utf8_lossy(b).into_owned()
}

/// `String::from_utf16_lossy`: decodes UTF-16, replacing what is not valid.
#[verifier::external_body]
fn lossy_string_utf16(units: &[u16]) -> (r: String)
    ensures
        r@ == utf16_lossy(units@),
{
    String::from_utf16_lossy(units)
}

/// An `FString` at `at`: a length, then that many bytes of text ending in a
/// NUL. A negative length (as an `i32`) counts UTF-16 code units instead.
/// Gives the text and the position after the string.
pub open spec fn fstring_at(b: Seq<u8>, at: int) -> Option<(Seq<char>, int)> {
    if at < 0 || at + 4 > b.len() {
        None
    } else {
        let n = u32_le(b, at);
        let start = at + 4;
        if n == 0 {
            Some((Seq::empty(), start))
        } else if n >= 0x8000_0000 {
            let count = 0x1_0000_0000 - n;
            if start + 2 * count > b.len() {
                None
            } else {
                let raw = b.subrange(start, start + 2 * count);
                Some((utf16_lossy(up_to_nul(utf16_units(raw), 0u16)), start + 2 * count))
            }
        } else {
            if start + n > b.len() {
                None
            } else {
                let raw = b.subrange(start, start + n);
                Some((utf8_lossy(up_to_nul(raw, 0u8)), start + n))
            }
        }
    }
}

/// The code units of `b[start..start + 2 * count]` up to the first zero unit.
fn wide_units(b: &[u8], start: usize, count: usize) -> (r: Vec<u16>)
    requires
        start + 2 * count <= b.len(),
    ensures
        r@ == up_to_nul(utf16_units(b@.subrange(start as int, start + 2 * count)), 0u16),
{
    let ghost units = utf16_units(b@.subrange(start as int, start + 2 * count));
    let mut r: Vec<u16> = Vec::new();
    let mut i: usize = 0;
    while i < count
        invariant
            start + 2 * count <= b.len(),
            units == utf16_units(b@.subrange(start as int, start + 2 * count)),
            units.len() == count,
            i <= count,
            r@ == units.take(i as int),
            forall|k: int| 0 <= k < i ==> units[k] != 0u16,
        decreases count - i,
    {
        let p = start + 2 * i;
        let unit: u16 = b[p] as u16 + (b[p + 1] as u16) * 256;
        assert(unit == units[i as int]);
        if unit == 0 {
            proof {
                lemma_text_end(units, 0u16, i as int);
            }
            return r;
        }
        r.push(unit);
        assert(r@ =~= units.take(i + 1));
        i = i + 1;
    }
    proof {
        lemma_text_end(units, 0u16, count as int);
    }
    r
}

/// The bytes of `b[start..start + n]` up to the first zero byte.
fn narrow_bytes(b: &[u8], start: usize, n: usize) -> (r: Vec<u8>)
    requires
        start + n <= b.len(),
    ensures
        r@ == up_to_nul(b@.subrange(start as int, start + n), 0u8),
{
    let ghost raw = b@.subrange(start as int, start + n);
    let mut r: Vec<u8> = Vec::new();
    let mut i: usize = 0;
    while i < n
        invariant
            start + n <= b.len(),
            raw == b@.subrange(start as int, start + n),
            i <= n,
            r@ == raw.take(i as int),
            forall|k: int| 0 <= k < i ==> raw[k] != 0u8,
        decreases n - i,
    {
        let byte = b[start + i];
        if byte == 0 {
            proof {
                lemma_text_end(raw, 0u8, i as int);
            }
            return r;
        }
        r.push(byte);
        assert(r@ =~= raw.take(i + 1));
        i = i + 1;
    }
    proof {
        lemma_text_end(raw, 0u8, n as int);
    }
    r
}

/// The `FString` at `at`, and the position after it; `None` when the blob
/// ends before the string does.
pub fn read_fstring(b: &[u8], at: usize) -> (r: Option<(String, usize)>)
    ensures
        match r {
            Some((s, next)) => fstring_at(b@, at as int) == Some((s@, next as int)),
            None => fstring_at(b@, at as int) is None,
        },
{
    let (n, start) = match read_u32(b, at) {
        None => return None,
        Some(x) => x,
    };
    if n == 0 {
        return Some((String::new(), start));
    }
    if n >= 0x8000_0000 {
        let count: u32 = ((0xFFFF_FFFFu64 - n as u64) + 1) as u32;
        let count = count as usize;
        let room = b.len() - start;
        if count > room / 2 {
            return None;
        }
        let units = wide_units(b, start, count);
        return Some((lossy_string_utf16(units.as_slice()), start + 2 * count));
    }
    let n = n as usize;
    if n > b.len() - start {
        return None;
    }
    let raw = narrow_bytes(b, start, n);
    Some((lossy_string(raw.as_slice()), start + n))
}

// ---------------------------------------------------------------------------
// Hex
// ---------------------------------------------------------------------------

/// One lowercase hexadecimal digit.
pub open spec fn hex_digit(n: int) -> char {
    ((if n < 10 { 48 + n } else { 87 + n }) as u8) as char
}

/// Each byte as two lowercase hexadecimal digits, as `{:02x}` writes it.
pub open spec fn hex_of(b: Seq<u8>) -> Seq<char>
    decreases b.len(),
{
    if b.len() == 0 {
        Seq::empty()
    } else {
        hex_of(b.drop_last()) + seq![hex_digit((b.last() / 16) as int), hex_digit((b.last() % 16) as int)]
    }
}

fn hex_digit_exec(n: u8) -> (c: char)
    requires
        n < 16,
    ensures
        c == hex_digit(n as int),
{
    let d: u8 = if n < 10 {
        48 + n
    } else {
        87 + n
    };
    d as char
}

/// The bytes as lowercase hexadecimal, two digits each.
pub fn hex(b: &[u8]) -> (r: String)
    ensures
        r@ == hex_of(b@),
{
    let mut out: Vec<char> = Vec::new();
    let mut i: usize = 0;
    while i < b.len()
        invariant
            i <= b.len(),
            out@ == hex_of(b@.take(i as int)),
        decreases b.len() - i,
    {
        let byte = b[i];
        out.push(hex_digit_exec(byte / 16));
        out.push(hex_digit_exec(byte % 16));
        assert(b@.take(i + 1).drop_last() =~= b@.take(i as int));
        i = i + 1;
    }
    assert(b@.take(b.len() as int) =~= b@);
    crate::text::string_from_chars(out.as_slice())
}

} // verus!
