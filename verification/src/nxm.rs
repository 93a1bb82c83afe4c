//! Parsing the `nxm://` links the "Mod Manager Download" button produces.
//!
//! A link looks like:
//!
//! ```text
//! nxm://stellarblade/mods/123/files/456?key=abc&expires=1700000000&user_id=42
//! ```
//!
//! The `key` and `expires` pair is what lets a free account ask the API for a
//! download link at all — without Premium they are the only way through, and
//! they are short-lived. Collection links use a different shape and are
//! recognised here too so the UI can route them.

use vstd::prelude::*;

use crate::bytes::{lossy_string, utf8_lossy};
use crate::model::opt_view;
use crate::text::{
    after_first, chars_eq, chars_of, concat_chars, contains_char, eq_ignore_case, first_piece,
    is_prefix, lower, lower_chars, parse_unsigned, parse_unsigned_of, segments, segments_of,
    slice_chars, split, split_chars, split_once_exec, starts_with, string_from_chars, views,
    nonempty_filter, lemma_filter_step,
};

verus! {

// ---------------------------------------------------------------------------
// Percent-decoding
// ---------------------------------------------------------------------------

/// The value of one ASCII hexadecimal digit.
pub open spec fn hex_val(b: u8) -> Option<int> {
    if 48 <= b && b <= 57 {
        Some(b - 48)
    } else if 97 <= b && b <= 102 {
        Some(b - 87)
    } else if 65 <= b && b <= 70 {
        Some(b - 55)
    } else {
        None
    }
}

/// `u8::from_str_radix(_, 16)` on a two-byte text: two hex digits, or `+`
/// and one.
pub open spec fn pair_value(b1: u8, b2: u8) -> Option<u8> {
    match (hex_val(b1), hex_val(b2)) {
        (Some(h1), Some(h2)) => Some((16 * h1 + h2) as u8),
        (None, Some(h2)) => if b1 == 43 {
            Some(h2 as u8)
        } else {
            None
        },
        _ => None,
    }
}

/// Percent escapes and `+` decoded, from byte `i` on.
pub open spec fn pct_from(b: Seq<u8>, i: int) -> Seq<u8>
    decreases b.len() - i,
{
    if i < 0 || i >= b.len() {
        Seq::empty()
    } else if b[i] == 37 && i + 2 < b.len() && pair_value(b[i + 1], b[i + 2]) is Some {
        seq![pair_value(b[i + 1], b[i + 2])->0] + pct_from(b, i + 3)
    } else if b[i] == 43 {
        seq![32u8] + pct_from(b, i + 1)
    } else {
        seq![b[i]] + pct_from(b, i + 1)
    }
}

/// What a query value decodes to.
pub open spec fn percent_decoded(v: Seq<char>) -> Seq<char> {
    utf8_lossy(pct_from(vstd::utf8::encode_utf8(v), 0))
}

fn hex_val_exec(b: u8) -> (r: Option<u8>)
    ensures
        match r {
            Some(v) => hex_val(b) == Some(v as int),
            None => hex_val(b) is None,
        },
{
    if 48 <= b && b <= 57 {
        Some(b - 48)
    } else if 97 <= b && b <= 102 {
        Some(b - 87)
    } else if 65 <= b && b <= 70 {
        Some(b - 55)
    } else {
        None
    }
}

fn pair_value_exec(b1: u8, b2: u8) -> (r: Option<u8>)
    ensures
        r == pair_value(b1, b2),
{
    match (hex_val_exec(b1), hex_val_exec(b2)) {
        (Some(h1), Some(h2)) => Some(16 * h1 + h2),
        (None, Some(h2)) => if b1 == 43 {
            Some(h2)
        } else {
            None
        },
        _ => None,
    }
}

/// Minimal percent-decoding: keys are base64-ish and can contain `%2B` etc.
pub fn percent_decode(value: &str) -> (r: String)
    ensures
        r@ == percent_decoded(value@),
{
    let bytes = value.as_bytes();
    assert(bytes@ == vstd::utf8::encode_utf8(value@));
    let ghost b = bytes@;
    let mut out: Vec<u8> = Vec::new();
    let mut i: usize = 0;
    while i < bytes.len()
        invariant
            i <= bytes.len(),
            b == bytes@,
            out@ + pct_from(b, i as int) == pct_from(b, 0),
        decreases bytes.len() - i,
    {
        let ghost prev = out@;
        if bytes[i] == 37 && bytes.len() - i > 2 {
            match pair_value_exec(bytes[i + 1], bytes[i + 2]) {
                Some(v) => {
                    out.push(v);
                    assert(out@ + pct_from(b, i + 3) =~= prev + pct_from(b, i as int));
                    i = i + 3;
                },
                None => {
                    out.push(bytes[i]);
                    assert(out@ + pct_from(b, i + 1) =~= prev + pct_from(b, i as int));
                    i = i + 1;
                },
            }
        } else if bytes[i] == 43 {
            out.push(32);
            assert(out@ + pct_from(b, i + 1) =~= prev + pct_from(b, i as int));
            i = i + 1;
        } else {
            out.push(bytes[i]);
            assert(out@ + pct_from(b, i + 1) =~= prev + pct_from(b, i as int));
            i = i + 1;
        }
    }
    assert(pct_from(b, i as int) =~= Seq::<u8>::empty());
    assert(out@ =~= pct_from(b, 0));
    lossy_string(out.as_slice())
}

// ---------------------------------------------------------------------------
// Queries
// ---------------------------------------------------------------------------

pub open spec fn has_eq() -> spec_fn(Seq<char>) -> bool {
    |p: Seq<char>| p.contains('=')
}

pub open spec fn query_pair() -> spec_fn(Seq<char>) -> (Seq<char>, Seq<char>) {
    |p: Seq<char>| (lower(first_piece(p, '=')), percent_decoded(after_first(p, '=')))
}

/// The `key=value` pairs of a query, keys lowercased, values decoded.
pub open spec fn query_pairs(q: Seq<char>) -> Seq<(Seq<char>, Seq<char>)> {
    split(q, '&').filter(nonempty_filter()).filter(has_eq()).map_values(query_pair())
}

/// The value of the last pair with the given key, as a map keeps it.
pub open spec fn lookup(pairs: Seq<(Seq<char>, Seq<char>)>, key: Seq<char>) -> Option<Seq<char>>
    decreases pairs.len(),
{
    if pairs.len() == 0 {
        None
    } else if pairs.last().0 == key {
        Some(pairs.last().1)
    } else {
        lookup(pairs.drop_last(), key)
    }
}

pub open spec fn pair_views(v: Seq<(String, String)>) -> Seq<(Seq<char>, Seq<char>)> {
    v.map_values(|p: (String, String)| (p.0@, p.1@))
}

/// Split a query into its pairs.
fn parse_query(query: &[char]) -> (r: Vec<(String, String)>)
    ensures
        pair_views(r@) == query_pairs(query@),
{
    let pieces = split_chars(query, '&');
    let ghost pv = views(pieces@);
    let ghost nz = pv.filter(nonempty_filter());
    let mut out: Vec<(String, String)> = Vec::new();
    let mut i: usize = 0;
    while i < pieces.len()
        invariant
            i <= pieces.len(),
            pv == views(pieces@),
            pair_views(out@) =~= pv.subrange(0, i as int).filter(nonempty_filter()).filter(has_eq()).map_values(query_pair()),
        decreases pieces.len() - i,
    {
        let ghost t = pv.subrange(0, i + 1);
        let ghost last = pieces@[i as int]@;
        let ghost a = t.drop_last().filter(nonempty_filter());
        assert(t.drop_last() =~= pv.subrange(0, i as int));
        assert(t.last() == last);
        proof {
            lemma_filter_step(t, nonempty_filter());
        }
        let ghost before = pair_views(out@);
        assert(before =~= a.filter(has_eq()).map_values(query_pair()));
        if pieces[i].len() > 0 {
            assert(t.filter(nonempty_filter()) == a.push(last));
            proof {
                lemma_filter_step(a.push(last), has_eq());
                assert(a.push(last).drop_last() =~= a);
            }
            match split_once_exec(pieces[i].as_slice(), '=') {
                Some((k, v)) => {
                    let key = string_from_chars(lower_chars(k.as_slice()).as_slice());
                    let vs = string_from_chars(v.as_slice());
                    let val = percent_decode(vs.as_str());
                    out.push((key, val));
                    assert(pair_views(out@) =~= before.push((key@, val@)));
                    assert(query_pair()(last) == (key@, val@));
                    assert(a.push(last).filter(has_eq()) == a.filter(has_eq()).push(last));
                    assert(a.filter(has_eq()).push(last).map_values(query_pair()) =~= a.filter(has_eq()).map_values(query_pair()).push(query_pair()(last)));
                },
                None => {
                    assert(a.push(last).filter(has_eq()) == a.filter(has_eq()));
                },
            }
        } else {
            assert(t.filter(nonempty_filter()) == a);
        }
        i = i + 1;
    }
    assert(pv.subrange(0, pieces.len() as int) =~= pv);
    out
}

/// The value of the last pair with `key`.
fn lookup_exec(pairs: &Vec<(String, String)>, key: &str) -> (r: Option<String>)
    ensures
        opt_view(r) == lookup(pair_views(pairs@), key@),
{
    let ghost pv = pair_views(pairs@);
    let mut i: usize = pairs.len();
    assert(pv.subrange(0, i as int) =~= pv);
    while i > 0
        invariant
            i <= pairs.len(),
            pv == pair_views(pairs@),
            lookup(pv, key@) == lookup(pv.subrange(0, i as int), key@),
        decreases i,
    {
        let ghost t = pv.subrange(0, i as int);
        assert(t.last() == (pairs@[i - 1].0@, pairs@[i - 1].1@));
        assert(t.drop_last() =~= pv.subrange(0, i - 1));
        if chars_eq(chars_of(pairs[i - 1].0.as_str()).as_slice(), chars_of(key).as_slice()) {
            return Some(pairs[i - 1].1.clone());
        }
        i = i - 1;
    }
    None
}

// ---------------------------------------------------------------------------
// Links
// ---------------------------------------------------------------------------

/// Why a link was refused.
#[derive(Debug, Clone, PartialEq, Eq)]
pub enum NxmError {
    /// Not an `nxm://` link.
    NotNxm,
    /// A link for another game.
    WrongGame { found: String, expected: String },
    /// A link of the right scheme whose shape is wrong.
    Malformed(String),
}

/// What an `nxm://` link asks the manager to do.
#[derive(Debug, Clone, PartialEq, Eq)]
pub enum NxmLink {
    /// A single mod file.
    File(NxmFile),
    /// A collection revision.
    Collection(NxmCollection),
}

#[derive(Debug, Clone, PartialEq, Eq)]
pub struct NxmFile {
    pub domain: String,
    pub mod_id: u64,
    pub file_id: u64,
    /// Present for non-premium downloads; short-lived.
    pub key: Option<String>,
    pub expires: Option<u64>,
    pub user_id: Option<u64>,
}

#[derive(Debug, Clone, PartialEq, Eq)]
pub struct NxmCollection {
    pub domain: String,
    pub slug: String,
    pub revision: u64,
}

pub enum NxmErrorModel {
    NotNxm,
    WrongGame { found: Seq<char>, expected: Seq<char> },
    Malformed(Seq<char>),
}

pub enum NxmLinkModel {
    File {
        domain: Seq<char>,
        mod_id: u64,
        file_id: u64,
        key: Option<Seq<char>>,
        expires: Option<u64>,
        user_id: Option<u64>,
    },
    Collection { domain: Seq<char>, slug: Seq<char>, revision: u64 },
}

impl View for NxmError {
    type V = NxmErrorModel;

    open spec fn view(&self) -> NxmErrorModel {
        match self {
            NxmError::NotNxm => NxmErrorModel::NotNxm,
            NxmError::WrongGame { found, expected } => NxmErrorModel::WrongGame {
                found: found@,
                expected: expected@,
            },
            NxmError::Malformed(m) => NxmErrorModel::Malformed(m@),
        }
    }
}

impl View for NxmLink {
    type V = NxmLinkModel;

    open spec fn view(&self) -> NxmLinkModel {
        match self {
            NxmLink::File(f) => NxmLinkModel::File {
                domain: f.domain@,
                mod_id: f.mod_id,
                file_id: f.file_id,
                key: opt_view(f.key),
                expires: f.expires,
                user_id: f.user_id,
            },
            NxmLink::Collection(c) => NxmLinkModel::Collection {
                domain: c.domain@,
                slug: c.slug@,
                revision: c.revision,
            },
        }
    }
}

pub open spec fn result_view(r: Result<NxmLink, NxmError>) -> Result<NxmLinkModel, NxmErrorModel> {
    match r {
        Ok(l) => Ok(l@),
        Err(e) => Err(e@),
    }
}

/// A number in a query value.
pub open spec fn query_u64(v: Option<Seq<char>>) -> Option<u64> {
    match v {
        Some(s) => match parse_unsigned_of(s, 0xffff_ffff_ffff_ffff) {
            Some(n) => Some(n as u64),
            None => None,
        },
        None => None,
    }
}

/// The number in path segment `k`, or why there is none.
pub open spec fn number_at(segs: Seq<Seq<char>>, k: int, what: Seq<char>) -> Result<u64, NxmErrorModel> {
    if k >= segs.len() {
        Err(NxmErrorModel::Malformed("missing "@ + what))
    } else {
        match parse_unsigned_of(segs[k], 0xffff_ffff_ffff_ffff) {
            Some(n) => Ok(n as u64),
            None => Err(NxmErrorModel::Malformed(what + " is not a number"@)),
        }
    }
}

/// The link a text names once the scheme is off.
pub open spec fn link_of(rest: Seq<char>, expected: Seq<char>) -> Result<NxmLinkModel, NxmErrorModel> {
    let path = if rest.contains('?') {
        first_piece(rest, '?')
    } else {
        rest
    };
    let query = if rest.contains('?') {
        after_first(rest, '?')
    } else {
        Seq::empty()
    };
    let segs = segments(path);
    if segs.len() == 0 {
        Err(NxmErrorModel::Malformed("no game domain"@))
    } else if !eq_ignore_case(segs[0], expected) {
        Err(NxmErrorModel::WrongGame { found: segs[0], expected })
    } else {
        let params = query_pairs(query);
        let domain = lower(segs[0]);
        if segs.len() > 1 && lower(segs[1]) == "mods"@ {
            match number_at(segs, 2, "mod id"@) {
                Err(e) => Err(e),
                Ok(mod_id) => if !(segs.len() > 3 && lower(segs[3]) == "files"@) {
                    Err(NxmErrorModel::Malformed("expected /files/ after the mod id"@))
                } else {
                    match number_at(segs, 4, "file id"@) {
                        Err(e) => Err(e),
                        Ok(file_id) => Ok(
                            NxmLinkModel::File {
                                domain,
                                mod_id,
                                file_id,
                                key: lookup(params, "key"@),
                                expires: query_u64(lookup(params, "expires"@)),
                                user_id: query_u64(lookup(params, "user_id"@)),
                            },
                        ),
                    }
                },
            }
        } else if segs.len() > 1 && lower(segs[1]) == "collections"@ {
            if segs.len() <= 2 {
                Err(NxmErrorModel::Malformed("no collection slug"@))
            } else if segs.len() <= 3 {
                Ok(NxmLinkModel::Collection { domain, slug: segs[2], revision: 0 })
            } else if lower(segs[3]) == "revisions"@ {
                match number_at(segs, 4, "revision"@) {
                    Err(e) => Err(e),
                    Ok(revision) => Ok(NxmLinkModel::Collection { domain, slug: segs[2], revision }),
                }
            } else {
                Err(NxmErrorModel::Malformed("expected /revisions/ after the slug"@))
            }
        } else {
            Err(
                NxmErrorModel::Malformed(
                    "unsupported link type: "@ + if segs.len() > 1 {
                        lower(segs[1])
                    } else {
                        "(none)"@
                    },
                ),
            )
        }
    }
}

/// What `parse` makes of a link.
pub open spec fn parse_of(url: Seq<char>, expected: Seq<char>) -> Result<NxmLinkModel, NxmErrorModel> {
    if is_prefix("nxm://"@, url) {
        link_of(url.subrange("nxm://"@.len() as int, url.len() as int), expected)
    } else if is_prefix("NXM://"@, url) {
        link_of(url.subrange("NXM://"@.len() as int, url.len() as int), expected)
    } else {
        Err(NxmErrorModel::NotNxm)
    }
}

fn malformed(a: &str, mid: &[char], b: &str) -> (r: NxmError)
    ensures
        r@ == NxmErrorModel::Malformed(a@ + mid@ + b@),
{
    NxmError::Malformed(crate::detect::text3(a, mid, b))
}

/// The number in path segment `k`.
fn number_exec(segs: &Vec<Vec<char>>, k: usize, what: &str) -> (r: Result<u64, NxmError>)
    ensures
        match r {
            Ok(n) => number_at(views(segs@), k as int, what@) == Ok::<u64, NxmErrorModel>(n),
            Err(e) => number_at(views(segs@), k as int, what@) == Err::<u64, NxmErrorModel>(e@),
        },
{
    if k >= segs.len() {
        let e = malformed("missing ", chars_of(what).as_slice(), "");
        assert("missing "@ + what@ + ""@ =~= "missing "@ + what@) by {
            assert(""@.len() == 0) by {
                reveal_strlit("");
            }
        }
        return Err(e);
    }
    assert(segs@[k as int]@ == views(segs@)[k as int]);
    match parse_unsigned(segs[k].as_slice(), 0xffff_ffff_ffff_ffff) {
        Some(n) => Ok(n),
        None => {
            let e = malformed("", chars_of(what).as_slice(), " is not a number");
            assert(""@ + what@ + " is not a number"@ =~= what@ + " is not a number"@) by {
                assert(""@.len() == 0) by {
                    reveal_strlit("");
                }
            }
            Err(e)
        },
    }
}

fn query_u64_exec(v: &Option<String>) -> (r: Option<u64>)
    ensures
        r == query_u64(opt_view(*v)),
{
    match v {
        Some(s) => parse_unsigned(chars_of(s.as_str()).as_slice(), 0xffff_ffff_ffff_ffff),
        None => None,
    }
}

fn link_exec(rest: &[char], expected: &str) -> (r: Result<NxmLink, NxmError>)
    ensures
        result_view(r) == link_of(rest@, expected@),
{
    let (path, query): (Vec<char>, Vec<char>) = match split_once_exec(rest, '?') {
        Some((p, q)) => (p, q),
        None => (crate::text::copy_chars(rest), Vec::new()),
    };
    let segs = segments_of(path.as_slice());
    let ghost sv = views(segs@);
    if segs.len() == 0 {
        return Err(NxmError::Malformed(crate::text::owned("no game domain")));
    }
    assert(segs@[0]@ == sv[0]);
    let exp = chars_of(expected);
    if !chars_eq(lower_chars(segs[0].as_slice()).as_slice(), lower_chars(exp.as_slice()).as_slice()) {
        return Err(NxmError::WrongGame {
            found: string_from_chars(segs[0].as_slice()),
            expected: crate::text::owned(expected),
        });
    }
    let params = parse_query(query.as_slice());
    let domain = string_from_chars(lower_chars(segs[0].as_slice()).as_slice());
    let kind: Option<Vec<char>> = if segs.len() > 1 {
        assert(segs@[1]@ == sv[1]);
        Some(lower_chars(segs[1].as_slice()))
    } else {
        None
    };
    let is_mods = match &kind {
        Some(k) => chars_eq(k.as_slice(), chars_of("mods").as_slice()),
        None => false,
    };
    let is_collections = match &kind {
        Some(k) => chars_eq(k.as_slice(), chars_of("collections").as_slice()),
        None => false,
    };
    if is_mods {
        let mod_id = match number_exec(&segs, 2, "mod id") {
            Ok(n) => n,
            Err(e) => {
                return Err(e);
            },
        };
        let files_ok = if segs.len() > 3 {
            assert(segs@[3]@ == sv[3]);
            chars_eq(lower_chars(segs[3].as_slice()).as_slice(), chars_of("files").as_slice())
        } else {
            false
        };
        if !files_ok {
            return Err(NxmError::Malformed(crate::text::owned("expected /files/ after the mod id")));
        }
        let file_id = match number_exec(&segs, 4, "file id") {
            Ok(n) => n,
            Err(e) => {
                return Err(e);
            },
        };
        let key = lookup_exec(&params, "key");
        let expires = query_u64_exec(&lookup_exec(&params, "expires"));
        let user_id = query_u64_exec(&lookup_exec(&params, "user_id"));
        Ok(NxmLink::File(NxmFile { domain, mod_id, file_id, key, expires, user_id }))
    } else if is_collections {
        if segs.len() <= 2 {
            return Err(NxmError::Malformed(crate::text::owned("no collection slug")));
        }
        assert(segs@[2]@ == sv[2]);
        let slug = string_from_chars(segs[2].as_slice());
        if segs.len() <= 3 {
            return Ok(NxmLink::Collection(NxmCollection { domain, slug, revision: 0 }));
        }
        assert(segs@[3]@ == sv[3]);
        if chars_eq(lower_chars(segs[3].as_slice()).as_slice(), chars_of("revisions").as_slice()) {
            match number_exec(&segs, 4, "revision") {
                Ok(revision) => Ok(NxmLink::Collection(NxmCollection { domain, slug, revision })),
                Err(e) => Err(e),
            }
        } else {
            Err(NxmError::Malformed(crate::text::owned("expected /revisions/ after the slug")))
        }
    } else {
        let what = match &kind {
            Some(k) => crate::text::copy_chars(k.as_slice()),
            None => chars_of("(none)"),
        };
        Err(NxmError::Malformed(string_from_chars(concat_chars(chars_of("unsupported link type: ").as_slice(), what.as_slice()).as_slice())))
    }
}

/// Parse a link, rejecting anything that is not for `expected_domain`.
///
/// Links for other games are a normal thing to receive — the handler is
/// registered process-wide — so this is a plain error the UI can explain,
/// not a failure.
pub fn parse(url: &str, expected_domain: &str) -> (r: Result<NxmLink, NxmError>)
    ensures
        result_view(r) == parse_of(url@, expected_domain@),
{
    let u = chars_of(url);
    let lower_scheme = chars_of("nxm://");
    let upper_scheme = chars_of("NXM://");
    if starts_with(u.as_slice(), lower_scheme.as_slice()) {
        let rest = slice_chars(u.as_slice(), lower_scheme.len(), u.len());
        link_exec(rest.as_slice(), expected_domain)
    } else if starts_with(u.as_slice(), upper_scheme.as_slice()) {
        let rest = slice_chars(u.as_slice(), upper_scheme.len(), u.len());
        link_exec(rest.as_slice(), expected_domain)
    } else {
        Err(NxmError::NotNxm)
    }
}

/// What a refusal says to the user.
pub open spec fn nxm_message(e: NxmErrorModel) -> Seq<char> {
    match e {
        NxmErrorModel::NotNxm => "not an nxm:// link"@,
        NxmErrorModel::WrongGame { found, expected } => "this link is for "@ + found + ", not "@ + expected,
        NxmErrorModel::Malformed(m) => "malformed nxm:// link: "@ + m,
    }
}

impl NxmError {
    /// What the refusal says to the user.
    pub fn message(&self) -> (r: String)
        ensures
            r@ == nxm_message(self@),
    {
        match self {
            NxmError::NotNxm => crate::text::owned("not an nxm:// link"),
            NxmError::WrongGame { found, expected } => {
                let v = concat_chars(chars_of("this link is for ").as_slice(), chars_of(found.as_str()).as_slice());
                let v = concat_chars(v.as_slice(), chars_of(", not ").as_slice());
                let v = concat_chars(v.as_slice(), chars_of(expected.as_str()).as_slice());
                string_from_chars(v.as_slice())
            },
            NxmError::Malformed(m) => {
                let v = concat_chars(chars_of("malformed nxm:// link: ").as_slice(), chars_of(m.as_str()).as_slice());
                string_from_chars(v.as_slice())
            },
        }
    }
}

impl NxmFile {
    /// Whether this link carries the short-lived credentials a free account
    /// needs to request a download URL.
    pub fn has_credentials(&self) -> (r: bool)
        ensures
            r == (self.key.is_some() && self.expires.is_some()),
    {
        self.key.is_some() && self.expires.is_some()
    }
}

} // verus!
