//! Reading what a mod actually replaces.
//!
//! Two mods can both look installed and both be enabled while only one of them
//! is having any effect, because they replace the same asset and the game
//! loads whichever mounts last. Nothing on the outside of the files says so —
//! the only way to know is to read the index and compare.
//!
//! Stellar Blade is UE 4.26 with IoStore, so a pak mod is a `.pak`/`.utoc`
//! /`.ucas` set. Almost all of the content is in the `.ucas`, indexed by the
//! `.utoc`; the `.pak` beside it is usually near-empty. Both index formats are
//! read (see [`crate::pak`] and [`crate::utoc`]), and only the index — the
//! `.ucas` is never looked at.
//!
//! The sets of assets are kept as strictly increasing lists, in the order
//! `Path` before `Chunk` and each text by code point, so two lists can be
//! compared and listed in a stable order.

use vstd::prelude::*;

use crate::loadorder::{path_extension, path_extension_exec};
use crate::text::{
    chars_eq, chars_of, concat_chars, lemma_lex_irreflexive, lemma_lex_total, lemma_lex_transitive,
    lex_less, lex_lt, lower, lower_chars, string_from_chars,
};

verus! {

// ---------------------------------------------------------------------------
// Errors
// ---------------------------------------------------------------------------

/// Why a container's contents could not be listed.
#[derive(Debug)]
pub enum AssetError {
    /// The file system refused; the message says why.
    Io { path: String, message: String },
    NotAToc(String),
    NotAPak(String),
    Malformed { path: String, reason: String },
    /// The container's index is encrypted, which needs a game-specific AES key
    /// the manager does not have and has no business guessing at.
    Encrypted(String),
    UnsupportedVersion(String),
}

impl AssetError {
    /// A file-system failure at a path.
    pub fn io(path: &str, message: &str) -> (r: AssetError)
        ensures
            r matches AssetError::Io { path: p, message: m } && p@ == path@ && m@ == message@,
    {
        AssetError::Io { path: crate::text::owned(path), message: crate::text::owned(message) }
    }

    /// An index that does not hold together, and why.
    pub fn malformed(path: &str, reason: &str) -> (r: AssetError)
        ensures
            r matches AssetError::Malformed { path: p, reason: m } && p@ == path@ && m@ == reason@,
    {
        AssetError::Malformed { path: crate::text::owned(path), reason: crate::text::owned(reason) }
    }

    /// How the error reads.
    pub fn message(&self) -> (r: String)
        ensures
            r@ == asset_error_message(*self),
    {
        proof {
            reveal_strlit("");
        }
        match self {
            AssetError::Io { path, message } => cat4("i/o error at ", path.as_str(), ": ", message.as_str()),
            AssetError::NotAToc(p) => cat4("", p.as_str(), " is not an IoStore container", ""),
            AssetError::NotAPak(p) => cat4("", p.as_str(), " is not an Unreal pak", ""),
            AssetError::Malformed { path, reason } => cat4("", path.as_str(), " is malformed: ", reason.as_str()),
            AssetError::Encrypted(p) => cat4(
                "",
                p.as_str(),
                " has an encrypted index, so its contents cannot be listed",
                "",
            ),
            AssetError::UnsupportedVersion(p) => cat4(
                "",
                p.as_str(),
                " uses an index format older than this reader supports",
                "",
            ),
        }
    }
}

/// How an error reads.
pub open spec fn asset_error_message(e: AssetError) -> Seq<char> {
    match e {
        AssetError::Io { path, message } => "i/o error at "@ + path@ + ": "@ + message@,
        AssetError::NotAToc(p) => p@ + " is not an IoStore container"@,
        AssetError::NotAPak(p) => p@ + " is not an Unreal pak"@,
        AssetError::Malformed { path, reason } => path@ + " is malformed: "@ + reason@,
        AssetError::Encrypted(p) => p@ + " has an encrypted index, so its contents cannot be listed"@,
        AssetError::UnsupportedVersion(p) => p@
            + " uses an index format older than this reader supports"@,
    }
}

fn cat4(a: &str, b: &str, c: &str, d: &str) -> (r: String)
    ensures
        r@ == a@ + b@ + c@ + d@,
{
    let v = concat_chars(chars_of(a).as_slice(), chars_of(b).as_slice());
    let v = concat_chars(v.as_slice(), chars_of(c).as_slice());
    let v = concat_chars(v.as_slice(), chars_of(d).as_slice());
    string_from_chars(v.as_slice())
}

// ---------------------------------------------------------------------------
// Assets
// ---------------------------------------------------------------------------

/// One thing a mod provides, in a form two mods can be compared on.
#[derive(Debug, Clone, PartialEq, Eq, Hash)]
pub enum Asset {
    /// An asset path, lowercased with forward slashes.
    ///
    /// Case is dropped because Unreal resolves these case-insensitively, so
    /// `Eve/Body.uasset` and `eve/body.uasset` are the same asset and two mods
    /// shipping them under different casing do conflict.
    Path(String),
    /// A chunk with no name.
    ///
    /// Containers can be built without a directory index. The chunk id is
    /// still a stable identity, so a clash is still detectable — the UI just
    /// cannot say what the file is called.
    Chunk(String),
}

/// An asset as its texts.
pub enum AssetModel {
    Path(Seq<char>),
    Chunk(Seq<char>),
}

impl View for Asset {
    type V = AssetModel;

    open spec fn view(&self) -> AssetModel {
        match self {
            Asset::Path(p) => AssetModel::Path(p@),
            Asset::Chunk(c) => AssetModel::Chunk(c@),
        }
    }
}

/// `\` read as `/`.
pub open spec fn forward_slashes(p: Seq<char>) -> Seq<char> {
    p.map_values(|c: char| if c == '\\' { '/' } else { c })
}

/// `s` without the copies of `c` it starts with (`trim_start_matches`).
pub open spec fn trim_leading(s: Seq<char>, c: char) -> Seq<char>
    decreases s.len(),
{
    if s.len() > 0 && s[0] == c {
        trim_leading(s.drop_first(), c)
    } else {
        s
    }
}

/// `s` without the copies of `p` it starts with (`trim_start_matches`).
pub open spec fn trim_leading_text(s: Seq<char>, p: Seq<char>) -> Seq<char>
    decreases s.len(),
{
    if p.len() > 0 && p.len() <= s.len() && s.take(p.len() as int) == p {
        trim_leading_text(s.skip(p.len() as int), p)
    } else {
        s
    }
}

/// Lowercase, forward slashes, no leading separator.
pub open spec fn normalise_of(p: Seq<char>) -> Seq<char> {
    lower(trim_leading(forward_slashes(p), '/'))
}

/// The strict order assets are listed in: paths before chunks, then by text.
pub open spec fn asset_lt(a: AssetModel, b: AssetModel) -> bool {
    match (a, b) {
        (AssetModel::Path(x), AssetModel::Path(y)) => lex_lt(x, y),
        (AssetModel::Chunk(x), AssetModel::Chunk(y)) => lex_lt(x, y),
        (AssetModel::Path(_), AssetModel::Chunk(_)) => true,
        (AssetModel::Chunk(_), AssetModel::Path(_)) => false,
    }
}

pub open spec fn asset_views(v: Seq<Asset>) -> Seq<AssetModel> {
    v.map_values(|a: Asset| a@)
}

/// A list of assets in increasing order, so without repeats.
pub open spec fn assets_sorted(s: Seq<AssetModel>) -> bool {
    forall|i: int, j: int| 0 <= i < j < s.len() ==> asset_lt(#[trigger] s[i], #[trigger] s[j])
}

pub proof fn lemma_asset_transitive(a: AssetModel, b: AssetModel, c: AssetModel)
    requires
        asset_lt(a, b),
        asset_lt(b, c),
    ensures
        asset_lt(a, c),
{
    match (a, b, c) {
        (AssetModel::Path(x), AssetModel::Path(y), AssetModel::Path(z)) => lemma_lex_transitive(
            x,
            y,
            z,
        ),
        (AssetModel::Chunk(x), AssetModel::Chunk(y), AssetModel::Chunk(z)) => lemma_lex_transitive(
            x,
            y,
            z,
        ),
        _ => {},
    }
}

pub proof fn lemma_asset_total(a: AssetModel, b: AssetModel)
    ensures
        asset_lt(a, b) || asset_lt(b, a) || a == b,
{
    match (a, b) {
        (AssetModel::Path(x), AssetModel::Path(y)) => lemma_lex_total(x, y),
        (AssetModel::Chunk(x), AssetModel::Chunk(y)) => lemma_lex_total(x, y),
        _ => {},
    }
}

/// `\` replaced by `/`.
pub fn forward_slashes_exec(p: &[char]) -> (r: Vec<char>)
    ensures
        r@ == forward_slashes(p@),
{
    let mut r: Vec<char> = Vec::new();
    let mut i: usize = 0;
    while i < p.len()
        invariant
            i <= p.len(),
            r@ == forward_slashes(p@.take(i as int)),
        decreases p.len() - i,
    {
        let c = p[i];
        r.push(if c == '\\' { '/' } else { c });
        assert(forward_slashes(p@.take(i + 1)) =~= forward_slashes(p@.take(i as int)).push(
            if c == '\\' { '/' } else { c },
        ));
        i = i + 1;
    }
    assert(p@.take(p.len() as int) =~= p@);
    r
}

/// How many copies of `c` `s` starts with.
pub fn leading_count(s: &[char], c: char) -> (n: usize)
    ensures
        n <= s.len(),
        trim_leading(s@, c) == s@.skip(n as int),
{
    let mut i: usize = 0;
    assert(s@.skip(0) =~= s@);
    while i < s.len() && s[i] == c
        invariant
            i <= s.len(),
            trim_leading(s@.skip(i as int), c) == trim_leading(s@, c),
        decreases s.len() - i,
    {
        assert(s@.skip(i as int).drop_first() =~= s@.skip(i + 1));
        i = i + 1;
    }
    i
}

/// `s` without the copies of `p` it starts with.
pub fn trim_leading_text_exec(s: &[char], p: &[char]) -> (r: Vec<char>)
    ensures
        r@ == trim_leading_text(s@, p@),
{
    let mut i: usize = 0;
    assert(s@.skip(0) =~= s@);
    while p.len() > 0 && p.len() <= s.len() - i && chars_eq(
        crate::text::slice_chars(s, i, i + p.len()).as_slice(),
        p,
    )
        invariant
            i <= s.len(),
            trim_leading_text(s@.skip(i as int), p@) == trim_leading_text(s@, p@),
        decreases s.len() - i,
    {
        assert(s@.skip(i as int).take(p.len() as int) =~= s@.subrange(i as int, i + p.len()));
        assert(s@.skip(i as int).skip(p.len() as int) =~= s@.skip(i + p.len()));
        i = i + p.len();
    }
    if p.len() > 0 && p.len() <= s.len() - i {
        assert(s@.skip(i as int).take(p.len() as int) =~= s@.subrange(i as int, i + p.len()));
    }
    crate::text::slice_chars(s, i, s.len())
}

/// Lowercase, forward slashes, no leading separator.
pub fn normalise(path: &str) -> (r: String)
    ensures
        r@ == normalise_of(path@),
{
    let f = forward_slashes_exec(chars_of(path).as_slice());
    let n = leading_count(f.as_slice(), '/');
    let t = crate::text::slice_chars(f.as_slice(), n, f.len());
    assert(t@ =~= f@.skip(n as int));
    string_from_chars(lower_chars(t.as_slice()).as_slice())
}

impl Asset {
    /// The asset at a path, normalised.
    pub fn path(value: &str) -> (r: Asset)
        ensures
            r@ == AssetModel::Path(normalise_of(value@)),
    {
        Asset::Path(normalise(value))
    }

    /// How it reads in a list.
    pub fn label(&self) -> (r: &str)
        ensures
            r@ == match self@ {
                AssetModel::Path(p) => p,
                AssetModel::Chunk(c) => c,
            },
    {
        match self {
            Asset::Path(path) => path.as_str(),
            Asset::Chunk(id) => id.as_str(),
        }
    }

    /// Whether it has a name rather than only a chunk id.
    pub fn is_named(&self) -> (r: bool)
        ensures
            r == (self@ is Path),
    {
        match self {
            Asset::Path(_) => true,
            Asset::Chunk(_) => false,
        }
    }
}

/// Whether `a` comes before `b`.
pub fn asset_less(a: &Asset, b: &Asset) -> (r: bool)
    ensures
        r == asset_lt(a@, b@),
{
    match (a, b) {
        (Asset::Path(x), Asset::Path(y)) => lex_less(
            chars_of(x.as_str()).as_slice(),
            chars_of(y.as_str()).as_slice(),
        ),
        (Asset::Chunk(x), Asset::Chunk(y)) => lex_less(
            chars_of(x.as_str()).as_slice(),
            chars_of(y.as_str()).as_slice(),
        ),
        (Asset::Path(_), Asset::Chunk(_)) => true,
        (Asset::Chunk(_), Asset::Path(_)) => false,
    }
}

/// Whether `a` and `b` are the same asset.
pub fn asset_same(a: &Asset, b: &Asset) -> (r: bool)
    ensures
        r == (a@ == b@),
{
    match (a, b) {
        (Asset::Path(x), Asset::Path(y)) => chars_eq(
            chars_of(x.as_str()).as_slice(),
            chars_of(y.as_str()).as_slice(),
        ),
        (Asset::Chunk(x), Asset::Chunk(y)) => chars_eq(
            chars_of(x.as_str()).as_slice(),
            chars_of(y.as_str()).as_slice(),
        ),
        _ => false,
    }
}

/// Put `a` into an increasing list of assets, unless it is there already.
pub fn insert_asset(v: &mut Vec<Asset>, a: Asset)
    requires
        assets_sorted(asset_views(old(v)@)),
    ensures
        assets_sorted(asset_views(final(v)@)),
        forall|y: AssetModel| #[trigger]
            asset_views(final(v)@).contains(y) <==> (asset_views(old(v)@).contains(y) || y == a@),
{
    let ghost old_v = asset_views(v@);
    let mut pos: usize = 0;
    while pos < v.len() && asset_less(&v[pos], &a)
        invariant
            pos <= v.len(),
            asset_views(v@) == old_v,
            forall|k: int| 0 <= k < pos ==> asset_lt(#[trigger] old_v[k], a@),
        decreases v.len() - pos,
    {
        pos = pos + 1;
    }
    if pos < v.len() && asset_same(&v[pos], &a) {
        assert(old_v[pos as int] == a@);
        return;
    }
    proof {
        if pos < v.len() {
            assert(old_v[pos as int] == v@[pos as int]@);
            lemma_asset_total(a@, old_v[pos as int]);
        }
        assert forall|k: int| pos <= k < old_v.len() implies asset_lt(a@, #[trigger] old_v[k]) by {
            if k > pos {
                lemma_asset_transitive(a@, old_v[pos as int], old_v[k]);
            }
        }
    }
    let ghost av = a@;
    v.insert(pos, a);
    let ghost nv = asset_views(v@);
    assert(nv =~= old_v.insert(pos as int, av));
    assert forall|i: int, j: int| 0 <= i < j < nv.len() implies asset_lt(
        #[trigger] nv[i],
        #[trigger] nv[j],
    ) by {
        if j < pos {
        } else if j == pos {
        } else if i == pos {
            assert(nv[j] == old_v[j - 1]);
        } else if i < pos {
            assert(nv[j] == old_v[j - 1]);
            lemma_asset_transitive(old_v[i], av, old_v[j - 1]);
        } else {
            assert(nv[i] == old_v[i - 1]);
            assert(nv[j] == old_v[j - 1]);
        }
    }
    assert forall|y: AssetModel| #[trigger] nv.contains(y) <==> (old_v.contains(y) || y == av) by {
        if nv.contains(y) {
            let k = choose|k: int| 0 <= k < nv.len() && nv[k] == y;
            if k < pos {
                assert(old_v[k] == y);
            } else if k > pos {
                assert(old_v[k - 1] == y);
            }
        }
        if old_v.contains(y) {
            let k = choose|k: int| 0 <= k < old_v.len() && old_v[k] == y;
            if k < pos {
                assert(nv[k] == y);
            } else {
                assert(nv[k + 1] == y);
            }
        }
        if y == av {
            assert(nv[pos as int] == y);
        }
    }
}

// ---------------------------------------------------------------------------
// Several containers
// ---------------------------------------------------------------------------

/// The two index formats a mod's containers come in.
#[derive(Debug, Clone, Copy, PartialEq, Eq, Structural)]
pub enum Container {
    Utoc,
    Pak,
}

/// Which index format a file holds, going by its extension. The two formats
/// live side by side under one base name, so the extension is what tells them
/// apart; anything else holds no index and provides nothing.
pub open spec fn container_of_spec(path: Seq<char>) -> Option<Container> {
    match path_extension(path) {
        Some(e) => if e == "utoc"@ {
            Some(Container::Utoc)
        } else if e == "pak"@ {
            Some(Container::Pak)
        } else {
            None
        },
        None => None,
    }
}

/// Which index format a file holds, going by its extension.
pub fn container_of(path: &str) -> (r: Option<Container>)
    ensures
        r == container_of_spec(path@),
{
    match path_extension_exec(chars_of(path).as_slice()) {
        Some(e) => {
            if chars_eq(e.as_slice(), chars_of("utoc").as_slice()) {
                Some(Container::Utoc)
            } else if chars_eq(e.as_slice(), chars_of("pak").as_slice()) {
                Some(Container::Pak)
            } else {
                None
            }
        },
        None => None,
    }
}

/// Whether `x` is among what the listed containers provide.
pub open spec fn provided_by(outcomes: Seq<Result<Vec<Asset>, AssetError>>, x: AssetModel) -> bool {
    exists|i: int|
        0 <= i < outcomes.len() && (#[trigger] outcomes[i] matches Ok(v) && asset_views(
            v@,
        ).contains(x))
}

/// The failures among the outcomes, in order.
pub open spec fn failures(outcomes: Seq<Result<Vec<Asset>, AssetError>>) -> Seq<AssetError>
    decreases outcomes.len(),
{
    if outcomes.len() == 0 {
        Seq::empty()
    } else {
        let rest = failures(outcomes.drop_last());
        match outcomes.last() {
            Ok(_) => rest,
            Err(e) => rest.push(e),
        }
    }
}

/// Everything a whole mod provides, across every container it installs,
/// given what reading each container gave.
///
/// A failure on one container does not lose the others: a mod with one
/// unreadable pak still reports what the rest of it replaces, which is more
/// useful than reporting nothing. What could not be read comes back separately
/// so the UI can say the answer is incomplete rather than implying it is not.
pub fn read_all(outcomes: Vec<Result<Vec<Asset>, AssetError>>) -> (r: (Vec<Asset>, Vec<AssetError>))
    ensures
        assets_sorted(asset_views(r.0@)),
        forall|x: AssetModel| #[trigger]
            asset_views(r.0@).contains(x) <==> provided_by(outcomes@, x),
        r.1@ == failures(outcomes@),
{
    let ghost all = outcomes@;
    let mut rest = outcomes;
    let mut assets: Vec<Asset> = Vec::new();
    let mut problems: Vec<AssetError> = Vec::new();
    let ghost mut done: int = 0;
    while rest.len() > 0
        invariant
            0 <= done <= all.len(),
            rest@ == all.skip(done),
            assets_sorted(asset_views(assets@)),
            forall|x: AssetModel| #[trigger]
                asset_views(assets@).contains(x) <==> provided_by(all.take(done), x),
            problems@ == failures(all.take(done)),
        decreases rest.len(),
    {
        let outcome = rest.remove(0);
        assert(outcome == all[done]);
        let ghost before = all.take(done);
        let ghost after = all.take(done + 1);
        assert(after.drop_last() =~= before);
        assert(after.last() == outcome);
        match outcome {
            Ok(found) => {
                let ghost base = asset_views(assets@);
                let mut i: usize = 0;
                while i < found.len()
                    invariant
                        i <= found.len(),
                        assets_sorted(asset_views(assets@)),
                        forall|x: AssetModel| #[trigger]
                            asset_views(assets@).contains(x) <==> (base.contains(x)
                                || asset_views(found@.take(i as int)).contains(x)),
                    decreases found.len() - i,
                {
                    let ghost prev = asset_views(assets@);
                    insert_asset(&mut assets, found[i].clone_asset());
                    proof {
                        let ghost shorter = asset_views(found@.take(i as int));
                        let ghost longer = asset_views(found@.take(i + 1));
                        assert(longer =~= shorter.push(found@[i as int]@));
                        assert forall|x: AssetModel| #[trigger] longer.contains(x) <==> (
                        shorter.contains(x) || x == found@[i as int]@) by {
                            if longer.contains(x) {
                                let k = choose|k: int| 0 <= k < longer.len() && longer[k] == x;
                                if k < i {
                                    assert(shorter[k] == x);
                                }
                            }
                            if shorter.contains(x) {
                                let k = choose|k: int| 0 <= k < shorter.len() && shorter[k] == x;
                                assert(longer[k] == x);
                            }
                            if x == found@[i as int]@ {
                                assert(longer[i as int] == x);
                            }
                        }
                    }
                    i = i + 1;
                }
                assert(found@.take(found.len() as int) =~= found@);
                assert forall|x: AssetModel| #[trigger]
                    asset_views(assets@).contains(x) <==> provided_by(after, x) by {
                    if provided_by(before, x) {
                        let k = choose|k: int|
                            0 <= k < before.len() && (#[trigger] before[k] matches Ok(v)
                                && asset_views(v@).contains(x));
                        assert(after[k] == before[k]);
                    }
                    if provided_by(after, x) {
                        let k = choose|k: int|
                            0 <= k < after.len() && (#[trigger] after[k] matches Ok(v)
                                && asset_views(v@).contains(x));
                        if k < done {
                            assert(before[k] == after[k]);
                        }
                    }
                    if asset_views(found@).contains(x) {
                        assert(after[done] matches Ok(v) && asset_views(v@).contains(x));
                    }
                }
            },
            Err(e) => {
                problems.push(e);
                assert forall|x: AssetModel| #[trigger]
                    asset_views(assets@).contains(x) <==> provided_by(after, x) by {
                    if provided_by(before, x) {
                        let k = choose|k: int|
                            0 <= k < before.len() && (#[trigger] before[k] matches Ok(v)
                                && asset_views(v@).contains(x));
                        assert(after[k] == before[k]);
                    }
                    if provided_by(after, x) {
                        let k = choose|k: int|
                            0 <= k < after.len() && (#[trigger] after[k] matches Ok(v)
                                && asset_views(v@).contains(x));
                        assert(k < done);
                        assert(before[k] == after[k]);
                    }
                }
            },
        }
        proof {
            done = done + 1;
            assert(all.skip(done) =~= all.skip(done - 1).drop_first());
        }
    }
    assert(all.take(done) =~= all);
    (assets, problems)
}

impl Asset {
    /// A copy of the asset.
    pub fn clone_asset(&self) -> (r: Asset)
        ensures
            r@ == self@,
    {
        match self {
            Asset::Path(p) => Asset::Path(crate::text::owned(p.as_str())),
            Asset::Chunk(c) => Asset::Chunk(crate::text::owned(c.as_str())),
        }
    }
}

} // verus!
