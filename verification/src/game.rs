//! The Stellar Blade install and its layout.

use vstd::prelude::*;

use crate::assets::forward_slashes;
use crate::gpu::{contains_text, find_text};
use crate::model::{opt_view, BINARIES_WIN64, PAKS_LOGICMODS, PAKS_MODS};
use crate::json::{decode_json, get_of, json_decoded, str_of, JsonValue};
use crate::loadorder::before_last_exec;
use crate::text::{
    before_last, contains_char, ends_with, is_suffix, last_piece, last_piece_exec, string_from_chars,
    chars_eq, chars_of, copy_chars, eq_ignore_case, lemma_filter_step, lemma_views_push, lower,
    lower_chars, path_join, path_join_exec, segments, split, split_chars, views,
};
use crate::vdf::{
    block_lookup, first_match, parse_of, text_lookup, value_wf, VdfValue, ValueModel,
};

verus! {

/// Steam application id for Stellar Blade.
pub const STEAM_APP_ID: &'static str = "3489700";

/// Nexus Mods game domain, used when building API and `nxm://` URLs.
pub const NEXUS_DOMAIN: &'static str = "stellarblade";

/// The folder whose presence marks a game root.
pub const PAKS_DIR: &'static str = "SB/Content/Paks";

/// How an install was found, shown in the setup wizard.
#[derive(Debug, Clone, Copy, PartialEq, Eq, Structural)]
pub enum InstallSource {
    Steam,
    Epic,
    Manual,
}

/// A validated Stellar Blade installation.
#[derive(Debug, Clone, PartialEq, Eq)]
pub struct GameInstall {
    /// The directory that contains `SB/`.
    pub root: String,
    pub source: InstallSource,
    /// Name of the shipping executable, e.g. `SB-Win64-Shipping.exe`.
    pub executable: Option<String>,
}

impl GameInstall {
    pub fn paks_dir(&self) -> (r: String)
        ensures
            r@ == path_join(self.root@, PAKS_DIR@),
    {
        path_join_exec(self.root.as_str(), PAKS_DIR)
    }

    pub fn mods_dir(&self) -> (r: String)
        ensures
            r@ == path_join(self.root@, PAKS_MODS@),
    {
        path_join_exec(self.root.as_str(), PAKS_MODS)
    }

    pub fn logic_mods_dir(&self) -> (r: String)
        ensures
            r@ == path_join(self.root@, PAKS_LOGICMODS@),
    {
        path_join_exec(self.root.as_str(), PAKS_LOGICMODS)
    }

    pub fn binaries_dir(&self) -> (r: String)
        ensures
            r@ == path_join(self.root@, BINARIES_WIN64@),
    {
        path_join_exec(self.root.as_str(), BINARIES_WIN64)
    }

    pub fn executable_path(&self) -> (r: Option<String>)
        ensures
            match self.executable {
                Some(exe) => r matches Some(p) && p@ == path_join(path_join(self.root@, BINARIES_WIN64@), exe@),
                None => r is None,
            },
    {
        match &self.executable {
            Some(exe) => {
                let b = self.binaries_dir();
                Some(path_join_exec(b.as_str(), exe.as_str()))
            },
            None => None,
        }
    }
}

/// Why a folder was refused.
#[derive(Debug)]
pub enum DiscoveryError {
    /// The folder does not look like a Stellar Blade install (no
    /// `SB/Content/Paks` folder).
    NotAGameFolder(String),
}

/// The root of a folder the user picked: the folder itself when it is a
/// game root, its parent when the user picked the `SB` folder inside one.
///
/// Whether a folder is a game root is a question for the file system; the
/// caller answers it for the folder and for its parent.
pub fn chosen_root(path: &str, parent: Option<&str>, path_is_root: bool, parent_is_root: bool) -> (r: Result<String, DiscoveryError>)
    ensures
        path_is_root ==> (r matches Ok(p) && p@ == path@),
        !path_is_root ==> match parent {
            Some(par) => if segments(path@).len() > 0 && eq_ignore_case(segments(path@).last(), "SB"@) && parent_is_root {
                r matches Ok(p) && p@ == par@
            } else {
                r matches Err(DiscoveryError::NotAGameFolder(p)) && p@ == path@
            },
            None => r matches Err(DiscoveryError::NotAGameFolder(p)) && p@ == path@,
        },
{
    if path_is_root {
        return Ok(crate::text::owned(path));
    }
    let segs = crate::text::segments_of(crate::text::chars_of(path).as_slice());
    let named_sb = if segs.len() > 0 {
        let k = segs.len() - 1;
        assert(segs@[k as int]@ == crate::text::views(segs@).last());
        crate::text::chars_eq(
            crate::text::lower_chars(segs[k].as_slice()).as_slice(),
            crate::text::lower_chars(crate::text::chars_of("SB").as_slice()).as_slice(),
        )
    } else {
        false
    };
    match parent {
        Some(par) => {
            if named_sb && parent_is_root {
                Ok(crate::text::owned(par))
            } else {
                Err(DiscoveryError::NotAGameFolder(crate::text::owned(path)))
            }
        },
        None => Err(DiscoveryError::NotAGameFolder(crate::text::owned(path))),
    }
}

// ---------------------------------------------------------------------------
// Steam
// ---------------------------------------------------------------------------

/// The folder an app manifest (`appmanifest_<id>.acf`) says the game is
/// installed in, under the library's `steamapps/common`.
pub open spec fn install_dir_of(manifest: Seq<char>) -> Option<Seq<char>> {
    match block_lookup(ValueModel::Block(parse_of(manifest)), "AppState"@) {
        Some(state) => text_lookup(state, "installdir"@),
        None => None,
    }
}

/// The install folder an app manifest names. The manifest is authoritative
/// about the folder name, which does not always match the store title.
pub fn steam_install_dir(manifest: &str) -> (r: Option<String>)
    ensures
        opt_view(r) == install_dir_of(manifest@),
{
    let doc = crate::vdf::parse(manifest);
    match doc.get("AppState") {
        Some(state) => match state.text_at("installdir") {
            Some(t) => Some(crate::text::owned(t)),
            None => None,
        },
        None => None,
    }
}

/// The value under `key`, as `VdfValue::get` finds it.
pub open spec fn get_value(v: VdfValue, key: Seq<char>) -> Option<VdfValue> {
    match v {
        VdfValue::Text(_) => None,
        VdfValue::Block(es) => match first_match(es@, key, 0) {
            Some(i) => Some(es@[i].1),
            None => None,
        },
    }
}

/// The text under `key`, as `VdfValue::text_at` finds it.
pub open spec fn text_value(v: VdfValue, key: Seq<char>) -> Option<Seq<char>> {
    match get_value(v, key) {
        Some(VdfValue::Text(t)) => Some(t@),
        _ => None,
    }
}

/// The `path` of each library entry that has one, in order.
pub open spec fn folder_paths(es: Seq<(String, VdfValue)>) -> Seq<Seq<char>>
    decreases es.len(),
{
    if es.len() == 0 {
        Seq::empty()
    } else {
        let rest = folder_paths(es.drop_last());
        match text_value(es.last().1, "path"@) {
            Some(p) => rest.push(p),
            None => rest,
        }
    }
}

pub open spec fn piece_filter() -> spec_fn(Seq<char>) -> bool {
    |s: Seq<char>| s.len() > 0 && s != seq!['.']
}

/// The pieces of a path between its separators, either of `/` and `\`,
/// leaving out empty ones and `.`.
pub open spec fn path_pieces(p: Seq<char>) -> Seq<Seq<char>> {
    split(forward_slashes(p), '/').filter(piece_filter())
}

/// Whether a path starts at a separator.
pub open spec fn rooted(p: Seq<char>) -> bool {
    p.len() > 0 && (p[0] == '/' || p[0] == '\\')
}

/// Whether two paths name the same place, as paths compare: piece by piece,
/// however the separators are written.
pub open spec fn same_path(a: Seq<char>, b: Seq<char>) -> bool {
    rooted(a) == rooted(b) && path_pieces(a) == path_pieces(b)
}

/// `paths` added to `acc` in order, each unless the same path is there.
pub open spec fn add_unique(acc: Seq<Seq<char>>, paths: Seq<Seq<char>>) -> Seq<Seq<char>>
    decreases paths.len(),
{
    if paths.len() == 0 {
        acc
    } else {
        let before = add_unique(acc, paths.drop_last());
        if exists|i: int| 0 <= i < before.len() && same_path(#[trigger] before[i], paths.last()) {
            before
        } else {
            before.push(paths.last())
        }
    }
}

/// The library roots: the Steam install itself, then each library folder
/// `libraryfolders.vdf` lists, without repeats.
pub open spec fn libraries_of(steam_root: Seq<char>, folders: Option<VdfValue>) -> Seq<Seq<char>> {
    let listed = match folders {
        Some(doc) => match get_value(doc, "libraryfolders"@) {
            Some(VdfValue::Block(es)) => folder_paths(es@),
            _ => Seq::empty(),
        },
        None => Seq::empty(),
    };
    add_unique(seq![steam_root], listed)
}

fn path_pieces_exec(p: &str) -> (r: Vec<Vec<char>>)
    ensures
        views(r@) == path_pieces(p@),
{
    let f = crate::assets::forward_slashes_exec(chars_of(p).as_slice());
    let pieces = split_chars(f.as_slice(), '/');
    let ghost pv = views(pieces@);
    let ghost pred = piece_filter();
    let mut out: Vec<Vec<char>> = Vec::new();
    let mut i: usize = 0;
    while i < pieces.len()
        invariant
            i <= pieces.len(),
            pv == views(pieces@),
            pv == split(forward_slashes(p@), '/'),
            pred == piece_filter(),
            views(out@) == pv.subrange(0, i as int).filter(pred),
        decreases pieces.len() - i,
    {
        let ghost t = pv.subrange(0, i + 1);
        assert(t.drop_last() =~= pv.subrange(0, i as int));
        assert(t.last() == pieces@[i as int]@);
        proof {
            lemma_filter_step(t, pred);
        }
        let piece = pieces[i].as_slice();
        let keep = piece.len() > 0 && !(piece.len() == 1 && piece[0] == '.');
        assert(keep == (pieces@[i as int]@.len() > 0 && pieces@[i as int]@ != seq!['.'])) by {
            if piece.len() == 1 && piece[0] == '.' {
                assert(piece@ =~= seq!['.']);
            }
            if piece@ == seq!['.'] {
                assert(piece@[0] == '.');
            }
        }
        if keep {
            let c = copy_chars(piece);
            proof {
                lemma_views_push(out@, c);
            }
            out.push(c);
        }
        i = i + 1;
    }
    assert(pv.subrange(0, pieces.len() as int) =~= pv);
    out
}

fn rooted_exec(p: &str) -> (r: bool)
    ensures
        r == rooted(p@),
{
    let c = chars_of(p);
    c.len() > 0 && (c[0] == '/' || c[0] == '\\')
}

/// Whether two paths name the same place.
pub fn same_path_exec(a: &str, b: &str) -> (r: bool)
    ensures
        r == same_path(a@, b@),
{
    if rooted_exec(a) != rooted_exec(b) {
        return false;
    }
    let pa = path_pieces_exec(a);
    let pb = path_pieces_exec(b);
    if pa.len() != pb.len() {
        assert(views(pa@).len() != views(pb@).len());
        return false;
    }
    let mut i: usize = 0;
    while i < pa.len()
        invariant
            i <= pa.len() == pb.len(),
            views(pa@) == path_pieces(a@),
            views(pb@) == path_pieces(b@),
            rooted(a@) == rooted(b@),
            forall|k: int| 0 <= k < i ==> views(pa@)[k] == views(pb@)[k],
        decreases pa.len() - i,
    {
        if !chars_eq(pa[i].as_slice(), pb[i].as_slice()) {
            assert(views(pa@)[i as int] != views(pb@)[i as int]);
            return false;
        }
        i = i + 1;
    }
    assert(views(pa@) =~= views(pb@));
    true
}

fn has_same_path(v: &Vec<String>, p: &str) -> (r: bool)
    ensures
        r == exists|i: int| 0 <= i < string_seq(v@).len() && same_path(#[trigger] string_seq(v@)[i], p@),
{
    let mut i: usize = 0;
    while i < v.len()
        invariant
            i <= v.len(),
            forall|k: int| 0 <= k < i ==> !same_path(#[trigger] string_seq(v@)[k], p@),
        decreases v.len() - i,
    {
        if same_path_exec(v[i].as_str(), p) {
            assert(same_path(string_seq(v@)[i as int], p@));
            return true;
        }
        i = i + 1;
    }
    false
}

pub open spec fn string_seq(v: Seq<String>) -> Seq<Seq<char>> {
    v.map_values(|s: String| s@)
}

/// Library roots, including the Steam install itself, given the parsed
/// `libraryfolders.vdf` (none when it could not be read).
pub fn library_roots(steam_root: &str, folders: Option<&VdfValue>) -> (r: Vec<String>)
    ensures
        string_seq(r@) == libraries_of(steam_root@, match folders {
            Some(d) => Some(*d),
            None => None,
        }),
{
    let mut libraries: Vec<String> = Vec::new();
    libraries.push(crate::text::owned(steam_root));
    assert(string_seq(libraries@) =~= seq![steam_root@]);
    let doc = match folders {
        Some(d) => d,
        None => {
            assert(add_unique(seq![steam_root@], Seq::empty()) == seq![steam_root@]);
            return libraries;
        },
    };
    let es = match doc.get("libraryfolders") {
        Some(VdfValue::Block(es)) => es,
        _ => {
            assert(add_unique(seq![steam_root@], Seq::empty()) == seq![steam_root@]);
            return libraries;
        },
    };
    let ghost all = es@;
    let mut i: usize = 0;
    while i < es.len()
        invariant
            i <= es.len(),
            all == es@,
            string_seq(libraries@) == add_unique(seq![steam_root@], folder_paths(all.take(i as int))),
        decreases es.len() - i,
    {
        let ghost before = string_seq(libraries@);
        assert(all.take(i + 1).drop_last() =~= all.take(i as int));
        assert(all.take(i + 1).last() == es@[i as int]);
        match es[i].1.text_at("path") {
            Some(path) => {
                assert(text_value(es@[i as int].1, "path"@) == Some(path@));
                assert(folder_paths(all.take(i + 1)) == folder_paths(all.take(i as int)).push(path@));
                assert(folder_paths(all.take(i + 1)).drop_last() =~= folder_paths(all.take(i as int)));
                if !has_same_path(&libraries, path) {
                    libraries.push(crate::text::owned(path));
                    assert(string_seq(libraries@) =~= before.push(path@));
                }
            },
            None => {
                assert(text_value(es@[i as int].1, "path"@) is None);
            },
        }
        i = i + 1;
    }
    assert(all.take(es.len() as int) =~= all);
    libraries
}

// ---------------------------------------------------------------------------
// Epic Games Launcher
// ---------------------------------------------------------------------------

/// Whether an Epic install manifest (`*.item`) is for Stellar Blade, going by
/// its display and app names (empty when the manifest has none).
pub open spec fn is_stellar_blade_item_spec(display_name: Seq<char>, app_name: Seq<char>) -> bool {
    contains_text(lower(display_name), "stellar blade"@) || contains_text(
        lower(app_name),
        "stellarblade"@,
    )
}

/// Whether an Epic install manifest is for Stellar Blade.
pub fn is_stellar_blade_item(display_name: &str, app_name: &str) -> (r: bool)
    ensures
        r == is_stellar_blade_item_spec(display_name@, app_name@),
{
    let d = lower_chars(chars_of(display_name).as_slice());
    let a = lower_chars(chars_of(app_name).as_slice());
    find_text(d.as_slice(), chars_of("stellar blade").as_slice(), 0).is_some() || find_text(
        a.as_slice(),
        chars_of("stellarblade").as_slice(),
        0,
    ).is_some()
}

// ---------------------------------------------------------------------------
// Candidates
// ---------------------------------------------------------------------------

/// Add an install found on disk unless one at the same root is listed.
pub fn push_unique(found: &mut Vec<GameInstall>, install: GameInstall)
    ensures
        if exists|i: int| 0 <= i < old(found)@.len() && same_path(#[trigger] old(found)@[i].root@, install.root@) {
            final(found)@ == old(found)@
        } else {
            final(found)@ == old(found)@.push(install)
        },
{
    let mut i: usize = 0;
    while i < found.len()
        invariant
            i <= found.len(),
            forall|k: int| 0 <= k < i ==> !same_path(#[trigger] found@[k].root@, install.root@),
        decreases found.len() - i,
    {
        if same_path_exec(found[i].root.as_str(), install.root.as_str()) {
            return;
        }
        i = i + 1;
    }
    found.push(install);
}

// ---------------------------------------------------------------------------
// The shipping executable
// ---------------------------------------------------------------------------

pub open spec fn is_shipping_exe_spec(name: Seq<char>) -> bool {
    is_suffix("-win64-shipping.exe"@, lower(name))
}

/// Whether a file in `SB/Binaries/Win64` is the shipping executable,
/// `*-Win64-Shipping.exe` in any case. Matched by pattern rather than a
/// hard-coded name so a renamed or re-badged build still validates.
pub fn is_shipping_exe(name: &str) -> (r: bool)
    ensures
        r == is_shipping_exe_spec(name@),
{
    let lowered = lower_chars(chars_of(name).as_slice());
    ends_with(lowered.as_slice(), chars_of("-win64-shipping.exe").as_slice())
}

// ---------------------------------------------------------------------------
// Epic Games Launcher
// ---------------------------------------------------------------------------

pub open spec fn is_epic_item_spec(file_name: Seq<char>) -> bool {
    file_name.contains('.') && before_last(file_name, '.').len() > 0 && last_piece(file_name, '.')
        == "item"@
}

/// Whether a file in the launcher's manifest folder is an install manifest:
/// its extension is exactly `item`.
pub fn is_epic_item(file_name: &str) -> (r: bool)
    ensures
        r == is_epic_item_spec(file_name@),
{
    let f = chars_of(file_name);
    if !contains_char(f.as_slice(), '.') {
        return false;
    }
    before_last_exec(f.as_slice(), '.').len() > 0 && chars_eq(
        last_piece_exec(f.as_slice(), '.').as_slice(),
        chars_of("item").as_slice(),
    )
}

/// A string field of a manifest, or nothing when it is not there.
pub open spec fn text_or_empty(v: JsonValue, key: Seq<char>) -> Seq<char> {
    match str_of(get_of(v, key)) {
        Some(s) => s,
        None => Seq::empty(),
    }
}

/// Where an Epic install manifest says the game is, when the manifest is
/// for Stellar Blade.
pub open spec fn epic_location_of(v: JsonValue) -> Option<Seq<char>> {
    if is_stellar_blade_item_spec(text_or_empty(v, "DisplayName"@), text_or_empty(v, "AppName"@)) {
        str_of(get_of(v, "InstallLocation"@))
    } else {
        None
    }
}

fn text_field(v: &JsonValue, key: &str) -> (r: String)
    ensures
        r@ == text_or_empty(*v, key@),
{
    match v.get(key) {
        Some(f) => match f.as_str() {
            Some(t) => crate::text::owned(t),
            None => string_from_chars(Vec::<char>::new().as_slice()),
        },
        None => string_from_chars(Vec::<char>::new().as_slice()),
    }
}

/// Read one Epic install manifest (a `.item` file): the install location,
/// when it is Stellar Blade's and says where it is. A manifest that is not
/// JSON is passed over.
pub fn epic_install_location(item: &str) -> (r: Option<String>)
    ensures
        match json_decoded(item@) {
            Ok(v) => opt_view(r) == epic_location_of(v),
            Err(_) => r is None,
        },
{
    let v = match decode_json(item) {
        Ok(v) => v,
        Err(_) => return None,
    };
    let display = text_field(&v, "DisplayName");
    let app = text_field(&v, "AppName");
    if !is_stellar_blade_item(display.as_str(), app.as_str()) {
        return None;
    }
    match v.get("InstallLocation") {
        Some(f) => match f.as_str() {
            Some(t) => Some(crate::text::owned(t)),
            None => None,
        },
        None => None,
    }
}

} // verus!
