//! Nexus collections: what a collection lists, and reading a link to one.

use vstd::prelude::*;

use crate::gpu::{find_from, find_text};
use crate::json::{bool_of, decode_json, field_of, get_of, json_decoded, str_of, u64_of, JsonValue};
use crate::model::opt_view;
use crate::queue::{item_views, pushed, Queue, QueueItem, QueueModel, ItemModel};
use crate::upscaler::{decimal, decimal_exec};
use crate::nxm::{nxm_message, parse_of, NxmLink, NxmLinkModel};
use crate::text::{
    chars_eq, chars_of, concat_chars, contains_char, eq_ignore_case, first_piece, is_prefix, lower, lower_chars,
    parse_unsigned, parse_unsigned_of, segments, segments_of, slice_chars, split_once_exec,
    starts_with, string_from_chars, views,
};

verus! {

#[derive(Debug)]
pub enum CollectionError {
    /// `collection.json` is not valid JSON; the message says why.
    Invalid(String),
    /// The collection archive has no `collection.json`.
    Missing,
}

/// A collection, as far as installing it is concerned.
#[derive(Debug, Clone, PartialEq, Eq)]
pub struct Collection {
    pub name: String,
    pub version: Option<String>,
    pub author: Option<String>,
    /// Entries that can be downloaded through the API.
    pub mods: Vec<CollectionMod>,
    /// Entries that name a file somewhere else on the internet, listed for
    /// the user to handle by hand.
    pub manual: Vec<ManualMod>,
}

#[derive(Debug, Clone, PartialEq, Eq)]
pub struct CollectionMod {
    pub name: String,
    pub mod_id: u64,
    pub file_id: u64,
    pub version: Option<String>,
    /// Optional entries are offered as a choice rather than installed blindly.
    pub optional: bool,
}

#[derive(Debug, Clone, PartialEq, Eq)]
pub struct ManualMod {
    pub name: String,
    /// Where the user has to go to get it, when the manifest says.
    pub url: Option<String>,
    pub reason: String,
}

/// What a revision lookup produced.
#[derive(Debug, Clone, Default, PartialEq, Eq)]
pub struct Revision {
    pub name: String,
    pub revision: u64,
    /// The collection archive, when the response offered one.
    pub download_url: Option<String>,
    pub mods: Vec<CollectionMod>,
}

/// What installing a collection will do.
#[derive(Debug, Clone)]
pub struct CollectionPlan {
    pub name: String,
    pub slug: String,
    pub revision: u64,
    /// Everything the collection asks for, in the order it listed them.
    pub mods: Vec<PlannedMod>,
    /// Entries hosted somewhere the API cannot reach.
    pub manual: Vec<ManualMod>,
}

#[derive(Debug, Clone)]
pub struct PlannedMod {
    pub mod_id: u64,
    pub file_id: u64,
    pub name: String,
    pub version: Option<String>,
    pub optional: bool,
    /// True when this exact file is already installed, so it can be skipped.
    pub installed: bool,
}

/// A file the user chose to queue.
#[derive(Debug, Clone)]
pub struct QueuedFile {
    pub mod_id: u64,
    pub file_id: u64,
    pub name: String,
    pub version: Option<String>,
}

/// What precedes the first `?`.
pub open spec fn strip_query_of(v: Seq<char>) -> Seq<char> {
    if v.contains('?') {
        first_piece(v, '?')
    } else {
        v
    }
}

/// Everything before a query string.
pub fn strip_query(value: &str) -> (r: String)
    ensures
        r@ == strip_query_of(value@),
{
    let v = chars_of(value);
    match split_once_exec(v.as_slice(), '?') {
        Some((before, _)) => string_from_chars(before.as_slice()),
        None => string_from_chars(v.as_slice()),
    }
}

/// The text between the first `/collections/` and the next one, if any.
pub open spec fn after_collections(link: Seq<char>) -> Option<Seq<char>> {
    let m = "/collections/"@;
    match find_from(link, m, 0) {
        Some(i) => {
            let after = link.subrange(i + m.len(), link.len() as int);
            match find_from(after, m, 0) {
                Some(j) => Some(after.subrange(0, j)),
                None => Some(after),
            }
        },
        None => None,
    }
}

/// What a pasted collection link names: slug and revision, or why not.
pub open spec fn link_target(link: Seq<char>) -> Result<(Seq<char>, u64), Seq<char>> {
    if link.len() == 0 {
        Err("paste a collection link"@)
    } else if is_prefix("nxm://"@, lower(link)) {
        match parse_of(link, crate::game::NEXUS_DOMAIN@) {
            Err(e) => Err(nxm_message(e)),
            Ok(NxmLinkModel::Collection { slug, revision, .. }) => Ok((slug, revision)),
            Ok(NxmLinkModel::File { .. }) => Err("that is a link to a single mod, not a collection"@),
        }
    } else {
        match after_collections(link) {
            Some(rest) => {
                let parts = segments(rest);
                if parts.len() == 0 {
                    Err("that link has no collection in it"@)
                } else {
                    let revision: u64 = if parts.len() > 1 && parts[1] == "revisions"@ && parts.len() > 2 {
                        match parse_unsigned_of(parts[2], 0xffff_ffff_ffff_ffff) {
                            Some(n) => n as u64,
                            None => 0,
                        }
                    } else {
                        0
                    };
                    Ok((strip_query_of(parts[0]), revision))
                }
            },
            None => if link.contains('/') || link.contains(' ') {
                Err("could not find a collection in "@ + link)
            } else {
                Ok((strip_query_of(link), 0))
            },
        }
    }
}

pub open spec fn link_view(r: Result<(String, u64), String>) -> Result<(Seq<char>, u64), Seq<char>> {
    match r {
        Ok((s, n)) => Ok((s@, n)),
        Err(m) => Err(m@),
    }
}

/// Pull the slug and revision out of whatever the user pasted.
///
/// All three forms are things a user actually ends up holding: the `nxm://`
/// link the site's button produces, the page URL from the address bar, and the
/// bare slug from either of those.
pub fn parse_link(link: &str) -> (r: Result<(String, u64), String>)
    ensures
        link_view(r) == link_target(link@),
{
    let l = chars_of(link);
    if l.len() == 0 {
        return Err(crate::text::owned("paste a collection link"));
    }
    if starts_with(lower_chars(l.as_slice()).as_slice(), chars_of("nxm://").as_slice()) {
        return match crate::nxm::parse(link, crate::game::NEXUS_DOMAIN) {
            Err(e) => Err(e.message()),
            Ok(NxmLink::Collection(c)) => Ok((c.slug, c.revision)),
            Ok(NxmLink::File(_)) => Err(crate::text::owned("that is a link to a single mod, not a collection")),
        };
    }
    let m = chars_of("/collections/");
    match find_text(l.as_slice(), m.as_slice(), 0) {
        Some(i) => {
            proof {
                crate::gpu::lemma_find_from_occurs(l@, m@, 0);
            }
            let after = slice_chars(l.as_slice(), i + m.len(), l.len());
            let rest = match find_text(after.as_slice(), m.as_slice(), 0) {
                Some(j) => {
                    proof {
                        crate::gpu::lemma_find_from_occurs(after@, m@, 0);
                    }
                    slice_chars(after.as_slice(), 0, j)
                },
                None => after,
            };
            let parts = segments_of(rest.as_slice());
            let ghost pv = views(parts@);
            if parts.len() == 0 {
                return Err(crate::text::owned("that link has no collection in it"));
            }
            let revision: u64 = if parts.len() > 2 && chars_eq(parts[1].as_slice(), chars_of("revisions").as_slice()) {
                assert(parts@[1]@ == pv[1]);
                assert(parts@[2]@ == pv[2]);
                match parse_unsigned(parts[2].as_slice(), 0xffff_ffff_ffff_ffff) {
                    Some(n) => n,
                    None => 0,
                }
            } else {
                proof {
                    if parts.len() > 1 {
                        assert(parts@[1]@ == pv[1]);
                    }
                }
                0
            };
            assert(parts@[0]@ == pv[0]);
            let slug = strip_query(string_from_chars(parts[0].as_slice()).as_str());
            Ok((slug, revision))
        },
        None => {
            if contains_char(l.as_slice(), '/') || contains_char(l.as_slice(), ' ') {
                let v = concat_chars(chars_of("could not find a collection in ").as_slice(), l.as_slice());
                return Err(string_from_chars(v.as_slice()));
            }
            Ok((strip_query(link), 0))
        },
    }
}

/// The name a downloaded file is saved under: the file name of what the
/// server called it, or `download.bin` when that names nothing usable.
pub open spec fn safe_name_of(name: Seq<char>) -> Seq<char> {
    match crate::loadorder::path_file_name(name) {
        Some(f) => if f.len() > 0 && f != seq!['.'] && f != seq!['.', '.'] {
            f
        } else {
            "download.bin"@
        },
        None => "download.bin"@,
    }
}

/// A file name safe to create inside the downloads folder.
pub fn safe_file_name(name: &str) -> (r: String)
    ensures
        r@ == safe_name_of(name@),
{
    match crate::loadorder::path_file_name_exec(chars_of(name).as_slice()) {
        Some(f) => {
            let dot = f.len() == 1 && f[0] == '.';
            let up = f.len() == 2 && f[0] == '.' && f[1] == '.';
            assert(dot == (f@ == seq!['.'])) by {
                if f@ == seq!['.'] {
                    assert(f@.len() == 1);
                }
                if f@.len() == 1 && f@[0] == '.' {
                    assert(f@ =~= seq!['.']);
                }
            }
            assert(up == (f@ == seq!['.', '.'])) by {
                if f@ == seq!['.', '.'] {
                    assert(f@.len() == 2);
                }
                if f@.len() == 2 && f@[0] == '.' && f@[1] == '.' {
                    assert(f@ =~= seq!['.', '.']);
                }
            }
            if f.len() > 0 && !dot && !up {
                string_from_chars(f.as_slice())
            } else {
                crate::text::owned("download.bin")
            }
        },
        None => crate::text::owned("download.bin"),
    }
}

// ---------------------------------------------------------------------------
// Views
// ---------------------------------------------------------------------------

pub struct ModModel {
    pub name: Seq<char>,
    pub mod_id: u64,
    pub file_id: u64,
    pub version: Option<Seq<char>>,
    pub optional: bool,
}

impl View for CollectionMod {
    type V = ModModel;

    open spec fn view(&self) -> ModModel {
        ModModel {
            name: self.name@,
            mod_id: self.mod_id,
            file_id: self.file_id,
            version: opt_view(self.version),
            optional: self.optional,
        }
    }
}

pub struct ManualModel {
    pub name: Seq<char>,
    pub url: Option<Seq<char>>,
    pub reason: Seq<char>,
}

impl View for ManualMod {
    type V = ManualModel;

    open spec fn view(&self) -> ManualModel {
        ManualModel { name: self.name@, url: opt_view(self.url), reason: self.reason@ }
    }
}

pub open spec fn mod_views(v: Seq<CollectionMod>) -> Seq<ModModel> {
    v.map_values(|m: CollectionMod| m@)
}

pub open spec fn manual_views(v: Seq<ManualMod>) -> Seq<ManualModel> {
    v.map_values(|m: ManualMod| m@)
}

pub struct CollectionModel {
    pub name: Seq<char>,
    pub version: Option<Seq<char>>,
    pub author: Option<Seq<char>>,
    pub mods: Seq<ModModel>,
    pub manual: Seq<ManualModel>,
}

impl View for Collection {
    type V = CollectionModel;

    open spec fn view(&self) -> CollectionModel {
        CollectionModel {
            name: self.name@,
            version: opt_view(self.version),
            author: opt_view(self.author),
            mods: mod_views(self.mods@),
            manual: manual_views(self.manual@),
        }
    }
}

pub struct RevisionModel {
    pub name: Seq<char>,
    pub revision: u64,
    pub download_url: Option<Seq<char>>,
    pub mods: Seq<ModModel>,
}

impl View for Revision {
    type V = RevisionModel;

    open spec fn view(&self) -> RevisionModel {
        RevisionModel {
            name: self.name@,
            revision: self.revision,
            download_url: opt_view(self.download_url),
            mods: mod_views(self.mods@),
        }
    }
}

fn copy_opt(o: &Option<String>) -> (r: Option<String>)
    ensures
        opt_view(r) == opt_view(*o),
{
    match o {
        Some(s) => Some(crate::text::owned(s.as_str())),
        None => None,
    }
}

fn copy_mod(m: &CollectionMod) -> (r: CollectionMod)
    ensures
        r@ == m@,
{
    CollectionMod {
        name: crate::text::owned(m.name.as_str()),
        mod_id: m.mod_id,
        file_id: m.file_id,
        version: copy_opt(&m.version),
        optional: m.optional,
    }
}

// ---------------------------------------------------------------------------
// The manifest
// ---------------------------------------------------------------------------

/// An id: a number in some manifests, a string of digits in others.
pub open spec fn number_of(v: Option<JsonValue>, key: Seq<char>) -> Option<u64> {
    let f = field_of(v, key);
    match u64_of(f) {
        Some(n) => Some(n),
        None => match str_of(f) {
            Some(s) => match parse_unsigned_of(s, u64::MAX as nat) {
                Some(n) => Some(n as u64),
                None => None,
            },
            None => None,
        },
    }
}

/// The id under `key`, written as a number or as a string.
pub fn number(value: &JsonValue, key: &str) -> (r: Option<u64>)
    ensures
        r == number_of(Some(*value), key@),
{
    let field = match value.get(key) {
        Some(f) => f,
        None => return None,
    };
    match field.as_u64() {
        Some(n) => Some(n),
        None => match field.as_str() {
            Some(s) => parse_unsigned(chars_of(s).as_slice(), u64::MAX),
            None => None,
        },
    }
}

/// A text, or `d` when there is none.
pub open spec fn text_or(v: Option<Seq<char>>, d: Seq<char>) -> Seq<char> {
    match v {
        Some(t) => t,
        None => d,
    }
}

/// What one manifest entry is: a file the API can fetch, or an entry the
/// user has to handle by hand.
pub enum EntryModel {
    Install(ModModel),
    Manual(ManualModel),
}

/// How an entry reads. It only has to name its source, mod and file to be
/// installable; `optional` is a flag or, in older manifests, a `recommended`
/// type; anything it cannot place is kept, with the reason.
pub open spec fn entry_of(e: JsonValue) -> EntryModel {
    let display = text_or(str_of(get_of(e, "name"@)), "Unnamed mod"@);
    let optional = match bool_of(get_of(e, "optional"@)) {
        Some(b) => b,
        None => match str_of(get_of(e, "type"@)) {
            Some(t) => eq_ignore_case(t, "recommended"@),
            None => false,
        },
    };
    let source = get_of(e, "source"@);
    let source_type = text_or(str_of(field_of(source, "type"@)), Seq::empty());
    let mod_id = number_of(source, "modId"@);
    let file_id = number_of(source, "fileId"@);
    if source_type == "nexus"@ && mod_id is Some && file_id is Some {
        EntryModel::Install(
            ModModel {
                name: display,
                mod_id: mod_id->0,
                file_id: file_id->0,
                version: str_of(get_of(e, "version"@)),
                optional,
            },
        )
    } else if source_type == "nexus"@ {
        EntryModel::Manual(
            ManualModel {
                name: display,
                url: None,
                reason: "the collection does not say which file to download"@,
            },
        )
    } else {
        EntryModel::Manual(
            ManualModel {
                name: display,
                url: str_of(field_of(source, "url"@)),
                reason: if source_type.len() == 0 {
                    "no download source given"@
                } else {
                    "hosted outside Nexus ("@ + source_type + ")"@
                },
            },
        )
    }
}

/// The installable entries, in order.
pub open spec fn installs_of(es: Seq<JsonValue>) -> Seq<ModModel>
    decreases es.len(),
{
    if es.len() == 0 {
        Seq::empty()
    } else {
        match entry_of(es.last()) {
            EntryModel::Install(m) => installs_of(es.drop_last()).push(m),
            EntryModel::Manual(_) => installs_of(es.drop_last()),
        }
    }
}

/// The entries left to the user, in order.
pub open spec fn manuals_of(es: Seq<JsonValue>) -> Seq<ManualModel>
    decreases es.len(),
{
    if es.len() == 0 {
        Seq::empty()
    } else {
        match entry_of(es.last()) {
            EntryModel::Manual(m) => manuals_of(es.drop_last()).push(m),
            EntryModel::Install(_) => manuals_of(es.drop_last()),
        }
    }
}

/// The entries of a manifest: its `mods` array, or none.
pub open spec fn manifest_entries(root: JsonValue) -> Seq<JsonValue> {
    match get_of(root, "mods"@) {
        Some(JsonValue::Array(items)) => items@,
        _ => Seq::empty(),
    }
}

/// A collection as its manifest describes it. Unknown fields are ignored.
pub open spec fn manifest_of(root: JsonValue) -> CollectionModel {
    let info = get_of(root, "info"@);
    let es = manifest_entries(root);
    CollectionModel {
        name: text_or(str_of(field_of(info, "name"@)), "Collection"@),
        version: str_of(field_of(info, "version"@)),
        author: str_of(field_of(info, "author"@)),
        mods: installs_of(es),
        manual: manuals_of(es),
    }
}

/// An installable entry is among the installs of a list holding it.
proof fn lemma_install_is_listed(es: Seq<JsonValue>, j: int, m: ModModel)
    requires
        0 <= j < es.len(),
        entry_of(es[j]) == EntryModel::Install(m),
    ensures
        installs_of(es).contains(m),
    decreases es.len(),
{
    if j < es.len() - 1 {
        lemma_install_is_listed(es.drop_last(), j, m);
        let k = choose|k: int| 0 <= k < installs_of(es.drop_last()).len() && installs_of(es.drop_last())[k] == m;
        match entry_of(es.last()) {
            EntryModel::Install(x) => assert(installs_of(es)[k] == m),
            EntryModel::Manual(_) => {},
        }
    } else {
        assert(es[j] == es.last());
        assert(installs_of(es).last() == m);
    }
}

/// A manifest entry whose source is a Nexus file with both ids is installed
/// under the entry's own name (or `Unnamed mod` when it has none), with the
/// ids its source gives, the version the entry pins and the entry's own
/// optional flag; and the collection's installs include it.
pub proof fn law_installable_entries_keep_their_names(root: JsonValue, j: int)
    requires
        0 <= j < manifest_entries(root).len(),
        str_of(field_of(get_of(manifest_entries(root)[j], "source"@), "type"@)) == Some("nexus"@),
        number_of(get_of(manifest_entries(root)[j], "source"@), "modId"@) is Some,
        number_of(get_of(manifest_entries(root)[j], "source"@), "fileId"@) is Some,
    ensures
        ({
            let e = manifest_entries(root)[j];
            let source = get_of(e, "source"@);
            let m = ModModel {
                name: match get_of(e, "name"@) {
                    Some(JsonValue::String(n)) => n@,
                    _ => "Unnamed mod"@,
                },
                mod_id: number_of(source, "modId"@)->0,
                file_id: number_of(source, "fileId"@)->0,
                version: match get_of(e, "version"@) {
                    Some(JsonValue::String(v)) => Some(v@),
                    _ => None,
                },
                optional: match get_of(e, "optional"@) {
                    Some(JsonValue::Bool(b)) => b,
                    _ => match get_of(e, "type"@) {
                        Some(JsonValue::String(t)) => crate::text::eq_ignore_case(t@, "recommended"@),
                        _ => false,
                    },
                },
            };
            &&& entry_of(e) == EntryModel::Install(m)
            &&& manifest_of(root).mods.contains(m)
        }),
{
    let es = manifest_entries(root);
    let e = es[j];
    match entry_of(e) {
        EntryModel::Install(m) => lemma_install_is_listed(es, j, m),
        EntryModel::Manual(_) => {},
    }
}

enum Entry {
    Install(CollectionMod),
    Manual(ManualMod),
}

spec fn entry_view(e: Entry) -> EntryModel {
    match e {
        Entry::Install(m) => EntryModel::Install(m@),
        Entry::Manual(m) => EntryModel::Manual(m@),
    }
}

fn text_of(v: Option<&JsonValue>) -> (r: Option<String>)
    ensures
        opt_view(r) == str_of(match v {
            Some(x) => Some(*x),
            None => None,
        }),
{
    match v {
        Some(x) => match x.as_str() {
            Some(s) => Some(crate::text::owned(s)),
            None => None,
        },
        None => None,
    }
}

fn read_entry(e: &JsonValue) -> (r: Entry)
    ensures
        entry_view(r) == entry_of(*e),
{
    let display = match text_of(e.get("name")) {
        Some(n) => n,
        None => crate::text::owned("Unnamed mod"),
    };
    let optional = match e.get("optional") {
        Some(v) => match v.as_bool() {
            Some(b) => b,
            None => match text_of(e.get("type")) {
                Some(t) => chars_eq(
                    lower_chars(chars_of(t.as_str()).as_slice()).as_slice(),
                    lower_chars(chars_of("recommended").as_slice()).as_slice(),
                ),
                None => false,
            },
        },
        None => match text_of(e.get("type")) {
            Some(t) => chars_eq(
                lower_chars(chars_of(t.as_str()).as_slice()).as_slice(),
                lower_chars(chars_of("recommended").as_slice()).as_slice(),
            ),
            None => false,
        },
    };
    let source = e.get("source");
    let source_type = match source {
        Some(src) => match text_of(src.get("type")) {
            Some(t) => t,
            None => String::new(),
        },
        None => String::new(),
    };
    let mod_id = match source {
        Some(src) => number(src, "modId"),
        None => None,
    };
    let file_id = match source {
        Some(src) => number(src, "fileId"),
        None => None,
    };
    let nexus = chars_eq(chars_of(source_type.as_str()).as_slice(), chars_of("nexus").as_slice());
    if nexus && mod_id.is_some() && file_id.is_some() {
        return Entry::Install(
            CollectionMod {
                name: display,
                mod_id: mod_id.unwrap(),
                file_id: file_id.unwrap(),
                version: text_of(e.get("version")),
                optional,
            },
        );
    }
    if nexus {
        return Entry::Manual(
            ManualMod {
                name: display,
                url: None,
                reason: crate::text::owned("the collection does not say which file to download"),
            },
        );
    }
    let url = match source {
        Some(src) => text_of(src.get("url")),
        None => None,
    };
    let reason = if chars_of(source_type.as_str()).len() == 0 {
        proof {
            reveal_strlit("");
        }
        crate::text::owned("no download source given")
    } else {
        let v = concat_chars(chars_of("hosted outside Nexus (").as_slice(), chars_of(source_type.as_str()).as_slice());
        let v = concat_chars(v.as_slice(), chars_of(")").as_slice());
        string_from_chars(v.as_slice())
    };
    proof {
        reveal_strlit("");
    }
    Entry::Manual(ManualMod { name: display, url, reason })
}

/// Read a manifest (`collection.json`), once decoded. There is no published
/// schema for it, so this is deliberately forgiving: unknown fields are
/// ignored, and anything that cannot be placed is reported rather than
/// dropped, so a collection with one odd entry still installs.
pub fn read_manifest(root: &JsonValue) -> (r: Collection)
    ensures
        r@ == manifest_of(*root),
{
    let info = root.get("info");
    let name = match info {
        Some(i) => match text_of(i.get("name")) {
            Some(n) => n,
            None => crate::text::owned("Collection"),
        },
        None => crate::text::owned("Collection"),
    };
    let version = match info {
        Some(i) => text_of(i.get("version")),
        None => None,
    };
    let author = match info {
        Some(i) => text_of(i.get("author")),
        None => None,
    };
    let mut mods: Vec<CollectionMod> = Vec::new();
    let mut manual: Vec<ManualMod> = Vec::new();
    if let Some(JsonValue::Array(items)) = root.get("mods") {
        let ghost es = items@;
        assert(es == manifest_entries(*root));
        let mut i: usize = 0;
        while i < items.len()
            invariant
                i <= items.len(),
                es == items@,
                mod_views(mods@) == installs_of(es.take(i as int)),
                manual_views(manual@) == manuals_of(es.take(i as int)),
            decreases items.len() - i,
        {
            assert(es.take(i + 1).drop_last() =~= es.take(i as int));
            assert(es.take(i + 1).last() == es[i as int]);
            let ghost before_mods = mod_views(mods@);
            let ghost before_manual = manual_views(manual@);
            match read_entry(&items[i]) {
                Entry::Install(m) => {
                    mods.push(m);
                    assert(mod_views(mods@) =~= before_mods.push(m@));
                },
                Entry::Manual(m) => {
                    manual.push(m);
                    assert(manual_views(manual@) =~= before_manual.push(m@));
                },
            }
            i = i + 1;
        }
        assert(es.take(items.len() as int) =~= es);
    } else {
        assert(manifest_entries(*root) =~= Seq::<JsonValue>::empty());
        assert(mod_views(mods@) =~= Seq::<ModModel>::empty());
        assert(manual_views(manual@) =~= Seq::<ManualModel>::empty());
    }
    let ghost es = manifest_entries(*root);
    assert(mod_views(mods@) == installs_of(es));
    assert(manual_views(manual@) == manuals_of(es));
    let c = Collection { name, version, author, mods, manual };
    assert(c@ == manifest_of(*root));
    c
}

/// Parse a manifest (`collection.json`): decode the text, then read it as
/// [`read_manifest`] does. Text that is not JSON is refused with the
/// decoder's message.
pub fn parse(json: &str) -> (r: Result<Collection, CollectionError>)
    ensures
        match (r, json_decoded(json@)) {
            (Ok(c), Ok(v)) => c@ == manifest_of(v),
            (Err(CollectionError::Invalid(m)), Err(n)) => m@ == n,
            _ => false,
        },
{
    match decode_json(json) {
        Ok(root) => Ok(read_manifest(&root)),
        Err(message) => Err(CollectionError::Invalid(message)),
    }
}

// ---------------------------------------------------------------------------
// A revision response
// ---------------------------------------------------------------------------

/// The files a response names, walking it whole: every object that carries
/// both a mod id and a file id is one, and is not looked inside further.
/// `optional` is carried down, because it sits on the wrapper around the file
/// rather than on the file itself. Object fields are walked in the order the
/// object lists them.
pub open spec fn harvest_of(v: JsonValue, optional: bool) -> Seq<ModModel>
    decreases v, 0nat,
{
    match v {
        JsonValue::Array(items) => harvest_items(items@, items@.len(), optional),
        JsonValue::Object(fields) => {
            let opt = match bool_of(get_of(v, "optional"@)) {
                Some(b) => b,
                None => optional,
            };
            match (number_of(Some(v), "modId"@), number_of(Some(v), "fileId"@)) {
                (Some(m), Some(f)) => seq![
                    ModModel {
                        name: text_or(str_of(get_of(v, "name"@)), "Unnamed mod"@),
                        mod_id: m,
                        file_id: f,
                        version: str_of(get_of(v, "version"@)),
                        optional: opt,
                    },
                ],
                _ => harvest_fields(fields@, fields@.len(), opt),
            }
        },
        _ => Seq::empty(),
    }
}

/// The files the first `n` items of an array name.
pub open spec fn harvest_items(items: Seq<JsonValue>, n: nat, optional: bool) -> Seq<ModModel>
    decreases items, n,
{
    if n == 0 || n > items.len() {
        Seq::empty()
    } else {
        harvest_items(items, (n - 1) as nat, optional) + harvest_of(items[n - 1], optional)
    }
}

/// The files the first `n` fields of an object name.
pub open spec fn harvest_fields(fields: Seq<(String, JsonValue)>, n: nat, optional: bool) -> Seq<
    ModModel,
>
    decreases fields, n,
{
    if n == 0 || n > fields.len() {
        Seq::empty()
    } else {
        harvest_fields(fields, (n - 1) as nat, optional) + harvest_of(fields[n - 1].1, optional)
    }
}

/// Files that follow one with the same ids left out: a response that nests
/// a file under more than one key mentions it again, and the first mention
/// wins.
pub open spec fn dedup_ids(s: Seq<ModModel>) -> Seq<ModModel>
    decreases s.len(),
{
    if s.len() == 0 {
        Seq::empty()
    } else {
        let d = dedup_ids(s.drop_last());
        if d.len() > 0 && d.last().mod_id == s.last().mod_id && d.last().file_id == s.last().file_id {
            d
        } else {
            d.push(s.last())
        }
    }
}

/// The part of a response that describes the revision: its
/// `collectionRevision`, or the whole when there is none.
pub open spec fn revision_root(data: JsonValue) -> JsonValue {
    match get_of(data, "collectionRevision"@) {
        Some(r) => r,
        None => data,
    }
}

/// A revision as a `collectionRevision` response describes it.
pub open spec fn revision_of(data: JsonValue) -> RevisionModel {
    let root = revision_root(data);
    RevisionModel {
        name: text_or(str_of(field_of(get_of(root, "collection"@), "name"@)), "Collection"@),
        revision: match u64_of(get_of(root, "revisionNumber"@)) {
            Some(n) => n,
            None => 0,
        },
        download_url: match str_of(get_of(root, "downloadLink"@)) {
            Some(s) => if s.len() > 0 {
                Some(s)
            } else {
                None
            },
            None => None,
        },
        mods: dedup_ids(harvest_of(root, false)),
    }
}

/// Walk a response for anything that names a downloadable file.
fn harvest(value: &JsonValue, optional: bool, out: &mut Vec<CollectionMod>)
    ensures
        mod_views(final(out)@) == mod_views(old(out)@) + harvest_of(*value, optional),
    decreases value,
{
    match value {
        JsonValue::Array(items) => {
            let ghost start = mod_views(out@);
            let mut i: usize = 0;
            while i < items.len()
                invariant
                    i <= items.len(),
                    *value == JsonValue::Array(*items),
                    mod_views(out@) == start + harvest_items(items@, i as nat, optional),
                decreases items.len() - i,
            {
                assert(decreases_to!(*value => (*value)->Array_0));
                assert(decreases_to!((*value)->Array_0 => (*value)->Array_0@));
                assert(decreases_to!((*value)->Array_0@ => (*value)->Array_0@[i as int]));
                harvest(&items[i], optional, out);
                assert(start + harvest_items(items@, (i + 1) as nat, optional) =~= start
                    + harvest_items(items@, i as nat, optional) + harvest_of(items@[i as int], optional));
                i = i + 1;
            }
        },
        JsonValue::Object(fields) => {
            let opt = match value.get("optional") {
                Some(v) => match v.as_bool() {
                    Some(b) => b,
                    None => optional,
                },
                None => optional,
            };
            let mod_id = number(value, "modId");
            let file_id = number(value, "fileId");
            if mod_id.is_some() && file_id.is_some() {
                let name = match text_of(value.get("name")) {
                    Some(n) => n,
                    None => crate::text::owned("Unnamed mod"),
                };
                let m = CollectionMod {
                    name,
                    mod_id: mod_id.unwrap(),
                    file_id: file_id.unwrap(),
                    version: text_of(value.get("version")),
                    optional: opt,
                };
                let ghost before = mod_views(out@);
                out.push(m);
                assert(mod_views(out@) =~= before + seq![m@]);
                return;
            }
            let ghost start = mod_views(out@);
            let mut i: usize = 0;
            while i < fields.len()
                invariant
                    i <= fields.len(),
                    *value == JsonValue::Object(*fields),
                    mod_views(out@) == start + harvest_fields(fields@, i as nat, opt),
                decreases fields.len() - i,
            {
                assert(decreases_to!(*value => (*value)->Object_0));
                assert(decreases_to!((*value)->Object_0 => (*value)->Object_0@));
                assert(decreases_to!((*value)->Object_0@ => (*value)->Object_0@[i as int]));
                assert(decreases_to!((*value)->Object_0@[i as int] => (*value)->Object_0@[i as int].1));
                harvest(&fields[i].1, opt, out);
                assert(start + harvest_fields(fields@, (i + 1) as nat, opt) =~= start
                    + harvest_fields(fields@, i as nat, opt) + harvest_of(fields@[i as int].1, opt));
                i = i + 1;
            }
        },
        _ => {
            assert(mod_views(out@) =~= mod_views(out@) + Seq::<ModModel>::empty());
        },
    }
}

/// The files, each one that repeats the ids of the file before it left out.
fn dedup_mods(found: &Vec<CollectionMod>) -> (r: Vec<CollectionMod>)
    ensures
        mod_views(r@) == dedup_ids(mod_views(found@)),
{
    let ghost all = mod_views(found@);
    let mut mods: Vec<CollectionMod> = Vec::new();
    let mut i: usize = 0;
    while i < found.len()
        invariant
            i <= found.len(),
            all == mod_views(found@),
            mod_views(mods@) == dedup_ids(all.take(i as int)),
        decreases found.len() - i,
    {
        assert(all.take(i + 1).drop_last() =~= all.take(i as int));
        assert(all.take(i + 1).last() == found@[i as int]@);
        let repeat = mods.len() > 0 && mods[mods.len() - 1].mod_id == found[i].mod_id
            && mods[mods.len() - 1].file_id == found[i].file_id;
        proof {
            if mods.len() > 0 {
                assert(mod_views(mods@).last() == mods@[mods.len() - 1]@);
            }
        }
        if !repeat {
            let ghost before = mod_views(mods@);
            let m = copy_mod(&found[i]);
            mods.push(m);
            assert(mod_views(mods@) =~= before.push(m@));
        }
        i = i + 1;
    }
    assert(all.take(found.len() as int) =~= all);
    mods
}

/// The GraphQL query for one revision of a collection.
pub const REVISION_QUERY: &'static str = "
query CollectionRevision($slug: String!, $revision: Int!, $domain: String!) {
  collectionRevision(
    slug: $slug
    revisionNumber: $revision
    domainName: $domain
    viewAdultContent: true
  ) {
    revisionNumber
    downloadLink
    collection { name slug }
    modFiles {
      optional
      file { modId fileId name version }
    }
  }
}
";

/// Whether `v` holds the variables of a revision lookup: the slug, the
/// revision number and the game's domain.
pub open spec fn is_revision_variables(v: JsonValue, slug: Seq<char>, revision: u64, domain: Seq<char>) -> bool {
    match v {
        JsonValue::Object(fs) => fs@.len() == 3
            && fs@[0].0@ == "slug"@ && (fs@[0].1 matches JsonValue::String(s) && s@ == slug)
            && fs@[1].0@ == "revision"@ && fs@[1].1 == JsonValue::Number(Some(revision))
            && fs@[2].0@ == "domain"@ && (fs@[2].1 matches JsonValue::String(d) && d@ == domain),
        _ => false,
    }
}

/// The variables for [`REVISION_QUERY`]. Revision `0` means whatever is
/// current: the API treats a missing revision that way, and a bare
/// collection link carries no number.
pub fn revision_variables(slug: &str, revision: u64, domain: &str) -> (r: JsonValue)
    ensures
        is_revision_variables(r, slug@, revision, domain@),
        crate::json::encodable(r),
{
    let r = JsonValue::Object(
        vec![
            (crate::text::owned("slug"), JsonValue::String(crate::text::owned(slug))),
            (crate::text::owned("revision"), JsonValue::Number(Some(revision))),
            (crate::text::owned("domain"), JsonValue::String(crate::text::owned(domain))),
        ],
    );
    proof {
        let fs = r->Object_0@;
        assert(crate::json::encodable(fs[0].1));
        assert(crate::json::encodable(fs[1].1));
        assert(crate::json::encodable(fs[2].1));
        assert(crate::json::encodable_fields(fs, 0));
        assert(crate::json::encodable_fields(fs, 1));
        assert(crate::json::encodable_fields(fs, 2));
        assert(crate::json::encodable_fields(fs, 3));
    }
    r
}

/// Read a `collectionRevision` response.
///
/// The schema is not published and has changed shape before, so nothing
/// here depends on the exact nesting: the response is walked for objects
/// that carry both a mod id and a file id. A field renamed one level up then
/// costs nothing.
pub fn parse_revision(data: &JsonValue) -> (r: Revision)
    ensures
        r@ == revision_of(*data),
{
    let root = match data.get("collectionRevision") {
        Some(r) => r,
        None => data,
    };
    let mut found: Vec<CollectionMod> = Vec::new();
    harvest(root, false, &mut found);
    assert(mod_views(found@) =~= harvest_of(*root, false));
    let mods = dedup_mods(&found);
    let name = match root.get("collection") {
        Some(c) => match text_of(c.get("name")) {
            Some(n) => n,
            None => crate::text::owned("Collection"),
        },
        None => crate::text::owned("Collection"),
    };
    let revision = match root.get("revisionNumber") {
        Some(v) => match v.as_u64() {
            Some(n) => n,
            None => 0,
        },
        None => 0,
    };
    let download_url = match text_of(root.get("downloadLink")) {
        Some(s) => if chars_of(s.as_str()).len() > 0 {
            Some(s)
        } else {
            None
        },
        None => None,
    };
    Revision { name, revision, download_url, mods }
}

// ---------------------------------------------------------------------------
// Resolving and installing
// ---------------------------------------------------------------------------

pub struct PlannedModel {
    pub mod_id: u64,
    pub file_id: u64,
    pub name: Seq<char>,
    pub version: Option<Seq<char>>,
    pub optional: bool,
    pub installed: bool,
}

impl View for PlannedMod {
    type V = PlannedModel;

    open spec fn view(&self) -> PlannedModel {
        PlannedModel {
            mod_id: self.mod_id,
            file_id: self.file_id,
            name: self.name@,
            version: opt_view(self.version),
            optional: self.optional,
            installed: self.installed,
        }
    }
}

pub struct PlanModel {
    pub name: Seq<char>,
    pub slug: Seq<char>,
    pub revision: u64,
    pub mods: Seq<PlannedModel>,
    pub manual: Seq<ManualModel>,
}

impl View for CollectionPlan {
    type V = PlanModel;

    open spec fn view(&self) -> PlanModel {
        PlanModel {
            name: self.name@,
            slug: self.slug@,
            revision: self.revision,
            mods: self.mods@.map_values(|m: PlannedMod| m@),
            manual: manual_views(self.manual@),
        }
    }
}

/// What the collection lists: the archive's manifest whenever it was
/// offered (it is authoritative, and the only place entries hosted off Nexus
/// are named); the response's own list when it was not, or when reading the
/// archive failed and the response listed something.
pub open spec fn chosen_entries(
    found: RevisionModel,
    manifest: Option<Result<CollectionModel, Seq<char>>>,
) -> Result<(Seq<ModModel>, Seq<ManualModel>), Seq<char>> {
    match manifest {
        None => Ok((found.mods, Seq::empty())),
        Some(Ok(c)) => Ok((c.mods, c.manual)),
        Some(Err(e)) => if found.mods.len() > 0 {
            Ok((found.mods, Seq::empty()))
        } else {
            Err(e)
        },
    }
}

/// A listed file, marked installed when a mod with its mod id is.
pub open spec fn planned_of(m: ModModel, installed: Seq<u64>) -> PlannedModel {
    PlannedModel {
        mod_id: m.mod_id,
        file_id: m.file_id,
        name: m.name,
        version: m.version,
        optional: m.optional,
        installed: installed.contains(m.mod_id),
    }
}

/// What installing a collection will do, or why it cannot be done.
pub open spec fn plan_of(
    slug: Seq<char>,
    requested: u64,
    found: RevisionModel,
    manifest: Option<Result<CollectionModel, Seq<char>>>,
    installed: Seq<u64>,
) -> Result<PlanModel, Seq<char>> {
    match chosen_entries(found, manifest) {
        Err(e) => Err(e),
        Ok((mods, manual)) => if mods.len() == 0 && manual.len() == 0 {
            Err(
                "the collection "@ + slug
                    + " came back empty \u{2014} check the link, or that the collection is published"@,
            )
        } else {
            Ok(
                PlanModel {
                    name: found.name,
                    slug,
                    revision: if found.revision > 0 {
                        found.revision
                    } else {
                        requested
                    },
                    mods: mods.map_values(|m: ModModel| planned_of(m, installed)),
                    manual,
                },
            )
        },
    }
}

pub open spec fn manifest_view(m: Option<Result<Collection, String>>) -> Option<
    Result<CollectionModel, Seq<char>>,
> {
    match m {
        None => None,
        Some(Ok(c)) => Some(Ok(c@)),
        Some(Err(e)) => Some(Err(e@)),
    }
}

pub open spec fn plan_view(r: Result<CollectionPlan, String>) -> Result<PlanModel, Seq<char>> {
    match r {
        Ok(p) => Ok(p@),
        Err(e) => Err(e@),
    }
}

fn contains_id(v: &[u64], x: u64) -> (r: bool)
    ensures
        r == v@.contains(x),
{
    let mut i: usize = 0;
    while i < v.len()
        invariant
            i <= v.len(),
            forall|k: int| 0 <= k < i ==> v@[k] != x,
        decreases v.len() - i,
    {
        if v[i] == x {
            assert(v@[i as int] == x);
            return true;
        }
        i = i + 1;
    }
    false
}

/// Work out what a collection contains, from the revision the API returned
/// (`found`), what reading its archive's manifest gave when the response
/// offered one, and the mod ids already installed.
pub fn plan_collection(
    slug: &str,
    requested_revision: u64,
    found: Revision,
    manifest: Option<Result<Collection, String>>,
    installed: &[u64],
) -> (r: Result<CollectionPlan, String>)
    ensures
        plan_view(r) == plan_of(slug@, requested_revision, found@, manifest_view(manifest), installed@),
{
    let ghost fv = found@;
    let ghost mv = manifest_view(manifest);
    let Revision { name, revision, download_url: _, mods: found_mods } = found;
    let (mods, manual): (Vec<CollectionMod>, Vec<ManualMod>) = match manifest {
        None => (found_mods, Vec::new()),
        Some(Ok(c)) => (c.mods, c.manual),
        Some(Err(e)) => {
            if found_mods.len() > 0 {
                (found_mods, Vec::new())
            } else {
                return Err(e);
            }
        },
    };
    assert(chosen_entries(fv, mv) == Ok::<(Seq<ModModel>, Seq<ManualModel>), Seq<char>>(
        (mod_views(mods@), manual_views(manual@)),
    )) by {
        assert(manual_views(Seq::<ManualMod>::empty()) =~= Seq::<ManualModel>::empty());
    }
    if mods.len() == 0 && manual.len() == 0 {
        let v = concat_chars(chars_of("the collection ").as_slice(), chars_of(slug).as_slice());
        let v = concat_chars(
            v.as_slice(),
            chars_of(" came back empty \u{2014} check the link, or that the collection is published").as_slice(),
        );
        return Err(string_from_chars(v.as_slice()));
    }
    let ghost mviews = mod_views(mods@);
    let mut planned: Vec<PlannedMod> = Vec::new();
    let mut i: usize = 0;
    while i < mods.len()
        invariant
            i <= mods.len(),
            mviews == mod_views(mods@),
            planned@.map_values(|m: PlannedMod| m@) =~= mviews.take(i as int).map_values(
                |m: ModModel| planned_of(m, installed@),
            ),
        decreases mods.len() - i,
    {
        let m = &mods[i];
        let p = PlannedMod {
            mod_id: m.mod_id,
            file_id: m.file_id,
            name: crate::text::owned(m.name.as_str()),
            version: copy_opt(&m.version),
            optional: m.optional,
            installed: contains_id(installed, m.mod_id),
        };
        assert(p@ == planned_of(mviews[i as int], installed@));
        let ghost prev = planned@.map_values(|m: PlannedMod| m@);
        planned.push(p);
        assert(planned@.map_values(|m: PlannedMod| m@) =~= prev.push(p@));
        assert(mviews.take(i + 1).map_values(|m: ModModel| planned_of(m, installed@)) =~= mviews.take(
            i as int,
        ).map_values(|m: ModModel| planned_of(m, installed@)).push(planned_of(mviews[i as int], installed@)));
        i = i + 1;
    }
    assert(mviews.take(mods.len() as int) =~= mviews);
    Ok(
        CollectionPlan {
            name,
            slug: crate::text::owned(slug),
            revision: if revision > 0 {
                revision
            } else {
                requested_revision
            },
            mods: planned,
            manual,
        },
    )
}

/// The download file name of a collection file: `<mod id>-<file id>.zip`.
pub open spec fn archive_name_of(mod_id: u64, file_id: u64) -> Seq<char> {
    decimal(mod_id as nat) + "-"@ + decimal(file_id as nat) + ".zip"@
}

/// The queue entry for one chosen file.
pub open spec fn queued_item_of(slug: Seq<char>, f: QueuedFile) -> ItemModel {
    ItemModel {
        id: 0,
        mod_id: f.mod_id,
        file_id: f.file_id,
        name: f.name@,
        file_name: archive_name_of(f.mod_id, f.file_id),
        version: opt_view(f.version),
        state: crate::queue::DownloadState::Queued,
        bytes_done: 0,
        bytes_total: None,
        error: None,
        collection: Some(slug),
        credentials: None,
        attempts: 0,
    }
}

/// The queue after pushing each chosen file in turn.
pub open spec fn queued_all(q: QueueModel, slug: Seq<char>, files: Seq<QueuedFile>) -> QueueModel
    decreases files.len(),
{
    if files.len() == 0 {
        q
    } else {
        pushed(queued_all(q, slug, files.drop_last()), queued_item_of(slug, files.last())).0
    }
}

/// Queue the chosen files; returns how many there were. The queue does the
/// rest: a Premium account sees them download one after another, a free
/// account is walked through the website a mod at a time.
pub fn install_collection(queue: &mut Queue, slug: &str, files: &[QueuedFile]) -> (r: usize)
    ensures
        r == files.len(),
        final(queue)@ == queued_all(old(queue)@, slug@, files@),
{
    let ghost start = queue@;
    let mut i: usize = 0;
    while i < files.len()
        invariant
            i <= files.len(),
            queue@ == queued_all(start, slug@, files@.take(i as int)),
        decreases files.len() - i,
    {
        let f = &files[i];
        let v = decimal_exec(f.mod_id);
        let v = concat_chars(v.as_slice(), chars_of("-").as_slice());
        let v = concat_chars(v.as_slice(), decimal_exec(f.file_id).as_slice());
        let v = concat_chars(v.as_slice(), chars_of(".zip").as_slice());
        let file_name = string_from_chars(v.as_slice());
        assert(file_name@ == archive_name_of(f.mod_id, f.file_id));
        let item = QueueItem::new(f.mod_id, f.file_id, f.name.as_str(), file_name.as_str()).with_version(
            copy_opt(&f.version),
        ).in_collection(slug);
        assert(item@ == queued_item_of(slug@, files@[i as int]));
        assert(files@.take(i + 1).drop_last() =~= files@.take(i as int));
        queue.push(item);
        i = i + 1;
    }
    assert(files@.take(files.len() as int) =~= files@);
    files.len()
}

} // verus!
