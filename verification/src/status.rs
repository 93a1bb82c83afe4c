//! The upscaler screen: which DLLs the game has, what the card can run, and
//! what newer release is on offer.
//!
//! Finding the files, asking GitHub for tags and fetching a DLL are the
//! caller's; what is decided here is what each of those answers means.

use vstd::prelude::*;

use crate::catalog::{newest_of, parse_tags, str_views, Release, Source};
use crate::gpu::{supports_of, Adapter, Capability, Vendor};
use crate::json::json_decoded;
use crate::model::opt_view;
use crate::scan::{file_view, file_views, InstalledFile};
use crate::text::{chars_of, concat_chars, string_from_chars, string_views};
use crate::upscaler::{
    component_file, component_index, component_label, version_lt, version_text, Component, Family,
    Version,
};

verus! {

/// What the card needs to run a component.
pub open spec fn capability_of(c: Component) -> Capability {
    match c {
        Component::DlssSuperResolution => Capability::DlssSuperResolution,
        Component::DlssRayReconstruction => Capability::DlssSuperResolution,
        Component::DlssFrameGeneration => Capability::DlssFrameGeneration,
        Component::FsrDx12 => Capability::Universal,
        Component::FsrVulkan => Capability::Universal,
    }
}

pub open spec fn family_of(c: Component) -> Family {
    if component_index(c) < 3 {
        Family::Dlss
    } else {
        Family::Fsr
    }
}

// ---------------------------------------------------------------------------
// Releases
// ---------------------------------------------------------------------------

/// The newest release on the line a source serves, from GitHub's answer to
/// the tag listing. Anonymous GitHub calls are rate limited; a refusal means
/// "unknown", not "there is nothing newer", so nothing is offered.
pub fn latest_release(source: &Source, status: u16, body: &str) -> (r: Option<Release>)
    ensures
        status != 200 ==> r is None,
        status == 200 ==> match r {
            Some(rel) => newest_of(
                source.line_below,
                match json_decoded(body@) {
                    Ok(v) => crate::catalog::tags_of(v),
                    Err(_) => Seq::empty(),
                },
            ) == Some((rel.tag@, rel.version)),
            None => newest_of(
                source.line_below,
                match json_decoded(body@) {
                    Ok(v) => crate::catalog::tags_of(v),
                    Err(_) => Seq::empty(),
                },
            ) is None,
        },
{
    if status != 200 {
        return None;
    }
    let tags = parse_tags(body);
    let mut refs: Vec<&str> = Vec::new();
    let mut i: usize = 0;
    while i < tags.len()
        invariant
            i <= tags.len(),
            str_views(refs@) == string_views(tags@).take(i as int),
        decreases tags.len() - i,
    {
        let ghost before = str_views(refs@);
        let t: &str = tags[i].as_str();
        refs.push(t);
        assert(str_views(refs@) =~= before.push(tags@[i as int]@));
        assert(string_views(tags@).take(i + 1) =~= string_views(tags@).take(i as int).push(tags@[i as int]@));
        i = i + 1;
    }
    assert(string_views(tags@).take(tags.len() as int) =~= string_views(tags@));
    source.newest(refs.as_slice())
}

/// The file a release of a component is fetched into: the tag, a dash,
/// then the DLL's own name.
pub fn download_file_name(tag: &str, component: Component) -> (r: String)
    ensures
        r@ == tag@ + seq!['-'] + component_file(component),
{
    let mut v = chars_of(tag);
    v.push('-');
    let v = concat_chars(v.as_slice(), chars_of(component.file_name()).as_slice());
    string_from_chars(v.as_slice())
}

// ---------------------------------------------------------------------------
// What the card can run
// ---------------------------------------------------------------------------

/// Whether the card can run a component. An unknown card is treated as
/// capable: refusing on a failed detection would be worse than letting the
/// user decide.
pub open spec fn supported_of(c: Component, adapter: Option<(Seq<char>, Vendor)>) -> bool {
    match adapter {
        Some((name, vendor)) => supports_of(name, vendor, capability_of(c)),
        None => true,
    }
}

pub open spec fn adapter_view(a: Option<&Adapter>) -> Option<(Seq<char>, Vendor)> {
    match a {
        Some(x) => Some((x.name@, x.vendor)),
        None => None,
    }
}

/// Why a component is not on offer, in words the user can act on.
pub open spec fn reason_of(c: Component, card: Seq<char>) -> Seq<char> {
    match capability_of(c) {
        Capability::DlssFrameGeneration => card
            + " cannot run DLSS Frame Generation \u{2014} that needs an RTX 40 series or newer."@,
        Capability::DlssSuperResolution => card
            + " cannot run DLSS \u{2014} that needs an RTX 20 series or newer."@,
        Capability::Universal => Seq::empty(),
    }
}

pub open spec fn card_of(adapter: Option<(Seq<char>, Vendor)>) -> Seq<char> {
    match adapter {
        Some((name, _)) => name,
        None => "this card"@,
    }
}

/// Why the card cannot run a component: the card named as the system names
/// it, or "this card" when it is unknown.
pub fn unsupported_reason(component: Component, adapter: Option<&Adapter>) -> (r: String)
    ensures
        r@ == reason_of(component, card_of(adapter_view(adapter))),
{
    let card = match adapter {
        Some(a) => chars_of(a.name.as_str()),
        None => chars_of("this card"),
    };
    let tail = match component.required_capability() {
        Capability::DlssFrameGeneration => " cannot run DLSS Frame Generation \u{2014} that needs an RTX 40 series or newer.",
        Capability::DlssSuperResolution => " cannot run DLSS \u{2014} that needs an RTX 20 series or newer.",
        Capability::Universal => {
            return string_from_chars(Vec::<char>::new().as_slice());
        },
    };
    string_from_chars(concat_chars(card.as_slice(), chars_of(tail).as_slice()).as_slice())
}

/// Whether an update may go ahead on this card: not when the card is known
/// and cannot run the component.
pub fn check_supported(component: Component, adapter: Option<&Adapter>) -> (r: Result<(), String>)
    ensures
        supported_of(component, adapter_view(adapter)) ==> r is Ok,
        !supported_of(component, adapter_view(adapter)) ==> (r matches Err(m) && m@ == reason_of(
            component,
            card_of(adapter_view(adapter)),
        )),
{
    match adapter {
        Some(a) => if a.supports(component.required_capability()) {
            Ok(())
        } else {
            Err(unsupported_reason(component, adapter))
        },
        None => Ok(()),
    }
}

// ---------------------------------------------------------------------------
// The copies in the game folder
// ---------------------------------------------------------------------------

pub open spec fn is_of(c: Component) -> spec_fn((Component, Seq<char>, Option<Version>)) -> bool {
    |f: (Component, Seq<char>, Option<Version>)| f.0 == c
}

/// Every copy of one component, in the order found.
pub open spec fn present_of(c: Component, files: Seq<(Component, Seq<char>, Option<Version>)>) -> Seq<
    (Component, Seq<char>, Option<Version>),
> {
    files.filter(is_of(c))
}

/// The copies of one component in the game folder, in the order found. A
/// build can ship the same DLL twice, and only the one the loader reaches
/// first actually runs.
pub fn copies_of(installed: &[InstalledFile], component: Component) -> (r: Vec<InstalledFile>)
    ensures
        file_views(r@) == present_of(component, file_views(installed@)),
{
    let ghost fv = file_views(installed@);
    let mut out: Vec<InstalledFile> = Vec::new();
    let mut i: usize = 0;
    while i < installed.len()
        invariant
            i <= installed.len(),
            fv == file_views(installed@),
            file_views(out@) == fv.take(i as int).filter(is_of(component)),
        decreases installed.len() - i,
    {
        proof {
            assert(fv.take(i + 1).drop_last() =~= fv.take(i as int));
            crate::text::lemma_filter_step(fv.take(i + 1), is_of(component));
        }
        let ghost before = file_views(out@);
        if installed[i].component == component {
            let f = InstalledFile {
                component: installed[i].component,
                path: installed[i].path.clone(),
                version: installed[i].version,
            };
            out.push(f);
            assert(file_views(out@) =~= before.push(fv[i as int]));
        }
        i = i + 1;
    }
    assert(fv.take(installed.len() as int) =~= fv);
    out
}

/// The game-relative paths of the copies of one component: what an update
/// replaces.
pub fn targets_of(installed: &[InstalledFile], component: Component) -> (r: Vec<String>)
    ensures
        string_views(r@) == present_of(component, file_views(installed@)).map_values(
            |f: (Component, Seq<char>, Option<Version>)| f.1,
        ),
{
    let copies = copies_of(installed, component);
    let mut out: Vec<String> = Vec::new();
    let mut i: usize = 0;
    while i < copies.len()
        invariant
            i <= copies.len(),
            string_views(out@) == file_views(copies@).take(i as int).map_values(
                |f: (Component, Seq<char>, Option<Version>)| f.1,
            ),
        decreases copies.len() - i,
    {
        let ghost before = string_views(out@);
        out.push(copies[i].path.clone());
        assert(string_views(out@) =~= before.push(copies@[i as int].path@));
        assert(string_views(out@) =~= file_views(copies@).take(i + 1).map_values(
            |f: (Component, Seq<char>, Option<Version>)| f.1,
        ));
        i = i + 1;
    }
    assert(file_views(copies@).take(copies.len() as int) =~= file_views(copies@));
    out
}

/// The oldest version among the copies, since that is the one holding the
/// game back; nothing when none has a readable version.
pub open spec fn oldest_of(files: Seq<(Component, Seq<char>, Option<Version>)>) -> Option<Version>
    decreases files.len(),
{
    if files.len() == 0 {
        None
    } else {
        let rest = oldest_of(files.drop_last());
        match (files.last().2, rest) {
            (Some(v), Some(o)) => if version_lt(v, o) {
                Some(v)
            } else {
                Some(o)
            },
            (Some(v), None) => Some(v),
            (None, _) => rest,
        }
    }
}

fn oldest_version(files: &Vec<InstalledFile>) -> (r: Option<Version>)
    ensures
        r == oldest_of(file_views(files@)),
{
    let ghost fv = file_views(files@);
    let mut best: Option<Version> = None;
    let mut i: usize = 0;
    while i < files.len()
        invariant
            i <= files.len(),
            fv == file_views(files@),
            best == oldest_of(fv.take(i as int)),
        decreases files.len() - i,
    {
        assert(fv.take(i + 1).drop_last() =~= fv.take(i as int));
        match (files[i].version, best) {
            (Some(v), Some(o)) => if v.is_before(&o) {
                best = Some(v);
            },
            (Some(v), None) => {
                best = Some(v);
            },
            (None, _) => {},
        }
        i = i + 1;
    }
    assert(fv.take(files.len() as int) =~= fv);
    best
}

// ---------------------------------------------------------------------------
// One row of the screen per component the game ships
// ---------------------------------------------------------------------------

/// One row of the upscaler screen.
#[derive(Debug, Clone)]
pub struct UpscalerEntry {
    pub component: Component,
    pub label: String,
    /// Every copy in the game folder.
    pub installed: Vec<InstalledFile>,
    /// The oldest version present.
    pub installed_version: Option<String>,
    /// Newest release on the line this game uses.
    pub latest_version: Option<String>,
    /// False when the card cannot run this DLL at all.
    pub supported: bool,
    /// Why it is not on offer, when it is not.
    pub blocked_reason: Option<String>,
    /// Set when the manager put the current file there.
    pub managed_version: Option<String>,
    pub note: Option<String>,
}

/// The newest release known for a family: the first listed for it.
pub open spec fn release_for(family: Family, newest: Seq<(Family, Version)>) -> Option<Version>
    decreases newest.len(),
{
    if newest.len() == 0 {
        None
    } else if newest[0].0 == family {
        Some(newest[0].1)
    } else {
        release_for(family, newest.drop_first())
    }
}

/// The version of the swap the manager made for a component: the last one
/// recorded for it.
pub open spec fn managed_for(c: Component, managed: Seq<(Component, Seq<char>)>) -> Option<Seq<char>>
    decreases managed.len(),
{
    if managed.len() == 0 {
        None
    } else if managed.last().0 == c {
        Some(managed.last().1)
    } else {
        managed_for(c, managed.drop_last())
    }
}

/// What a family's source says its versions mean to a user.
pub open spec fn note_for(family: Family) -> Option<Seq<char>> {
    match family {
        Family::Dlss => None,
        Family::Fsr => Some("SDK 1.1.x ships FSR 3.1.x, which is the line this game uses"@),
    }
}

pub struct EntryModel {
    pub component: Component,
    pub label: Seq<char>,
    pub installed: Seq<(Component, Seq<char>, Option<Version>)>,
    pub installed_version: Option<Seq<char>>,
    pub latest_version: Option<Seq<char>>,
    pub supported: bool,
    pub blocked_reason: Option<Seq<char>>,
    pub managed_version: Option<Seq<char>>,
    pub note: Option<Seq<char>>,
}

pub open spec fn entry_view(e: UpscalerEntry) -> EntryModel {
    EntryModel {
        component: e.component,
        label: e.label@,
        installed: file_views(e.installed@),
        installed_version: opt_view(e.installed_version),
        latest_version: opt_view(e.latest_version),
        supported: e.supported,
        blocked_reason: opt_view(e.blocked_reason),
        managed_version: opt_view(e.managed_version),
        note: opt_view(e.note),
    }
}

pub open spec fn entry_views(v: Seq<UpscalerEntry>) -> Seq<EntryModel> {
    v.map_values(|e: UpscalerEntry| entry_view(e))
}

pub open spec fn text_of(v: Option<Version>) -> Option<Seq<char>> {
    match v {
        Some(x) => Some(version_text(x)),
        None => None,
    }
}

/// The row for one component.
pub open spec fn entry_of(
    c: Component,
    files: Seq<(Component, Seq<char>, Option<Version>)>,
    managed: Seq<(Component, Seq<char>)>,
    adapter: Option<(Seq<char>, Vendor)>,
    newest: Seq<(Family, Version)>,
) -> EntryModel {
    let present = present_of(c, files);
    let supported = supported_of(c, adapter);
    EntryModel {
        component: c,
        label: component_label(c),
        installed: present,
        installed_version: text_of(oldest_of(present)),
        latest_version: text_of(release_for(family_of(c), newest)),
        supported,
        blocked_reason: if supported {
            None
        } else {
            Some(reason_of(c, card_of(adapter)))
        },
        managed_version: managed_for(c, managed),
        note: note_for(family_of(c)),
    }
}

/// The rows, one per component in `cs` that the game folder has a copy
/// of. A DLL the game does not have is nothing to offer: a copy put where
/// the loader never looks would only take up space.
pub open spec fn entries_over(
    cs: Seq<Component>,
    files: Seq<(Component, Seq<char>, Option<Version>)>,
    managed: Seq<(Component, Seq<char>)>,
    adapter: Option<(Seq<char>, Vendor)>,
    newest: Seq<(Family, Version)>,
) -> Seq<EntryModel>
    decreases cs.len(),
{
    if cs.len() == 0 {
        Seq::empty()
    } else {
        let d = entries_over(cs.drop_last(), files, managed, adapter, newest);
        if present_of(cs.last(), files).len() > 0 {
            d.push(entry_of(cs.last(), files, managed, adapter, newest))
        } else {
            d
        }
    }
}

pub open spec fn managed_views(v: Seq<(Component, String)>) -> Seq<(Component, Seq<char>)> {
    v.map_values(|p: (Component, String)| (p.0, p.1@))
}

pub open spec fn newest_views(v: Seq<(Family, Release)>) -> Seq<(Family, Version)> {
    v.map_values(|p: (Family, Release)| (p.0, p.1.version))
}

fn release_in(family: Family, newest: &[(Family, Release)]) -> (r: Option<Version>)
    ensures
        r == release_for(family, newest_views(newest@)),
{
    let ghost nv = newest_views(newest@);
    assert(nv.skip(0) =~= nv);
    let mut i: usize = 0;
    while i < newest.len()
        invariant
            i <= newest.len(),
            nv == newest_views(newest@),
            release_for(family, nv) == release_for(family, nv.skip(i as int)),
        decreases newest.len() - i,
    {
        assert(nv.skip(i as int).drop_first() =~= nv.skip(i + 1));
        if newest[i].0 == family {
            return Some(newest[i].1.version);
        }
        i = i + 1;
    }
    None
}

fn managed_in(component: Component, managed: &[(Component, String)]) -> (r: Option<String>)
    ensures
        opt_view(r) == managed_for(component, managed_views(managed@)),
{
    let ghost mv = managed_views(managed@);
    assert(mv.take(managed.len() as int) =~= mv);
    let mut i: usize = managed.len();
    while i > 0
        invariant
            i <= managed.len(),
            mv == managed_views(managed@),
            managed_for(component, mv) == managed_for(component, mv.take(i as int)),
        decreases i,
    {
        assert(mv.take(i as int).drop_last() =~= mv.take(i - 1));
        if managed[i - 1].0 == component {
            return Some(managed[i - 1].1.clone());
        }
        i = i - 1;
    }
    None
}

fn note_in(family: Family) -> (r: Option<String>)
    ensures
        opt_view(r) == note_for(family),
{
    match family {
        Family::Dlss => None,
        Family::Fsr => Some(crate::text::owned("SDK 1.1.x ships FSR 3.1.x, which is the line this game uses")),
    }
}

/// The rows of the upscaler screen, in component order: for each component
/// the game folder has, every copy, the oldest version present, the newest
/// release on the game's line, whether the card can run it (and why not),
/// the version of the manager's own swap, and what the family's versions
/// mean. `managed` lists the swaps made, `newest` the newest release found
/// per family.
pub fn upscaler_entries(
    installed: &[InstalledFile],
    managed: &[(Component, String)],
    adapter: Option<&Adapter>,
    newest: &[(Family, Release)],
) -> (r: Vec<UpscalerEntry>)
    ensures
        entry_views(r@) == entries_over(
            crate::upscaler::all_components(),
            file_views(installed@),
            managed_views(managed@),
            adapter_view(adapter),
            newest_views(newest@),
        ),
{
    let all = Component::all();
    let ghost cs = crate::upscaler::all_components();
    let ghost fv = file_views(installed@);
    let ghost mv = managed_views(managed@);
    let ghost av = adapter_view(adapter);
    let ghost nv = newest_views(newest@);
    let mut out: Vec<UpscalerEntry> = Vec::new();
    let mut i: usize = 0;
    while i < all.len()
        invariant
            i <= all.len(),
            all@ == cs,
            fv == file_views(installed@),
            mv == managed_views(managed@),
            av == adapter_view(adapter),
            nv == newest_views(newest@),
            entry_views(out@) == entries_over(cs.take(i as int), fv, mv, av, nv),
        decreases all.len() - i,
    {
        assert(cs.take(i + 1).drop_last() =~= cs.take(i as int));
        let c = all[i];
        let present = copies_of(installed, c);
        if present.len() > 0 {
            let supported = match adapter {
                Some(a) => a.supports(c.required_capability()),
                None => true,
            };
            let installed_version = match oldest_version(&present) {
                Some(v) => Some(v.to_text()),
                None => None,
            };
            let latest_version = match release_in(c.family(), newest) {
                Some(v) => Some(v.to_text()),
                None => None,
            };
            let blocked_reason = if supported {
                None
            } else {
                Some(unsupported_reason(c, adapter))
            };
            let entry = UpscalerEntry {
                component: c,
                label: crate::text::owned(c.label()),
                installed: present,
                installed_version,
                latest_version,
                supported,
                blocked_reason,
                managed_version: managed_in(c, managed),
                note: note_in(c.family()),
            };
            let ghost before = entry_views(out@);
            out.push(entry);
            assert(entry_views(out@) =~= before.push(entry_of(c, fv, mv, av, nv)));
        }
        i = i + 1;
    }
    assert(cs.take(all.len() as int) =~= cs);
    out
}

/// The upscaler screen: the card the game runs on, when it could be
/// identified, and one row per component the game folder has.
#[derive(Debug, Clone)]
pub struct UpscalerStatus {
    /// `None` when no display adapter could be identified.
    pub adapter: Option<Adapter>,
    pub entries: Vec<UpscalerEntry>,
}

/// The upscaler screen for an adapter: the adapter itself, and the rows
/// [`upscaler_entries`] gives for it.
pub fn upscaler_status(
    installed: &[InstalledFile],
    managed: &[(Component, String)],
    adapter: Option<Adapter>,
    newest: &[(Family, Release)],
) -> (r: UpscalerStatus)
    ensures
        r.adapter == adapter,
        entry_views(r.entries@) == entries_over(
            crate::upscaler::all_components(),
            file_views(installed@),
            managed_views(managed@),
            adapter_view(match adapter {
                Some(a) => Some(&a),
                None => None,
            }),
            newest_views(newest@),
        ),
{
    let entries = upscaler_entries(installed, managed, adapter.as_ref(), newest);
    UpscalerStatus { adapter, entries }
}

} // verus!
