//! The application layer's own rules: where a mod came from, when an update
//! is worth showing, what a pending change is, and the shapes handed to the
//! UI.

use vstd::prelude::*;

use crate::game::GameInstall;
use crate::loadorder::path_file_name;
use crate::model::{component_views, opt_view, type_id_of, ComponentModel, DetectedComponent};
use crate::plan::{trim, trim_exec, DeployPlan};
use crate::text::{
    all_digit_chars, before_last, chars_eq, chars_of, contains_char, is_digit, join, join_chars,
    lower, lower_chars, split, split_chars, string_from_chars, string_views, strictly_sorted,
    views,
};
use crate::upscaler::{trim_vs, Component};

verus! {

/// Where an installed mod came from.
///
/// Only mods that carry a Nexus id can be checked for updates later, so the
/// origin is recorded at install time rather than guessed afterwards.
#[derive(Debug, Clone, Default)]
pub struct Origin {
    pub source: String,
    pub nexus_mod_id: Option<i64>,
    pub nexus_file_id: Option<i64>,
    pub version: Option<String>,
}

impl Origin {
    /// An archive the user dropped in themselves.
    pub fn manual() -> (r: Origin)
        ensures
            r.source@ == "manual"@,
            r.nexus_mod_id is None,
            r.nexus_file_id is None,
            r.version is None,
    {
        Origin {
            source: crate::text::owned("manual"),
            nexus_mod_id: None,
            nexus_file_id: None,
            version: None,
        }
    }

    pub fn nexus(mod_id: i64, file_id: i64) -> (r: Origin)
        ensures
            r.source@ == "nexus"@,
            r.nexus_mod_id == Some(mod_id),
            r.nexus_file_id == Some(file_id),
            r.version is None,
    {
        Origin {
            source: crate::text::owned("nexus"),
            nexus_mod_id: Some(mod_id),
            nexus_file_id: Some(file_id),
            version: None,
        }
    }

    pub fn with_version(self, version: Option<String>) -> (r: Origin)
        ensures
            r.source == self.source,
            r.nexus_mod_id == self.nexus_mod_id,
            r.nexus_file_id == self.nexus_file_id,
            r.version == version,
    {
        let mut s = self;
        s.version = version;
        s
    }
}

/// An installed mod that can be looked up on Nexus.
#[derive(Debug, Clone)]
pub struct NexusModRef {
    /// The row id in our database, not the Nexus one.
    pub id: i64,
    pub nexus_mod_id: i64,
    pub version: Option<String>,
    /// What the last update check found, if there has been one.
    pub latest_version: Option<String>,
}

/// A version as compared: trimmed, without leading `v`s, lowercased.
pub open spec fn normalised(v: Seq<char>) -> Seq<char> {
    lower(trim_vs(trim(v)))
}

/// The version to show as available: only when both are known and differ
/// once cosmetic differences are set aside.
pub open spec fn newer_of(installed: Option<Seq<char>>, latest: Option<Seq<char>>) -> Option<Seq<char>> {
    match (installed, latest) {
        (Some(i), Some(l)) => if normalised(i) == normalised(l) {
            None
        } else {
            Some(l)
        },
        _ => None,
    }
}

fn normalise_version(version: &str) -> (r: Vec<char>)
    ensures
        r@ == normalised(version@),
{
    let t = trim_exec(chars_of(version).as_slice());
    let mut i: usize = 0;
    assert(t@.subrange(0, t.len() as int) =~= t@);
    while i < t.len() && (t[i] == 'v' || t[i] == 'V')
        invariant
            i <= t.len(),
            trim_vs(t@) == trim_vs(t@.subrange(i as int, t.len() as int)),
        decreases t.len() - i,
    {
        assert(t@.subrange(i as int, t.len() as int).drop_first() =~= t@.subrange(i + 1, t.len() as int));
        i = i + 1;
    }
    let rest = crate::text::slice_chars(t.as_slice(), i, t.len());
    lower_chars(rest.as_slice())
}

/// The version to show as available, or nothing.
///
/// Version strings on Nexus are free text, so no ordering is inferred: an
/// update is reported only when both versions are known and differ, which is
/// the same rule other managers use.
pub fn newer_version(installed: &Option<String>, latest: &Option<String>) -> (r: Option<String>)
    ensures
        opt_view(r) == newer_of(opt_view(*installed), opt_view(*latest)),
{
    match (installed, latest) {
        (Some(i), Some(l)) => {
            if chars_eq(normalise_version(i.as_str()).as_slice(), normalise_version(l.as_str()).as_slice()) {
                None
            } else {
                Some(l.clone())
            }
        },
        _ => None,
    }
}

impl NexusModRef {
    /// Whether this mod is currently showing an update.
    pub fn is_outdated(&self) -> (r: bool)
        ensures
            r == newer_of(opt_view(self.version), opt_view(self.latest_version)) is Some,
    {
        newer_version(&self.version, &self.latest_version).is_some()
    }
}

// ---------------------------------------------------------------------------
// Pending changes
// ---------------------------------------------------------------------------

#[derive(Debug, Clone, Copy, PartialEq, Eq, Structural)]
pub enum ChangeKind {
    Enable,
    Disable,
    /// Already enabled, but the load order changed so files must be renamed.
    Reorder,
}

/// A deployed file as recorded: target, backup, size.
pub type DeployedFileRow = (String, Option<String>, i64);

pub open spec fn row_targets(rows: Seq<DeployedFileRow>) -> Seq<Seq<char>> {
    rows.map_values(|r: DeployedFileRow| r.0@)
}

pub open spec fn plan_targets(plan: DeployPlan) -> Seq<Seq<char>> {
    plan.files@.map_values(|f: crate::plan::PlannedFile| f.target@)
}

/// What has to happen to bring a mod in line: enable it, disable it, or —
/// when it is on and its planned destinations are not the recorded ones —
/// redeploy it under its new load-order names.
pub open spec fn change_of(enabled: bool, deployed: bool, plan: DeployPlan, rows: Seq<DeployedFileRow>) -> Option<ChangeKind> {
    if enabled && !deployed {
        if plan.files.len() > 0 {
            Some(ChangeKind::Enable)
        } else {
            None
        }
    } else if !enabled && deployed {
        Some(ChangeKind::Disable)
    } else if enabled && deployed {
        if plan_targets(plan).to_multiset() != row_targets(rows).to_multiset() {
            Some(ChangeKind::Reorder)
        } else {
            None
        }
    } else {
        None
    }
}

broadcast use vstd::multiset::group_multiset_axioms;

/// Whether two lists hold the same texts the same number of times.
pub fn same_texts(a: &Vec<Vec<char>>, b: &Vec<Vec<char>>) -> (r: bool)
    ensures
        r == (views(a@).to_multiset() == views(b@).to_multiset()),
{
    let ghost av = views(a@);
    let ghost bv = views(b@);
    let mut pool: Vec<Vec<char>> = Vec::new();
    let mut j: usize = 0;
    while j < b.len()
        invariant
            j <= b.len(),
            bv == views(b@),
            views(pool@) =~= bv.subrange(0, j as int),
        decreases b.len() - j,
    {
        let c = crate::text::copy_chars(b[j].as_slice());
        let ghost p0 = views(pool@);
        pool.push(c);
        assert(views(pool@) =~= p0.push(c@));
        assert(bv.subrange(0, j + 1) =~= bv.subrange(0, j as int).push(bv[j as int]));
        j = j + 1;
    }
    assert(bv.subrange(0, b.len() as int) =~= bv);
    let mut i: usize = 0;
    proof {
        vstd::seq_lib::to_multiset_len(av.subrange(0, 0));
    }
    assert(av.subrange(0, 0).to_multiset() =~= vstd::multiset::Multiset::<Seq<char>>::empty());
    while i < a.len()
        invariant
            i <= a.len(),
            av == views(a@),
            bv == views(b@),
            av.subrange(0, i as int).to_multiset().add(views(pool@).to_multiset()) == bv.to_multiset(),
        decreases a.len() - i,
    {
        let ghost pv = views(pool@);
        let mut k: usize = 0;
        while k < pool.len() && !chars_eq(pool[k].as_slice(), a[i].as_slice())
            invariant
                k <= pool.len(),
                i < a.len(),
                av == views(a@),
                pv == views(pool@),
                forall|x: int| 0 <= x < k ==> pv[x] != av[i as int],
            decreases pool.len() - k,
        {
            assert(pool@[k as int]@ == pv[k as int]);
            assert(a@[i as int]@ == av[i as int]);
            k = k + 1;
        }
        let ghost x = av[i as int];
        assert(av.subrange(0, i + 1) =~= av.subrange(0, i as int).push(x));
        if k == pool.len() {
            proof {
                assert(!pv.contains(x));
                vstd::seq_lib::to_multiset_contains(pv, x);
                assert(pv.to_multiset().count(x) == 0);
                vstd::seq_lib::to_multiset_build(av.subrange(0, i as int), x);
                let pre = av.subrange(0, i as int);
                let rest = av.subrange(i + 1, av.len() as int);
                assert(av =~= pre.push(x) + rest);
                vstd::seq_lib::lemma_multiset_commutative(pre.push(x), rest);
                assert(av.to_multiset().count(x) >= pre.push(x).to_multiset().count(x));
                assert(pre.push(x).to_multiset().count(x) == pre.to_multiset().count(x) + 1);
                assert(bv.to_multiset().count(x) == pre.to_multiset().count(x));
            }
            return false;
        }
        assert(pv[k as int] == x);
        let ghost before = pool@;
        pool.remove(k);
        assert(views(pool@) =~= pv.remove(k as int));
        proof {
            let pre = av.subrange(0, i as int);
            vstd::seq_lib::to_multiset_remove(pv, k as int);
            assert(pv.contains(x));
            vstd::seq_lib::to_multiset_contains(pv, x);
            assert(pv.remove(k as int).to_multiset() == pv.to_multiset().remove(x));
            vstd::seq_lib::to_multiset_build(pre, x);
            assert(pre.push(x).to_multiset() =~= pre.to_multiset().insert(x));
            assert(pre.push(x).to_multiset().add(pv.remove(k as int).to_multiset()) =~= pre.to_multiset().add(pv.to_multiset()));
        }
        i = i + 1;
    }
    assert(av.subrange(0, a.len() as int) =~= av);
    proof {
        vstd::seq_lib::to_multiset_len(views(pool@));
        vstd::seq_lib::to_multiset_len(av);
        vstd::seq_lib::to_multiset_len(bv);
        if pool.len() > 0 {
            assert(views(pool@).to_multiset().len() > 0);
            assert(av.to_multiset().len() < bv.to_multiset().len());
        } else {
            assert(views(pool@) =~= Seq::<Seq<char>>::empty());
            assert(views(pool@).to_multiset() =~= vstd::multiset::Multiset::<Seq<char>>::empty());
            assert(av.to_multiset().add(views(pool@).to_multiset()) =~= av.to_multiset());
            assert(av.to_multiset() == bv.to_multiset());
        }
    }
    pool.len() == 0
}

/// What, if anything, needs to happen to bring this mod in line.
pub fn change_kind(enabled: bool, deployed: bool, planned: &DeployPlan, recorded: &[DeployedFileRow]) -> (r: Option<ChangeKind>)
    ensures
        r == change_of(enabled, deployed, *planned, recorded@),
{
    if enabled && !deployed {
        if planned.files.len() > 0 {
            Some(ChangeKind::Enable)
        } else {
            None
        }
    } else if !enabled && deployed {
        Some(ChangeKind::Disable)
    } else if enabled && deployed {
        let mut want: Vec<Vec<char>> = Vec::new();
        let mut i: usize = 0;
        while i < planned.files.len()
            invariant
                i <= planned.files.len(),
                views(want@) =~= plan_targets(*planned).subrange(0, i as int),
            decreases planned.files.len() - i,
        {
            let c = chars_of(planned.files[i].target.as_str());
            let ghost b = views(want@);
            want.push(c);
            assert(views(want@) =~= b.push(c@));
            i = i + 1;
        }
        let mut have: Vec<Vec<char>> = Vec::new();
        let mut j: usize = 0;
        while j < recorded.len()
            invariant
                j <= recorded.len(),
                views(have@) =~= row_targets(recorded@).subrange(0, j as int),
            decreases recorded.len() - j,
        {
            let c = chars_of(recorded[j].0.as_str());
            let ghost b = views(have@);
            have.push(c);
            assert(views(have@) =~= b.push(c@));
            j = j + 1;
        }
        assert(views(want@) =~= plan_targets(*planned));
        assert(views(have@) =~= row_targets(recorded@));
        if same_texts(&want, &have) {
            None
        } else {
            Some(ChangeKind::Reorder)
        }
    } else {
        None
    }
}

// ---------------------------------------------------------------------------
// Names
// ---------------------------------------------------------------------------

/// `Path::file_stem` of a file name.
pub open spec fn stem_of_name(f: Seq<char>) -> Seq<char> {
    if f.contains('.') && before_last(f, '.').len() > 0 {
        before_last(f, '.')
    } else {
        f
    }
}

/// A segment of digits and nothing else.
pub open spec fn numeric(s: Seq<char>) -> bool {
    s.len() > 0 && all_digit_chars(s)
}

/// How many segments at the end are numeric.
pub open spec fn numeric_tail(segs: Seq<Seq<char>>) -> nat
    decreases segs.len(),
{
    if segs.len() > 0 && numeric(segs.last()) {
        numeric_tail(segs.drop_last()) + 1
    } else {
        0
    }
}

/// The name an archive is shown under: its stem without the id, version
/// and timestamp Nexus appends, when at least three numeric segments follow
/// a name.
pub open spec fn display_name_of(archive: Seq<char>) -> Seq<char> {
    let stem = match path_file_name(archive) {
        Some(f) => stem_of_name(f),
        None => "Mod"@,
    };
    let segs = split(stem, '-');
    let tail = numeric_tail(segs);
    trim(if tail >= 3 && tail < segs.len() {
        join(segs.subrange(0, segs.len() - tail), '-')
    } else {
        stem
    })
}

fn is_numeric_exec(s: &[char]) -> (r: bool)
    ensures
        r == numeric(s@),
{
    if s.len() == 0 {
        return false;
    }
    let mut i: usize = 0;
    while i < s.len()
        invariant
            i <= s.len(),
            forall|k: int| 0 <= k < i ==> is_digit(#[trigger] s@[k]),
        decreases s.len() - i,
    {
        if !('0' <= s[i] && s[i] <= '9') {
            assert(!is_digit(s@[i as int]));
            return false;
        }
        i = i + 1;
    }
    true
}

/// The name an archive is shown under.
pub fn archive_display_name(archive: &str) -> (r: String)
    ensures
        r@ == display_name_of(archive@),
{
    let fname = crate::loadorder::path_file_name_exec(chars_of(archive).as_slice());
    let stem: Vec<char> = if fname.is_some() {
        let f = fname.unwrap();
        if contains_char(f.as_slice(), '.') {
            let b = crate::loadorder::before_last_exec(f.as_slice(), '.');
            if b.len() > 0 {
                b
            } else {
                f
            }
        } else {
            f
        }
    } else {
        chars_of("Mod")
    };
    let segs = split_chars(stem.as_slice(), '-');
    let ghost sv = views(segs@);
    let mut n: usize = segs.len();
    let mut tail: usize = 0;
    assert(sv.subrange(0, n as int) =~= sv);
    while n > 0 && is_numeric_exec(segs[n - 1].as_slice())
        invariant
            n <= segs.len(),
            sv == views(segs@),
            tail + n == segs.len(),
            numeric_tail(sv) == numeric_tail(sv.subrange(0, n as int)) + tail,
        decreases n,
    {
        let ghost t = sv.subrange(0, n as int);
        assert(t.drop_last() =~= sv.subrange(0, n - 1));
        assert(t.last() == segs@[n - 1]@);
        n = n - 1;
        tail = tail + 1;
    }
    proof {
        let t = sv.subrange(0, n as int);
        if n > 0 {
            assert(t.last() == segs@[n - 1]@);
        }
        assert(numeric_tail(t) == 0);
    }
    let trimmed: Vec<char> = if tail >= 3 && tail < segs.len() {
        let mut head: Vec<Vec<char>> = Vec::new();
        let mut k: usize = 0;
        while k < n
            invariant
                k <= n,
                n <= segs.len(),
                sv == views(segs@),
                views(head@) =~= sv.subrange(0, k as int),
            decreases n - k,
        {
            let c = crate::text::copy_chars(segs[k].as_slice());
            let ghost b = views(head@);
            head.push(c);
            assert(views(head@) =~= b.push(c@));
            k = k + 1;
        }
        join_chars(&head, '-')
    } else {
        stem
    };
    string_from_chars(trim_exec(trimmed.as_slice()).as_slice())
}

/// The staging folder of an upscaler component.
pub open spec fn staging_id_of(component: Component) -> Seq<char> {
    "upscaler-"@ + match component {
        Component::DlssSuperResolution => "nvngx_dlss"@,
        Component::DlssFrameGeneration => "nvngx_dlssg"@,
        Component::DlssRayReconstruction => "nvngx_dlssd"@,
        Component::FsrDx12 => "amd_fidelityfx_dx12"@,
        Component::FsrVulkan => "amd_fidelityfx_vk"@,
    }
}

/// The staging folder of an upscaler component: one per component, so a
/// newer version replaces the previous swap instead of stacking on it.
pub fn upscaler_staging_id(component: Component) -> (r: String)
    ensures
        r@ == staging_id_of(component),
{
    let stem = match component {
        Component::DlssSuperResolution => "nvngx_dlss",
        Component::DlssFrameGeneration => "nvngx_dlssg",
        Component::DlssRayReconstruction => "nvngx_dlssd",
        Component::FsrDx12 => "amd_fidelityfx_dx12",
        Component::FsrVulkan => "amd_fidelityfx_vk",
    };
    let v = crate::text::concat_chars(chars_of("upscaler-").as_slice(), chars_of(stem).as_slice());
    string_from_chars(v.as_slice())
}

// ---------------------------------------------------------------------------
// What the UI is handed
// ---------------------------------------------------------------------------

/// Everything the main window needs to render itself.
#[derive(Debug, Clone)]
pub struct AppSnapshot {
    pub game: Option<GameInstall>,
    pub mods: Vec<ModView>,
    pub groups: Vec<GroupView>,
    /// Mods whose enabled state differs from what is on disk.
    pub pending: Vec<PendingChange>,
    /// Files that were changed outside the manager.
    pub drift: Vec<String>,
    pub auto_apply: bool,
    /// `None` until an API key has been validated.
    pub nexus: Option<NexusAccount>,
    /// Which release stream the app updates itself from.
    pub update_channel: String,
    /// Whether the manager publishes a Discord presence.
    pub discord_rpc: bool,
}

#[derive(Debug, Clone)]
pub struct ModView {
    pub id: i64,
    pub name: String,
    pub version: Option<String>,
    pub mod_type: String,
    /// Every distinct payload type in the mod, for the badge row.
    pub component_types: Vec<String>,
    pub group_id: Option<i64>,
    pub enabled: bool,
    /// True when the mod's files are currently in the game folder.
    pub deployed: bool,
    pub priority: i64,
    pub size_bytes: i64,
    pub source: String,
    pub installed_at: String,
    pub warnings: Vec<String>,
    /// Set only when Nexus reports a version different from the installed one.
    pub latest_version: Option<String>,
    pub nexus_mod_id: Option<i64>,
}

#[derive(Debug, Clone)]
pub struct GroupView {
    pub id: i64,
    pub name: String,
    pub color: Option<String>,
    pub collapsed: bool,
    pub sort_index: i64,
}

#[derive(Debug, Clone)]
pub struct PendingChange {
    pub mod_id: i64,
    pub name: String,
    pub kind: ChangeKind,
}

/// An asset that more than one enabled mod replaces.
///
/// Only one of them reaches the game, so the point of reporting these is to
/// say which.
#[derive(Debug, Clone)]
pub struct Conflict {
    /// The asset path, or a chunk id when the container had no directory
    /// index.
    pub asset: String,
    pub named: bool,
    /// Every enabled mod replacing it, in load order.
    pub claimants: Vec<Claimant>,
}

#[derive(Debug, Clone)]
pub struct Claimant {
    pub mod_id: i64,
    pub name: String,
    pub priority: i64,
    /// True for the one the game actually loads.
    pub wins: bool,
}

/// The conflict picture as a whole.
#[derive(Debug, Clone, Default)]
pub struct ConflictReport {
    pub conflicts: Vec<Conflict>,
    /// How many assets each mod loses to a later one.
    pub overridden: Vec<ModConflictCount>,
    /// Mods whose containers could not be read.
    pub unreadable: Vec<String>,
}

#[derive(Debug, Clone)]
pub struct ModConflictCount {
    pub mod_id: i64,
    /// Assets this mod provides that a later mod replaces.
    pub losing: i64,
    /// Assets this mod takes from an earlier one.
    pub winning: i64,
}

/// An archive that has been extracted and inspected but not yet committed.
#[derive(Debug, Clone)]
pub struct StagedInstall {
    /// Staging folder name, used to confirm or cancel the install.
    pub staging_id: String,
    /// Name guessed from the archive file name.
    pub suggested_name: String,
    pub components: Vec<DetectedComponent>,
    pub size_bytes: i64,
    /// True when at least one component needs the user to pick a type.
    pub needs_confirmation: bool,
}

#[derive(Debug, Clone, Default)]
pub struct ApplyReport {
    pub deployed: Vec<String>,
    pub removed: Vec<String>,
    pub failed: Vec<ApplyFailure>,
}

#[derive(Debug, Clone)]
pub struct ApplyFailure {
    pub name: String,
    pub reason: String,
}

/// Where everything lives, for the settings screen.
#[derive(Debug, Clone)]
pub struct FoldersView {
    /// The relocatable library root.
    pub library: String,
    pub mods: String,
    pub backups: String,
    pub downloads: String,
    pub game: Option<String>,
    /// False when the library is on a different drive from the game.
    pub same_volume_as_game: bool,
    pub library_bytes: i64,
}

/// Who the stored Nexus key belongs to.
#[derive(Debug, Clone, PartialEq, Eq)]
pub struct NexusAccount {
    pub name: String,
    pub is_premium: bool,
    pub user_id: u64,
}

#[derive(Debug, Clone)]
pub struct LibraryMoveReport {
    pub folders: FoldersView,
    /// The result of putting previously enabled mods back after the move.
    pub redeployed: ApplyReport,
}

// ---------------------------------------------------------------------------
// Records kept for each mod
// ---------------------------------------------------------------------------

/// An installed mod as the store keeps it.
#[derive(Debug, Clone)]
pub struct ModRecord {
    pub id: i64,
    pub name: String,
    pub staging_folder: String,
    pub version: Option<String>,
    pub source: String,
    pub nexus_mod_id: Option<i64>,
    pub nexus_file_id: Option<i64>,
    pub group_id: Option<i64>,
    pub primary_type: String,
    pub size_bytes: i64,
    pub image_path: Option<String>,
    pub notes: Option<String>,
    pub installed_at: String,
    pub enabled: bool,
    pub priority: i64,
    /// The newest version Nexus reported, from the last update check.
    pub latest_version: Option<String>,
    pub update_checked_at: Option<String>,
    /// When the mod's containers were last read for the assets they
    /// replace; none while that has not been done completely.
    pub assets_indexed_at: Option<String>,
}

/// A new mod being registered after a successful install.
#[derive(Debug, Clone)]
pub struct NewMod {
    pub name: String,
    pub staging_folder: String,
    pub version: Option<String>,
    pub source: String,
    pub nexus_mod_id: Option<i64>,
    pub nexus_file_id: Option<i64>,
    pub primary_type: String,
    pub components: Vec<DetectedComponent>,
    pub size_bytes: i64,
    pub image_path: Option<String>,
}

#[derive(Debug, Clone)]
pub struct GroupRecord {
    pub id: i64,
    pub name: String,
    pub color: Option<String>,
    pub sort_index: i64,
    pub collapsed: bool,
}

// ---------------------------------------------------------------------------
// What the UI shows of each mod
// ---------------------------------------------------------------------------

/// Where a mod's staged files are, and the plan for deploying them.
pub fn mod_plan(record: &ModRecord, staging_dir: &str, components: &[DetectedComponent]) -> (r: DeployPlan)
    ensures
        r.mod_id == record.id,
        r.staging_root@ == crate::text::path_join(staging_dir@, record.staging_folder@),
        crate::plan::planned_views(r.files@) == crate::plan::plan_files(
            component_views(components@),
            record.priority as int,
            record.name@,
        ),
        string_views(r.ue4ss_registrations@) == crate::plan::plan_registrations(
            component_views(components@),
            record.name@,
        ),
{
    let root = crate::text::path_join_exec(staging_dir, record.staging_folder.as_str());
    crate::plan::build_plan(record.id, root.as_str(), components, record.priority, record.name.as_str())
}

/// The payload types of the components, a run of one type listed once.
pub open spec fn component_types_of(cs: Seq<ComponentModel>) -> Seq<Seq<char>>
    decreases cs.len(),
{
    if cs.len() == 0 {
        Seq::empty()
    } else {
        let d = component_types_of(cs.drop_last());
        let t = type_id_of(cs.last().mod_type);
        if d.len() > 0 && d.last() == t {
            d
        } else {
            d.push(t)
        }
    }
}

/// Every warning of every component, in order.
pub open spec fn warnings_of(cs: Seq<ComponentModel>) -> Seq<Seq<char>>
    decreases cs.len(),
{
    if cs.len() == 0 {
        Seq::empty()
    } else {
        warnings_of(cs.drop_last()) + cs.last().warnings
    }
}

pub struct ModViewModel {
    pub id: i64,
    pub name: Seq<char>,
    pub version: Option<Seq<char>>,
    pub mod_type: Seq<char>,
    pub component_types: Seq<Seq<char>>,
    pub group_id: Option<i64>,
    pub enabled: bool,
    pub deployed: bool,
    pub priority: i64,
    pub size_bytes: i64,
    pub source: Seq<char>,
    pub installed_at: Seq<char>,
    pub warnings: Seq<Seq<char>>,
    pub latest_version: Option<Seq<char>>,
    pub nexus_mod_id: Option<i64>,
}

impl View for ModView {
    type V = ModViewModel;

    open spec fn view(&self) -> ModViewModel {
        ModViewModel {
            id: self.id,
            name: self.name@,
            version: opt_view(self.version),
            mod_type: self.mod_type@,
            component_types: string_views(self.component_types@),
            group_id: self.group_id,
            enabled: self.enabled,
            deployed: self.deployed,
            priority: self.priority,
            size_bytes: self.size_bytes,
            source: self.source@,
            installed_at: self.installed_at@,
            warnings: string_views(self.warnings@),
            latest_version: opt_view(self.latest_version),
            nexus_mod_id: self.nexus_mod_id,
        }
    }
}

/// How a mod reads in the list: its record, the types and warnings of its
/// components, whether its files are in the game folder, and a newer version
/// when Nexus reported one.
pub open spec fn mod_view_of(record: ModRecord, cs: Seq<ComponentModel>, deployed: bool) -> ModViewModel {
    ModViewModel {
        id: record.id,
        name: record.name@,
        version: opt_view(record.version),
        mod_type: record.primary_type@,
        component_types: component_types_of(cs),
        group_id: record.group_id,
        enabled: record.enabled,
        deployed,
        priority: record.priority,
        size_bytes: record.size_bytes,
        source: record.source@,
        installed_at: record.installed_at@,
        warnings: warnings_of(cs),
        latest_version: newer_of(opt_view(record.version), opt_view(record.latest_version)),
        nexus_mod_id: record.nexus_mod_id,
    }
}

fn copy_opt(o: &Option<String>) -> (r: Option<String>)
    ensures
        opt_view(r) == opt_view(*o),
{
    match o {
        Some(s) => Some(crate::text::owned(s.as_str())),
        None => None,
    }
}

fn component_types(components: &[DetectedComponent]) -> (r: Vec<String>)
    ensures
        string_views(r@) == component_types_of(component_views(components@)),
{
    let ghost cv = component_views(components@);
    let mut out: Vec<String> = Vec::new();
    let mut i: usize = 0;
    while i < components.len()
        invariant
            i <= components.len(),
            cv == component_views(components@),
            string_views(out@) == component_types_of(cv.take(i as int)),
        decreases components.len() - i,
    {
        assert(cv.take(i + 1).drop_last() =~= cv.take(i as int));
        assert(cv.take(i + 1).last() == cv[i as int]);
        let t = components[i].mod_type.as_str();
        let repeat = out.len() > 0 && chars_eq(
            chars_of(out[out.len() - 1].as_str()).as_slice(),
            chars_of(t).as_slice(),
        );
        proof {
            if out.len() > 0 {
                assert(string_views(out@).last() == out@[out.len() - 1]@);
            }
        }
        if !repeat {
            let ghost before = string_views(out@);
            out.push(crate::text::owned(t));
            assert(string_views(out@) =~= before.push(t@));
        }
        i = i + 1;
    }
    assert(cv.take(components.len() as int) =~= cv);
    out
}

fn all_warnings(components: &[DetectedComponent]) -> (r: Vec<String>)
    ensures
        string_views(r@) == warnings_of(component_views(components@)),
{
    let ghost cv = component_views(components@);
    let mut out: Vec<String> = Vec::new();
    let mut i: usize = 0;
    while i < components.len()
        invariant
            i <= components.len(),
            cv == component_views(components@),
            string_views(out@) == warnings_of(cv.take(i as int)),
        decreases components.len() - i,
    {
        assert(cv.take(i + 1).drop_last() =~= cv.take(i as int));
        assert(cv.take(i + 1).last() == cv[i as int]);
        let ws = &components[i].warnings;
        let ghost start = string_views(out@);
        let mut k: usize = 0;
        while k < ws.len()
            invariant
                k <= ws.len(),
                string_views(out@) == start + string_views(ws@).take(k as int),
            decreases ws.len() - k,
        {
            let ghost before = string_views(out@);
            out.push(crate::text::owned(ws[k].as_str()));
            assert(string_views(out@) =~= before.push(ws@[k as int]@));
            assert(string_views(ws@).take(k + 1) =~= string_views(ws@).take(k as int).push(ws@[k as int]@));
            k = k + 1;
        }
        assert(string_views(ws@).take(ws.len() as int) =~= string_views(ws@));
        i = i + 1;
    }
    assert(cv.take(components.len() as int) =~= cv);
    out
}

/// How a mod reads in the list, and the change it is waiting for, if any,
/// given its components, its deployment plan and what was last deployed.
pub fn mod_view(
    record: &ModRecord,
    components: &[DetectedComponent],
    planned: &DeployPlan,
    recorded: &[DeployedFileRow],
) -> (r: (ModView, Option<PendingChange>))
    ensures
        r.0@ == mod_view_of(*record, component_views(components@), recorded.len() > 0),
        match change_of(record.enabled, recorded.len() > 0, *planned, recorded@) {
            Some(k) => r.1 matches Some(p) && p.mod_id == record.id && p.name@ == record.name@ && p.kind == k,
            None => r.1 is None,
        },
{
    let deployed = recorded.len() > 0;
    let pending = match change_kind(record.enabled, deployed, planned, recorded) {
        Some(kind) => Some(PendingChange { mod_id: record.id, name: crate::text::owned(record.name.as_str()), kind }),
        None => None,
    };
    let view = ModView {
        id: record.id,
        name: crate::text::owned(record.name.as_str()),
        version: copy_opt(&record.version),
        mod_type: crate::text::owned(record.primary_type.as_str()),
        component_types: component_types(components),
        group_id: record.group_id,
        enabled: record.enabled,
        deployed,
        priority: record.priority,
        size_bytes: record.size_bytes,
        source: crate::text::owned(record.source.as_str()),
        installed_at: crate::text::owned(record.installed_at.as_str()),
        warnings: all_warnings(components),
        latest_version: newer_version(&record.version, &record.latest_version),
        nexus_mod_id: record.nexus_mod_id,
    };
    (view, pending)
}

// ---------------------------------------------------------------------------
// Upscaler swaps
// ---------------------------------------------------------------------------

/// The note an upscaler swap carries.
pub open spec fn upscaler_note(component: Component) -> Seq<char> {
    "Replaces the game's "@ + crate::upscaler::component_file(component)
        + " in place; disabling this puts the original back."@
}

/// The component an upscaler swap installs: each found copy of the DLL,
/// staged at the same place it has in the game, laid over the game root.
pub open spec fn upscaler_component(component: Component, targets: Seq<Seq<char>>) -> ComponentModel {
    ComponentModel {
        mod_type: crate::model::ModType::GameRootOverlay,
        confidence: crate::model::Confidence::High,
        files: targets.map_values(|t: Seq<char>| (t, t)),
        target_subdir: Seq::empty(),
        ue4ss_mod_name: None,
        pak_sets: Seq::empty(),
        warnings: Seq::empty(),
        notes: seq![upscaler_note(component)],
    }
}

/// The mod record of an upscaler swap, given where in the game the DLL was
/// found (relative to the game root) and how much the staged copies take;
/// an error naming the DLL when it was found nowhere.
pub fn upscaler_mod(component: Component, version: &str, targets: &[String], size_bytes: i64) -> (r: Result<NewMod, String>)
    ensures
        targets.len() == 0 <==> r is Err,
        r matches Err(m) ==> m@ == crate::upscaler::component_label(component)
            + " was not found in the game folder"@,
        r matches Ok(m) ==> {
            &&& m.name@ == crate::upscaler::component_label(component) + " "@ + version@
            &&& m.staging_folder@ == "upscaler-"@ + match component {
                Component::DlssSuperResolution => "nvngx_dlss"@,
                Component::DlssFrameGeneration => "nvngx_dlssg"@,
                Component::DlssRayReconstruction => "nvngx_dlssd"@,
                Component::FsrDx12 => "amd_fidelityfx_dx12"@,
                Component::FsrVulkan => "amd_fidelityfx_vk"@,
            }
            &&& opt_view(m.version) == Some(version@)
            &&& m.source@ == "upscaler"@
            &&& m.nexus_mod_id is None && m.nexus_file_id is None
            &&& m.primary_type@ == type_id_of(crate::model::ModType::GameRootOverlay)
            &&& component_views(m.components@) == seq![upscaler_component(component, string_views(targets@))]
            &&& m.size_bytes == size_bytes
            &&& m.image_path is None
        },
{
    let label = component.label();
    if targets.len() == 0 {
        let v = crate::text::concat_chars(chars_of(label).as_slice(), chars_of(" was not found in the game folder").as_slice());
        return Err(string_from_chars(v.as_slice()));
    }
    let mut files: Vec<crate::model::ComponentFile> = Vec::new();
    let mut i: usize = 0;
    while i < targets.len()
        invariant
            i <= targets.len(),
            crate::model::file_views(files@) =~= string_views(targets@).take(i as int).map_values(
                |t: Seq<char>| (t, t),
            ),
        decreases targets.len() - i,
    {
        let f = crate::model::ComponentFile {
            source: crate::text::owned(targets[i].as_str()),
            target: crate::text::owned(targets[i].as_str()),
        };
        let ghost before = crate::model::file_views(files@);
        files.push(f);
        assert(crate::model::file_views(files@) =~= before.push(f@));
        assert(string_views(targets@).take(i + 1) =~= string_views(targets@).take(i as int).push(
            targets@[i as int]@,
        ));
        i = i + 1;
    }
    assert(string_views(targets@).take(targets.len() as int) =~= string_views(targets@));
    let note = crate::text::concat_chars(chars_of("Replaces the game's ").as_slice(), chars_of(component.file_name()).as_slice());
    let note = crate::text::concat_chars(note.as_slice(), chars_of(" in place; disabling this puts the original back.").as_slice());
    let mut notes: Vec<String> = Vec::new();
    notes.push(string_from_chars(note.as_slice()));
    let detected = DetectedComponent {
        mod_type: crate::model::ModType::GameRootOverlay,
        confidence: crate::model::Confidence::High,
        files,
        target_subdir: String::new(),
        ue4ss_mod_name: None,
        pak_sets: Vec::new(),
        warnings: Vec::new(),
        notes,
    };
    let mut components: Vec<DetectedComponent> = Vec::new();
    components.push(detected);
    proof {
        reveal_strlit("");
        assert(string_views(detected.notes@) =~= seq![upscaler_note(component)]);
        assert(crate::model::set_views(detected.pak_sets@) =~= Seq::empty());
        assert(string_views(detected.warnings@) =~= Seq::empty());
        assert(detected@ =~= upscaler_component(component, string_views(targets@)));
        assert(component_views(components@) =~= seq![detected@]);
    }
    let name = crate::text::concat_chars(chars_of(label).as_slice(), chars_of(" ").as_slice());
    let name = crate::text::concat_chars(name.as_slice(), chars_of(version).as_slice());
    Ok(
        NewMod {
            name: string_from_chars(name.as_slice()),
            staging_folder: upscaler_staging_id(component),
            version: Some(crate::text::owned(version)),
            source: crate::text::owned("upscaler"),
            nexus_mod_id: None,
            nexus_file_id: None,
            primary_type: crate::text::owned(crate::model::ModType::GameRootOverlay.as_str()),
            components,
            size_bytes,
            image_path: None,
        },
    )
}

// ---------------------------------------------------------------------------
// Update checks
// ---------------------------------------------------------------------------

/// Whether Nexus listed `id` among the mods that changed recently.
pub open spec fn changed_recently(changed: Seq<crate::client::UpdatedMod>, id: u64) -> bool {
    exists|i: int| 0 <= i < changed.len() && (#[trigger] changed[i]).mod_id == id
}

/// The installed mods worth asking about, in order, each as its row id and
/// Nexus id: those Nexus listed as changed in the period asked about. One
/// request narrowing the list beats a request per installed mod.
pub open spec fn to_check(installed: Seq<NexusModRef>, changed: Seq<crate::client::UpdatedMod>) -> Seq<(i64, u64)>
    decreases installed.len(),
{
    if installed.len() == 0 {
        Seq::empty()
    } else {
        let before = to_check(installed.drop_last(), changed);
        let m = installed.last();
        if changed_recently(changed, m.nexus_mod_id as u64) {
            before.push((m.id, m.nexus_mod_id as u64))
        } else {
            before
        }
    }
}

fn listed_as_changed(changed: &[crate::client::UpdatedMod], id: u64) -> (r: bool)
    ensures
        r == changed_recently(changed@, id),
{
    let mut k: usize = 0;
    while k < changed.len()
        invariant
            k <= changed.len(),
            forall|j: int| 0 <= j < k ==> (#[trigger] changed@[j]).mod_id != id,
        decreases changed.len() - k,
    {
        if changed[k].mod_id == id {
            return true;
        }
        k = k + 1;
    }
    false
}

/// The installed mods worth asking about.
pub fn mods_to_check(installed: &[NexusModRef], changed: &[crate::client::UpdatedMod]) -> (r: Vec<(i64, u64)>)
    ensures
        r@ == to_check(installed@, changed@),
{
    let mut out: Vec<(i64, u64)> = Vec::new();
    let mut i: usize = 0;
    while i < installed.len()
        invariant
            i <= installed.len(),
            out@ == to_check(installed@.take(i as int), changed@),
        decreases installed.len() - i,
    {
        assert(installed@.take(i + 1).drop_last() =~= installed@.take(i as int));
        assert(installed@.take(i + 1).last() == installed@[i as int]);
        let id = installed[i].nexus_mod_id as u64;
        if listed_as_changed(changed, id) {
            out.push((installed[i].id, id));
        }
        i = i + 1;
    }
    assert(installed@.take(installed.len() as int) =~= installed@);
    out
}

/// How many of the mods show an update, going by what the last check of
/// each found, so a mod found outdated last week still counts.
pub open spec fn outdated_in(mods: Seq<NexusModRef>) -> nat
    decreases mods.len(),
{
    if mods.len() == 0 {
        0
    } else {
        outdated_in(mods.drop_last()) + if newer_of(
            opt_view(mods.last().version),
            opt_view(mods.last().latest_version),
        ) is Some {
            1nat
        } else {
            0nat
        }
    }
}

/// How many of the mods show an update.
pub fn outdated_count(mods: &[NexusModRef]) -> (r: usize)
    ensures
        r == outdated_in(mods@),
{
    let mut n: usize = 0;
    let mut i: usize = 0;
    while i < mods.len()
        invariant
            i <= mods.len(),
            n == outdated_in(mods@.take(i as int)),
            n <= i,
        decreases mods.len() - i,
    {
        assert(mods@.take(i + 1).drop_last() =~= mods@.take(i as int));
        assert(mods@.take(i + 1).last() == mods@[i as int]);
        if mods[i].is_outdated() {
            n = n + 1;
        }
        i = i + 1;
    }
    assert(mods@.take(mods.len() as int) =~= mods@);
    n
}

// ---------------------------------------------------------------------------
// Reading the records
// ---------------------------------------------------------------------------

pub open spec fn ref_view(r: NexusModRef) -> (i64, i64, Option<Seq<char>>, Option<Seq<char>>) {
    (r.id, r.nexus_mod_id, opt_view(r.version), opt_view(r.latest_version))
}

pub open spec fn ref_views(v: Seq<NexusModRef>) -> Seq<(i64, i64, Option<Seq<char>>, Option<Seq<char>>)> {
    v.map_values(|r: NexusModRef| ref_view(r))
}

/// The mods that came from Nexus, in order, as the update check needs them.
pub open spec fn nexus_refs_of(records: Seq<ModRecord>) -> Seq<(i64, i64, Option<Seq<char>>, Option<Seq<char>>)>
    decreases records.len(),
{
    if records.len() == 0 {
        Seq::empty()
    } else {
        let d = nexus_refs_of(records.drop_last());
        let m = records.last();
        match m.nexus_mod_id {
            Some(n) => d.push((m.id, n, opt_view(m.version), opt_view(m.latest_version))),
            None => d,
        }
    }
}

/// Every installed mod that came from Nexus, so its page can be queried.
pub fn nexus_mods(records: &[ModRecord]) -> (r: Vec<NexusModRef>)
    ensures
        ref_views(r@) == nexus_refs_of(records@),
{
    let mut out: Vec<NexusModRef> = Vec::new();
    let mut i: usize = 0;
    while i < records.len()
        invariant
            i <= records.len(),
            ref_views(out@) == nexus_refs_of(records@.take(i as int)),
        decreases records.len() - i,
    {
        assert(records@.take(i + 1).drop_last() =~= records@.take(i as int));
        let m = &records[i];
        if let Some(n) = m.nexus_mod_id {
            out.push(NexusModRef {
                id: m.id,
                nexus_mod_id: n,
                version: m.version.clone(),
                latest_version: m.latest_version.clone(),
            });
        }
        assert(ref_views(out@) =~= nexus_refs_of(records@.take(i + 1)));
        i = i + 1;
    }
    assert(records@.take(records.len() as int) =~= records@);
    out
}

/// The ids of the mods in a group (or of the ungrouped ones), in order.
pub open spec fn in_group_of(records: Seq<ModRecord>, group: Option<i64>) -> Seq<i64>
    decreases records.len(),
{
    if records.len() == 0 {
        Seq::empty()
    } else {
        let d = in_group_of(records.drop_last(), group);
        if records.last().group_id == group {
            d.push(records.last().id)
        } else {
            d
        }
    }
}

/// Every mod in a group, for the group-level checkbox.
pub fn mods_in_group(records: &[ModRecord], group_id: Option<i64>) -> (r: Vec<i64>)
    ensures
        r@ == in_group_of(records@, group_id),
{
    let mut out: Vec<i64> = Vec::new();
    let mut i: usize = 0;
    while i < records.len()
        invariant
            i <= records.len(),
            out@ == in_group_of(records@.take(i as int), group_id),
        decreases records.len() - i,
    {
        assert(records@.take(i + 1).drop_last() =~= records@.take(i as int));
        if records[i].group_id == group_id {
            out.push(records[i].id);
        }
        i = i + 1;
    }
    assert(records@.take(records.len() as int) =~= records@);
    out
}

/// Every mod's id, in order.
pub fn all_mod_ids(records: &[ModRecord]) -> (r: Vec<i64>)
    ensures
        r@ == records@.map_values(|m: ModRecord| m.id),
{
    let mut out: Vec<i64> = Vec::new();
    let mut i: usize = 0;
    while i < records.len()
        invariant
            i <= records.len(),
            out@ == records@.take(i as int).map_values(|m: ModRecord| m.id),
        decreases records.len() - i,
    {
        out.push(records[i].id);
        assert(out@ =~= records@.take(i + 1).map_values(|m: ModRecord| m.id));
        i = i + 1;
    }
    assert(records@.take(records.len() as int) =~= records@);
    out
}

/// The mod holding an upscaler swap, if one has been made: the first
/// record in the component's staging folder.
pub fn installed_swap(records: &[ModRecord], component: Component) -> (r: Option<usize>)
    ensures
        match r {
            Some(i) => i < records.len() && records@[i as int].staging_folder@ == staging_id_of(component)
                && forall|k: int| 0 <= k < i ==> (#[trigger] records@[k]).staging_folder@ != staging_id_of(component),
            None => forall|k: int| 0 <= k < records.len() ==> (#[trigger] records@[k]).staging_folder@
                != staging_id_of(component),
        },
{
    let id = upscaler_staging_id(component);
    let key = chars_of(id.as_str());
    let mut i: usize = 0;
    while i < records.len()
        invariant
            i <= records.len(),
            key@ == staging_id_of(component),
            forall|k: int| 0 <= k < i ==> (#[trigger] records@[k]).staging_folder@ != staging_id_of(component),
        decreases records.len() - i,
    {
        if chars_eq(chars_of(records[i].staging_folder.as_str()).as_slice(), key.as_slice()) {
            return Some(i);
        }
        i = i + 1;
    }
    None
}

/// Which upscaler swap a staging folder holds, if it holds one.
pub open spec fn swap_of(folder: Seq<char>) -> Option<Component> {
    if folder == staging_id_of(Component::DlssSuperResolution) {
        Some(Component::DlssSuperResolution)
    } else if folder == staging_id_of(Component::DlssFrameGeneration) {
        Some(Component::DlssFrameGeneration)
    } else if folder == staging_id_of(Component::DlssRayReconstruction) {
        Some(Component::DlssRayReconstruction)
    } else if folder == staging_id_of(Component::FsrDx12) {
        Some(Component::FsrDx12)
    } else if folder == staging_id_of(Component::FsrVulkan) {
        Some(Component::FsrVulkan)
    } else {
        None
    }
}

fn swap_in(folder: &str) -> (r: Option<Component>)
    ensures
        r == swap_of(folder@),
{
    let all = Component::all();
    let f = chars_of(folder);
    let mut i: usize = 0;
    while i < all.len()
        invariant
            i <= all.len(),
            all@ == crate::upscaler::all_components(),
            f@ == folder@,
            forall|k: int| 0 <= k < i ==> staging_id_of(#[trigger] all@[k]) != folder@,
        decreases all.len() - i,
    {
        let id = upscaler_staging_id(all[i]);
        if chars_eq(chars_of(id.as_str()).as_slice(), f.as_slice()) {
            proof {
                assert(all@[0] == Component::DlssSuperResolution);
                assert(all@[1] == Component::DlssFrameGeneration);
                assert(all@[2] == Component::DlssRayReconstruction);
                assert(all@[3] == Component::FsrDx12);
            }
            return Some(all[i]);
        }
        i = i + 1;
    }
    proof {
        assert(staging_id_of(all@[0]) != folder@);
        assert(staging_id_of(all@[1]) != folder@);
        assert(staging_id_of(all@[2]) != folder@);
        assert(staging_id_of(all@[3]) != folder@);
        assert(staging_id_of(all@[4]) != folder@);
    }
    None
}

/// The swaps in the records, in order, each with its recorded version (or
/// nothing written when none was recorded).
pub open spec fn swaps_of(records: Seq<ModRecord>) -> Seq<(Component, Seq<char>)>
    decreases records.len(),
{
    if records.len() == 0 {
        Seq::empty()
    } else {
        let d = swaps_of(records.drop_last());
        let m = records.last();
        match swap_of(m.staging_folder@) {
            Some(c) => d.push((
                c,
                match m.version {
                    Some(v) => v@,
                    None => Seq::empty(),
                },
            )),
            None => d,
        }
    }
}

/// The upscaler swaps the manager itself has made, and their versions.
pub fn managed_upscalers(records: &[ModRecord]) -> (r: Vec<(Component, String)>)
    ensures
        r@.map_values(|p: (Component, String)| (p.0, p.1@)) == swaps_of(records@),
{
    let mut out: Vec<(Component, String)> = Vec::new();
    let mut i: usize = 0;
    while i < records.len()
        invariant
            i <= records.len(),
            out@.map_values(|p: (Component, String)| (p.0, p.1@)) == swaps_of(records@.take(i as int)),
        decreases records.len() - i,
    {
        assert(records@.take(i + 1).drop_last() =~= records@.take(i as int));
        let m = &records[i];
        match swap_in(m.staging_folder.as_str()) {
            Some(c) => {
                let version = match &m.version {
                    Some(v) => v.clone(),
                    None => string_from_chars(Vec::<char>::new().as_slice()),
                };
                out.push((c, version));
            },
            None => {},
        }
        assert(out@.map_values(|p: (Component, String)| (p.0, p.1@)) =~= swaps_of(records@.take(i + 1)));
        i = i + 1;
    }
    assert(records@.take(records.len() as int) =~= records@);
    out
}

// ---------------------------------------------------------------------------
// Settings
// ---------------------------------------------------------------------------

/// Whether changes go to the game folder as soon as they are made: on
/// unless the setting says otherwise (`"1"` is on).
pub fn auto_apply_of(setting: Option<&str>) -> (r: bool)
    ensures
        r == match setting {
            Some(v) => v@ == "1"@,
            None => true,
        },
{
    match setting {
        Some(v) => chars_eq(chars_of(v).as_slice(), chars_of("1").as_slice()),
        None => true,
    }
}

/// The setting value for the auto-apply switch.
pub fn auto_apply_setting(on: bool) -> (r: &'static str)
    ensures
        r@ == (if on { "1"@ } else { "0"@ }),
{
    if on {
        "1"
    } else {
        "0"
    }
}

/// Which release stream to update from: `nightly` when the setting says
/// so, `stable` otherwise.
pub fn update_channel_of(setting: Option<&str>) -> (r: &'static str)
    ensures
        r@ == (if setting matches Some(v) && v@ == "nightly"@ {
            "nightly"@
        } else {
            "stable"@
        }),
{
    match setting {
        Some(v) => if chars_eq(chars_of(v).as_slice(), chars_of("nightly").as_slice()) {
            "nightly"
        } else {
            "stable"
        },
        None => "stable",
    }
}

// ---------------------------------------------------------------------------
// Installing
// ---------------------------------------------------------------------------

/// Whether any detected component needs the user to say what it is before
/// it can be installed.
pub fn needs_confirmation(components: &[DetectedComponent]) -> (r: bool)
    ensures
        r == exists|i: int| 0 <= i < components.len() && (#[trigger] components@[i]).confidence
            == crate::model::Confidence::AskUser,
{
    let mut i: usize = 0;
    while i < components.len()
        invariant
            i <= components.len(),
            forall|k: int| 0 <= k < i ==> (#[trigger] components@[k]).confidence
                != crate::model::Confidence::AskUser,
        decreases components.len() - i,
    {
        if let crate::model::Confidence::AskUser = components[i].confidence {
            return true;
        }
        i = i + 1;
    }
    false
}

/// The name a downloaded mod is installed under: the one given, unless it
/// is blank, then the one the archive suggests.
pub fn download_name(name: &str, suggested: &str) -> (r: String)
    ensures
        r@ == (if trim(name@).len() == 0 { suggested@ } else { name@ }),
{
    if trim_exec(chars_of(name).as_slice()).len() == 0 {
        crate::text::owned(suggested)
    } else {
        crate::text::owned(name)
    }
}

/// The name a folder dropped in by hand is suggested under: its own name,
/// or `Mod` when it has none.
pub fn folder_display_name(file_name: Option<&str>) -> (r: String)
    ensures
        r@ == match file_name {
            Some(n) => n@,
            None => "Mod"@,
        },
{
    match file_name {
        Some(n) => crate::text::owned(n),
        None => crate::text::owned("Mod"),
    }
}

/// The next staging folder to try when `base` is taken: `base (n)`.
pub fn staging_candidate(base: &str, counter: u64) -> (r: String)
    ensures
        r@ == base@ + seq![' ', '('] + crate::upscaler::decimal(counter as nat) + seq![')'],
{
    let mut v = chars_of(base);
    v.push(' ');
    v.push('(');
    let v = crate::text::concat_chars(v.as_slice(), crate::upscaler::decimal_exec(counter).as_slice());
    let mut v = v;
    v.push(')');
    string_from_chars(v.as_slice())
}

/// The container files among a mod's component files (`.pak` and `.utoc`,
/// in any case), by their staging-relative source, in order.
pub open spec fn container_sources_of(cs: Seq<ComponentModel>) -> Seq<Seq<char>>
    decreases cs.len(),
{
    if cs.len() == 0 {
        Seq::empty()
    } else {
        container_sources_of(cs.drop_last()) + cs.last().files.map_values(
            |f: (Seq<char>, Seq<char>)| f.0,
        ).filter(is_container())
    }
}

/// Whether a path names a container index.
pub open spec fn is_container() -> spec_fn(Seq<char>) -> bool {
    |p: Seq<char>| crate::assets::container_of_spec(p) is Some
}

/// Where a mod's container indexes are, relative to its staging folder:
/// only these are read to learn what the mod replaces, never the payload.
pub fn container_sources(components: &[DetectedComponent]) -> (r: Vec<String>)
    ensures
        string_views(r@) == container_sources_of(component_views(components@)),
{
    let ghost cv = component_views(components@);
    let mut out: Vec<String> = Vec::new();
    let mut i: usize = 0;
    while i < components.len()
        invariant
            i <= components.len(),
            cv == component_views(components@),
            string_views(out@) == container_sources_of(cv.take(i as int)),
        decreases components.len() - i,
    {
        assert(cv.take(i + 1).drop_last() =~= cv.take(i as int));
        let files = &components[i].files;
        let ghost base = string_views(out@);
        let ghost srcs = cv[i as int].files.map_values(|f: (Seq<char>, Seq<char>)| f.0);
        assert(cv[i as int].files == crate::model::file_views(files@));
        let mut j: usize = 0;
        while j < files.len()
            invariant
                j <= files.len(),
                srcs == crate::model::file_views(files@).map_values(|f: (Seq<char>, Seq<char>)| f.0),
                string_views(out@) == base + srcs.take(j as int).filter(is_container()),
            decreases files.len() - j,
        {
            proof {
                assert(srcs.take(j + 1).drop_last() =~= srcs.take(j as int));
                crate::text::lemma_filter_step(srcs.take(j + 1), is_container());
                assert(srcs[j as int] == files@[j as int].source@);
            }
            let ghost before = string_views(out@);
            if crate::assets::container_of(files[j].source.as_str()).is_some() {
                out.push(crate::text::owned(files[j].source.as_str()));
                assert(string_views(out@) =~= before.push(srcs[j as int]));
                assert(is_container()(srcs.take(j + 1).last()));
            } else {
                assert(!is_container()(srcs.take(j + 1).last()));
            }
            assert(string_views(out@) =~= base + srcs.take(j + 1).filter(is_container()));
            j = j + 1;
        }
        assert(srcs.take(files.len() as int) =~= srcs);
        i = i + 1;
    }
    assert(cv.take(components.len() as int) =~= cv);
    out
}

// ---------------------------------------------------------------------------
// Learned classifications
// ---------------------------------------------------------------------------

/// The extensions of the entries, in order, where they have one.
pub open spec fn extensions_of(es: Seq<crate::tree::EntryModel>) -> Seq<Seq<char>>
    decreases es.len(),
{
    if es.len() == 0 {
        Seq::empty()
    } else {
        let d = extensions_of(es.drop_last());
        match crate::tree::extension_of(es.last().norm) {
            Some(e) => d.push(e),
            None => d,
        }
    }
}

/// Whether `r` is the detection pattern of a tree whose extensions are
/// `exts`: each distinct extension once, in increasing order, joined by
/// commas.
pub open spec fn is_pattern_of(r: Seq<char>, exts: Seq<Seq<char>>) -> bool {
    exists|p: Seq<Seq<char>>|
        strictly_sorted(p) && (forall|y: Seq<char>| #[trigger] p.contains(y) <==> exts.contains(y))
            && r == join(p, ',')
}

/// The shape of an archive a correction is remembered under: its distinct
/// file extensions, sorted, joined by commas. An archive shaped like one the
/// user classified by hand is then classified the same way without asking.
pub fn detection_pattern(tree: &crate::tree::FileTree) -> (r: String)
    ensures
        is_pattern_of(r@, extensions_of(tree@)),
{
    let entries = tree.entries();
    let ghost ev = tree@;
    let mut out: Vec<Vec<char>> = Vec::new();
    let mut i: usize = 0;
    while i < entries.len()
        invariant
            i <= entries.len(),
            ev == crate::tree::entry_views(entries@),
            strictly_sorted(views(out@)),
            forall|y: Seq<char>| #[trigger] views(out@).contains(y) <==> extensions_of(ev.take(i as int)).contains(y),
        decreases entries.len() - i,
    {
        assert(ev.take(i + 1).drop_last() =~= ev.take(i as int));
        let ghost before = extensions_of(ev.take(i as int));
        match entries[i].extension() {
            Some(e) => {
                let ghost x = e@;
                crate::text::insert_sorted(&mut out, chars_of(e.as_str()));
                assert(extensions_of(ev.take(i + 1)) == before.push(x));
                assert forall|y: Seq<char>| #[trigger] before.push(x).contains(y) <==> (before.contains(y) || y == x) by {
                    if before.push(x).contains(y) {
                        let k = choose|k: int| 0 <= k < before.push(x).len() && before.push(x)[k] == y;
                        if k < before.len() {
                            assert(before[k] == y);
                        }
                    }
                    if before.contains(y) {
                        let k = choose|k: int| 0 <= k < before.len() && before[k] == y;
                        assert(before.push(x)[k] == y);
                    }
                    if y == x {
                        assert(before.push(x)[before.len() as int] == y);
                    }
                }
            },
            None => {
                assert(extensions_of(ev.take(i + 1)) == before);
            },
        }
        i = i + 1;
    }
    assert(ev.take(entries.len() as int) =~= ev);
    let joined = join_chars(&out, ',');
    string_from_chars(joined.as_slice())
}

// ---------------------------------------------------------------------------
// Links from outside and self-update
// ---------------------------------------------------------------------------

/// Whether a text handed to the manager from outside (a command line
/// argument, a deep link) is an `nxm://` link, in any case. Anything else is
/// ignored rather than reported.
pub fn is_nxm_url(url: &str) -> (r: bool)
    ensures
        r == crate::text::is_prefix("nxm://"@, lower(url@)),
{
    let lowered = lower_chars(chars_of(url).as_slice());
    crate::text::starts_with(lowered.as_slice(), chars_of("nxm://").as_slice())
}

/// Where the updater looks for a manifest on each release stream: the
/// nightly channel follows the rolling `nightly` tag, every other channel
/// the release marked latest.
pub fn updater_endpoint(channel: &str) -> (r: &'static str)
    ensures
        r@ == (if channel@ == "nightly"@ {
            "https://github.com/hitomihiumi/SB-Mod-Manager/releases/download/nightly/latest.json"@
        } else {
            "https://github.com/hitomihiumi/SB-Mod-Manager/releases/latest/download/latest.json"@
        }),
{
    if chars_eq(chars_of(channel).as_slice(), chars_of("nightly").as_slice()) {
        "https://github.com/hitomihiumi/SB-Mod-Manager/releases/download/nightly/latest.json"
    } else {
        "https://github.com/hitomihiumi/SB-Mod-Manager/releases/latest/download/latest.json"
    }
}

// ---------------------------------------------------------------------------
// Where the library may live
// ---------------------------------------------------------------------------

/// A piece of a `/`-separated path that `Path::components` keeps as a
/// component: not empty and not `.` (`..` stays).
pub open spec fn kept_piece() -> spec_fn(Seq<char>) -> bool {
    |s: Seq<char>| s.len() > 0 && s != seq!['.']
}

/// The components of a `/`-separated path as `Path::components` yields them:
/// the root first where the path starts with `/` (written `/`), else a
/// leading `.` where the first piece is `.`, then every piece that is not
/// empty and not `.`.
pub open spec fn path_comps(p: Seq<char>) -> Seq<Seq<char>> {
    let pieces = crate::text::split(p, '/');
    let head: Seq<Seq<char>> = if p.len() > 0 && p[0] == '/' {
        seq![seq!['/']]
    } else if pieces[0] == seq!['.'] {
        seq![seq!['.']]
    } else {
        Seq::empty()
    };
    head + pieces.filter(kept_piece())
}

/// Whether `inner` is `outer` or lies under it, as `Path::starts_with`
/// decides: the components of `outer` begin those of `inner` (so
/// `Games/SB2` is not under `Games/SB`, and a relative path is never under
/// an absolute one).
pub open spec fn is_within(inner: Seq<char>, outer: Seq<char>) -> bool {
    let o = path_comps(outer);
    let i = path_comps(inner);
    o.len() <= i.len() && i.take(o.len() as int) == o
}

/// The components of a `/`-separated path, as `Path::components` yields them.
fn path_comps_exec(p: &[char]) -> (r: Vec<Vec<char>>)
    ensures
        views(r@) == path_comps(p@),
{
    let pieces = crate::text::split_chars(p, '/');
    let ghost pv = views(pieces@);
    let ghost pred = kept_piece();
    proof {
        crate::text::lemma_split_nonempty(p@, '/');
    }
    let mut out: Vec<Vec<char>> = Vec::new();
    if p.len() > 0 && p[0] == '/' {
        let mut root: Vec<char> = Vec::new();
        root.push('/');
        out.push(root);
    } else if pieces[0].len() == 1 && pieces[0][0] == '.' {
        let mut cur: Vec<char> = Vec::new();
        cur.push('.');
        out.push(cur);
        assert(pv[0] =~= seq!['.']);
    } else {
        assert(pv[0] != seq!['.']);
    }
    let ghost head = views(out@);
    assert(head == path_comps(p@).subrange(0, head.len() as int)) by {
        assert(head =~= (if p@.len() > 0 && p@[0] == '/' {
            seq![seq!['/']]
        } else if crate::text::split(p@, '/')[0] == seq!['.'] {
            seq![seq!['.']]
        } else {
            Seq::<Seq<char>>::empty()
        }));
    }
    let mut i: usize = 0;
    while i < pieces.len()
        invariant
            i <= pieces.len(),
            pv == views(pieces@),
            pv == crate::text::split(p@, '/'),
            pred == kept_piece(),
            head.len() <= 1,
            path_comps(p@) == head + pv.filter(pred),
            views(out@) == head + pv.subrange(0, i as int).filter(pred),
        decreases pieces.len() - i,
    {
        let ghost t = pv.subrange(0, i + 1);
        assert(t.drop_last() =~= pv.subrange(0, i as int));
        assert(t.last() == pieces@[i as int]@);
        proof {
            crate::text::lemma_filter_step(t, pred);
        }
        let keep = pieces[i].len() > 0 && !(pieces[i].len() == 1 && pieces[i][0] == '.');
        proof {
            if pieces@[i as int]@ == seq!['.'] {
                assert(pieces@[i as int]@.len() == 1 && pieces@[i as int]@[0] == '.');
            }
            if pieces@[i as int]@.len() == 1 && pieces@[i as int]@[0] == '.' {
                assert(pieces@[i as int]@ =~= seq!['.']);
            }
        }
        if keep {
            let c = crate::text::copy_chars(pieces[i].as_slice());
            proof {
                crate::text::lemma_views_push(out@, c);
                assert(head + t.filter(pred) =~= (head + pv.subrange(0, i as int).filter(pred)).push(c@));
            }
            out.push(c);
        } else {
            assert(head + t.filter(pred) =~= head + pv.subrange(0, i as int).filter(pred));
        }
        i = i + 1;
    }
    assert(pv.subrange(0, pieces.len() as int) =~= pv);
    out
}

/// Whether a proposed library folder is the game folder or inside it.
/// Staging inside the game folder would mean deploying a mod on top of its
/// own source, and would break the promise that disabling every mod leaves
/// the game folder as it was.
pub fn library_inside_game(new_root: &str, game_root: &str) -> (r: bool)
    ensures
        r == is_within(new_root@, game_root@),
{
    let o = path_comps_exec(chars_of(game_root).as_slice());
    let i = path_comps_exec(chars_of(new_root).as_slice());
    let ghost ov = views(o@);
    let ghost iv = views(i@);
    assert(ov == path_comps(game_root@));
    assert(iv == path_comps(new_root@));
    if o.len() > i.len() {
        return false;
    }
    let mut k: usize = 0;
    while k < o.len()
        invariant
            k <= o.len(),
            o.len() <= i.len(),
            ov == views(o@),
            iv == views(i@),
            ov == path_comps(game_root@),
            iv == path_comps(new_root@),
            forall|j: int| 0 <= j < k ==> #[trigger] iv[j] == ov[j],
        decreases o.len() - k,
    {
        if !chars_eq(o[k].as_slice(), i[k].as_slice()) {
            proof {
                assert(iv[k as int] == i@[k as int]@);
                assert(ov[k as int] == o@[k as int]@);
                assert(iv.take(ov.len() as int)[k as int] != ov[k as int]);
                assert(iv.take(ov.len() as int) != ov);
            }
            return false;
        }
        k = k + 1;
    }
    proof {
        assert(iv.take(ov.len() as int) =~= ov);
    }
    true
}

/// What is said when a proposed library folder is refused.
pub open spec fn library_refusal(inside_game: bool, mods_dir: Seq<char>) -> Seq<char> {
    if inside_game {
        "the library cannot live inside the game folder"@
    } else {
        mods_dir + " already contains a mod library; choose an empty folder"@
    }
}

/// Why a library folder is refused: inside the game folder, or its `mods`
/// folder already holds a library (an existing library there would disagree
/// with what the database knows).
pub fn library_refusal_text(inside_game: bool, mods_dir: &str) -> (r: String)
    ensures
        r@ == library_refusal(inside_game, mods_dir@),
{
    if inside_game {
        crate::text::owned("the library cannot live inside the game folder")
    } else {
        let v = crate::text::concat_chars(
            chars_of(mods_dir).as_slice(),
            chars_of(" already contains a mod library; choose an empty folder").as_slice(),
        );
        string_from_chars(v.as_slice())
    }
}

} // verus!
