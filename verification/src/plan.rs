//! Turns detected components into a concrete list of files to lay down.

use vstd::prelude::*;

use crate::detect::{build_pak_sets, pak_sets_of, pak_warnings_of};
use crate::loadorder::{apply_load_order, apply_sets, path_file_name};
use crate::model::{
    component_views, file_views, is_flat_type, is_load_ordered_type, needs_registration_type,
    opt_view, set_views, target_dir_of, ComponentFile, ComponentModel, Confidence,
    DetectedComponent, ModType, PakSet, UE4SS_MODS,
};
use crate::text::{
    chars_eq, chars_of, components_of, concat_chars, copy_chars, is_prefix, lower, lower_chars,
    slice_chars, starts_with, string_from_chars, string_views, views,
};
use crate::tree::{entry_views, EntryModel, TreeEntry};

verus! {

/// One file to materialise in the game folder.
#[derive(Debug, Clone, PartialEq, Eq)]
pub struct PlannedFile {
    /// Relative to the mod's staging directory.
    pub source: String,
    /// Relative to the game root.
    pub target: String,
}

impl View for PlannedFile {
    type V = (Seq<char>, Seq<char>);

    open spec fn view(&self) -> (Seq<char>, Seq<char>) {
        (self.source@, self.target@)
    }
}

pub open spec fn planned_views(v: Seq<PlannedFile>) -> Seq<(Seq<char>, Seq<char>)> {
    v.map_values(|f: PlannedFile| f@)
}

/// Everything the deployment backend needs to install one mod.
#[derive(Debug, Clone, PartialEq, Eq)]
pub struct DeployPlan {
    pub mod_id: i64,
    /// Absolute path of the mod's staging directory.
    pub staging_root: String,
    pub files: Vec<PlannedFile>,
    /// UE4SS mod folder names that must appear in `mods.txt`.
    pub ue4ss_registrations: Vec<String>,
}

impl DeployPlan {
    pub fn is_empty(&self) -> (r: bool)
        ensures
            r == (self.files.len() == 0),
    {
        self.files.len() == 0
    }
}

// ---------------------------------------------------------------------------
// Folder names
// ---------------------------------------------------------------------------

/// `char::is_whitespace`: the Unicode `White_Space` characters.
pub open spec fn is_ws(c: char) -> bool {
    ||| '\u{9}' <= c && c <= '\u{d}'
    ||| c == ' '
    ||| c == '\u{85}'
    ||| c == '\u{a0}'
    ||| c == '\u{1680}'
    ||| '\u{2000}' <= c && c <= '\u{200a}'
    ||| c == '\u{2028}'
    ||| c == '\u{2029}'
    ||| c == '\u{202f}'
    ||| c == '\u{205f}'
    ||| c == '\u{3000}'
}

/// A character that may stand in a Windows directory name, or `_`.
pub open spec fn clean_char(c: char) -> char {
    if c == '\u{3c}' || c == '\u{3e}' || c == ':' || c == '"' || c == '/' || c == '\\' || c == '|' || c
        == '?' || c == '*' || !(c >= '\u{20}') {
        '_'
    } else {
        c
    }
}

pub open spec fn trim_start(s: Seq<char>) -> Seq<char>
    decreases s.len(),
{
    if s.len() > 0 && is_ws(s[0]) {
        trim_start(s.drop_first())
    } else {
        s
    }
}

pub open spec fn trim_end(s: Seq<char>) -> Seq<char>
    decreases s.len(),
{
    if s.len() > 0 && is_ws(s.last()) {
        trim_end(s.drop_last())
    } else {
        s
    }
}

/// `str::trim`.
pub open spec fn trim(s: Seq<char>) -> Seq<char> {
    trim_end(trim_start(s))
}

/// `str::trim_end_matches('.')`.
pub open spec fn trim_dots(s: Seq<char>) -> Seq<char>
    decreases s.len(),
{
    if s.len() > 0 && s.last() == '.' {
        trim_dots(s.drop_last())
    } else {
        s
    }
}

/// The folder name a mod name becomes.
pub open spec fn sanitized(name: Seq<char>) -> Seq<char> {
    let t = trim(trim_dots(trim(name.map_values(|c: char| clean_char(c)))));
    if t.len() == 0 {
        "Mod"@
    } else {
        t
    }
}

pub fn is_ws_exec(c: char) -> (r: bool)
    ensures
        r == is_ws(c),
{
    ('\u{9}' <= c && c <= '\u{d}') || c == ' ' || c == '\u{85}' || c == '\u{a0}' || c == '\u{1680}'
        || ('\u{2000}' <= c && c <= '\u{200a}') || c == '\u{2028}' || c == '\u{2029}' || c
        == '\u{202f}' || c == '\u{205f}' || c == '\u{3000}'
}

pub fn trim_exec(s: &[char]) -> (r: Vec<char>)
    ensures
        r@ == trim(s@),
{
    let n = s.len();
    let mut i: usize = 0;
    assert(s@.subrange(0, n as int) =~= s@);
    while i < n && is_ws_exec(s[i])
        invariant
            i <= n,
            n == s.len(),
            trim_start(s@) == trim_start(s@.subrange(i as int, n as int)),
        decreases n - i,
    {
        assert(s@.subrange(i as int, n as int).drop_first() =~= s@.subrange(i + 1, n as int));
        i = i + 1;
    }
    assert(trim_start(s@.subrange(i as int, n as int)) == s@.subrange(i as int, n as int));
    let mut j: usize = n;
    while j > i && is_ws_exec(s[j - 1])
        invariant
            i <= j <= n,
            n == s.len(),
            trim(s@) == trim_end(s@.subrange(i as int, j as int)),
        decreases j - i,
    {
        assert(s@.subrange(i as int, j as int).drop_last() =~= s@.subrange(i as int, j - 1));
        j = j - 1;
    }
    slice_chars(s, i, j)
}

fn trim_dots_exec(s: &[char]) -> (r: Vec<char>)
    ensures
        r@ == trim_dots(s@),
{
    let mut j: usize = s.len();
    assert(s@.subrange(0, j as int) =~= s@);
    while j > 0 && s[j - 1] == '.'
        invariant
            j <= s.len(),
            trim_dots(s@) == trim_dots(s@.subrange(0, j as int)),
        decreases j,
    {
        assert(s@.subrange(0, j as int).drop_last() =~= s@.subrange(0, j - 1));
        j = j - 1;
    }
    slice_chars(s, 0, j)
}

/// Strip characters that are not valid in a Windows directory name.
pub fn sanitize_folder_name(name: &str) -> (r: String)
    ensures
        r@ == sanitized(name@),
{
    let v = chars_of(name);
    let mut cleaned: Vec<char> = Vec::new();
    let mut i: usize = 0;
    while i < v.len()
        invariant
            i <= v.len(),
            cleaned@ =~= v@.subrange(0, i as int).map_values(|c: char| clean_char(c)),
        decreases v.len() - i,
    {
        let c = v[i];
        let d = if c == '\u{3c}' || c == '\u{3e}' || c == ':' || c == '"' || c == '/' || c == '\\' || c == '|'
            || c == '?' || c == '*' || !(c >= '\u{20}') {
            '_'
        } else {
            c
        };
        cleaned.push(d);
        i = i + 1;
    }
    assert(v@.subrange(0, v.len() as int) =~= v@);
    let t1 = trim_exec(cleaned.as_slice());
    let t2 = trim_dots_exec(t1.as_slice());
    let t3 = trim_exec(t2.as_slice());
    if t3.len() == 0 {
        string_from_chars(chars_of("Mod").as_slice())
    } else {
        string_from_chars(t3.as_slice())
    }
}

// ---------------------------------------------------------------------------
// Plans
// ---------------------------------------------------------------------------

/// A target under `<parent>/...` moved to `<parent>/<folder>/...`.
pub open spec fn rebased(t: Seq<char>, parent: Seq<char>, folder: Seq<char>) -> Seq<char> {
    let p = parent + seq!['/'];
    if is_prefix(p, t) {
        p + folder + seq!['/'] + t.subrange(p.len() as int, t.len() as int)
    } else if t == parent {
        p + folder + seq!['/']
    } else {
        t
    }
}

pub open spec fn rebase_all(
    files: Seq<(Seq<char>, Seq<char>)>,
    parent: Seq<char>,
    folder: Seq<char>,
) -> Seq<(Seq<char>, Seq<char>)> {
    files.map_values(|f: (Seq<char>, Seq<char>)| (f.0, rebased(f.1, parent, folder)))
}

/// The files one component contributes to a plan.
pub open spec fn component_plan(c: ComponentModel, priority: int, mod_name: Seq<char>) -> Seq<
    (Seq<char>, Seq<char>),
> {
    let f1 = if needs_registration_type(c.mod_type) && c.ue4ss_mod_name is None {
        rebase_all(c.files, UE4SS_MODS@, sanitized(mod_name))
    } else {
        c.files
    };
    if is_load_ordered_type(c.mod_type) {
        apply_sets(f1, c.pak_sets, priority)
    } else {
        f1
    }
}

/// The files of a plan: every component's, in order.
pub open spec fn plan_files(cs: Seq<ComponentModel>, priority: int, mod_name: Seq<char>) -> Seq<
    (Seq<char>, Seq<char>),
>
    decreases cs.len(),
{
    if cs.len() == 0 {
        Seq::empty()
    } else {
        plan_files(cs.drop_last(), priority, mod_name) + component_plan(cs.last(), priority, mod_name)
    }
}

/// The folder a UE4SS component is registered under.
pub open spec fn registration(c: ComponentModel, mod_name: Seq<char>) -> Option<Seq<char>> {
    if needs_registration_type(c.mod_type) {
        Some(
            match c.ue4ss_mod_name {
                Some(n) => n,
                None => sanitized(mod_name),
            },
        )
    } else {
        None
    }
}

/// The folders to register, first appearance first, each once.
pub open spec fn plan_registrations(cs: Seq<ComponentModel>, mod_name: Seq<char>) -> Seq<Seq<char>>
    decreases cs.len(),
{
    if cs.len() == 0 {
        Seq::empty()
    } else {
        let r = plan_registrations(cs.drop_last(), mod_name);
        match registration(cs.last(), mod_name) {
            Some(f) => if r.contains(f) {
                r
            } else {
                r.push(f)
            },
            None => r,
        }
    }
}

fn copy_files(v: &Vec<ComponentFile>) -> (r: Vec<ComponentFile>)
    ensures
        file_views(r@) == file_views(v@),
{
    let mut out: Vec<ComponentFile> = Vec::new();
    let mut i: usize = 0;
    while i < v.len()
        invariant
            i <= v.len(),
            file_views(out@) =~= file_views(v@).subrange(0, i as int),
        decreases v.len() - i,
    {
        let f = v[i].copy();
        let ghost before = file_views(out@);
        out.push(f);
        assert(file_views(out@) =~= before.push(f@));
        assert(file_views(v@).subrange(0, i + 1) =~= file_views(v@).subrange(0, i as int).push(v@[i as int]@));
        i = i + 1;
    }
    out
}

/// Move every target from `<parent>/...` to `<parent>/<folder>/...`.
fn rebase_under(files: &mut Vec<ComponentFile>, parent: &str, folder: &str)
    ensures
        file_views(final(files)@) == rebase_all(file_views(old(files)@), parent@, folder@),
{
    let ghost start = file_views(files@);
    let ghost want = rebase_all(start, parent@, folder@);
    let mut p = chars_of(parent);
    p.push('/');
    let mut i: usize = 0;
    while i < files.len()
        invariant
            i <= files.len(),
            files.len() == start.len(),
            p@ == parent@ + seq!['/'],
            want == rebase_all(start, parent@, folder@),
            forall|k: int| 0 <= k < i ==> #[trigger] file_views(files@)[k] == want[k],
            forall|k: int| i <= k < files.len() ==> #[trigger] file_views(files@)[k] == start[k],
        decreases files.len() - i,
    {
        let ghost before = files@;
        assert(file_views(before)[i as int] == start[i as int]);
        assert(want[i as int] == (start[i as int].0, rebased(start[i as int].1, parent@, folder@)));
        let t = chars_of(files[i].target.as_str());
        let moved: Option<Vec<char>> = if starts_with(t.as_slice(), p.as_slice()) {
            let rest = slice_chars(t.as_slice(), p.len(), t.len());
            let a = concat_chars(p.as_slice(), chars_of(folder).as_slice());
            let mut a = a;
            a.push('/');
            Some(concat_chars(a.as_slice(), rest.as_slice()))
        } else if chars_eq(t.as_slice(), chars_of(parent).as_slice()) {
            let mut a = concat_chars(p.as_slice(), chars_of(folder).as_slice());
            a.push('/');
            Some(a)
        } else {
            None
        };
        match moved {
            Some(nt) => {
                assert(nt@ =~= rebased(t@, parent@, folder@));
                let f = ComponentFile {
                    source: files[i].source.clone(),
                    target: string_from_chars(nt.as_slice()),
                };
                files.set(i, f);
                assert forall|k: int| 0 <= k < files.len() && k != i implies #[trigger] file_views(
                    files@,
                )[k] == file_views(before)[k] by {
                    assert(files@[k] == before[k]);
                }
            },
            None => {
                assert(rebased(t@, parent@, folder@) == t@);
            },
        }
        i = i + 1;
    }
    assert(file_views(files@) =~= want);
}

/// Whether a list of texts holds `x`.
pub fn contains_text(v: &Vec<String>, x: &str) -> (r: bool)
    ensures
        r == string_views(v@).contains(x@),
{
    let mut i: usize = 0;
    while i < v.len()
        invariant
            i <= v.len(),
            forall|k: int| 0 <= k < i ==> string_views(v@)[k] != x@,
        decreases v.len() - i,
    {
        if chars_eq(chars_of(v[i].as_str()).as_slice(), chars_of(x).as_slice()) {
            assert(string_views(v@)[i as int] == x@);
            return true;
        }
        i = i + 1;
    }
    false
}

/// Build the deployment plan for one mod.
///
/// `priority` drives the numeric prefix applied to load-ordered paks;
/// `mod_name` is the fallback folder name for UE4SS mods whose archive did not
/// carry one.
pub fn build_plan(
    mod_id: i64,
    staging_root: &str,
    components: &[DetectedComponent],
    priority: i64,
    mod_name: &str,
) -> (r: DeployPlan)
    ensures
        r.mod_id == mod_id,
        r.staging_root@ == staging_root@,
        planned_views(r.files@) == plan_files(component_views(components@), priority as int, mod_name@),
        string_views(r.ue4ss_registrations@) == plan_registrations(component_views(components@), mod_name@),
{
    let ghost cv = component_views(components@);
    let mut files: Vec<PlannedFile> = Vec::new();
    let mut regs: Vec<String> = Vec::new();
    let mut i: usize = 0;
    while i < components.len()
        invariant
            i <= components.len(),
            cv == component_views(components@),
            planned_views(files@) == plan_files(cv.subrange(0, i as int), priority as int, mod_name@),
            string_views(regs@) == plan_registrations(cv.subrange(0, i as int), mod_name@),
        decreases components.len() - i,
    {
        let ghost done = cv.subrange(0, i + 1);
        assert(done.drop_last() =~= cv.subrange(0, i as int));
        let c = &components[i];
        assert(done.last() == c@);
        let mut cf = copy_files(&c.files);
        if c.mod_type.needs_ue4ss_registration() {
            let folder = match &c.ue4ss_mod_name {
                Some(name) => name.clone(),
                None => {
                    let folder = sanitize_folder_name(mod_name);
                    rebase_under(&mut cf, UE4SS_MODS, folder.as_str());
                    folder
                },
            };
            assert(registration(c@, mod_name@) == Some(folder@));
            let ghost before = string_views(regs@);
            if !contains_text(&regs, folder.as_str()) {
                regs.push(folder);
                assert(string_views(regs@) =~= before.push(folder@));
            }
        }
        if c.mod_type.is_load_ordered() {
            apply_load_order(&mut cf, c.pak_sets.as_slice(), priority);
        }
        assert(file_views(cf@) == component_plan(c@, priority as int, mod_name@));
        let ghost before_files = planned_views(files@);
        let mut k: usize = 0;
        while k < cf.len()
            invariant
                k <= cf.len(),
                planned_views(files@) =~= before_files + file_views(cf@).subrange(0, k as int),
            decreases cf.len() - k,
        {
            let f = PlannedFile { source: cf[k].source.clone(), target: cf[k].target.clone() };
            let ghost b = planned_views(files@);
            files.push(f);
            assert(planned_views(files@) =~= b.push(f@));
            assert(file_views(cf@).subrange(0, k + 1) =~= file_views(cf@).subrange(0, k as int).push(cf@[k as int]@));
            k = k + 1;
        }
        assert(file_views(cf@).subrange(0, cf.len() as int) =~= file_views(cf@));
        i = i + 1;
    }
    assert(cv.subrange(0, components.len() as int) =~= cv);
    DeployPlan {
        mod_id,
        staging_root: string_from_chars(chars_of(staging_root).as_slice()),
        files,
        ue4ss_registrations: regs,
    }
}

// ---------------------------------------------------------------------------
// Re-routing
// ---------------------------------------------------------------------------

/// `Path::new(root).join(x)` for relative `x`.
pub open spec fn join_path(root: Seq<char>, x: Seq<char>) -> Seq<char> {
    if root.len() == 0 {
        x
    } else {
        root + seq!['/'] + x
    }
}

/// The directory a component re-routed to `t` installs into.
pub open spec fn retarget_root(c: ComponentModel, t: ModType, mod_name: Seq<char>) -> Seq<char> {
    if t == ModType::Ue4ssLua || t == ModType::Ue4ssDll {
        UE4SS_MODS@ + seq!['/'] + match c.ue4ss_mod_name {
            Some(n) => n,
            None => sanitized(mod_name),
        }
    } else {
        target_dir_of(t)
    }
}

/// Where a source lands when re-routed under `root`.
pub open spec fn retarget_file(source: Seq<char>, t: ModType, root: Seq<char>) -> Seq<char> {
    if is_flat_type(t) {
        join_path(
            root,
            match path_file_name(source) {
                Some(n) => n,
                None => source,
            },
        )
    } else {
        join_path(root, source)
    }
}

/// `\` turned into `/`.
pub open spec fn slash_fixed(s: Seq<char>) -> Seq<char> {
    s.map_values(|c: char| if c == '\\' { '/' } else { c })
}

/// The entry a component file stands for when its pak sets are regrouped.
pub open spec fn source_entry(f: (Seq<char>, Seq<char>)) -> EntryModel {
    EntryModel { path: f.0, rel: f.0, norm: slash_fixed(lower(f.0)) }
}

pub open spec fn source_entries(files: Seq<(Seq<char>, Seq<char>)>) -> Seq<EntryModel> {
    files.map_values(|f: (Seq<char>, Seq<char>)| source_entry(f))
}

/// What `retarget` makes of a component.
pub open spec fn retargeted(c: ComponentModel, t: ModType, mod_name: Seq<char>) -> ComponentModel {
    let root = retarget_root(c, t, mod_name);
    let es = source_entries(c.files);
    ComponentModel {
        mod_type: t,
        confidence: Confidence::High,
        files: c.files.map_values(
            |f: (Seq<char>, Seq<char>)| (f.0, retarget_file(f.0, t, root)),
        ),
        target_subdir: root,
        ue4ss_mod_name: c.ue4ss_mod_name,
        pak_sets: if is_load_ordered_type(t) {
            pak_sets_of(es)
        } else {
            Seq::empty()
        },
        warnings: pak_warnings_of(es),
        notes: Seq::empty(),
    }
}

/// Re-routing keeps each file's source and decides its target by the new
/// type. A UE4SS Lua or C++ mod keeps its whole folder structure under its
/// own folder in `ue4ss/Mods` (named as detected, else after the mod), so a
/// `Scripts/` folder UE4SS needs survives. Generic paks, logic mods and
/// movies are flattened into their folder under their file names. Every
/// other type keeps the whole source path under its folder.
pub proof fn law_retargeting_keeps_folders_except_for_flat_types(c: ComponentModel, t: ModType, mod_name: Seq<char>)
    ensures
        ({
            let r = retargeted(c, t, mod_name);
            let folder = match c.ue4ss_mod_name {
                Some(n) => n,
                None => sanitized(mod_name),
            };
            &&& r.mod_type == t
            &&& r.files.len() == c.files.len()
            &&& forall|i: int| 0 <= i < c.files.len() ==> (#[trigger] r.files[i]).0 == c.files[i].0
            &&& (t == ModType::Ue4ssLua || t == ModType::Ue4ssDll) ==> {
                &&& r.target_subdir == UE4SS_MODS@ + seq!['/'] + folder
                &&& forall|i: int| 0 <= i < c.files.len() ==> (#[trigger] r.files[i]).1
                    == UE4SS_MODS@ + seq!['/'] + folder + seq!['/'] + c.files[i].0
            }
            &&& (t == ModType::GenericPak || t == ModType::LogicMod || t == ModType::Movie) ==> {
                &&& r.target_subdir == target_dir_of(t)
                &&& forall|i: int| 0 <= i < c.files.len() ==> (#[trigger] r.files[i]).1
                    == join_path(target_dir_of(t), match path_file_name(c.files[i].0) {
                        Some(n) => n,
                        None => c.files[i].0,
                    })
            }
            &&& !(t == ModType::Ue4ssLua || t == ModType::Ue4ssDll || t == ModType::GenericPak
                || t == ModType::LogicMod || t == ModType::Movie) ==> {
                &&& r.target_subdir == target_dir_of(t)
                &&& forall|i: int| 0 <= i < c.files.len() ==> (#[trigger] r.files[i]).1
                    == join_path(target_dir_of(t), c.files[i].0)
            }
        }),
{
    let r = retargeted(c, t, mod_name);
    let root = retarget_root(c, t, mod_name);
    assert forall|i: int| 0 <= i < c.files.len() implies (#[trigger] r.files[i]) == (
        c.files[i].0,
        retarget_file(c.files[i].0, t, root),
    ) by {}
    if t == ModType::Ue4ssLua || t == ModType::Ue4ssDll {
        assert(root.len() > 0);
        assert forall|i: int| 0 <= i < c.files.len() implies (#[trigger] r.files[i]).1
            == root + seq!['/'] + c.files[i].0 by {}
    }
}

pub fn join_path_exec(root: &[char], x: &[char]) -> (r: Vec<char>)
    ensures
        r@ == join_path(root@, x@),
{
    if root.len() == 0 {
        copy_chars(x)
    } else {
        let mut a = copy_chars(root);
        a.push('/');
        concat_chars(a.as_slice(), x)
    }
}

/// Re-route a component after the user corrects its detected type.
///
/// Detection is a guess for `Unknown` payloads; this recomputes destinations
/// from scratch for the chosen type rather than patching the old ones.
pub fn retarget(component: &DetectedComponent, new_type: ModType, mod_name: &str) -> (r:
    DetectedComponent)
    ensures
        r@ == retargeted(component@, new_type, mod_name@),
{
    let root: Vec<char> = if new_type == ModType::Ue4ssLua || new_type == ModType::Ue4ssDll {
        let folder = match &component.ue4ss_mod_name {
            Some(n) => n.clone(),
            None => sanitize_folder_name(mod_name),
        };
        let mut a = chars_of(UE4SS_MODS);
        a.push('/');
        concat_chars(a.as_slice(), chars_of(folder.as_str()).as_slice())
    } else {
        chars_of(new_type.target_subdir())
    };
    assert(root@ == retarget_root(component@, new_type, mod_name@));
    let ghost src = file_views(component.files@);
    let mut files: Vec<ComponentFile> = Vec::new();
    let mut entries: Vec<TreeEntry> = Vec::new();
    let mut i: usize = 0;
    while i < component.files.len()
        invariant
            i <= component.files.len(),
            src == file_views(component.files@),
            root@ == retarget_root(component@, new_type, mod_name@),
            file_views(files@) =~= src.subrange(0, i as int).map_values(
                |f: (Seq<char>, Seq<char>)| (f.0, retarget_file(f.0, new_type, root@)),
            ),
            entry_views(entries@) =~= source_entries(src.subrange(0, i as int)),
        decreases component.files.len() - i,
    {
        let s = chars_of(component.files[i].source.as_str());
        let t = if new_type.is_flat_target() {
            let name = match crate::loadorder::path_file_name_exec(s.as_slice()) {
                Some(n) => n,
                None => copy_chars(s.as_slice()),
            };
            join_path_exec(root.as_slice(), name.as_slice())
        } else {
            join_path_exec(root.as_slice(), s.as_slice())
        };
        assert(t@ == retarget_file(s@, new_type, root@));
        let nf = ComponentFile {
            source: component.files[i].source.clone(),
            target: string_from_chars(t.as_slice()),
        };
        let ghost bf = file_views(files@);
        files.push(nf);
        assert(file_views(files@) =~= bf.push(nf@));
        let low = lower_chars(s.as_slice());
        let mut norm: Vec<char> = Vec::new();
        let mut j: usize = 0;
        while j < low.len()
            invariant
                j <= low.len(),
                norm@ =~= slash_fixed(low@.subrange(0, j as int)),
            decreases low.len() - j,
        {
            let ch = if low[j] == '\\' {
                '/'
            } else {
                low[j]
            };
            norm.push(ch);
            j = j + 1;
        }
        assert(low@.subrange(0, low.len() as int) =~= low@);
        let ne = TreeEntry {
            path: component.files[i].source.clone(),
            rel: component.files[i].source.clone(),
            norm: string_from_chars(norm.as_slice()),
        };
        let ghost be = entry_views(entries@);
        entries.push(ne);
        assert(entry_views(entries@) =~= be.push(ne@));
        assert(ne@ == source_entry(src[i as int]));
        assert(src.subrange(0, i + 1) =~= src.subrange(0, i as int).push(src[i as int]));
        i = i + 1;
    }
    assert(src.subrange(0, component.files.len() as int) =~= src);
    let (sets, warnings) = build_pak_sets(entries.as_slice());
    let pak_sets: Vec<PakSet> = if new_type.is_load_ordered() {
        sets
    } else {
        Vec::new()
    };
    let r = DetectedComponent {
        mod_type: new_type,
        confidence: Confidence::High,
        files,
        target_subdir: string_from_chars(root.as_slice()),
        ue4ss_mod_name: match &component.ue4ss_mod_name {
            Some(n) => Some(n.clone()),
            None => None,
        },
        pak_sets,
        warnings,
        notes: Vec::new(),
    };
    assert(set_views(r.pak_sets@) =~= retargeted(component@, new_type, mod_name@).pak_sets);
    assert(string_views(r.notes@) =~= Seq::<Seq<char>>::empty());
    r
}

} // verus!
