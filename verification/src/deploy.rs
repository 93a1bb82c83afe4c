//! What a deployment records, and where it may write.

use vstd::prelude::*;

use crate::model::opt_view;
use crate::text::{chars_eq, chars_of, components, lemma_filter_step, path_join, path_join_exec, split, split_chars, views};

verus! {

/// One file the manager put into the game folder.
#[derive(Debug, Clone, PartialEq, Eq)]
pub struct DeployedFile {
    /// Path relative to the game root.
    pub target: String,
    /// Which mod owns this file.
    pub mod_id: i64,
    /// Where the pre-existing file was moved to, if this deployment displaced
    /// a real game file. Relative to the backup root.
    pub backup: Option<String>,
    /// Size at deploy time, used to spot outside edits.
    pub size: u64,
}

pub struct DeployedModel {
    pub target: Seq<char>,
    pub mod_id: i64,
    pub backup: Option<Seq<char>>,
    pub size: u64,
}

impl View for DeployedFile {
    type V = DeployedModel;

    open spec fn view(&self) -> DeployedModel {
        DeployedModel { target: self.target@, mod_id: self.mod_id, backup: opt_view(self.backup), size: self.size }
    }
}

pub open spec fn deployed_views(v: Seq<DeployedFile>) -> Seq<DeployedModel> {
    v.map_values(|f: DeployedFile| f@)
}

/// The complete record of one deployment pass.
///
/// This is the only thing removal trusts. It is persisted so that a crash,
/// or the app being reinstalled, still leaves the game folder recoverable.
#[derive(Debug, Clone, Default, PartialEq, Eq)]
pub struct Manifest {
    pub files: Vec<DeployedFile>,
    /// Directories created, relative to the game root, deepest last.
    pub created_dirs: Vec<String>,
}

pub struct ManifestModel {
    pub files: Seq<DeployedModel>,
    pub created_dirs: Seq<Seq<char>>,
}

impl View for Manifest {
    type V = ManifestModel;

    open spec fn view(&self) -> ManifestModel {
        ManifestModel { files: deployed_views(self.files@), created_dirs: crate::text::string_views(self.created_dirs@) }
    }
}

/// Directories appended, each once.
pub open spec fn add_dirs(dirs: Seq<Seq<char>>, more: Seq<Seq<char>>) -> Seq<Seq<char>>
    decreases more.len(),
{
    if more.len() == 0 {
        dirs
    } else {
        let d = add_dirs(dirs, more.drop_last());
        if d.contains(more.last()) {
            d
        } else {
            d.push(more.last())
        }
    }
}

/// The directories of `more` that `dirs` does not hold, each where it first
/// occurs in `more`, in order.
pub open spec fn fresh_dirs(dirs: Seq<Seq<char>>, more: Seq<Seq<char>>) -> Seq<Seq<char>>
    decreases more.len(),
{
    if more.len() == 0 {
        Seq::empty()
    } else {
        let f = fresh_dirs(dirs, more.drop_last());
        if dirs.contains(more.last()) || f.contains(more.last()) {
            f
        } else {
            f.push(more.last())
        }
    }
}

/// No directory is listed twice.
pub open spec fn no_repeats(s: Seq<Seq<char>>) -> bool {
    forall|i: int, j: int| 0 <= i < j < s.len() ==> s[i] != s[j]
}

/// Merging directory lists keeps the old list as it was and appends the new
/// directories, each once, in the order they first occur; a list with no
/// directory twice stays so.
pub proof fn law_merge_adds_each_new_directory_once(dirs: Seq<Seq<char>>, more: Seq<Seq<char>>)
    ensures
        add_dirs(dirs, more) == dirs + fresh_dirs(dirs, more),
        forall|x: Seq<char>| #[trigger] fresh_dirs(dirs, more).contains(x) <==> (more.contains(x) && !dirs.contains(x)),
        no_repeats(fresh_dirs(dirs, more)),
        no_repeats(dirs) ==> no_repeats(add_dirs(dirs, more)),
    decreases more.len(),
{
    if more.len() == 0 {
        assert(dirs + Seq::<Seq<char>>::empty() =~= dirs);
    } else {
        let pre = more.drop_last();
        let x = more.last();
        law_merge_adds_each_new_directory_once(dirs, pre);
        let f = fresh_dirs(dirs, pre);
        let d = add_dirs(dirs, pre);
        assert(d.contains(x) <==> (dirs.contains(x) || f.contains(x))) by {
            if d.contains(x) {
                let i = choose|i: int| 0 <= i < d.len() && d[i] == x;
                if i >= dirs.len() {
                    assert(f[i - dirs.len()] == x);
                }
            }
            if dirs.contains(x) {
                let i = choose|i: int| 0 <= i < dirs.len() && dirs[i] == x;
                assert(d[i] == x);
            }
            if f.contains(x) {
                let i = choose|i: int| 0 <= i < f.len() && f[i] == x;
                assert(d[dirs.len() + i] == x);
            }
        }
        if !(dirs.contains(x) || f.contains(x)) {
            assert(d.push(x) =~= dirs + f.push(x));
        }
        assert forall|y: Seq<char>| #[trigger] fresh_dirs(dirs, more).contains(y) <==> (more.contains(y) && !dirs.contains(y)) by {
            assert(more =~= pre.push(x));
            if more.contains(y) {
                let i = choose|i: int| 0 <= i < more.len() && more[i] == y;
                if i < pre.len() {
                    assert(pre[i] == y);
                }
            }
            if pre.contains(y) {
                let i = choose|i: int| 0 <= i < pre.len() && pre[i] == y;
                assert(more[i] == y);
            }
            assert(more[more.len() - 1] == x);
            if !(dirs.contains(x) || f.contains(x)) {
                let g = f.push(x);
                if g.contains(y) {
                    let i = choose|i: int| 0 <= i < g.len() && g[i] == y;
                    if i < f.len() {
                        assert(f[i] == y);
                    }
                }
                if f.contains(y) {
                    let i = choose|i: int| 0 <= i < f.len() && f[i] == y;
                    assert(g[i] == y);
                }
                assert(g[f.len() as int] == x);
            }
        }
        let a = add_dirs(dirs, more);
        if no_repeats(dirs) {
            assert forall|i: int, j: int| 0 <= i < j < a.len() implies a[i] != a[j] by {
                if j == a.len() - 1 && !(dirs.contains(x) || f.contains(x)) {
                    assert(a[j] == x);
                    if a[i] == x {
                        assert(d[i] == x);
                    }
                } else {
                    assert(a[i] == d[i] && a[j] == d[j]);
                }
            }
        }
        let g = fresh_dirs(dirs, more);
        assert forall|i: int, j: int| 0 <= i < j < g.len() implies g[i] != g[j] by {
            if j == g.len() - 1 && !(dirs.contains(x) || f.contains(x)) {
                assert(g[j] == x);
                if g[i] == x {
                    assert(f[i] == x);
                }
            } else {
                assert(g[i] == f[i] && g[j] == f[j]);
            }
        }
    }
}

pub open spec fn owned_by(mod_id: i64) -> spec_fn(DeployedModel) -> bool {
    |f: DeployedModel| f.mod_id == mod_id
}

pub open spec fn not_owned_by(mod_id: i64) -> spec_fn(DeployedModel) -> bool {
    |f: DeployedModel| f.mod_id != mod_id
}

fn copy_file(f: &DeployedFile) -> (r: DeployedFile)
    ensures
        r@ == f@,
{
    DeployedFile { target: f.target.clone(), mod_id: f.mod_id, backup: crate::model::copy_opt(&f.backup), size: f.size }
}

impl Manifest {
    pub fn is_empty(&self) -> (r: bool)
        ensures
            r == (self@.files.len() == 0),
    {
        self.files.len() == 0
    }

    /// Add another pass's record: its files after these, its directories
    /// where not already listed.
    pub fn merge(&mut self, other: Manifest)
        ensures
            final(self)@.files == old(self)@.files + other@.files,
            final(self)@.created_dirs == add_dirs(old(self)@.created_dirs, other@.created_dirs),
    {
        let ghost f0 = self@.files;
        let ghost d0 = self@.created_dirs;
        let ghost of = other@.files;
        let ghost od = other@.created_dirs;
        let mut i: usize = 0;
        while i < other.files.len()
            invariant
                i <= other.files.len(),
                of == deployed_views(other.files@),
                od == crate::text::string_views(other.created_dirs@),
                deployed_views(self.files@) =~= f0 + of.subrange(0, i as int),
                crate::text::string_views(self.created_dirs@) == d0,
            decreases other.files.len() - i,
        {
            let f = copy_file(&other.files[i]);
            let ghost b = deployed_views(self.files@);
            self.files.push(f);
            assert(deployed_views(self.files@) =~= b.push(f@));
            assert(of.subrange(0, i + 1) =~= of.subrange(0, i as int).push(of[i as int]));
            i = i + 1;
        }
        assert(of.subrange(0, other.files.len() as int) =~= of);
        let mut j: usize = 0;
        assert(od.subrange(0, 0) =~= Seq::<Seq<char>>::empty());
        while j < other.created_dirs.len()
            invariant
                j <= other.created_dirs.len(),
                od == crate::text::string_views(other.created_dirs@),
                deployed_views(self.files@) == f0 + of,
                crate::text::string_views(self.created_dirs@) == add_dirs(d0, od.subrange(0, j as int)),
            decreases other.created_dirs.len() - j,
        {
            let ghost t = od.subrange(0, j + 1);
            assert(t.drop_last() =~= od.subrange(0, j as int));
            assert(t.last() == other.created_dirs@[j as int]@);
            let d = &other.created_dirs[j];
            if !crate::plan::contains_text(&self.created_dirs, d.as_str()) {
                let ghost b = crate::text::string_views(self.created_dirs@);
                self.created_dirs.push(d.clone());
                assert(crate::text::string_views(self.created_dirs@) =~= b.push(d@));
            }
            j = j + 1;
        }
        assert(od.subrange(0, other.created_dirs.len() as int) =~= od);
    }

    /// Split out the entries belonging to one mod, leaving the rest in
    /// place. Directory pruning only ever removes empty directories, so the
    /// full directory list goes with each removal.
    pub fn take_mod(&mut self, mod_id: i64) -> (r: Manifest)
        ensures
            r@.files == old(self)@.files.filter(owned_by(mod_id)),
            final(self)@.files == old(self)@.files.filter(not_owned_by(mod_id)),
            r@.created_dirs == old(self)@.created_dirs,
            final(self)@.created_dirs == old(self)@.created_dirs,
    {
        let ghost fv = self@.files;
        let mut mine: Vec<DeployedFile> = Vec::new();
        let mut theirs: Vec<DeployedFile> = Vec::new();
        let mut i: usize = 0;
        while i < self.files.len()
            invariant
                i <= self.files.len(),
                fv == deployed_views(self.files@),
                deployed_views(mine@) == fv.subrange(0, i as int).filter(owned_by(mod_id)),
                deployed_views(theirs@) == fv.subrange(0, i as int).filter(not_owned_by(mod_id)),
            decreases self.files.len() - i,
        {
            let ghost t = fv.subrange(0, i + 1);
            assert(t.drop_last() =~= fv.subrange(0, i as int));
            assert(t.last() == self.files@[i as int]@);
            proof {
                lemma_filter_step(t, owned_by(mod_id));
                lemma_filter_step(t, not_owned_by(mod_id));
            }
            let f = copy_file(&self.files[i]);
            if f.mod_id == mod_id {
                let ghost b = deployed_views(mine@);
                mine.push(f);
                assert(deployed_views(mine@) =~= b.push(f@));
            } else {
                let ghost b = deployed_views(theirs@);
                theirs.push(f);
                assert(deployed_views(theirs@) =~= b.push(f@));
            }
            i = i + 1;
        }
        assert(fv.subrange(0, self.files.len() as int) =~= fv);
        self.files = theirs;
        let mut dirs: Vec<String> = Vec::new();
        let mut k: usize = 0;
        while k < self.created_dirs.len()
            invariant
                k <= self.created_dirs.len(),
                crate::text::string_views(dirs@) =~= crate::text::string_views(self.created_dirs@).subrange(0, k as int),
            decreases self.created_dirs.len() - k,
        {
            let d = self.created_dirs[k].clone();
            let ghost b = crate::text::string_views(dirs@);
            dirs.push(d);
            assert(crate::text::string_views(dirs@) =~= b.push(d@));
            k = k + 1;
        }
        Manifest { files: mine, created_dirs: dirs }
    }
}

proof fn lemma_filter_concat(a: Seq<DeployedModel>, b: Seq<DeployedModel>, p: spec_fn(DeployedModel) -> bool)
    ensures
        (a + b).filter(p) == a.filter(p) + b.filter(p),
    decreases b.len(),
{
    if b.len() == 0 {
        assert(a + b =~= a);
        assert(b.filter(p) =~= Seq::<DeployedModel>::empty()) by {
            reveal(Seq::filter);
        }
        assert(a.filter(p) + b.filter(p) =~= a.filter(p));
    } else {
        let b2 = b.drop_last();
        lemma_filter_concat(a, b2, p);
        assert((a + b).drop_last() =~= a + b2);
        assert((a + b).last() == b.last());
        lemma_filter_step(a + b, p);
        lemma_filter_step(b, p);
        if p(b.last()) {
            assert(a.filter(p) + b2.filter(p).push(b.last()) =~= (a.filter(p) + b2.filter(p)).push(b.last()));
        }
    }
}

/// A mod's record merged into a manifest that held nothing of that mod is
/// exactly what taking the mod out again gives back, and the rest is left as
/// it was.
pub proof fn law_take_mod_undoes_merge(before: Seq<DeployedModel>, added: Seq<DeployedModel>, mod_id: i64)
    requires
        forall|i: int| 0 <= i < before.len() ==> (#[trigger] before[i]).mod_id != mod_id,
        forall|i: int| 0 <= i < added.len() ==> (#[trigger] added[i]).mod_id == mod_id,
    ensures
        (before + added).filter(owned_by(mod_id)) == added,
        (before + added).filter(not_owned_by(mod_id)) == before,
{
    lemma_filter_concat(before, added, owned_by(mod_id));
    lemma_filter_concat(before, added, not_owned_by(mod_id));
    lemma_filter_all(added, owned_by(mod_id));
    lemma_filter_none(before, owned_by(mod_id));
    lemma_filter_all(before, not_owned_by(mod_id));
    lemma_filter_none(added, not_owned_by(mod_id));
    assert(added.filter(owned_by(mod_id)) == added);
    assert(Seq::<DeployedModel>::empty() + added =~= added);
    assert(before + Seq::<DeployedModel>::empty() =~= before);
}

proof fn lemma_filter_all(s: Seq<DeployedModel>, p: spec_fn(DeployedModel) -> bool)
    requires
        forall|i: int| 0 <= i < s.len() ==> p(#[trigger] s[i]),
    ensures
        s.filter(p) == s,
    decreases s.len(),
{
    if s.len() == 0 {
        reveal(Seq::filter);
        assert(s.filter(p) =~= s);
    } else {
        let t = s.drop_last();
        assert forall|i: int| 0 <= i < t.len() implies p(#[trigger] t[i]) by {
            assert(t[i] == s[i]);
        }
        lemma_filter_all(t, p);
        lemma_filter_step(s, p);
        assert(p(s[s.len() - 1]));
        assert(t.push(s.last()) =~= s);
    }
}

proof fn lemma_filter_none(s: Seq<DeployedModel>, p: spec_fn(DeployedModel) -> bool)
    requires
        forall|i: int| 0 <= i < s.len() ==> !p(#[trigger] s[i]),
    ensures
        s.filter(p) == Seq::<DeployedModel>::empty(),
    decreases s.len(),
{
    if s.len() == 0 {
        reveal(Seq::filter);
        assert(s.filter(p) =~= Seq::<DeployedModel>::empty());
    } else {
        let t = s.drop_last();
        assert forall|i: int| 0 <= i < t.len() implies !p(#[trigger] t[i]) by {
            assert(t[i] == s[i]);
        }
        lemma_filter_none(t, p);
        lemma_filter_step(s, p);
        assert(!p(s[s.len() - 1]));
    }
}

// ---------------------------------------------------------------------------
// Where deployment may write
// ---------------------------------------------------------------------------

#[derive(Debug)]
pub enum DeployError {
    /// The file system refused; the message says why.
    Io { path: String, message: String },
    /// A source file is missing from staging.
    MissingSource(String),
    /// A target that would land outside the game folder.
    EscapesGameRoot(String),
    Other(String),
}

impl DeployError {
    /// A file-system failure at a path.
    pub fn io(path: &str, message: &str) -> (r: DeployError)
        ensures
            r matches DeployError::Io { path: p, message: m } && p@ == path@ && m@ == message@,
    {
        DeployError::Io { path: crate::text::owned(path), message: crate::text::owned(message) }
    }
}

/// A file in the game folder that no longer matches what was deployed.
#[derive(Debug, Clone, PartialEq, Eq)]
pub struct Drift {
    pub target: String,
    pub kind: DriftKind,
}

#[derive(Debug, Clone, Copy, PartialEq, Eq, Structural)]
pub enum DriftKind {
    /// Deployed, then removed by something else.
    Missing,
    /// Still there, but its size no longer matches the staged file.
    Modified,
}

/// Where the deployment engine is allowed to operate.
#[derive(Debug, Clone)]
pub struct DeployContext {
    /// The directory containing `SB/`.
    pub game_root: String,
    /// Where displaced original game files are parked.
    pub backup_root: String,
}

/// The deployment strategy that links staged files into the game folder.
#[derive(Debug, Default, Clone, Copy)]
pub struct HardlinkBackend;

/// The root joined with each named component in turn.
pub open spec fn joined_all(root: Seq<char>, comps: Seq<Seq<char>>) -> Seq<char>
    decreases comps.len(),
{
    if comps.len() == 0 {
        root
    } else {
        path_join(joined_all(root, comps.drop_last()), comps.last())
    }
}

/// A target that climbs out of the folder it is put in, starts at a root,
/// or names a drive, read as Windows (the game's platform) reads it.
pub open spec fn escapes(relative: Seq<char>) -> bool {
    !crate::archive::safe_relative(relative)
}

/// Reject targets that would escape the game folder via `..` or an absolute
/// path. Archives are untrusted input, so this is enforced before any write.
/// Both `/` and `\\` separate pieces; the result joins the named pieces
/// onto the root with `/`, skipping empty and `.` pieces.
pub fn resolve_target(game_root: &str, relative: &str) -> (r: Result<String, DeployError>)
    ensures
        escapes(relative@) ==> (r matches Err(DeployError::EscapesGameRoot(p)) && p@ == relative@),
        !escapes(relative@) ==> (r matches Ok(p) && p@ == joined_all(
            game_root@,
            components(crate::archive::with_slashes(relative@)),
        )),
{
    if !crate::archive::is_safe_relative(relative) {
        return Err(DeployError::EscapesGameRoot(crate::text::owned(relative)));
    }
    let comps = crate::text::components_of(crate::archive::with_slashes_exec(chars_of(relative).as_slice()).as_slice());
    let ghost cv = views(comps@);
    let mut out = crate::text::owned(game_root);
    let mut i: usize = 0;
    while i < comps.len()
        invariant
            i <= comps.len(),
            cv == views(comps@),
            out@ == joined_all(game_root@, cv.subrange(0, i as int)),
        decreases comps.len() - i,
    {
        let ghost t = cv.subrange(0, i + 1);
        assert(t.drop_last() =~= cv.subrange(0, i as int));
        assert(t.last() == comps@[i as int]@);
        let part = crate::text::string_from_chars(comps[i].as_slice());
        out = path_join_exec(out.as_str(), part.as_str());
        i = i + 1;
    }
    assert(cv.subrange(0, comps.len() as int) =~= cv);
    Ok(out)
}

// ---------------------------------------------------------------------------
// Drift: what changed in the game folder behind the manager's back
// ---------------------------------------------------------------------------

/// What became of one deployed file, given its size on disk now (none when
/// it is gone).
pub open spec fn drift_kind_of(recorded: u64, now: Option<u64>) -> Option<DriftKind> {
    match now {
        None => Some(DriftKind::Missing),
        Some(n) => if n != recorded {
            Some(DriftKind::Modified)
        } else {
            None
        },
    }
}

/// The drift of a record, file by file in order, given what is on disk for
/// each.
pub open spec fn drifts_of(files: Seq<DeployedModel>, now: Seq<Option<u64>>) -> Seq<(Seq<char>, DriftKind)>
    decreases files.len(),
{
    if files.len() == 0 || now.len() != files.len() {
        Seq::empty()
    } else {
        let d = drifts_of(files.drop_last(), now.drop_last());
        match drift_kind_of(files.last().size, now.last()) {
            Some(k) => d.push((files.last().target, k)),
            None => d,
        }
    }
}

pub open spec fn drift_views(v: Seq<Drift>) -> Seq<(Seq<char>, DriftKind)> {
    v.map_values(|d: Drift| (d.target@, d.kind))
}

/// The files of a record that were removed or changed since they were
/// deployed. `now` holds each file's size on disk, in the record's order,
/// or nothing where the file is gone.
pub fn drifts(manifest: &Manifest, now: &[Option<u64>]) -> (r: Vec<Drift>)
    requires
        now.len() == manifest.files.len(),
    ensures
        drift_views(r@) == drifts_of(manifest@.files, now@),
{
    let ghost fv = manifest@.files;
    let mut out: Vec<Drift> = Vec::new();
    let mut i: usize = 0;
    while i < now.len()
        invariant
            i <= now.len(),
            now.len() == manifest.files.len(),
            fv == deployed_views(manifest.files@),
            drift_views(out@) == drifts_of(fv.take(i as int), now@.take(i as int)),
        decreases now.len() - i,
    {
        assert(fv.take(i + 1).drop_last() =~= fv.take(i as int));
        assert(now@.take(i + 1).drop_last() =~= now@.take(i as int));
        let f = &manifest.files[i];
        let kind = match now[i] {
            None => Some(DriftKind::Missing),
            Some(n) => if n != f.size {
                Some(DriftKind::Modified)
            } else {
                None
            },
        };
        if let Some(k) = kind {
            out.push(Drift { target: f.target.clone(), kind: k });
        }
        assert(drift_views(out@) =~= drifts_of(fv.take(i + 1), now@.take(i + 1)));
        i = i + 1;
    }
    assert(fv.take(now.len() as int) =~= fv);
    assert(now@.take(now.len() as int) =~= now@);
    out
}

// ---------------------------------------------------------------------------
// Directories
// ---------------------------------------------------------------------------

/// The directories above a game-relative target, shallowest first: each
/// proper prefix of its components.
pub open spec fn parent_dirs_of(target: Seq<char>) -> Seq<Seq<char>> {
    let c = components(target);
    if c.len() <= 1 {
        Seq::empty()
    } else {
        Seq::new((c.len() - 1) as nat, |k: int| crate::text::join(c.take(k + 1), '/'))
    }
}

/// Every directory above a target, shallowest first, so each one can be
/// created after its parent. Which of them have to be created, and so
/// recorded for removal later, is a question for the file system.
pub fn parent_dirs(target: &str) -> (r: Vec<String>)
    ensures
        crate::text::string_views(r@) == parent_dirs_of(target@),
{
    let comps = crate::text::components_of(chars_of(target).as_slice());
    let ghost cv = views(comps@);
    let mut out: Vec<String> = Vec::new();
    if comps.len() <= 1 {
        proof {
            assert(crate::text::string_views(out@) =~= parent_dirs_of(target@));
        }
        return out;
    }
    let mut prefix: Vec<Vec<char>> = Vec::new();
    let mut k: usize = 0;
    while k + 1 < comps.len()
        invariant
            k + 1 <= comps.len(),
            cv == views(comps@),
            cv == components(target@),
            views(prefix@) == cv.take(k as int),
            out.len() == k,
            forall|j: int| 0 <= j < k ==> (#[trigger] out@[j])@ == crate::text::join(cv.take(j + 1), '/'),
        decreases comps.len() - k,
    {
        let ghost pv0 = views(prefix@);
        let piece = crate::text::copy_chars(comps[k].as_slice());
        prefix.push(piece);
        proof {
            assert(views(prefix@) =~= pv0.push(cv[k as int]));
            assert(cv.take(k + 1) =~= cv.take(k as int).push(cv[k as int]));
        }
        let joined = crate::text::join_chars(&prefix, '/');
        out.push(crate::text::string_from_chars(joined.as_slice()));
        k = k + 1;
    }
    proof {
        assert(crate::text::string_views(out@) =~= parent_dirs_of(target@));
    }
    out
}

/// How deep a directory is: its number of components.
pub open spec fn depth_of(d: Seq<char>) -> nat {
    components(d).len()
}

/// Where `d` goes among directories kept deepest first: after every one at
/// least as deep, before the first shallower one.
pub open spec fn insert_point(s: Seq<Seq<char>>, d: Seq<char>) -> int {
    if exists|i: int| 0 <= i < s.len() && depth_of(#[trigger] s[i]) < depth_of(d) {
        choose|i: int|
            0 <= i < s.len() && depth_of(#[trigger] s[i]) < depth_of(d) && forall|k: int|
                0 <= k < i ==> depth_of(#[trigger] s[k]) >= depth_of(d)
    } else {
        s.len() as int
    }
}

/// `d` placed at its insert point.
pub open spec fn insert_by_depth(s: Seq<Seq<char>>, d: Seq<char>) -> Seq<Seq<char>> {
    s.insert(insert_point(s, d), d)
}

/// The order directories are removed in: deepest first, directories of one
/// depth in the order they were recorded.
pub open spec fn prune_order_of(dirs: Seq<Seq<char>>) -> Seq<Seq<char>>
    decreases dirs.len(),
{
    if dirs.len() == 0 {
        Seq::empty()
    } else {
        insert_by_depth(prune_order_of(dirs.drop_last()), dirs.last())
    }
}

/// The order to try removing created directories in: deepest first, so a
/// directory is only tried once everything inside it has been. Only empty
/// ones go; a directory the user put files into simply stays.
pub fn prune_order(dirs: &[String]) -> (r: Vec<String>)
    ensures
        crate::text::string_views(r@) == prune_order_of(crate::text::string_views(dirs@)),
{
    let ghost dv = crate::text::string_views(dirs@);
    let mut out: Vec<String> = Vec::new();
    let mut depths: Vec<usize> = Vec::new();
    let mut i: usize = 0;
    while i < dirs.len()
        invariant
            i <= dirs.len(),
            dv == crate::text::string_views(dirs@),
            crate::text::string_views(out@) == prune_order_of(dv.take(i as int)),
            depths.len() == out.len(),
            forall|k: int| 0 <= k < out.len() ==> #[trigger] depths@[k] == depth_of(out@[k]@),
        decreases dirs.len() - i,
    {
        assert(dv.take(i + 1).drop_last() =~= dv.take(i as int));
        let d = crate::text::components_of(chars_of(dirs[i].as_str()).as_slice()).len();
        let ghost s = crate::text::string_views(out@);
        let ghost x = dirs@[i as int]@;
        let mut p: usize = 0;
        while p < out.len() && depths[p] >= d
            invariant
                p <= out.len(),
                depths.len() == out.len(),
                forall|k: int| 0 <= k < out.len() ==> #[trigger] depths@[k] == depth_of(out@[k]@),
                s == crate::text::string_views(out@),
                d == depth_of(x),
                forall|k: int| 0 <= k < p ==> depth_of(#[trigger] s[k]) >= depth_of(x),
            decreases out.len() - p,
        {
            assert(s[p as int] == out@[p as int]@);
            p = p + 1;
        }
        proof {
            if p < out.len() {
                assert(s[p as int] == out@[p as int]@);
                assert(depth_of(s[p as int]) < depth_of(x));
                let q = choose|q: int|
                    0 <= q < s.len() && depth_of(#[trigger] s[q]) < depth_of(x) && forall|k: int|
                        0 <= k < q ==> depth_of(#[trigger] s[k]) >= depth_of(x);
                if q < p {
                    assert(depth_of(s[q]) >= depth_of(x));
                }
                if q > p {
                    assert(depth_of(s[p as int]) >= depth_of(x));
                }
                assert(q == p);
            } else {
                assert(!exists|q: int| 0 <= q < s.len() && depth_of(#[trigger] s[q]) < depth_of(x));
            }
            assert(insert_point(s, x) == p as int);
            assert(insert_by_depth(s, x) == s.insert(p as int, x));
        }
        let ghost out0 = out@;
        let ghost depths0 = depths@;
        out.insert(p, dirs[i].clone());
        depths.insert(p, d);
        proof {
            assert(crate::text::string_views(out@) =~= s.insert(p as int, x));
            assert forall|k: int| 0 <= k < out.len() implies #[trigger] depths@[k] == depth_of(out@[k]@) by {
                if k > p as int {
                    assert(out@[k] == out0[k - 1]);
                    assert(depths@[k] == depths0[k - 1]);
                } else if k < p as int {
                    assert(out@[k] == out0[k]);
                    assert(depths@[k] == depths0[k]);
                }
            }
        }
        i = i + 1;
    }
    assert(dv.take(dirs.len() as int) =~= dv);
    out
}

/// Deepest first.
pub open spec fn deepest_first(s: Seq<Seq<char>>) -> bool {
    forall|i: int, j: int| 0 <= i < j < s.len() ==> depth_of(#[trigger] s[i]) >= depth_of(#[trigger] s[j])
}

proof fn lemma_insert_point(s: Seq<Seq<char>>, d: Seq<char>)
    ensures
        0 <= insert_point(s, d) <= s.len(),
        forall|k: int| 0 <= k < insert_point(s, d) ==> depth_of(#[trigger] s[k]) >= depth_of(d),
        insert_point(s, d) < s.len() ==> depth_of(s[insert_point(s, d)]) < depth_of(d),
{
    if exists|i: int| 0 <= i < s.len() && depth_of(#[trigger] s[i]) < depth_of(d) {
        let w = choose|i: int| 0 <= i < s.len() && depth_of(#[trigger] s[i]) < depth_of(d);
        lemma_least_shallower(s, d, w);
    }
}

proof fn lemma_insert_by_depth(s: Seq<Seq<char>>, d: Seq<char>)
    requires
        deepest_first(s),
    ensures
        deepest_first(insert_by_depth(s, d)),
        insert_by_depth(s, d).to_multiset() == s.to_multiset().insert(d),
{
    lemma_insert_point(s, d);
    let p = insert_point(s, d);
    vstd::seq_lib::to_multiset_insert(s, p, d);
    let t = s.insert(p, d);
    assert forall|i: int, j: int| 0 <= i < j < t.len() implies depth_of(#[trigger] t[i]) >= depth_of(
        #[trigger] t[j],
    ) by {
        if j < p {
            assert(t[i] == s[i] && t[j] == s[j]);
        } else if j == p {
            assert(t[i] == s[i]);
        } else if i == p {
            assert(t[j] == s[j - 1]);
            if j - 1 > p {
                assert(depth_of(s[p]) >= depth_of(s[j - 1]));
            }
        } else if i < p {
            assert(t[i] == s[i] && t[j] == s[j - 1]);
        } else {
            assert(t[i] == s[i - 1] && t[j] == s[j - 1]);
        }
    }
}

proof fn lemma_least_shallower(s: Seq<Seq<char>>, d: Seq<char>, w: int)
    requires
        0 <= w < s.len(),
        depth_of(s[w]) < depth_of(d),
    ensures
        exists|i: int|
            0 <= i < s.len() && depth_of(#[trigger] s[i]) < depth_of(d) && forall|k: int|
                0 <= k < i ==> depth_of(#[trigger] s[k]) >= depth_of(d),
    decreases w,
{
    if forall|k: int| 0 <= k < w ==> depth_of(#[trigger] s[k]) >= depth_of(d) {
    } else {
        let k = choose|k: int| 0 <= k < w && depth_of(#[trigger] s[k]) < depth_of(d);
        lemma_least_shallower(s, d, k);
    }
}

/// Created directories are tried deepest first, and every one of them is
/// tried exactly as often as it was recorded: the order is a rearrangement
/// of the record in which no directory comes before a deeper one.
pub proof fn law_pruning_goes_deepest_first(dirs: Seq<Seq<char>>)
    ensures
        deepest_first(prune_order_of(dirs)),
        prune_order_of(dirs).to_multiset() == dirs.to_multiset(),
    decreases dirs.len(),
{
    broadcast use vstd::seq_lib::to_multiset_build;
    if dirs.len() == 0 {
        assert(prune_order_of(dirs) =~= dirs);
    } else {
        law_pruning_goes_deepest_first(dirs.drop_last());
        lemma_insert_by_depth(prune_order_of(dirs.drop_last()), dirs.last());
        assert(dirs =~= dirs.drop_last().push(dirs.last()));
    }
}

} // verus!
