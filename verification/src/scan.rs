//! Finding the upscaler DLLs inside a game folder.
//!
//! Their location is not fixed. Unreal puts plugin binaries under
//! `Engine/Plugins/.../Binaries/ThirdParty/`, some builds put them next to the
//! executable, and a user who has already swapped one by hand may have put it
//! somewhere else again. So the folder is walked (by the caller) and files are
//! matched by name, which is the one thing the game itself relies on. What is
//! decided here is which folders are not worth walking, which files count,
//! and the order they are reported in.

use vstd::prelude::*;

use crate::text::{
    chars_eq, chars_of, lemma_lex_irreflexive, lemma_lex_transitive, lex_less, lex_lt, lower,
    lower_chars, segments, segments_of, views,
};
use crate::upscaler::{component_index, Component, Version};

verus! {

/// An upscaler DLL that is present in the game folder.
#[derive(Debug, Clone, PartialEq, Eq)]
pub struct InstalledFile {
    pub component: Component,
    /// Relative to the game root, with `/` between components, so it
    /// survives the folder being moved.
    pub path: String,
    /// `None` when the file carries no readable version resource.
    pub version: Option<Version>,
}

pub open spec fn file_view(f: InstalledFile) -> (Component, Seq<char>, Option<Version>) {
    (f.component, f.path@, f.version)
}

pub open spec fn file_views(v: Seq<InstalledFile>) -> Seq<(Component, Seq<char>, Option<Version>)> {
    v.map_values(|f: InstalledFile| file_view(f))
}

/// How deep the walk goes. It is over someone's disk: a symlink loop in a
/// game folder should not hang the app.
pub const MAX_DEPTH: usize = 12;

/// Whether a folder is never walked: `~mods`, `LogicMods`, `Saved`, `Movies`
/// and `Content`, in any case. None of them holds a DLL the game loads, and
/// `Content` holds the paks, by far the biggest part of the install.
pub fn skips_dir(name: &str) -> (r: bool)
    ensures
        r == {
            let n = lower(name@);
            n == "~mods"@ || n == "logicmods"@ || n == "saved"@ || n == "movies"@ || n == "content"@
        },
{
    let n = lower_chars(chars_of(name).as_slice());
    chars_eq(n.as_slice(), chars_of("~mods").as_slice()) || chars_eq(n.as_slice(), chars_of("logicmods").as_slice())
        || chars_eq(n.as_slice(), chars_of("saved").as_slice()) || chars_eq(
        n.as_slice(),
        chars_of("movies").as_slice(),
    ) || chars_eq(n.as_slice(), chars_of("content").as_slice())
}

// ---------------------------------------------------------------------------
// The order files are reported in
// ---------------------------------------------------------------------------

/// Paths compared component by component, each component by code point, a
/// path before any path it is a proper prefix of.
pub open spec fn segs_lt(a: Seq<Seq<char>>, b: Seq<Seq<char>>) -> bool
    decreases a.len(),
{
    if b.len() == 0 {
        false
    } else if a.len() == 0 {
        true
    } else if lex_lt(a[0], b[0]) {
        true
    } else if a[0] == b[0] {
        segs_lt(a.drop_first(), b.drop_first())
    } else {
        false
    }
}

proof fn lemma_segs_irreflexive(a: Seq<Seq<char>>)
    ensures
        !segs_lt(a, a),
    decreases a.len(),
{
    if a.len() > 0 {
        lemma_lex_irreflexive(a[0]);
        lemma_segs_irreflexive(a.drop_first());
    }
}

proof fn lemma_segs_transitive(a: Seq<Seq<char>>, b: Seq<Seq<char>>, c: Seq<Seq<char>>)
    requires
        segs_lt(a, b),
        segs_lt(b, c),
    ensures
        segs_lt(a, c),
    decreases a.len(),
{
    if a.len() > 0 {
        if lex_lt(a[0], b[0]) {
            if lex_lt(b[0], c[0]) {
                lemma_lex_transitive(a[0], b[0], c[0]);
            }
        } else if lex_lt(b[0], c[0]) {
        } else {
            lemma_segs_transitive(a.drop_first(), b.drop_first(), c.drop_first());
        }
    }
}

/// Reported order: by component, then by path.
pub open spec fn file_lt(x: (Component, Seq<char>, Option<Version>), y: (Component, Seq<char>, Option<Version>)) -> bool {
    component_index(x.0) < component_index(y.0) || (component_index(x.0) == component_index(y.0)
        && segs_lt(segments(x.1), segments(y.1)))
}

proof fn lemma_file_order(
    x: (Component, Seq<char>, Option<Version>),
    y: (Component, Seq<char>, Option<Version>),
    z: (Component, Seq<char>, Option<Version>),
)
    ensures
        !file_lt(x, x),
        file_lt(x, y) && file_lt(y, z) ==> file_lt(x, z),
        file_lt(x, y) ==> !file_lt(y, x),
{
    lemma_segs_irreflexive(segments(x.1));
    if file_lt(x, y) && file_lt(y, z) && component_index(x.0) == component_index(y.0)
        && component_index(y.0) == component_index(z.0) {
        lemma_segs_transitive(segments(x.1), segments(y.1), segments(z.1));
    }
    if file_lt(x, y) && file_lt(y, x) {
        lemma_segs_transitive(segments(x.1), segments(y.1), segments(x.1));
    }
}

/// In reported order: no file comes after one it should precede.
pub open spec fn in_order(s: Seq<(Component, Seq<char>, Option<Version>)>) -> bool {
    forall|i: int, j: int| 0 <= i < j < s.len() ==> !file_lt(#[trigger] s[j], #[trigger] s[i])
}

/// Where `x` goes among files in reported order: after every file it does
/// not precede, before the first one it does.
pub open spec fn place_of(s: Seq<(Component, Seq<char>, Option<Version>)>, x: (Component, Seq<char>, Option<Version>)) -> int {
    if exists|i: int| 0 <= i < s.len() && file_lt(x, #[trigger] s[i]) {
        choose|i: int|
            0 <= i < s.len() && file_lt(x, #[trigger] s[i]) && forall|k: int|
                0 <= k < i ==> !file_lt(x, #[trigger] s[k])
    } else {
        s.len() as int
    }
}

/// The files in reported order, files that tie keeping the order found.
pub open spec fn ordered_of(s: Seq<(Component, Seq<char>, Option<Version>)>) -> Seq<(Component, Seq<char>, Option<Version>)>
    decreases s.len(),
{
    if s.len() == 0 {
        Seq::empty()
    } else {
        let d = ordered_of(s.drop_last());
        d.insert(place_of(d, s.last()), s.last())
    }
}

proof fn lemma_first_before(
    s: Seq<(Component, Seq<char>, Option<Version>)>,
    x: (Component, Seq<char>, Option<Version>),
    w: int,
)
    requires
        0 <= w < s.len(),
        file_lt(x, s[w]),
    ensures
        exists|i: int|
            0 <= i < s.len() && file_lt(x, #[trigger] s[i]) && forall|k: int|
                0 <= k < i ==> !file_lt(x, #[trigger] s[k]),
    decreases w,
{
    if exists|k: int| 0 <= k < w && file_lt(x, #[trigger] s[k]) {
        let k = choose|k: int| 0 <= k < w && file_lt(x, #[trigger] s[k]);
        lemma_first_before(s, x, k);
    }
}

proof fn lemma_place(s: Seq<(Component, Seq<char>, Option<Version>)>, x: (Component, Seq<char>, Option<Version>))
    ensures
        0 <= place_of(s, x) <= s.len(),
        forall|k: int| 0 <= k < place_of(s, x) ==> !file_lt(x, #[trigger] s[k]),
        place_of(s, x) < s.len() ==> file_lt(x, s[place_of(s, x)]),
{
    if exists|i: int| 0 <= i < s.len() && file_lt(x, #[trigger] s[i]) {
        let w = choose|i: int| 0 <= i < s.len() && file_lt(x, #[trigger] s[i]);
        lemma_first_before(s, x, w);
    }
}

proof fn lemma_place_keeps_order(s: Seq<(Component, Seq<char>, Option<Version>)>, x: (Component, Seq<char>, Option<Version>))
    requires
        in_order(s),
    ensures
        in_order(s.insert(place_of(s, x), x)),
        s.insert(place_of(s, x), x).to_multiset() == s.to_multiset().insert(x),
{
    lemma_place(s, x);
    let p = place_of(s, x);
    vstd::seq_lib::to_multiset_insert(s, p, x);
    let t = s.insert(p, x);
    assert forall|i: int, j: int| 0 <= i < j < t.len() implies !file_lt(#[trigger] t[j], #[trigger] t[i]) by {
        if j < p {
            assert(t[i] == s[i] && t[j] == s[j]);
        } else if j == p {
            assert(t[i] == s[i]);
        } else if i == p {
            assert(t[j] == s[j - 1]);
            lemma_file_order(s[j - 1], x, s[p]);
            if j - 1 > p {
                assert(!file_lt(s[j - 1], s[p]));
            } else {
                lemma_file_order(x, s[p], x);
            }
        } else if i < p {
            assert(t[i] == s[i] && t[j] == s[j - 1]);
        } else {
            assert(t[i] == s[i - 1] && t[j] == s[j - 1]);
        }
    }
}

/// The files are reported by component, then by path, and every file found
/// is reported exactly once: the order is a rearrangement of what was found
/// in which no file comes after one it should precede.
pub proof fn law_every_file_found_is_reported_in_order(found: Seq<(Component, Seq<char>, Option<Version>)>)
    ensures
        in_order(ordered_of(found)),
        ordered_of(found).to_multiset() == found.to_multiset(),
    decreases found.len(),
{
    broadcast use vstd::seq_lib::to_multiset_build;
    if found.len() == 0 {
        assert(ordered_of(found) =~= found);
    } else {
        law_every_file_found_is_reported_in_order(found.drop_last());
        lemma_place_keeps_order(ordered_of(found.drop_last()), found.last());
        assert(found =~= found.drop_last().push(found.last()));
    }
}

fn segs_less(a: &Vec<Vec<char>>, b: &Vec<Vec<char>>) -> (r: bool)
    ensures
        r == segs_lt(views(a@), views(b@)),
{
    let ghost av = views(a@);
    let ghost bv = views(b@);
    let mut i: usize = 0;
    assert(av.skip(0) =~= av);
    assert(bv.skip(0) =~= bv);
    while i < a.len() && i < b.len()
        invariant
            i <= a.len(),
            i <= b.len(),
            av == views(a@),
            bv == views(b@),
            segs_lt(av, bv) == segs_lt(av.skip(i as int), bv.skip(i as int)),
        decreases a.len() - i,
    {
        assert(av.skip(i as int)[0] == a@[i as int]@);
        assert(bv.skip(i as int)[0] == b@[i as int]@);
        if lex_less(a[i].as_slice(), b[i].as_slice()) {
            return true;
        }
        if !chars_eq(a[i].as_slice(), b[i].as_slice()) {
            return false;
        }
        assert(av.skip(i as int).drop_first() =~= av.skip(i + 1));
        assert(bv.skip(i as int).drop_first() =~= bv.skip(i + 1));
        i = i + 1;
    }
    i == a.len() && i < b.len()
}

fn file_less(x: &InstalledFile, x_segs: &Vec<Vec<char>>, y: &InstalledFile, y_segs: &Vec<Vec<char>>) -> (r: bool)
    requires
        views(x_segs@) == segments(x.path@),
        views(y_segs@) == segments(y.path@),
    ensures
        r == file_lt(file_view(*x), file_view(*y)),
{
    let a = index_of(x.component);
    let b = index_of(y.component);
    a < b || (a == b && segs_less(x_segs, y_segs))
}

fn index_of(c: Component) -> (r: u8)
    ensures
        r == component_index(c),
{
    match c {
        Component::DlssSuperResolution => 0,
        Component::DlssFrameGeneration => 1,
        Component::DlssRayReconstruction => 2,
        Component::FsrDx12 => 3,
        Component::FsrVulkan => 4,
    }
}

/// The files found, in the order they are reported: by component, then by
/// path, so the screen does not reshuffle between scans. Copies of one
/// component are all kept: a game with two copies of `nvngx_dlss.dll` needs
/// both replaced, or the older one wins depending on which the loader
/// reaches first.
pub fn reported_order(found: Vec<InstalledFile>) -> (r: Vec<InstalledFile>)
    ensures
        file_views(r@) == ordered_of(file_views(found@)),
{
    let ghost fv = file_views(found@);
    let mut out: Vec<InstalledFile> = Vec::new();
    let mut keys: Vec<Vec<Vec<char>>> = Vec::new();
    let mut i: usize = 0;
    while i < found.len()
        invariant
            i <= found.len(),
            fv == file_views(found@),
            file_views(out@) == ordered_of(fv.take(i as int)),
            keys.len() == out.len(),
            forall|k: int| 0 <= k < out.len() ==> views(#[trigger] keys@[k]@) == segments(out@[k].path@),
        decreases found.len() - i,
    {
        assert(fv.take(i + 1).drop_last() =~= fv.take(i as int));
        let x = InstalledFile {
            component: found[i].component,
            path: found[i].path.clone(),
            version: found[i].version,
        };
        let x_segs = segments_of(chars_of(x.path.as_str()).as_slice());
        let ghost s = file_views(out@);
        let ghost xv = file_view(x);
        assert(xv == fv[i as int]);
        let mut p: usize = 0;
        while p < out.len() && !file_less(&x, &x_segs, &out[p], &keys[p])
            invariant
                p <= out.len(),
                keys.len() == out.len(),
                forall|k: int| 0 <= k < out.len() ==> views(#[trigger] keys@[k]@) == segments(out@[k].path@),
                s == file_views(out@),
                views(x_segs@) == segments(x.path@),
                xv == file_view(x),
                forall|k: int| 0 <= k < p ==> !file_lt(xv, #[trigger] s[k]),
            decreases out.len() - p,
        {
            assert(s[p as int] == file_view(out@[p as int]));
            p = p + 1;
        }
        proof {
            if p < out.len() {
                assert(s[p as int] == file_view(out@[p as int]));
                assert(file_lt(xv, s[p as int]));
                lemma_place(s, xv);
                let q = place_of(s, xv);
                if q < p {
                    assert(!file_lt(xv, s[q]));
                }
                if q > p {
                    assert(!file_lt(xv, s[p as int]));
                }
            } else {
                assert(!exists|q: int| 0 <= q < s.len() && file_lt(xv, #[trigger] s[q]));
            }
            assert(place_of(s, xv) == p as int);
        }
        let ghost out0 = out@;
        let ghost keys0 = keys@;
        out.insert(p, x);
        keys.insert(p, x_segs);
        proof {
            assert(file_views(out@) =~= s.insert(p as int, xv));
            assert forall|k: int| 0 <= k < out.len() implies views(#[trigger] keys@[k]@) == segments(out@[k].path@) by {
                if k > p as int {
                    assert(out@[k] == out0[k - 1]);
                    assert(keys@[k] == keys0[k - 1]);
                } else if k < p as int {
                    assert(out@[k] == out0[k]);
                    assert(keys@[k] == keys0[k]);
                }
            }
        }
        i = i + 1;
    }
    assert(fv.take(found.len() as int) =~= fv);
    out
}

} // verus!
