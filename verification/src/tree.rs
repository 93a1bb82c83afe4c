//! A normalized view of every file in an extracted archive.

use vstd::prelude::*;

use crate::model::opt_view;
use crate::text::{lemma_filter_step, insert_sorted, strictly_sorted, flagged, lemma_flagged_filter, contains_piece, to_ascii_lowercase, views,
    
    after_first, chars_eq, chars_of, components, concat_chars, copy_chars, first_piece,
    last_piece, last_piece_exec, lemma_first_after, lemma_lex_asymmetric, lemma_lex_irreflexive,
    lemma_lex_total, lemma_lex_transitive, lex_less, lex_lt, lower, lower_chars, normalize,
    normalize_chars, segments, segments_of, split_once_exec, string_from_chars, string_views,
    strings_of, strip_components, strip_components_exec, split_chars, lemma_split_nonempty, slice_chars, contains_char, starts_with, ends_with,
    is_prefix, is_suffix,
};

verus! {

/// One file inside an extracted archive.
#[derive(Debug, Clone, PartialEq, Eq)]
pub struct TreeEntry {
    /// Where the file actually lives, relative to the extraction root. This is
    /// what gets read during deployment, so wrapper stripping never touches it.
    pub path: String,
    /// The path after redundant wrapper folders have been removed, with the
    /// original casing kept. Destinations are computed from this.
    pub rel: String,
    /// Lowercased, forward-slash form of `rel`, used for all matching.
    pub norm: String,
}

pub struct EntryModel {
    pub path: Seq<char>,
    pub rel: Seq<char>,
    pub norm: Seq<char>,
}

impl View for TreeEntry {
    type V = EntryModel;

    open spec fn view(&self) -> EntryModel {
        EntryModel { path: self.path@, rel: self.rel@, norm: self.norm@ }
    }
}

pub open spec fn entry_views(v: Seq<TreeEntry>) -> Seq<EntryModel> {
    v.map_values(|e: TreeEntry| e@)
}

pub open spec fn norms(v: Seq<EntryModel>) -> Seq<Seq<char>> {
    v.map_values(|e: EntryModel| e.norm)
}

/// The extension of the last path piece: what follows its last `.`.
pub open spec fn extension_of(n: Seq<char>) -> Option<Seq<char>> {
    let f = last_piece(n, '/');
    if f.contains('.') {
        Some(last_piece(f, '.'))
    } else {
        None
    }
}

impl TreeEntry {
    pub fn copy(&self) -> (r: TreeEntry)
        ensures
            r@ == self@,
    {
        TreeEntry { path: self.path.clone(), rel: self.rel.clone(), norm: self.norm.clone() }
    }

    /// The non-empty pieces of the matching path.
    pub fn segments(&self) -> (r: Vec<String>)
        ensures
            string_views(r@) == segments(self.norm@),
    {
        let n = chars_of(self.norm.as_str());
        let s = segments_of(n.as_slice());
        strings_of(&s)
    }

    /// The last piece of the matching path.
    pub fn file_name(&self) -> (r: String)
        ensures
            r@ == last_piece(self.norm@, '/'),
    {
        let n = chars_of(self.norm.as_str());
        string_from_chars(last_piece_exec(n.as_slice(), '/').as_slice())
    }

    /// What follows the last `.` of the file name, if it has one.
    pub fn extension(&self) -> (r: Option<String>)
        ensures
            opt_view(r) == extension_of(self.norm@),
    {
        let n = chars_of(self.norm.as_str());
        match extension_chars(n.as_slice()) {
            Some(e) => Some(string_from_chars(e.as_slice())),
            None => None,
        }
    }
}

pub fn extension_chars(n: &[char]) -> (r: Option<Vec<char>>)
    ensures
        match r {
            Some(e) => extension_of(n@) == Some(e@),
            None => extension_of(n@) is None,
        },
{
    let f = last_piece_exec(n, '/');
    if contains_char(f.as_slice(), '.') {
        Some(last_piece_exec(f.as_slice(), '.'))
    } else {
        None
    }
}

/// A normalized view of every file in an extracted archive.
#[derive(Debug, Clone, PartialEq, Eq)]
pub struct FileTree {
    pub entries: Vec<TreeEntry>,
}

impl View for FileTree {
    type V = Seq<EntryModel>;

    open spec fn view(&self) -> Seq<EntryModel> {
        entry_views(self.entries@)
    }
}

/// `out` is `input` sorted by matching path, keeping the first entry of each
/// matching path and dropping the later ones — what a stable sort followed by
/// `dedup_by` on that key leaves.
pub open spec fn sorted_first_of(input: Seq<EntryModel>, out: Seq<EntryModel>) -> bool {
    &&& sorted_by_norm(out)
    &&& each_first(input, out)
    &&& covers(input, out)
}

/// Matching paths strictly increase.
#[verifier::opaque]
pub open spec fn sorted_by_norm(out: Seq<EntryModel>) -> bool {
    forall|a: int, b: int| 0 <= a < b < out.len() ==> lex_lt((#[trigger] out[a]).norm, (#[trigger] out[b]).norm)
}

/// `e` is the input entry at `j`, and no earlier input entry has its
/// matching path.
#[verifier::opaque]
pub open spec fn first_at(input: Seq<EntryModel>, j: int, e: EntryModel) -> bool {
    0 <= j < input.len() && input[j] == e && forall|k: int|
        0 <= k < j ==> (#[trigger] input[k]).norm != e.norm
}

/// The kept entry at `i` has matching path `n`.
#[verifier::opaque]
pub open spec fn norm_at(out: Seq<EntryModel>, i: int, n: Seq<char>) -> bool {
    0 <= i < out.len() && out[i].norm == n
}

/// Some input entry is `e` with no earlier input entry sharing its matching
/// path.
pub open spec fn has_first(input: Seq<EntryModel>, e: EntryModel) -> bool {
    exists|j: int| #[trigger] first_at(input, j, e)
}

/// Some kept entry has matching path `n`.
pub open spec fn has_norm(out: Seq<EntryModel>, n: Seq<char>) -> bool {
    exists|i: int| #[trigger] norm_at(out, i, n)
}

/// Every kept entry is the first input entry with its matching path.
#[verifier::opaque]
pub open spec fn each_first(input: Seq<EntryModel>, out: Seq<EntryModel>) -> bool {
    forall|i: int| 0 <= i < out.len() ==> has_first(input, #[trigger] out[i])
}

/// Every matching path of the input is kept.
#[verifier::opaque]
pub open spec fn covers(input: Seq<EntryModel>, out: Seq<EntryModel>) -> bool {
    forall|j: int| 0 <= j < input.len() ==> has_norm(out, (#[trigger] input[j]).norm)
}

/// The tree built from some entries: sorted by matching path, first entry of
/// each matching path kept.
pub open spec fn built_of(input: Seq<EntryModel>) -> Seq<EntryModel> {
    choose|r: Seq<EntryModel>| sorted_first_of(input, r)
}

/// At most one list is sorted and keeps the first entry of each matching path.
pub proof fn lemma_sorted_first_unique(input: Seq<EntryModel>, a: Seq<EntryModel>, b: Seq<EntryModel>)
    requires
        sorted_first_of(input, a),
        sorted_first_of(input, b),
    ensures
        a == b,
{
    reveal(sorted_by_norm);
    reveal(each_first);
    reveal(covers);
    let na = norms(a);
    let nb = norms(b);
    assert forall|i: int, j: int| 0 <= i < j < na.len() implies lex_lt(#[trigger] na[i], #[trigger] na[j]) by {
        assert(lex_lt(a[i].norm, a[j].norm));
    }
    assert forall|i: int, j: int| 0 <= i < j < nb.len() implies lex_lt(#[trigger] nb[i], #[trigger] nb[j]) by {
        assert(lex_lt(b[i].norm, b[j].norm));
    }
    assert forall|y: Seq<char>| na.contains(y) <==> nb.contains(y) by {
        if na.contains(y) {
            let i = choose|i: int| 0 <= i < na.len() && na[i] == y;
            assert(has_first(input, a[i]));
            let j = choose|j: int| #[trigger] first_at(input, j, a[i]);
            reveal(first_at);
            assert(has_norm(b, input[j].norm));
            let k = choose|k: int| #[trigger] norm_at(b, k, input[j].norm);
            reveal(norm_at);
            assert(nb[k] == y);
        }
        if nb.contains(y) {
            let i = choose|i: int| 0 <= i < nb.len() && nb[i] == y;
            assert(has_first(input, b[i]));
            let j = choose|j: int| #[trigger] first_at(input, j, b[i]);
            reveal(first_at);
            assert(has_norm(a, input[j].norm));
            let k = choose|k: int| #[trigger] norm_at(a, k, input[j].norm);
            reveal(norm_at);
            assert(na[k] == y);
        }
    }
    crate::detect::lemma_sorted_unique(na, nb);
    assert(a.len() == na.len() && b.len() == nb.len());
    assert forall|i: int| 0 <= i < a.len() implies a[i] == b[i] by {
        assert(na[i] == nb[i]);
        assert(has_first(input, a[i]));
        assert(has_first(input, b[i]));
        let ja = choose|j: int| #[trigger] first_at(input, j, a[i]);
        let jb = choose|j: int| #[trigger] first_at(input, j, b[i]);
        reveal(first_at);
        if ja < jb {
            assert(input[ja].norm == b[i].norm);
        } else if jb < ja {
            assert(input[jb].norm == a[i].norm);
        }
    }
    assert(a =~= b);
}

/// A list that is sorted and keeps the first entry of each matching path is
/// the built tree.
pub proof fn lemma_is_built(input: Seq<EntryModel>, r: Seq<EntryModel>)
    requires
        sorted_first_of(input, r),
    ensures
        built_of(input) == r,
{
    lemma_sorted_first_unique(input, built_of(input), r);
}

/// The entry a file path becomes before any stripping.
pub open spec fn entry_for(p: Seq<char>) -> EntryModel {
    EntryModel { path: p, rel: p, norm: normalize(p) }
}

/// The entries of the paths whose matching form is not empty.
pub open spec fn keeps_path() -> spec_fn(Seq<char>) -> bool {
    |p: Seq<char>| normalize(p).len() > 0
}

pub open spec fn entry_fn() -> spec_fn(Seq<char>) -> EntryModel {
    |p: Seq<char>| entry_for(p)
}

pub open spec fn str_views(v: Seq<&str>) -> Seq<Seq<char>> {
    v.map_values(|p: &str| p@)
}

/// The entries of the paths whose matching form is not empty.
pub open spec fn entries_for(paths: Seq<Seq<char>>) -> Seq<EntryModel> {
    paths.filter(keeps_path()).map_values(entry_fn())
}

/// `ps[k]` has a matching form, and no earlier path shares it.
pub open spec fn is_first_path(ps: Seq<Seq<char>>, k: int) -> bool {
    &&& 0 <= k < ps.len()
    &&& normalize(ps[k]).len() > 0
    &&& forall|m: int| 0 <= m < k ==> normalize(#[trigger] ps[m]) != normalize(ps[k])
}

/// An entry that comes first under its matching path among the entries of
/// `ps` comes from the first path of `ps` with that matching form.
proof fn lemma_first_entry_is_first_path(ps: Seq<Seq<char>>, j: int, e: EntryModel)
    requires
        first_at(entries_for(ps), j, e),
    ensures
        exists|k: int| #[trigger] is_first_path(ps, k) && ps[k] == e.path && entry_for(ps[k]) == e,
    decreases ps.len(),
{
    reveal(first_at);
    let pre = ps.drop_last();
    let x = ps.last();
    lemma_filter_step(ps, keeps_path());
    let ip = entries_for(pre);
    if !keeps_path()(x) {
        assert(entries_for(ps) =~= ip);
        lemma_first_entry_is_first_path(pre, j, e);
        let k = choose|k: int| #[trigger] is_first_path(pre, k) && pre[k] == e.path && entry_for(pre[k]) == e;
        assert(is_first_path(ps, k)) by {
            assert forall|m: int| 0 <= m < k implies normalize(#[trigger] ps[m]) != normalize(ps[k]) by {
                assert(ps[m] == pre[m]);
            }
        }
    } else {
        assert(entries_for(ps) =~= ip.push(entry_for(x)));
        if j < ip.len() {
            assert(first_at(ip, j, e)) by {
                assert forall|k: int| 0 <= k < j implies (#[trigger] ip[k]).norm != e.norm by {
                    assert(ip[k] == entries_for(ps)[k]);
                }
            }
            lemma_first_entry_is_first_path(pre, j, e);
            let k = choose|k: int| #[trigger] is_first_path(pre, k) && pre[k] == e.path && entry_for(pre[k]) == e;
            assert(is_first_path(ps, k)) by {
                assert forall|m: int| 0 <= m < k implies normalize(#[trigger] ps[m]) != normalize(ps[k]) by {
                    assert(ps[m] == pre[m]);
                }
            }
        } else {
            assert(e == entry_for(x));
            let k = ps.len() - 1;
            assert forall|m: int| 0 <= m < k implies normalize(#[trigger] ps[m]) != normalize(ps[k]) by {
                assert(ps[m] == pre[m]);
                if normalize(pre[m]) == normalize(x) {
                    assert(keeps_path()(pre[m]));
                    pre.lemma_filter_contains(keeps_path(), m);
                    let q = choose|q: int| 0 <= q < pre.filter(keeps_path()).len() && pre.filter(keeps_path())[q] == pre[m];
                    assert(ip[q] == entry_for(pre[m]));
                    assert(entries_for(ps)[q] == ip[q]);
                    assert(false);
                }
            }
            assert(is_first_path(ps, k));
        }
    }
}

/// Building a tree from paths keeps exactly one entry per matching form, in
/// strictly increasing order of matching path. Each entry is the first path
/// with its matching form, taken as it was written: its place after wrapper
/// stripping is the path itself and its matching path is the path's matching
/// form. Every path with a non-empty matching form is represented, and paths
/// whose matching form is empty are left out.
pub proof fn law_a_tree_keeps_the_first_path_of_each_matching_form(ps: Seq<Seq<char>>, t: Seq<EntryModel>)
    requires
        sorted_first_of(entries_for(ps), t),
    ensures
        forall|a: int, b: int| 0 <= a < b < t.len() ==> lex_lt((#[trigger] t[a]).norm, (#[trigger] t[b]).norm),
        forall|i: int| 0 <= i < t.len() ==> {
            &&& (#[trigger] t[i]).rel == t[i].path
            &&& t[i].norm == normalize(t[i].path)
            &&& exists|k: int| #[trigger] is_first_path(ps, k) && ps[k] == t[i].path
        },
        forall|k: int| 0 <= k < ps.len() && normalize(#[trigger] ps[k]).len() > 0 ==> exists|i: int|
            0 <= i < t.len() && (#[trigger] t[i]).norm == normalize(ps[k]),
{
    let input = entries_for(ps);
    reveal(sorted_by_norm);
    reveal(each_first);
    reveal(covers);
    assert forall|i: int| 0 <= i < t.len() implies {
        &&& (#[trigger] t[i]).rel == t[i].path
        &&& t[i].norm == normalize(t[i].path)
        &&& exists|k: int| #[trigger] is_first_path(ps, k) && ps[k] == t[i].path
    } by {
        assert(has_first(input, t[i]));
        let j = choose|j: int| #[trigger] first_at(input, j, t[i]);
        lemma_first_entry_is_first_path(ps, j, t[i]);
    }
    assert forall|k: int| 0 <= k < ps.len() && normalize(#[trigger] ps[k]).len() > 0 implies exists|i: int|
        0 <= i < t.len() && (#[trigger] t[i]).norm == normalize(ps[k]) by {
        assert(keeps_path()(ps[k]));
        ps.lemma_filter_contains(keeps_path(), k);
        let f = ps.filter(keeps_path());
        let q = choose|q: int| 0 <= q < f.len() && f[q] == ps[k];
        assert(input[q] == entry_for(ps[k]));
        assert(has_norm(t, input[q].norm));
        let i = choose|i: int| #[trigger] norm_at(t, i, input[q].norm);
        reveal(norm_at);
        assert(t[i].norm == normalize(ps[k]));
    }
}

// ---------------------------------------------------------------------------
// Wrapper stripping
// ---------------------------------------------------------------------------

pub open spec fn is_meaningful(s: Seq<char>) -> bool {
    ||| s == "sb"@
    ||| s == "logicmods"@
    ||| s == "~mods"@
    ||| s == "mods"@
    ||| s == "ue4ss"@
    ||| s == "scripts"@
    ||| s == "dlls"@
    ||| s == "movies"@
    ||| s == "paks"@
    ||| s == "content"@
    ||| s == "binaries"@
    ||| s == "win64"@
    ||| s == "splash"@
}

/// The first piece of the first entry's matching path.
pub open spec fn lead(es: Seq<EntryModel>) -> Seq<char> {
    first_piece(es[0].norm, '/')
}

/// The lone top-level folder directly holds a UE4SS marker, so its name is the
/// identity UE4SS registers and it must not be mistaken for packaging.
pub open spec fn is_marker_folder(es: Seq<EntryModel>, first: Seq<char>) -> bool {
    exists|i: int|
        0 <= i < es.len() && ((#[trigger] es[i]).norm == first + "/scripts/main.lua"@ || es[i].norm
            == first + "/dlls/main.dll"@)
}

/// A single top-level folder that is not a routing signal wraps everything.
pub open spec fn can_strip(es: Seq<EntryModel>) -> bool {
    &&& es.len() > 0
    &&& forall|i: int| 0 <= i < es.len() ==> (#[trigger] es[i]).norm.contains('/')
    &&& !is_meaningful(lead(es))
    &&& !is_marker_folder(es, lead(es))
    &&& forall|i: int| 0 <= i < es.len() ==> first_piece((#[trigger] es[i]).norm, '/') == lead(es)
}

pub open spec fn strip_entry(e: EntryModel) -> Option<EntryModel> {
    match strip_components(e.rel, 1) {
        Some(r) => Some(EntryModel { path: e.path, rel: r, norm: after_first(e.norm, '/') }),
        None => None,
    }
}

pub open spec fn strip_fn() -> spec_fn(EntryModel) -> Option<EntryModel> {
    |e: EntryModel| strip_entry(e)
}

pub open spec fn strip_once(es: Seq<EntryModel>) -> Seq<EntryModel> {
    es.filter_map(strip_fn())
}

pub open spec fn norm_total(es: Seq<EntryModel>) -> nat
    decreases es.len(),
{
    if es.len() == 0 {
        0
    } else {
        norm_total(es.drop_last()) + es.last().norm.len()
    }
}

pub proof fn lemma_strip_shrinks(es: Seq<EntryModel>)
    requires
        forall|i: int| 0 <= i < es.len() ==> (#[trigger] es[i]).norm.contains('/'),
    ensures
        norm_total(strip_once(es)) + es.len() <= norm_total(es),
    decreases es.len(),
{
    if es.len() > 0 {
        let rest = es.drop_last();
        assert forall|i: int| 0 <= i < rest.len() implies (#[trigger] rest[i]).norm.contains(
            '/',
        ) by {
            assert(rest[i] == es[i]);
        }
        lemma_strip_shrinks(rest);
        let e = es.last();
        assert(e == es[es.len() - 1]);
        lemma_first_after(e.norm, '/');
        match strip_entry(e) {
            Some(s) => {
                assert(strip_once(es) == strip_once(rest) + seq![s]);
                let t = strip_once(rest) + seq![s];
                assert(t.drop_last() =~= strip_once(rest));
            },
            None => {
                assert(strip_once(es) == strip_once(rest));
            },
        }
    }
}

/// What `stripped` leaves: wrappers removed for as long as one is there.
pub open spec fn stripped_of(es: Seq<EntryModel>) -> Seq<EntryModel>
    decreases norm_total(es),
{
    if can_strip(es) {
        proof {
            lemma_strip_shrinks(es);
        }
        stripped_of(strip_once(es))
    } else {
        es
    }
}

// ---------------------------------------------------------------------------
// Queries
// ---------------------------------------------------------------------------

/// The directories `D` such that `D/<needle>` is in the tree; the empty text
/// stands for the root.
pub open spec fn dir_hit(norm: Seq<char>, needle: Seq<char>) -> Option<Seq<char>> {
    if norm == needle {
        Some(Seq::<char>::empty())
    } else if is_suffix(seq!['/'] + needle, norm) {
        Some(norm.subrange(0, norm.len() - needle.len() - 1))
    } else {
        None
    }
}

pub open spec fn in_dir(norm: Seq<char>, dir: Seq<char>) -> bool {
    dir.len() == 0 || is_prefix(lower(dir) + seq!['/'], norm)
}

/// An entry of the subtree at `dir`, rebased below it.
pub open spec fn rebase_entry(e: EntryModel, dir: Seq<char>) -> Option<EntryModel> {
    let prefix = lower(dir) + seq!['/'];
    if !is_prefix(prefix, e.norm) {
        None
    } else {
        match strip_components(e.rel, depth_of(prefix)) {
            Some(r) => Some(
                EntryModel { path: e.path, rel: r, norm: e.norm.subrange(prefix.len() as int, e.norm.len() as int) },
            ),
            None => None,
        }
    }
}

/// How many `/` a text holds.
pub open spec fn depth_of(s: Seq<char>) -> nat
    decreases s.len(),
{
    if s.len() == 0 {
        0
    } else {
        depth_of(s.drop_last()) + if s.last() == '/' { 1nat } else { 0nat }
    }
}

pub fn depth_exec(s: &[char]) -> (r: usize)
    ensures
        r == depth_of(s@),
{
    let mut n: usize = 0;
    let mut i: usize = 0;
    while i < s.len()
        invariant
            i <= s.len(),
            n == depth_of(s@.subrange(0, i as int)),
            n <= i,
        decreases s.len() - i,
    {
        assert(s@.subrange(0, i + 1).drop_last() =~= s@.subrange(0, i as int));
        if s[i] == '/' {
            n = n + 1;
        }
        i = i + 1;
    }
    assert(s@.subrange(0, s.len() as int) =~= s@);
    n
}

pub fn copy_entries(v: &Vec<TreeEntry>) -> (r: Vec<TreeEntry>)
    ensures
        entry_views(r@) == entry_views(v@),
{
    let mut out: Vec<TreeEntry> = Vec::new();
    let mut i: usize = 0;
    while i < v.len()
        invariant
            i <= v.len(),
            entry_views(out@) =~= entry_views(v@).subrange(0, i as int),
        decreases v.len() - i,
    {
        let e = v[i].copy();
        let ghost before = entry_views(out@);
        out.push(e);
        assert(entry_views(out@) =~= before.push(e@));
        assert(entry_views(v@).subrange(0, i + 1) =~= entry_views(v@).subrange(0, i as int).push(v@[i as int]@));
        i = i + 1;
    }
    out
}

/// A `String` made of some characters.
fn s_of(v: &Vec<char>) -> (r: String)
    ensures
        r@ == v@,
{
    string_from_chars(v.as_slice())
}


proof fn lemma_first_at_push(pre: Seq<EntryModel>, e: EntryModel, j: int, x: EntryModel)
    requires
        first_at(pre, j, x),
    ensures
        first_at(pre.push(e), j, x),
{
    reveal(first_at);
    let post = pre.push(e);
    assert forall|k: int| 0 <= k < j implies (#[trigger] post[k]).norm != x.norm by {
        assert(post[k] == pre[k]);
    }
}

proof fn lemma_keep_existing(pre: Seq<EntryModel>, e: EntryModel, out: Seq<EntryModel>, pos: int)
    requires
        sorted_first_of(pre, out),
        0 <= pos < out.len(),
        out[pos].norm == e.norm,
    ensures
        sorted_first_of(pre.push(e), out),
{
    reveal(each_first);
    reveal(covers);
    let post = pre.push(e);
    assert forall|i: int| 0 <= i < out.len() implies has_first(post, #[trigger] out[i]) by {
        let j = choose|j: int| #[trigger] first_at(pre, j, out[i]);
        lemma_first_at_push(pre, e, j, out[i]);
    }
    assert forall|j: int| 0 <= j < post.len() implies has_norm(out, (#[trigger] post[j]).norm) by {
        if j < pre.len() {
            assert(post[j] == pre[j]);
            assert(has_norm(out, pre[j].norm));
        } else {
            assert(norm_at(out, pos, post[j].norm)) by {
                reveal(norm_at);
            }
        }
    }
}

proof fn lemma_insert_new(pre: Seq<EntryModel>, e: EntryModel, out: Seq<EntryModel>, pos: int)
    requires
        sorted_first_of(pre, out),
        0 <= pos <= out.len(),
        forall|k: int| 0 <= k < pos ==> lex_lt((#[trigger] out[k]).norm, e.norm),
        pos < out.len() ==> out[pos].norm != e.norm && !lex_lt(out[pos].norm, e.norm),
    ensures
        sorted_first_of(pre.push(e), out.insert(pos, e)),
{
    let post = pre.push(e);
    let new_out = out.insert(pos, e);
    assert(forall|k: int| 0 <= k < pos ==> new_out[k] == out[k]);
    assert(forall|k: int| pos < k < new_out.len() ==> new_out[k] == out[k - 1]);
    assert(new_out[pos] == e);
    assert forall|k: int| pos <= k < out.len() implies lex_lt(e.norm, (#[trigger] out[k]).norm) by {
        reveal(sorted_by_norm);
        lemma_lex_total(e.norm, out[pos].norm);
        if k > pos {
            assert(lex_lt(out[pos].norm, out[k].norm));
            lemma_lex_transitive(e.norm, out[pos].norm, out[k].norm);
        }
    }
    assert(sorted_by_norm(new_out)) by {
        reveal(sorted_by_norm);
        assert forall|a: int, b: int| 0 <= a < b < new_out.len() implies lex_lt(
            (#[trigger] new_out[a]).norm,
            (#[trigger] new_out[b]).norm,
        ) by {
            if b < pos {
                assert(lex_lt(out[a].norm, out[b].norm));
            } else if b == pos {
            } else if a == pos {
                assert(lex_lt(e.norm, out[b - 1].norm));
            } else if a < pos {
                assert(lex_lt(out[a].norm, out[b - 1].norm));
            } else {
                assert(lex_lt(out[a - 1].norm, out[b - 1].norm));
            }
        }
    }
    // No earlier input carries the new entry's key.
    assert forall|k: int| 0 <= k < pre.len() implies (#[trigger] pre[k]).norm != e.norm by {
        reveal(covers);
        let ii = choose|ii: int| #[trigger] norm_at(out, ii, pre[k].norm);
        reveal(norm_at);
        if pre[k].norm == e.norm {
            lemma_lex_irreflexive(e.norm);
        }
    }
    assert(each_first(post, new_out)) by {
        reveal(each_first);
        assert forall|ii: int| 0 <= ii < new_out.len() implies has_first(post, #[trigger] new_out[ii]) by {
            if ii == pos {
                assert(first_at(post, pre.len() as int, new_out[ii])) by {
                    reveal(first_at);
                    assert forall|k: int| 0 <= k < pre.len() implies (#[trigger] post[k]).norm
                        != e.norm by {
                        assert(post[k] == pre[k]);
                    }
                }
            } else {
                let oi = if ii < pos { ii } else { ii - 1 };
                assert(new_out[ii] == out[oi]);
                let j = choose|j: int| #[trigger] first_at(pre, j, out[oi]);
                lemma_first_at_push(pre, e, j, out[oi]);
            }
        }
    }
    assert(covers(post, new_out)) by {
        reveal(covers);
        assert forall|j: int| 0 <= j < post.len() implies has_norm(new_out, (#[trigger] post[j]).norm) by {
            if j < pre.len() {
                assert(post[j] == pre[j]);
                let oi = choose|oi: int| #[trigger] norm_at(out, oi, pre[j].norm);
                reveal(norm_at);
                if oi < pos {
                    assert(norm_at(new_out, oi, post[j].norm));
                } else {
                    assert(norm_at(new_out, oi + 1, post[j].norm));
                }
            } else {
                assert(norm_at(new_out, pos, post[j].norm)) by {
                    reveal(norm_at);
                }
            }
        }
    }
}

/// The entries whose flag is set.
pub fn select_entries(v: &Vec<TreeEntry>, flags: &Vec<bool>) -> (r: Vec<TreeEntry>)
    requires
        flags.len() == v.len(),
    ensures
        entry_views(r@) == flagged(entry_views(v@), flags@),
{
    let ghost ev = entry_views(v@);
    let mut out: Vec<TreeEntry> = Vec::new();
    let mut i: usize = 0;
    while i < v.len()
        invariant
            i <= v.len(),
            flags.len() == v.len(),
            ev == entry_views(v@),
            entry_views(out@) == flagged(ev.subrange(0, i as int), flags@),
        decreases v.len() - i,
    {
        let ghost t = ev.subrange(0, i + 1);
        assert(t.drop_last() =~= ev.subrange(0, i as int));
        assert(t.last() == v@[i as int]@);
        if flags[i] {
            let e = v[i].copy();
            let ghost before = entry_views(out@);
            out.push(e);
            assert(entry_views(out@) =~= before.push(e@));
        }
        i = i + 1;
    }
    assert(ev.subrange(0, v.len() as int) =~= ev);
    out
}

/// `segments(e.norm)` holds `seg`.
pub open spec fn has_seg(e: EntryModel, seg: Seq<char>) -> bool {
    segments(e.norm).contains(seg)
}

pub open spec fn seg_filter(seg: Seq<char>) -> spec_fn(EntryModel) -> bool {
    |e: EntryModel| has_seg(e, seg)
}

/// Lowercasing an uppercased text gives the text lowercased.
pub proof fn lemma_lower_of_upper(s: Seq<char>)
    ensures
        lower(crate::text::upper(s)) == lower(s),
{
    assert forall|i: int| 0 <= i < s.len() implies #[trigger] lower(crate::text::upper(s))[i] == lower(s)[i] by {
        let c = s[i];
        if 'a' <= c && c <= 'z' {
            assert(crate::text::upper_char(c) as u32 == c as u32 - 32);
        }
    }
    assert(lower(crate::text::upper(s)) =~= lower(s));
}

/// A segment lookup ignores ASCII case: asking for a segment in upper case
/// finds the same entries, in the same order, as asking for it in any
/// other case, and a tree has the segment exactly when that list is not
/// empty.
pub proof fn law_segment_lookup_ignores_case(t: Seq<EntryModel>, seg: Seq<char>)
    ensures
        t.filter(seg_filter(lower(crate::text::upper(seg)))) == t.filter(seg_filter(lower(seg))),
        (exists|i: int| 0 <= i < t.len() && has_seg(#[trigger] t[i], lower(seg)))
            <==> t.filter(seg_filter(lower(seg))).len() > 0,
{
    lemma_lower_of_upper(seg);
    let f = t.filter(seg_filter(lower(seg)));
    if exists|i: int| 0 <= i < t.len() && has_seg(#[trigger] t[i], lower(seg)) {
        let i = choose|i: int| 0 <= i < t.len() && has_seg(#[trigger] t[i], lower(seg));
        t.lemma_filter_contains(seg_filter(lower(seg)), i);
    }
    if f.len() > 0 {
        t.lemma_filter_pred(seg_filter(lower(seg)), 0);
        t.lemma_filter_contains_rev(seg_filter(lower(seg)), f[0]);
        assert(f.contains(f[0]));
        let i = choose|i: int| 0 <= i < t.len() && t[i] == f[0];
        assert(has_seg(t[i], lower(seg)));
    }
}

pub open spec fn top_filter() -> spec_fn(EntryModel) -> bool {
    |e: EntryModel| !e.norm.contains('/')
}

pub open spec fn dir_filter(dir: Seq<char>) -> spec_fn(EntryModel) -> bool {
    |e: EntryModel| in_dir(e.norm, dir)
}

pub open spec fn rebase_fn(dir: Seq<char>) -> spec_fn(EntryModel) -> Option<EntryModel> {
    |e: EntryModel| rebase_entry(e, dir)
}

/// Whether the entry's matching path has `seg` as a full piece.
pub fn entry_has_segment(e: &TreeEntry, seg: &[char]) -> (r: bool)
    ensures
        r == has_seg(e@, seg@),
{
    let n = chars_of(e.norm.as_str());
    let segs = segments_of(n.as_slice());
    contains_piece(&segs, seg)
}

/// The first piece of every matching path is `lead`.
fn all_lead_with(v: &Vec<TreeEntry>, lead: &[char]) -> (r: bool)
    ensures
        r == forall|i: int| 0 <= i < v@.len() ==> first_piece((#[trigger] entry_views(v@)[i]).norm, '/') == lead@,
{
    let ghost ev = entry_views(v@);
    let mut i: usize = 0;
    while i < v.len()
        invariant
            i <= v.len(),
            ev == entry_views(v@),
            forall|k: int| 0 <= k < i ==> first_piece((#[trigger] ev[k]).norm, '/') == lead@,
        decreases v.len() - i,
    {
        let n = chars_of(v[i].norm.as_str());
        let pieces = split_chars(n.as_slice(), '/');
        proof {
            lemma_split_nonempty(n@, '/');
        }
        assert(pieces@[0]@ == views(pieces@)[0]);
        if !chars_eq(pieces[0].as_slice(), lead) {
            assert(ev[i as int].norm == n@);
            return false;
        }
        i = i + 1;
    }
    true
}

/// Every matching path holds a `/`.
fn all_nested(v: &Vec<TreeEntry>) -> (r: bool)
    ensures
        r == forall|i: int| 0 <= i < v@.len() ==> (#[trigger] entry_views(v@)[i]).norm.contains('/'),
{
    let ghost ev = entry_views(v@);
    let mut i: usize = 0;
    while i < v.len()
        invariant
            i <= v.len(),
            ev == entry_views(v@),
            forall|k: int| 0 <= k < i ==> (#[trigger] ev[k]).norm.contains('/'),
        decreases v.len() - i,
    {
        let n = chars_of(v[i].norm.as_str());
        if !contains_char(n.as_slice(), '/') {
            assert(ev[i as int].norm == n@);
            return false;
        }
        i = i + 1;
    }
    true
}

/// Whether some entry's matching path equals `target`.
fn any_norm_is(v: &Vec<TreeEntry>, target: &[char]) -> (r: bool)
    ensures
        r == exists|i: int| 0 <= i < v@.len() && (#[trigger] entry_views(v@)[i]).norm == target@,
{
    let ghost ev = entry_views(v@);
    let mut i: usize = 0;
    while i < v.len()
        invariant
            i <= v.len(),
            ev == entry_views(v@),
            forall|k: int| 0 <= k < i ==> (#[trigger] ev[k]).norm != target@,
        decreases v.len() - i,
    {
        let n = chars_of(v[i].norm.as_str());
        if chars_eq(n.as_slice(), target) {
            assert(ev[i as int].norm == target@);
            return true;
        }
        i = i + 1;
    }
    false
}

/// `is_meaningful`.
pub fn is_meaningful_exec(s: &[char]) -> (r: bool)
    ensures
        r == is_meaningful(s@),
{
    chars_eq(s, chars_of("sb").as_slice()) || chars_eq(s, chars_of("logicmods").as_slice())
        || chars_eq(s, chars_of("~mods").as_slice()) || chars_eq(s, chars_of("mods").as_slice())
        || chars_eq(s, chars_of("ue4ss").as_slice()) || chars_eq(s, chars_of("scripts").as_slice())
        || chars_eq(s, chars_of("dlls").as_slice()) || chars_eq(s, chars_of("movies").as_slice())
        || chars_eq(s, chars_of("paks").as_slice()) || chars_eq(s, chars_of("content").as_slice())
        || chars_eq(s, chars_of("binaries").as_slice()) || chars_eq(s, chars_of("win64").as_slice())
        || chars_eq(s, chars_of("splash").as_slice())
}

/// Whether a wrapper folder can be taken off.
fn can_strip_exec(v: &Vec<TreeEntry>) -> (r: bool)
    ensures
        r == can_strip(entry_views(v@)),
{
    let ghost ev = entry_views(v@);
    if v.len() == 0 {
        return false;
    }
    if !all_nested(v) {
        return false;
    }
    let n0 = chars_of(v[0].norm.as_str());
    let pieces = split_chars(n0.as_slice(), '/');
    proof {
        lemma_split_nonempty(n0@, '/');
    }
    assert(pieces@[0]@ == views(pieces@)[0]);
    let head = copy_chars(pieces[0].as_slice());
    assert(head@ == lead(ev));
    if is_meaningful_exec(head.as_slice()) {
        return false;
    }
    let m1 = concat_chars(head.as_slice(), chars_of("/scripts/main.lua").as_slice());
    let m2 = concat_chars(head.as_slice(), chars_of("/dlls/main.dll").as_slice());
    let h1 = any_norm_is(v, m1.as_slice());
    let h2 = any_norm_is(v, m2.as_slice());
    assert((h1 || h2) == is_marker_folder(ev, head@));
    if h1 || h2 {
        return false;
    }
    all_lead_with(v, head.as_slice())
}

/// One round of wrapper removal.
fn strip_once_exec(v: &Vec<TreeEntry>) -> (r: Vec<TreeEntry>)
    requires
        forall|i: int| 0 <= i < v@.len() ==> (#[trigger] entry_views(v@)[i]).norm.contains('/'),
    ensures
        entry_views(r@) == strip_once(entry_views(v@)),
{
    let ghost ev = entry_views(v@);
    let mut out: Vec<TreeEntry> = Vec::new();
    let mut i: usize = 0;
    while i < v.len()
        invariant
            i <= v.len(),
            ev == entry_views(v@),
            forall|k: int| 0 <= k < v@.len() ==> (#[trigger] ev[k]).norm.contains('/'),
            entry_views(out@) == ev.subrange(0, i as int).filter_map(strip_fn()),
        decreases v.len() - i,
    {
        let ghost t = ev.subrange(0, i + 1);
        assert(t.drop_last() =~= ev.subrange(0, i as int));
        assert(t.last() == ev[i as int]);
        let rel = chars_of(v[i].rel.as_str());
        let n = chars_of(v[i].norm.as_str());
        assert(n@.contains('/'));
        let cut = split_once_exec(n.as_slice(), '/');
        match strip_components_exec(rel.as_slice(), 1) {
            Some(r) => {
                match cut {
                    Some((_a, rest)) => {
                        let e = TreeEntry {
                            path: v[i].path.clone(),
                            rel: string_from_chars(r.as_slice()),
                            norm: string_from_chars(rest.as_slice()),
                        };
                        let ghost before = entry_views(out@);
                        out.push(e);
                        assert(strip_entry(ev[i as int]) == Some(e@));
                        assert(t.filter_map(strip_fn()) == t.drop_last().filter_map(strip_fn()).push(e@));
                        assert(entry_views(out@) =~= before.push(e@));
                    },
                    None => {},
                }
            },
            None => {
                assert(strip_entry(ev[i as int]) is None);
                assert(t.filter_map(strip_fn()) == t.drop_last().filter_map(strip_fn()));
            },
        }
        i = i + 1;
    }
    assert(ev.subrange(0, v.len() as int) =~= ev);
    out
}

impl FileTree {
    /// Build a tree from relative file paths. Directories are implied by the
    /// files inside them and need not be listed.
    pub fn new(paths: &[&str]) -> (r: FileTree)
        ensures
            sorted_first_of(entries_for(str_views(paths@)), r@),
            r@ == built_of(entries_for(str_views(paths@))),
    {
        let mut input: Vec<TreeEntry> = Vec::new();
        let ghost pv = str_views(paths@);
        let mut i: usize = 0;
        while i < paths.len()
            invariant
                i <= paths.len(),
                pv == str_views(paths@),
                entry_views(input@) == pv.subrange(0, i as int).filter(keeps_path()).map_values(
                    entry_fn(),
                ),
            decreases paths.len() - i,
        {
            let ghost t = pv.subrange(0, i + 1);
            assert(t.drop_last() =~= pv.subrange(0, i as int));
            assert(t.last() == paths@[i as int]@);
            proof {
                lemma_filter_step(t, keeps_path());
            }
            let p = chars_of(paths[i]);
            let n = normalize_chars(p.as_slice());
            if n.len() > 0 {
                let e = TreeEntry { path: s_of(&p), rel: s_of(&p), norm: s_of(&n) };
                let ghost before = entry_views(input@);
                input.push(e);
                assert(entry_views(input@) =~= before.push(e@));
                assert(t.filter(keeps_path()) == t.drop_last().filter(keeps_path()).push(t.last()));
                assert(entry_views(input@) =~= t.filter(keeps_path()).map_values(entry_fn()));
            } else {
                assert(entry_views(input@) =~= t.filter(keeps_path()).map_values(entry_fn()));
            }
            i = i + 1;
        }
        assert(pv.subrange(0, paths.len() as int) =~= pv);
        FileTree::from_entries(input)
    }

    /// Build a tree from owned relative file paths.
    pub fn from_paths(paths: &Vec<String>) -> (r: FileTree)
        ensures
            sorted_first_of(entries_for(string_views(paths@)), r@),
            r@ == built_of(entries_for(string_views(paths@))),
    {
        let mut input: Vec<TreeEntry> = Vec::new();
        let ghost pv = string_views(paths@);
        let mut i: usize = 0;
        while i < paths.len()
            invariant
                i <= paths.len(),
                pv == string_views(paths@),
                entry_views(input@) == pv.subrange(0, i as int).filter(keeps_path()).map_values(
                    entry_fn(),
                ),
            decreases paths.len() - i,
        {
            let ghost t = pv.subrange(0, i + 1);
            assert(t.drop_last() =~= pv.subrange(0, i as int));
            assert(t.last() == paths@[i as int]@);
            proof {
                lemma_filter_step(t, keeps_path());
            }
            let p = chars_of(paths[i].as_str());
            let n = normalize_chars(p.as_slice());
            if n.len() > 0 {
                let e = TreeEntry { path: s_of(&p), rel: s_of(&p), norm: s_of(&n) };
                let ghost before = entry_views(input@);
                input.push(e);
                assert(entry_views(input@) =~= before.push(e@));
                assert(t.filter(keeps_path()) == t.drop_last().filter(keeps_path()).push(t.last()));
                assert(entry_views(input@) =~= t.filter(keeps_path()).map_values(entry_fn()));
            } else {
                assert(entry_views(input@) =~= t.filter(keeps_path()).map_values(entry_fn()));
            }
            i = i + 1;
        }
        assert(pv.subrange(0, paths.len() as int) =~= pv);
        FileTree::from_entries(input)
    }

    /// Build a tree from entries that already carry both path forms.
    ///
    /// Used to split a tree without losing the distinction between where a
    /// file lives and where wrapper stripping decided it logically sits.
    pub fn from_entries(entries: Vec<TreeEntry>) -> (r: FileTree)
        ensures
            sorted_first_of(entry_views(entries@), r@),
            r@ == built_of(entry_views(entries@)),
    {
        let ghost input = entry_views(entries@);
        proof {
            reveal(sorted_by_norm);
            reveal(each_first);
            reveal(covers);
            assert(input.subrange(0, 0) =~= Seq::<EntryModel>::empty());
        }
        let mut out: Vec<TreeEntry> = Vec::new();
        let mut keys: Vec<Vec<char>> = Vec::new();
        let mut i: usize = 0;
        while i < entries.len()
            invariant
                i <= entries.len(),
                input == entry_views(entries@),
                keys.len() == out.len(),
                forall|k: int| 0 <= k < keys.len() ==> (#[trigger] keys@[k])@ == out@[k].norm@,
                sorted_first_of(input.subrange(0, i as int), entry_views(out@)),
            decreases entries.len() - i,
        {
            let key = chars_of(entries[i].norm.as_str());
            // The first position whose key is not below the new one.
            let mut pos: usize = 0;
            while pos < keys.len() && lex_less(keys[pos].as_slice(), key.as_slice())
                invariant
                    pos <= keys.len(),
                    forall|k: int| 0 <= k < pos ==> lex_lt((#[trigger] keys@[k])@, key@),
                decreases keys.len() - pos,
            {
                pos = pos + 1;
            }
            let ghost old_out = entry_views(out@);
            let ghost pre = input.subrange(0, i as int);
            assert(input.subrange(0, i + 1) =~= pre.push(input[i as int]));
            assert(forall|k: int| 0 <= k < keys.len() ==> #[trigger] old_out[k].norm == keys@[k]@);
            if pos < keys.len() && chars_eq(keys[pos].as_slice(), key.as_slice()) {
                // Already present: the earlier entry wins.
                proof {
                    lemma_keep_existing(pre, input[i as int], old_out, pos as int);
                }
            } else {
                let e = entries[i].copy();
                proof {
                    lemma_insert_new(pre, e@, old_out, pos as int);
                }
                out.insert(pos, e);
                keys.insert(pos, key);
                assert(entry_views(out@) =~= old_out.insert(pos as int, e@));
            }
            i = i + 1;
        }
        assert(input.subrange(0, entries.len() as int) =~= input);
        proof {
            lemma_is_built(input, entry_views(out@));
        }
        FileTree { entries: out }
    }

    /// Drop redundant top-level folders such as `MyMod v1.2/`.
    ///
    /// A wrapper is only stripped when it is the sole top-level entry and its
    /// name is not itself a routing signal — `SB/`, `LogicMods/` and friends
    /// are load-bearing and must survive.
    pub fn stripped(&self) -> (r: FileTree)
        ensures
            r@ == stripped_of(self@),
    {
        let mut current = copy_entries(&self.entries);
        while can_strip_exec(&current)
            invariant
                stripped_of(entry_views(current@)) == stripped_of(self@),
            decreases norm_total(entry_views(current@)),
        {
            proof {
                lemma_strip_shrinks(entry_views(current@));
            }
            current = strip_once_exec(&current);
        }
        assert(stripped_of(entry_views(current@)) == entry_views(current@));
        FileTree { entries: current }
    }

    /// True when any path contains the given directory name as a full segment.
    pub fn has_segment(&self, segment: &str) -> (r: bool)
        ensures
            r == exists|i: int| 0 <= i < self@.len() && has_seg(#[trigger] self@[i], lower(segment@)),
    {
        let seg = lower_chars(chars_of(segment).as_slice());
        let mut i: usize = 0;
        while i < self.entries.len()
            invariant
                i <= self.entries.len(),
                seg@ == lower(segment@),
                forall|k: int| 0 <= k < i ==> !has_seg(#[trigger] self@[k], seg@),
            decreases self.entries.len() - i,
        {
            if entry_has_segment(&self.entries[i], seg.as_slice()) {
                assert(has_seg(self@[i as int], seg@));
                return true;
            }
            i = i + 1;
        }
        false
    }

    /// Entries whose normalized path contains `segment` as a full component.
    pub fn entries_under_segment(&self, segment: &str) -> (r: Vec<TreeEntry>)
        ensures
            entry_views(r@) == self@.filter(seg_filter(lower(segment@))),
    {
        let seg = lower_chars(chars_of(segment).as_slice());
        let mut flags: Vec<bool> = Vec::new();
        let mut i: usize = 0;
        while i < self.entries.len()
            invariant
                i <= self.entries.len(),
                flags.len() == i,
                forall|k: int| 0 <= k < i ==> flags@[k] == seg_filter(seg@)(#[trigger] self@[k]),
            decreases self.entries.len() - i,
        {
            flags.push(entry_has_segment(&self.entries[i], seg.as_slice()));
            i = i + 1;
        }
        proof {
            lemma_flagged_filter(self@, flags@, seg_filter(seg@));
        }
        select_entries(&self.entries, &flags)
    }

    /// Entries that live directly at the root of the tree.
    pub fn top_level_files(&self) -> (r: Vec<TreeEntry>)
        ensures
            entry_views(r@) == self@.filter(top_filter()),
    {
        let mut flags: Vec<bool> = Vec::new();
        let mut i: usize = 0;
        while i < self.entries.len()
            invariant
                i <= self.entries.len(),
                flags.len() == i,
                forall|k: int| 0 <= k < i ==> flags@[k] == top_filter()(#[trigger] self@[k]),
            decreases self.entries.len() - i,
        {
            let n = chars_of(self.entries[i].norm.as_str());
            flags.push(!contains_char(n.as_slice(), '/'));
            i = i + 1;
        }
        proof {
            lemma_flagged_filter(self@, flags@, top_filter());
        }
        select_entries(&self.entries, &flags)
    }

    /// Entries sitting inside the given normalized directory (at any depth).
    pub fn entries_in_dir(&self, dir: &str) -> (r: Vec<TreeEntry>)
        ensures
            entry_views(r@) == self@.filter(dir_filter(dir@)),
    {
        let mut prefix = lower_chars(chars_of(dir).as_slice());
        prefix.push('/');
        let mut flags: Vec<bool> = Vec::new();
        let mut i: usize = 0;
        while i < self.entries.len()
            invariant
                i <= self.entries.len(),
                prefix@ == lower(dir@) + seq!['/'],
                flags.len() == i,
                forall|k: int| 0 <= k < i ==> flags@[k] == dir_filter(dir@)(#[trigger] self@[k]),
            decreases self.entries.len() - i,
        {
            let n = chars_of(self.entries[i].norm.as_str());
            flags.push(dir.unicode_len() == 0 || starts_with(n.as_slice(), prefix.as_slice()));
            i = i + 1;
        }
        proof {
            lemma_flagged_filter(self@, flags@, dir_filter(dir@));
        }
        select_entries(&self.entries, &flags)
    }

    /// A subtree rooted at `dir`, with the prefix removed from every path.
    pub fn subtree(&self, dir: &str) -> (r: FileTree)
        ensures
            dir@.len() == 0 ==> r@ == self@,
            dir@.len() > 0 ==> r@ == self@.filter_map(rebase_fn(dir@)),
    {
        if dir.unicode_len() == 0 {
            return FileTree { entries: copy_entries(&self.entries) };
        }
        let mut prefix = lower_chars(chars_of(dir).as_slice());
        prefix.push('/');
        let depth = depth_exec(prefix.as_slice());
        let ghost ev = self@;
        let mut out: Vec<TreeEntry> = Vec::new();
        let mut i: usize = 0;
        while i < self.entries.len()
            invariant
                i <= self.entries.len(),
                ev == self@,
                prefix@ == lower(dir@) + seq!['/'],
                depth == depth_of(prefix@),
                entry_views(out@) == ev.subrange(0, i as int).filter_map(rebase_fn(dir@)),
            decreases self.entries.len() - i,
        {
            let ghost t = ev.subrange(0, i + 1);
            assert(t.drop_last() =~= ev.subrange(0, i as int));
            assert(t.last() == ev[i as int]);
            let n = chars_of(self.entries[i].norm.as_str());
            if starts_with(n.as_slice(), prefix.as_slice()) {
                let rel = chars_of(self.entries[i].rel.as_str());
                match strip_components_exec(rel.as_slice(), depth) {
                    Some(r) => {
                        let rest = slice_chars(n.as_slice(), prefix.len(), n.len());
                        let e = TreeEntry {
                            path: self.entries[i].path.clone(),
                            rel: string_from_chars(r.as_slice()),
                            norm: string_from_chars(rest.as_slice()),
                        };
                        let ghost before = entry_views(out@);
                        out.push(e);
                        assert(rebase_entry(ev[i as int], dir@) == Some(e@));
                        assert(t.filter_map(rebase_fn(dir@)) == t.drop_last().filter_map(rebase_fn(dir@)).push(e@));
                        assert(entry_views(out@) =~= before.push(e@));
                    },
                    None => {
                        assert(rebase_entry(ev[i as int], dir@) is None);
                        assert(t.filter_map(rebase_fn(dir@)) == t.drop_last().filter_map(rebase_fn(dir@)));
                    },
                }
            } else {
                assert(rebase_entry(ev[i as int], dir@) is None);
                assert(t.filter_map(rebase_fn(dir@)) == t.drop_last().filter_map(rebase_fn(dir@)));
            }
            i = i + 1;
        }
        assert(ev.subrange(0, self.entries.len() as int) =~= ev);
        FileTree { entries: out }
    }

    /// Find directories `D` such that `D/<relative>` exists in the tree.
    ///
    /// Used to spot UE4SS mod folders via their `scripts/main.lua` or
    /// `dlls/main.dll` marker. Returns normalized directory paths, sorted and
    /// without repeats; an empty string means the marker sits at the tree root.
    pub fn dirs_containing(&self, relative: &str) -> (r: Vec<String>)
        ensures
            strictly_sorted(string_views(r@)),
            forall|d: Seq<char>| string_views(r@).contains(d) <==> exists|i: int|
                0 <= i < self@.len() && dir_hit((#[trigger] self@[i]).norm, lower(relative@)) == Some(d),
    {
        let needle = lower_chars(chars_of(relative).as_slice());
        let mut suffix: Vec<char> = Vec::new();
        suffix.push('/');
        let suffix = concat_chars(suffix.as_slice(), needle.as_slice());
        assert(suffix@ == seq!['/'] + needle@);
        let mut out: Vec<Vec<char>> = Vec::new();
        let mut i: usize = 0;
        while i < self.entries.len()
            invariant
                i <= self.entries.len(),
                needle@ == lower(relative@),
                suffix@ == seq!['/'] + needle@,
                strictly_sorted(views(out@)),
                forall|d: Seq<char>| views(out@).contains(d) <==> exists|k: int|
                    0 <= k < i && dir_hit((#[trigger] self@[k]).norm, needle@) == Some(d),
            decreases self.entries.len() - i,
        {
            let n = chars_of(self.entries[i].norm.as_str());
            let hit: Option<Vec<char>> = if chars_eq(n.as_slice(), needle.as_slice()) {
                Some(Vec::new())
            } else if ends_with(n.as_slice(), suffix.as_slice()) {
                Some(slice_chars(n.as_slice(), 0, n.len() - needle.len() - 1))
            } else {
                None
            };
            assert(self@[i as int].norm == n@);
            let ghost prev = views(out@);
            match hit {
                Some(h) => {
                    assert(dir_hit(n@, needle@) == Some(h@));
                    insert_sorted(&mut out, h);
                },
                None => {
                    assert(dir_hit(n@, needle@) is None);
                },
            }
            assert forall|d: Seq<char>| views(out@).contains(d) <==> exists|k: int|
                0 <= k < i + 1 && dir_hit((#[trigger] self@[k]).norm, needle@) == Some(d) by {
                if exists|k: int| 0 <= k < i + 1 && dir_hit((#[trigger] self@[k]).norm, needle@) == Some(d) {
                    let k = choose|k: int| 0 <= k < i + 1 && dir_hit((#[trigger] self@[k]).norm, needle@) == Some(d);
                    if k < i {
                        assert(prev.contains(d));
                    }
                }
            }
            i = i + 1;
        }
        strings_of(&out)
    }

    pub fn entries(&self) -> (r: &Vec<TreeEntry>)
        ensures
            entry_views(r@) == self@,
    {
        &self.entries
    }

    pub fn is_empty(&self) -> (r: bool)
        ensures
            r == (self@.len() == 0),
    {
        self.entries.len() == 0
    }
}

} // verus!
