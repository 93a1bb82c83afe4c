//! Works out what an extracted archive contains and where each piece belongs.
//!
//! Rules are applied in order of decreasing specificity. Each rule *claims* the
//! files it recognises and the remainder falls through to the next one, so a
//! single archive that mixes (say) a logic mod with a cosmetic pak yields two
//! independently routed components rather than one wrong verdict.

use vstd::prelude::*;

use crate::loadorder::{before_last_exec, path_file_name};
use crate::model::{
    component_views, file_views, opt_view, set_views, target_dir_of, ComponentFile,
    ComponentModel, Confidence, DetectedComponent, ModType, PakSet, PakSetModel, BINARIES_WIN64,
    CONTENT_MOVIES, PAKS_LOGICMODS, PAKS_MODS, UE4SS_MODS,
};
use crate::plan::join_path;
use crate::text::{
    contains_piece, chars_eq, chars_of, components_of, concat_chars, contains_char, copy_chars, ends_with,
    insert_sorted, lemma_lex_asymmetric, lemma_lex_irreflexive, lemma_lex_transitive,
    last_piece, last_piece_exec, lower, lower_chars, slice_chars, string_from_chars,
    string_views, strictly_sorted, views, before_last, is_suffix, components, is_prefix,
    starts_with, strip_components, strip_components_exec, lemma_flagged_filter, split_once_exec,
    first_piece, after_first,
};
use crate::tree::{
    built_of, depth_exec, depth_of, dir_filter, dir_hit, entries_for, entry_has_segment,
    entry_views, extension_chars, extension_of, has_seg, in_dir, select_entries, stripped_of,
    EntryModel, FileTree, TreeEntry,
};

verus! {

// ---------------------------------------------------------------------------
// Sorted lists of texts
// ---------------------------------------------------------------------------

/// The texts of a finite set in increasing order.
pub open spec fn sorted_of(s: Set<Seq<char>>) -> Seq<Seq<char>> {
    choose|l: Seq<Seq<char>>| strictly_sorted(l) && forall|y: Seq<char>| l.contains(y) <==> s.contains(y)
}

/// Two increasing lists with the same texts are the same list.
pub proof fn lemma_sorted_unique(a: Seq<Seq<char>>, b: Seq<Seq<char>>)
    requires
        strictly_sorted(a),
        strictly_sorted(b),
        forall|y: Seq<char>| a.contains(y) <==> b.contains(y),
    ensures
        a == b,
    decreases a.len(),
{
    if a.len() == 0 {
        if b.len() > 0 {
            assert(b.contains(b[0]));
        }
        assert(a =~= b);
    } else {
        assert(a.contains(a[0]));
        let j = choose|j: int| 0 <= j < b.len() && b[j] == a[0];
        assert(b.contains(b[0]));
        let k = choose|k: int| 0 <= k < a.len() && a[k] == b[0];
        if j != 0 {
            assert(lex_lt_at(b, 0, j));
            if k != 0 {
                assert(lex_lt_at(a, 0, k));
                lemma_lex_asymmetric(a[0], b[0]);
            } else {
                lemma_lex_irreflexive(a[0]);
            }
        }
        assert(a[0] == b[0]);
        let a2 = a.drop_first();
        let b2 = b.drop_first();
        assert forall|y: Seq<char>| a2.contains(y) <==> b2.contains(y) by {
            if a2.contains(y) {
                let i = choose|i: int| 0 <= i < a2.len() && a2[i] == y;
                assert(a[i + 1] == y);
                assert(lex_lt_at(a, 0, i + 1));
                assert(b.contains(y));
                let m = choose|m: int| 0 <= m < b.len() && b[m] == y;
                if m == 0 {
                    lemma_lex_irreflexive(y);
                }
                assert(b2[m - 1] == y);
            }
            if b2.contains(y) {
                let i = choose|i: int| 0 <= i < b2.len() && b2[i] == y;
                assert(b[i + 1] == y);
                assert(lex_lt_at(b, 0, i + 1));
                assert(a.contains(y));
                let m = choose|m: int| 0 <= m < a.len() && a[m] == y;
                if m == 0 {
                    lemma_lex_irreflexive(y);
                }
                assert(a2[m - 1] == y);
            }
        }
        assert forall|x: int, y: int| 0 <= x < y < a2.len() implies crate::text::lex_lt(
            #[trigger] a2[x],
            #[trigger] a2[y],
        ) by {
            assert(lex_lt_at(a, x + 1, y + 1));
        }
        assert forall|x: int, y: int| 0 <= x < y < b2.len() implies crate::text::lex_lt(
            #[trigger] b2[x],
            #[trigger] b2[y],
        ) by {
            assert(lex_lt_at(b, x + 1, y + 1));
        }
        lemma_sorted_unique(a2, b2);
        assert(a =~= seq![a[0]] + a2);
        assert(b =~= seq![b[0]] + b2);
    }
}

/// The items at `i` and `j` of a sorted list are in order.
pub open spec fn lex_lt_at(l: Seq<Seq<char>>, i: int, j: int) -> bool {
    crate::text::lex_lt(l[i], l[j])
}

/// A list that is sorted and holds exactly the set is `sorted_of` it.
pub proof fn lemma_is_sorted_of(l: Seq<Seq<char>>, s: Set<Seq<char>>)
    requires
        strictly_sorted(l),
        forall|y: Seq<char>| l.contains(y) <==> s.contains(y),
    ensures
        sorted_of(s) == l,
{
    let c = sorted_of(s);
    assert(strictly_sorted(c) && forall|y: Seq<char>| c.contains(y) <==> s.contains(y));
    lemma_sorted_unique(c, l);
}

// ---------------------------------------------------------------------------
// Pak sets
// ---------------------------------------------------------------------------

/// The entry's extension is `x`.
pub open spec fn ext_is(e: EntryModel, x: Seq<char>) -> bool {
    extension_of(e.norm) == Some(x)
}

/// A `.pak`, `.utoc` or `.ucas` file.
pub open spec fn is_pak_family(e: EntryModel) -> bool {
    ext_is(e, "pak"@) || ext_is(e, "utoc"@) || ext_is(e, "ucas"@)
}

/// The matching path without its extension: the key a set is grouped by.
pub open spec fn stem_of(n: Seq<char>) -> Seq<char> {
    if n.contains('.') {
        before_last(n, '.')
    } else {
        n
    }
}

/// The keys of every pak-family entry.
pub open spec fn family_stems(es: Seq<EntryModel>) -> Set<Seq<char>> {
    Set::new(
        |s: Seq<char>|
            exists|i: int| 0 <= i < es.len() && is_pak_family(#[trigger] es[i]) && stem_of(es[i].norm) == s,
    )
}

/// The source path of the first entry with the key and the extension.
pub open spec fn first_with(es: Seq<EntryModel>, stem: Seq<char>, ext: Seq<char>) -> Option<Seq<char>>
    decreases es.len(),
{
    if es.len() == 0 {
        None
    } else if stem_of(es[0].norm) == stem && ext_is(es[0], ext) {
        Some(es[0].path)
    } else {
        first_with(es.drop_first(), stem, ext)
    }
}

/// The on-disk file name of a pak without its extension.
pub open spec fn name_stem(pak: Seq<char>) -> Seq<char> {
    let f = match path_file_name(pak) {
        Some(f) => f,
        None => Seq::<char>::empty(),
    };
    if f.contains('.') {
        before_last(f, '.')
    } else {
        f
    }
}

/// Whether a name stem ends in `_P`, in either case.
pub open spec fn has_p_suffix(stem: Seq<char>) -> bool {
    is_suffix(seq!['_', 'p'], lower(stem))
}

/// The set grouped under one key, if the key has a `.pak`.
pub open spec fn set_of(es: Seq<EntryModel>, stem: Seq<char>) -> Option<PakSetModel> {
    match first_with(es, stem, "pak"@) {
        None => None,
        Some(pak) => {
            let ss = name_stem(pak);
            let had = has_p_suffix(ss);
            Some(
                PakSetModel {
                    base: if had {
                        ss.subrange(0, ss.len() - 2)
                    } else {
                        ss
                    },
                    pak,
                    utoc: first_with(es, stem, "utoc"@),
                    ucas: first_with(es, stem, "ucas"@),
                    had_p_suffix: had,
                },
            )
        },
    }
}

pub open spec fn msg_no_pak(s: Seq<char>) -> Seq<char> {
    "`"@ + s + "` has IoStore files but no .pak; the game will not mount it."@
}

pub open spec fn msg_incomplete(s: Seq<char>) -> Seq<char> {
    "`"@ + s + "` is missing one of its .utoc/.ucas pair and may fail to load."@
}

pub open spec fn msg_no_suffix(s: Seq<char>) -> Seq<char> {
    "`"@ + s + "` has no `_P` suffix; it will be renamed so the game mounts it."@
}

/// The problems one key raises.
pub open spec fn warnings_of(es: Seq<EntryModel>, stem: Seq<char>) -> Seq<Seq<char>> {
    match set_of(es, stem) {
        None => seq![msg_no_pak(last_piece(stem, '/'))],
        Some(s) => {
            let ss = name_stem(s.pak);
            let a = if s.utoc.is_some() != s.ucas.is_some() {
                seq![msg_incomplete(ss)]
            } else {
                Seq::<Seq<char>>::empty()
            };
            if !s.had_p_suffix {
                a.push(msg_no_suffix(ss))
            } else {
                a
            }
        },
    }
}

/// The sets of the given keys, in order.
pub open spec fn sets_over(es: Seq<EntryModel>, stems: Seq<Seq<char>>) -> Seq<PakSetModel>
    decreases stems.len(),
{
    if stems.len() == 0 {
        Seq::<PakSetModel>::empty()
    } else {
        let r = sets_over(es, stems.drop_last());
        match set_of(es, stems.last()) {
            Some(s) => r.push(s),
            None => r,
        }
    }
}

/// The problems of the given keys, in order.
pub open spec fn warnings_over(es: Seq<EntryModel>, stems: Seq<Seq<char>>) -> Seq<Seq<char>>
    decreases stems.len(),
{
    if stems.len() == 0 {
        Seq::<Seq<char>>::empty()
    } else {
        warnings_over(es, stems.drop_last()) + warnings_of(es, stems.last())
    }
}

/// The pak sets of some entries, keyed in increasing order.
pub open spec fn pak_sets_of(es: Seq<EntryModel>) -> Seq<PakSetModel> {
    sets_over(es, sorted_of(family_stems(es)))
}

/// The problems found while grouping pak sets.
pub open spec fn pak_warnings_of(es: Seq<EntryModel>) -> Seq<Seq<char>> {
    warnings_over(es, sorted_of(family_stems(es)))
}

/// A name stem ends in an underscore followed by `p` or `P`.
pub open spec fn ends_in_p(ss: Seq<char>) -> bool {
    ss.len() >= 2 && ss[ss.len() - 2] == '_' && (ss[ss.len() - 1] == 'p' || ss[ss.len() - 1] == 'P')
}

/// `_p` and `_P` both count as the suffix, and nothing else does.
proof fn lemma_p_suffix_either_case(ss: Seq<char>)
    ensures
        has_p_suffix(ss) <==> ends_in_p(ss),
{
    let l = lower(ss);
    let n = ss.len();
    if n >= 2 {
        let a = ss[n - 2];
        let b = ss[n - 1];
        assert(l[n - 2] == crate::text::lower_char(a));
        assert(l[n - 1] == crate::text::lower_char(b));
        if 'A' <= a && a <= 'Z' {
            assert(crate::text::lower_char(a) as u32 == a as u32 + 32);
        }
        if 'A' <= b && b <= 'Z' {
            assert(crate::text::lower_char(b) as u32 == b as u32 + 32);
        }
        if is_suffix(seq!['_', 'p'], l) {
            assert(l.subrange(n - 2, n as int)[0] == l[n - 2]);
            assert(l.subrange(n - 2, n as int)[1] == l[n - 1]);
        }
        if ends_in_p(ss) {
            assert(l.subrange(n - 2, n as int) =~= seq!['_', 'p']);
        }
    }
}

/// The `_P` suffix is recognised in either case. For every key that has a
/// `.pak`, the set records the suffix exactly when the pak's file name stem
/// ends in `_p` or `_P`; the base is then the stem without those two
/// characters, and otherwise the whole stem. A stem with the suffix draws no
/// suffix warning (at most the one about a missing `.utoc`/`.ucas`), and a
/// stem without it ends its warnings with the one saying it will be renamed.
pub proof fn law_p_suffix_is_recognised_in_either_case(es: Seq<EntryModel>, stem: Seq<char>)
    requires
        first_with(es, stem, "pak"@) is Some,
    ensures
        ({
            let pak = first_with(es, stem, "pak"@)->0;
            let ss = name_stem(pak);
            let s = set_of(es, stem)->0;
            let pair = if s.utoc.is_some() != s.ucas.is_some() {
                seq![msg_incomplete(ss)]
            } else {
                Seq::<Seq<char>>::empty()
            };
            &&& set_of(es, stem) is Some
            &&& s.pak == pak
            &&& s.had_p_suffix <==> ends_in_p(ss)
            &&& ends_in_p(ss) ==> s.base == ss.subrange(0, ss.len() - 2) && warnings_of(es, stem) == pair
            &&& !ends_in_p(ss) ==> s.base == ss && warnings_of(es, stem) == pair.push(msg_no_suffix(ss))
        }),
{
    let pak = first_with(es, stem, "pak"@)->0;
    lemma_p_suffix_either_case(name_stem(pak));
}

/// A text made of a literal, a middle part and another literal.
pub fn text3(a: &str, mid: &[char], b: &str) -> (r: String)
    ensures
        r@ == a@ + mid@ + b@,
{
    let x = concat_chars(chars_of(a).as_slice(), mid);
    let y = concat_chars(x.as_slice(), chars_of(b).as_slice());
    string_from_chars(y.as_slice())
}

/// Whether an extension is `.pak`, `.utoc` or `.ucas`.
fn is_family_ext(x: &[char]) -> (r: bool)
    ensures
        r == (x@ == "pak"@ || x@ == "utoc"@ || x@ == "ucas"@),
{
    chars_eq(x, chars_of("pak").as_slice()) || chars_eq(x, chars_of("utoc").as_slice())
        || chars_eq(x, chars_of("ucas").as_slice())
}

/// The grouping key of a matching path.
pub fn stem_exec(n: &[char]) -> (r: Vec<char>)
    ensures
        r@ == stem_of(n@),
{
    if contains_char(n, '.') {
        before_last_exec(n, '.')
    } else {
        copy_chars(n)
    }
}

/// The first entry with the key and the extension, by source path.
fn first_with_exec(es: &[TreeEntry], stem: &[char], ext: &str) -> (r: Option<String>)
    ensures
        opt_view(r) == first_with(entry_views(es@), stem@, ext@),
{
    let ghost ev = entry_views(es@);
    assert(ev.skip(0) =~= ev);
    let mut i: usize = 0;
    while i < es.len()
        invariant
            i <= es.len(),
            ev == entry_views(es@),
            first_with(ev, stem@, ext@) == first_with(ev.skip(i as int), stem@, ext@),
        decreases es.len() - i,
    {
        let ghost rest = ev.skip(i as int);
        assert(rest[0] == es@[i as int]@);
        assert(rest.drop_first() =~= ev.skip(i + 1));
        let n = chars_of(es[i].norm.as_str());
        let st = stem_exec(n.as_slice());
        if chars_eq(st.as_slice(), stem) {
            match extension_chars(n.as_slice()) {
                Some(x) => {
                    if chars_eq(x.as_slice(), chars_of(ext).as_slice()) {
                        return Some(es[i].path.clone());
                    }
                },
                None => {},
            }
        }
        i = i + 1;
    }
    assert(ev.skip(es.len() as int).len() == 0);
    None
}

/// The on-disk file name of a pak without its extension.
fn name_stem_exec(pak: &str) -> (r: Vec<char>)
    ensures
        r@ == name_stem(pak@),
{
    let p = chars_of(pak);
    let f = match crate::loadorder::path_file_name_exec(p.as_slice()) {
        Some(f) => f,
        None => Vec::new(),
    };
    assert(f@ == match path_file_name(pak@) {
        Some(f) => f,
        None => Seq::<char>::empty(),
    });
    if contains_char(f.as_slice(), '.') {
        before_last_exec(f.as_slice(), '.')
    } else {
        f
    }
}

/// Group `.pak` files with their IoStore siblings.
///
/// Stellar Blade is UE 4.26 with IoStore, so a mod is usually a
/// `.pak` + `.utoc` + `.ucas` triplet that must keep one shared base name.
/// Groups are keyed on directory plus stem, in increasing order, so
/// identically named paks in different folders are not merged.
pub fn build_pak_sets(entries: &[TreeEntry]) -> (r: (Vec<PakSet>, Vec<String>))
    ensures
        set_views(r.0@) == pak_sets_of(entry_views(entries@)),
        string_views(r.1@) == pak_warnings_of(entry_views(entries@)),
{
    let ghost ev = entry_views(entries@);
    let mut stems: Vec<Vec<char>> = Vec::new();
    let mut i: usize = 0;
    while i < entries.len()
        invariant
            i <= entries.len(),
            ev == entry_views(entries@),
            strictly_sorted(views(stems@)),
            forall|y: Seq<char>| views(stems@).contains(y) <==> exists|k: int|
                0 <= k < i && is_pak_family(#[trigger] ev[k]) && stem_of(ev[k].norm) == y,
        decreases entries.len() - i,
    {
        let n = chars_of(entries[i].norm.as_str());
        assert(ev[i as int].norm == n@);
        let ghost prev = views(stems@);
        let fam = match extension_chars(n.as_slice()) {
            Some(x) => is_family_ext(x.as_slice()),
            None => false,
        };
        assert(fam == is_pak_family(ev[i as int]));
        if fam {
            let st = stem_exec(n.as_slice());
            insert_sorted(&mut stems, st);
        }
        assert forall|y: Seq<char>| views(stems@).contains(y) <==> exists|k: int|
            0 <= k < i + 1 && is_pak_family(#[trigger] ev[k]) && stem_of(ev[k].norm) == y by {
            if exists|k: int| 0 <= k < i + 1 && is_pak_family(#[trigger] ev[k]) && stem_of(ev[k].norm) == y {
                let k = choose|k: int| 0 <= k < i + 1 && is_pak_family(#[trigger] ev[k]) && stem_of(ev[k].norm) == y;
                if k < i {
                    assert(prev.contains(y));
                }
            }
        }
        i = i + 1;
    }
    proof {
        assert forall|y: Seq<char>| views(stems@).contains(y) <==> family_stems(ev).contains(y) by {}
        lemma_is_sorted_of(views(stems@), family_stems(ev));
    }
    let ghost order = views(stems@);
    let mut sets: Vec<PakSet> = Vec::new();
    let mut warnings: Vec<String> = Vec::new();
    let mut j: usize = 0;
    while j < stems.len()
        invariant
            j <= stems.len(),
            ev == entry_views(entries@),
            order == views(stems@),
            set_views(sets@) == sets_over(ev, order.subrange(0, j as int)),
            string_views(warnings@) == warnings_over(ev, order.subrange(0, j as int)),
        decreases stems.len() - j,
    {
        let ghost done = order.subrange(0, j + 1);
        assert(done.drop_last() =~= order.subrange(0, j as int));
        assert(done.last() == stems@[j as int]@);
        let stem = stems[j].as_slice();
        let ghost before_w = string_views(warnings@);
        match first_with_exec(entries, stem, "pak") {
            None => {
                let short = last_piece_exec(stem, '/');
                warnings.push(
                    text3("`", short.as_slice(), "` has IoStore files but no .pak; the game will not mount it."),
                );
                assert(string_views(warnings@) =~= before_w + warnings_of(ev, stem@));
            },
            Some(pak) => {
                let ss = name_stem_exec(pak.as_str());
                let low = lower_chars(ss.as_slice());
                let mut suffix: Vec<char> = Vec::new();
                suffix.push('_');
                suffix.push('p');
                assert(suffix@ =~= seq!['_', 'p']);
                let had = ends_with(low.as_slice(), suffix.as_slice());
                let base = if had {
                    slice_chars(ss.as_slice(), 0, ss.len() - 2)
                } else {
                    copy_chars(ss.as_slice())
                };
                let utoc = first_with_exec(entries, stem, "utoc");
                let ucas = first_with_exec(entries, stem, "ucas");
                let set = PakSet {
                    base: string_from_chars(base.as_slice()),
                    pak: pak,
                    utoc: utoc,
                    ucas: ucas,
                    had_p_suffix: had,
                };
                assert(set_of(ev, stem@) == Some(set@));
                if !set.is_complete() {
                    warnings.push(
                        text3("`", ss.as_slice(), "` is missing one of its .utoc/.ucas pair and may fail to load."),
                    );
                }
                if !had {
                    warnings.push(
                        text3("`", ss.as_slice(), "` has no `_P` suffix; it will be renamed so the game mounts it."),
                    );
                }
                assert(string_views(warnings@) =~= before_w + warnings_of(ev, stem@));
                let ghost before_s = set_views(sets@);
                sets.push(set);
                assert(set_views(sets@) =~= before_s.push(set@));
            },
        }
        j = j + 1;
    }
    assert(order.subrange(0, stems.len() as int) =~= order);
    (sets, warnings)
}

// ---------------------------------------------------------------------------
// What detection decides
// ---------------------------------------------------------------------------

/// Extensions that are documentation or previews rather than mod payload.
pub open spec fn junk_ext(x: Seq<char>) -> bool {
    ||| x == "txt"@
    ||| x == "md"@
    ||| x == "rtf"@
    ||| x == "pdf"@
    ||| x == "doc"@
    ||| x == "docx"@
    ||| x == "jpg"@
    ||| x == "jpeg"@
    ||| x == "png"@
    ||| x == "webp"@
    ||| x == "gif"@
    ||| x == "bmp"@
    ||| x == "url"@
    ||| x == "html"@
    ||| x == "htm"@
    ||| x == "nfo"@
    ||| x == "log"@
}

/// File names that operating systems leave behind.
pub open spec fn junk_name(f: Seq<char>) -> bool {
    f == "desktop.ini"@ || f == "thumbs.db"@ || f == ".ds_store"@
}

/// Documentation, previews and operating-system litter.
pub open spec fn is_junk(e: EntryModel) -> bool {
    ||| has_seg(e, "__macosx"@)
    ||| junk_name(last_piece(e.norm, '/'))
    ||| match extension_of(e.norm) {
        Some(x) => junk_ext(x),
        None => false,
    }
}

/// File extensions that indicate a movie replacement mod.
pub open spec fn movie_ext(x: Seq<char>) -> bool {
    x == "mp4"@ || x == "bk2"@ || x == "bik"@ || x == "usm"@
}

/// DLL names commonly used as injector proxies by ReShade and similar tools.
pub open spec fn proxy_dll(f: Seq<char>) -> bool {
    ||| f == "dxgi.dll"@
    ||| f == "d3d11.dll"@
    ||| f == "d3d12.dll"@
    ||| f == "d3d9.dll"@
    ||| f == "dinput8.dll"@
    ||| f == "winmm.dll"@
    ||| f == "version.dll"@
    ||| f == "dwmapi.dll"@
    ||| f == "opengl32.dll"@
}

/// Extensions that mark a loose injector payload.
pub open spec fn root_binary_ext(x: Seq<char>) -> bool {
    x == "asi"@ || x == "addon"@ || x == "addon64"@
}

/// Extensions of a loose pak mod's files.
pub open spec fn loose_pak_ext(x: Seq<char>) -> bool {
    x == "pak"@ || x == "utoc"@ || x == "ucas"@ || x == "sig"@
}

pub open spec fn ext_matches(e: EntryModel, pred: spec_fn(Seq<char>) -> bool) -> bool {
    match extension_of(e.norm) {
        Some(x) => pred(x),
        None => false,
    }
}

/// The file name of a path, or the path itself when it has none.
pub open spec fn file_name_or(p: Seq<char>) -> Seq<char> {
    match path_file_name(p) {
        Some(n) => n,
        None => p,
    }
}

/// The named component of a path at an index.
pub open spec fn nth_comp(p: Seq<char>, k: int) -> Option<Seq<char>> {
    if 0 <= k < components(p).len() {
        Some(components(p)[k])
    } else {
        None
    }
}

/// Route every file into a flat destination directory, discarding structure.
pub open spec fn map_flat(es: Seq<EntryModel>, dir: Seq<char>) -> Seq<(Seq<char>, Seq<char>)> {
    es.map_values(|e: EntryModel| (e.path, join_path(dir, file_name_or(e.path))))
}

/// Where a file lands when its structure below `depth` components is kept.
pub open spec fn kept_target(p: Seq<char>, dir: Seq<char>, depth: nat) -> Seq<char> {
    join_path(
        dir,
        match strip_components(p, depth) {
            Some(r) => r,
            None => file_name_or(p),
        },
    )
}

/// Route files under a destination directory, keeping their structure below
/// `depth` leading components.
pub open spec fn map_preserving(es: Seq<EntryModel>, dir: Seq<char>, depth: nat) -> Seq<
    (Seq<char>, Seq<char>),
> {
    es.map_values(|e: EntryModel| (e.path, kept_target(e.path, dir, depth)))
}

/// Every file installed where the archive put it.
pub open spec fn same_files(es: Seq<EntryModel>) -> Seq<(Seq<char>, Seq<char>)> {
    es.map_values(|e: EntryModel| (e.path, e.path))
}

pub open spec fn norms_of(es: Seq<EntryModel>) -> Seq<Seq<char>> {
    es.map_values(|e: EntryModel| e.norm)
}

pub open spec fn note_framework() -> Seq<char> {
    "Installs the UE4SS runtime. Required by Lua, C++ and Blueprint logic mods."@
}

pub open spec fn note_registered() -> Seq<char> {
    "Will be registered in UE4SS mods.txt so the loader picks it up."@
}

pub open spec fn note_no_folder() -> Seq<char> {
    "The archive has no mod folder; the mod name will be used as the folder name."@
}

pub open spec fn note_movie() -> Seq<char> {
    "Replaces a game movie file of the same name."@
}

pub open spec fn note_root_binary() -> Seq<char> {
    "Installs next to the game executable. Only one proxy DLL of a given name can be active."@
}

pub open spec fn note_overlay() -> Seq<char> {
    "Ships explicit game paths and will be laid down directly onto the game folder."@
}

pub open spec fn warn_unknown() -> Seq<char> {
    "Could not determine where these files belong."@
}

/// Files nobody could place; the user is asked.
pub open spec fn unknown_of(es: Seq<EntryModel>) -> ComponentModel {
    ComponentModel {
        mod_type: ModType::Unknown,
        confidence: Confidence::AskUser,
        files: same_files(es),
        target_subdir: ""@,
        ue4ss_mod_name: None,
        pak_sets: Seq::empty(),
        warnings: seq![warn_unknown()],
        notes: Seq::empty(),
    }
}

/// What the rules have claimed so far, and what they found.
pub type ClaimState = (Seq<Seq<char>>, Seq<ComponentModel>);

/// Not claimed yet and not litter.
pub open spec fn free_payload(claimed: Seq<Seq<char>>) -> spec_fn(EntryModel) -> bool {
    |e: EntryModel| !claimed.contains(e.norm) && !is_junk(e)
}

/// Claim `entries` as one component.
pub open spec fn claim(st: ClaimState, entries: Seq<EntryModel>, c: ComponentModel) -> ClaimState {
    (st.0 + norms_of(entries), st.1.push(c))
}

/// The full UE4SS distribution: recognised by `UE4SS.dll` itself.
pub open spec fn claim_framework(es: Seq<EntryModel>, st: ClaimState) -> ClaimState {
    let entries = es.filter(free_payload(st.0));
    if (exists|i: int| 0 <= i < es.len() && last_piece((#[trigger] es[i]).norm, '/') == "ue4ss.dll"@)
        && entries.len() > 0 {
        claim(
            st,
            entries,
            ComponentModel {
                mod_type: ModType::Ue4ssFramework,
                confidence: Confidence::High,
                files: map_preserving(entries, BINARIES_WIN64@, 0),
                target_subdir: BINARIES_WIN64@,
                ue4ss_mod_name: None,
                pak_sets: Seq::empty(),
                warnings: Seq::empty(),
                notes: seq![note_framework()],
            },
        )
    } else {
        st
    }
}

pub open spec fn logic_filter(claimed: Seq<Seq<char>>) -> spec_fn(EntryModel) -> bool {
    |e: EntryModel| has_seg(e, "logicmods"@) && !claimed.contains(e.norm) && !is_junk(e)
}

/// Blueprint mods: anything under a `LogicMods` folder.
pub open spec fn claim_logic(es: Seq<EntryModel>, st: ClaimState) -> ClaimState {
    let entries = es.filter(logic_filter(st.0));
    if entries.len() > 0 {
        claim(
            st,
            entries,
            ComponentModel {
                mod_type: ModType::LogicMod,
                confidence: Confidence::High,
                files: map_flat(entries, PAKS_LOGICMODS@),
                target_subdir: PAKS_LOGICMODS@,
                ue4ss_mod_name: None,
                pak_sets: pak_sets_of(entries),
                warnings: pak_warnings_of(entries),
                notes: Seq::empty(),
            },
        )
    } else {
        st
    }
}

/// The folders that hold a UE4SS marker.
pub open spec fn marker_dirs(es: Seq<EntryModel>) -> Set<Seq<char>> {
    Set::new(
        |d: Seq<char>|
            exists|i: int|
                0 <= i < es.len() && (dir_hit((#[trigger] es[i]).norm, "scripts/main.lua"@) == Some(d)
                    || dir_hit(es[i].norm, "dlls/main.dll"@) == Some(d)),
    )
}

pub open spec fn mod_dir_filter(d: Seq<char>, claimed: Seq<Seq<char>>) -> spec_fn(EntryModel) -> bool {
    |e: EntryModel| in_dir(e.norm, d) && !claimed.contains(e.norm)
}

/// How many leading components a mod folder spans.
pub open spec fn dir_depth(d: Seq<char>) -> nat {
    if d.len() == 0 {
        0
    } else {
        depth_of(d) + 1
    }
}

/// The mod found in one marker folder.
pub open spec fn mod_in_dir(entries: Seq<EntryModel>, d: Seq<char>) -> ComponentModel {
    let depth = dir_depth(d);
    let name = if d.len() == 0 {
        None
    } else {
        nth_comp(entries[0].path, depth - 1)
    };
    let root = match name {
        Some(n) => UE4SS_MODS@ + seq!['/'] + n,
        None => UE4SS_MODS@,
    };
    ComponentModel {
        mod_type: if exists|i: int|
            0 <= i < entries.len() && is_suffix("scripts/main.lua"@, (#[trigger] entries[i]).norm) {
            ModType::Ue4ssLua
        } else {
            ModType::Ue4ssDll
        },
        confidence: Confidence::High,
        files: map_preserving(entries, root, depth),
        target_subdir: root,
        ue4ss_mod_name: name,
        pak_sets: Seq::empty(),
        warnings: Seq::empty(),
        notes: if name is None {
            seq![note_registered(), note_no_folder()]
        } else {
            seq![note_registered()]
        },
    }
}

/// Claim what is left in one marker folder.
pub open spec fn claim_dir(es: Seq<EntryModel>, d: Seq<char>, st: ClaimState) -> ClaimState {
    let entries = es.filter(mod_dir_filter(d, st.0));
    if entries.len() > 0 {
        claim(st, entries, mod_in_dir(entries, d))
    } else {
        st
    }
}

pub open spec fn claim_dirs(es: Seq<EntryModel>, dirs: Seq<Seq<char>>, st: ClaimState) -> ClaimState
    decreases dirs.len(),
{
    if dirs.len() == 0 {
        st
    } else {
        claim_dir(es, dirs.last(), claim_dirs(es, dirs.drop_last(), st))
    }
}

/// UE4SS Lua and C++ mods, one per marker folder in increasing order.
pub open spec fn claim_mods(es: Seq<EntryModel>, st: ClaimState) -> ClaimState {
    claim_dirs(es, sorted_of(marker_dirs(es)), st)
}

pub open spec fn movie_filter(claimed: Seq<Seq<char>>) -> spec_fn(EntryModel) -> bool {
    |e: EntryModel|
        !claimed.contains(e.norm) && (has_seg(e, "movies"@) || ext_matches(e, |x: Seq<char>| movie_ext(x)))
            && !is_junk(e)
}

/// Movie replacements.
pub open spec fn claim_movies(es: Seq<EntryModel>, st: ClaimState) -> ClaimState {
    let entries = es.filter(movie_filter(st.0));
    if entries.len() > 0 {
        claim(
            st,
            entries,
            ComponentModel {
                mod_type: ModType::Movie,
                confidence: Confidence::Medium,
                files: map_flat(entries, CONTENT_MOVIES@),
                target_subdir: CONTENT_MOVIES@,
                ue4ss_mod_name: None,
                pak_sets: Seq::empty(),
                warnings: Seq::empty(),
                notes: seq![note_movie()],
            },
        )
    } else {
        st
    }
}

/// A movie file that no earlier rule claimed lands in the movie component:
/// any entry that is not litter and whose extension is `mp4`, `bk2`, `bik`
/// or `usm` is claimed, and the rule adds one component, a movie replacement
/// of medium confidence installed under `SB/Content/Movies`, in which the
/// entry's file goes straight into that folder under its own file name.
pub proof fn law_a_movie_file_lands_under_movies(es: Seq<EntryModel>, st: ClaimState, i: int)
    requires
        0 <= i < es.len(),
        !st.0.contains(es[i].norm),
        !is_junk(es[i]),
        extension_of(es[i].norm) == Some("mp4"@) || extension_of(es[i].norm) == Some("bk2"@)
            || extension_of(es[i].norm) == Some("bik"@) || extension_of(es[i].norm) == Some("usm"@),
    ensures
        ({
            let r = claim_movies(es, st);
            let c = r.1.last();
            &&& r.0.contains(es[i].norm)
            &&& r.1.len() == st.1.len() + 1
            &&& r.1.drop_last() == st.1
            &&& c.mod_type == ModType::Movie
            &&& c.confidence == Confidence::Medium
            &&& c.target_subdir == CONTENT_MOVIES@
            &&& c.files.contains((es[i].path, join_path(CONTENT_MOVIES@, file_name_or(es[i].path))))
        }),
{
    let pred = movie_filter(st.0);
    assert(pred(es[i]));
    es.lemma_filter_contains(pred, i);
    let entries = es.filter(pred);
    let k = choose|k: int| 0 <= k < entries.len() && entries[k] == es[i];
    let r = claim_movies(es, st);
    let c = r.1.last();
    assert(c.files[k] == (es[i].path, join_path(CONTENT_MOVIES@, file_name_or(es[i].path))));
    assert(norms_of(entries)[k] == es[i].norm);
    assert(r.0[st.0.len() + k] == es[i].norm);
    assert(r.1.drop_last() =~= st.1);
}

/// A sign of ReShade or a similar injector.
pub open spec fn root_marker(e: EntryModel) -> bool {
    ||| !e.norm.contains('/') && proxy_dll(last_piece(e.norm, '/'))
    ||| last_piece(e.norm, '/') == "reshade.ini"@
    ||| ext_matches(e, |x: Seq<char>| root_binary_ext(x))
    ||| has_seg(e, "reshade-shaders"@)
    ||| has_seg(e, "reshade-presets"@)
}

/// ReShade and similar: a proxy DLL next to the executable, plus its assets.
pub open spec fn claim_root_binaries(es: Seq<EntryModel>, st: ClaimState) -> ClaimState {
    let entries = es.filter(free_payload(st.0));
    if (exists|i: int| 0 <= i < es.len() && root_marker(#[trigger] es[i])) && entries.len() > 0 {
        claim(
            st,
            entries,
            ComponentModel {
                mod_type: ModType::RootBinary,
                confidence: Confidence::Medium,
                files: map_preserving(entries, BINARIES_WIN64@, 0),
                target_subdir: BINARIES_WIN64@,
                ue4ss_mod_name: None,
                pak_sets: Seq::empty(),
                warnings: Seq::empty(),
                notes: seq![note_root_binary()],
            },
        )
    } else {
        st
    }
}

pub open spec fn pak_filter(claimed: Seq<Seq<char>>) -> spec_fn(EntryModel) -> bool {
    |e: EntryModel| !claimed.contains(e.norm) && ext_matches(e, |x: Seq<char>| loose_pak_ext(x))
}

/// Plain pak mods, recognised by extension.
pub open spec fn claim_generic_paks(es: Seq<EntryModel>, st: ClaimState) -> ClaimState {
    let entries = es.filter(pak_filter(st.0));
    if entries.len() > 0 {
        claim(
            st,
            entries,
            ComponentModel {
                mod_type: ModType::GenericPak,
                confidence: Confidence::High,
                files: map_flat(entries, PAKS_MODS@),
                target_subdir: PAKS_MODS@,
                ue4ss_mod_name: None,
                pak_sets: pak_sets_of(entries),
                warnings: pak_warnings_of(entries),
                notes: Seq::empty(),
            },
        )
    } else {
        st
    }
}

/// Every rule in order of decreasing specificity.
pub open spec fn claimed_all(es: Seq<EntryModel>) -> ClaimState {
    let s0: ClaimState = (Seq::empty(), Seq::empty());
    let s1 = claim_framework(es, s0);
    let s2 = claim_logic(es, s1);
    let s3 = claim_mods(es, s2);
    let s4 = claim_movies(es, s3);
    let s5 = claim_root_binaries(es, s4);
    claim_generic_paks(es, s5)
}

/// Classification of a loose archive; what nothing claims and is not
/// documentation becomes an unknown component.
pub open spec fn heuristic_of(es: Seq<EntryModel>) -> Seq<ComponentModel> {
    let st = claimed_all(es);
    let left = es.filter(free_payload(st.0));
    if left.len() > 0 {
        st.1.push(unknown_of(left))
    } else {
        st.1
    }
}

// Explicit game-relative trees ----------------------------------------------

/// A path under `SB/`.
pub open spec fn under_sb(e: EntryModel) -> bool {
    is_prefix("sb/"@, e.norm)
}

/// The archive spells out `SB` itself or something below it.
pub open spec fn is_sb(e: EntryModel) -> bool {
    e.norm == "sb"@ || under_sb(e)
}

pub open spec fn sb_filter() -> spec_fn(EntryModel) -> bool {
    |e: EntryModel| is_sb(e)
}

pub open spec fn other_filter() -> spec_fn(EntryModel) -> bool {
    |e: EntryModel| !is_sb(e)
}

/// Where a path relative to `SB/` goes, and for UE4SS mods under which name.
pub open spec fn classify_rel(rel: Seq<char>, path: Seq<char>) -> (ModType, Option<Seq<char>>) {
    let mods = "binaries/win64/ue4ss/mods/"@;
    if is_prefix("content/paks/logicmods/"@, rel) {
        (ModType::LogicMod, None)
    } else if is_prefix("content/movies/"@, rel) {
        (ModType::Movie, None)
    } else if is_prefix("content/paks/"@, rel) {
        (ModType::GenericPak, None)
    } else if is_prefix(mods, rel) {
        let rest = rel.subrange(mods.len() as int, rel.len() as int);
        if rest.contains('/') {
            let t = if is_prefix("dlls/"@, after_first(rest, '/')) {
                ModType::Ue4ssDll
            } else {
                ModType::Ue4ssLua
            };
            (
                t,
                Some(
                    match nth_comp(path, 5) {
                        Some(o) => o,
                        None => first_piece(rest, '/'),
                    },
                ),
            )
        } else {
            (ModType::Ue4ssFramework, None)
        }
    } else if is_prefix("binaries/win64/ue4ss/"@, rel) {
        (ModType::Ue4ssFramework, None)
    } else if is_prefix("binaries/win64/"@, rel) {
        (ModType::RootBinary, None)
    } else {
        (ModType::GameRootOverlay, None)
    }
}

/// The bucket of an entry under `SB/`.
pub open spec fn classify(e: EntryModel) -> (ModType, Option<Seq<char>>) {
    classify_rel(e.norm.subrange("sb/"@.len() as int, e.norm.len() as int), e.path)
}

/// The UE4SS mod names of a type, among entries under `SB/`.
pub open spec fn names_of_type(es: Seq<EntryModel>, t: ModType) -> Set<Seq<char>> {
    Set::new(
        |n: Seq<char>|
            exists|i: int| 0 <= i < es.len() && under_sb(#[trigger] es[i]) && classify(es[i]) == (t, Some(n)),
    )
}

/// The bucket keys of one type, in the order the buckets are visited.
pub open spec fn keys_of_type(es: Seq<EntryModel>, t: ModType) -> Seq<Option<Seq<char>>> {
    if t == ModType::Ue4ssLua || t == ModType::Ue4ssDll {
        sorted_of(names_of_type(es, t)).map_values(|n: Seq<char>| Some(n))
    } else if exists|i: int| 0 <= i < es.len() && under_sb(#[trigger] es[i]) && classify(es[i]).0 == t {
        seq![None]
    } else {
        Seq::empty()
    }
}

pub open spec fn bucket_filter(t: ModType, name: Option<Seq<char>>) -> spec_fn(EntryModel) -> bool {
    |e: EntryModel| under_sb(e) && classify(e) == (t, name)
}

/// One bucket as a component.
pub open spec fn bucket_component(es: Seq<EntryModel>, t: ModType, name: Option<Seq<char>>) -> ComponentModel {
    let b = es.filter(bucket_filter(t, name));
    ComponentModel {
        mod_type: t,
        confidence: Confidence::High,
        files: same_files(b),
        target_subdir: target_dir_of(t),
        ue4ss_mod_name: name,
        pak_sets: pak_sets_of(b),
        warnings: pak_warnings_of(b),
        notes: if t == ModType::GameRootOverlay {
            seq![note_overlay()]
        } else {
            Seq::empty()
        },
    }
}

pub open spec fn buckets_of_types(es: Seq<EntryModel>, ts: Seq<ModType>) -> Seq<ComponentModel>
    decreases ts.len(),
{
    if ts.len() == 0 {
        Seq::empty()
    } else {
        let t = ts.last();
        buckets_of_types(es, ts.drop_last()) + keys_of_type(es, t).map_values(
            |k: Option<Seq<char>>| bucket_component(es, t, k),
        )
    }
}

/// An archive that spells out `SB/...`: one component per destination, in
/// type order, UE4SS mods further split by folder name.
pub open spec fn game_relative_of(es: Seq<EntryModel>) -> Seq<ComponentModel> {
    buckets_of_types(es, crate::model::all_types())
}

pub open spec fn path_of() -> spec_fn(EntryModel) -> Seq<char> {
    |e: EntryModel| e.path
}

/// What `detect_components` finds in a tree.
pub open spec fn detect_of(tree: Seq<EntryModel>) -> Seq<ComponentModel> {
    let t = stripped_of(tree);
    if t.len() == 0 {
        Seq::empty()
    } else {
        let sb = t.filter(sb_filter());
        let other = t.filter(other_filter());
        let c1 = if sb.len() > 0 {
            game_relative_of(sb)
        } else {
            Seq::empty()
        };
        let c2 = if other.len() > 0 {
            heuristic_of(built_of(entries_for(other.map_values(path_of()))))
        } else {
            Seq::empty()
        };
        if c1.len() + c2.len() == 0 {
            seq![unknown_of(t)]
        } else {
            c1 + c2
        }
    }
}

// ---------------------------------------------------------------------------
// Executable detection
// ---------------------------------------------------------------------------

fn junk_ext_exec(x: &[char]) -> (r: bool)
    ensures
        r == junk_ext(x@),
{
    chars_eq(x, chars_of("txt").as_slice())
        || chars_eq(x, chars_of("md").as_slice())
        || chars_eq(x, chars_of("rtf").as_slice())
        || chars_eq(x, chars_of("pdf").as_slice())
        || chars_eq(x, chars_of("doc").as_slice())
        || chars_eq(x, chars_of("docx").as_slice())
        || chars_eq(x, chars_of("jpg").as_slice())
        || chars_eq(x, chars_of("jpeg").as_slice())
        || chars_eq(x, chars_of("png").as_slice())
        || chars_eq(x, chars_of("webp").as_slice())
        || chars_eq(x, chars_of("gif").as_slice())
        || chars_eq(x, chars_of("bmp").as_slice())
        || chars_eq(x, chars_of("url").as_slice())
        || chars_eq(x, chars_of("html").as_slice())
        || chars_eq(x, chars_of("htm").as_slice())
        || chars_eq(x, chars_of("nfo").as_slice())
        || chars_eq(x, chars_of("log").as_slice())
}

fn junk_name_exec(x: &[char]) -> (r: bool)
    ensures
        r == junk_name(x@),
{
    chars_eq(x, chars_of("desktop.ini").as_slice())
        || chars_eq(x, chars_of("thumbs.db").as_slice())
        || chars_eq(x, chars_of(".ds_store").as_slice())
}

fn movie_ext_exec(x: &[char]) -> (r: bool)
    ensures
        r == movie_ext(x@),
        r == (x@ == "mp4"@ || x@ == "bk2"@ || x@ == "bik"@ || x@ == "usm"@),
{
    chars_eq(x, chars_of("mp4").as_slice())
        || chars_eq(x, chars_of("bk2").as_slice())
        || chars_eq(x, chars_of("bik").as_slice())
        || chars_eq(x, chars_of("usm").as_slice())
}

fn proxy_dll_exec(x: &[char]) -> (r: bool)
    ensures
        r == proxy_dll(x@),
{
    chars_eq(x, chars_of("dxgi.dll").as_slice())
        || chars_eq(x, chars_of("d3d11.dll").as_slice())
        || chars_eq(x, chars_of("d3d12.dll").as_slice())
        || chars_eq(x, chars_of("d3d9.dll").as_slice())
        || chars_eq(x, chars_of("dinput8.dll").as_slice())
        || chars_eq(x, chars_of("winmm.dll").as_slice())
        || chars_eq(x, chars_of("version.dll").as_slice())
        || chars_eq(x, chars_of("dwmapi.dll").as_slice())
        || chars_eq(x, chars_of("opengl32.dll").as_slice())
}

fn root_binary_ext_exec(x: &[char]) -> (r: bool)
    ensures
        r == root_binary_ext(x@),
{
    chars_eq(x, chars_of("asi").as_slice())
        || chars_eq(x, chars_of("addon").as_slice())
        || chars_eq(x, chars_of("addon64").as_slice())
}

fn loose_pak_ext_exec(x: &[char]) -> (r: bool)
    ensures
        r == loose_pak_ext(x@),
{
    chars_eq(x, chars_of("pak").as_slice())
        || chars_eq(x, chars_of("utoc").as_slice())
        || chars_eq(x, chars_of("ucas").as_slice())
        || chars_eq(x, chars_of("sig").as_slice())
}

/// The extension of an entry's matching path.
fn entry_ext(e: &TreeEntry) -> (r: Option<Vec<char>>)
    ensures
        match r {
            Some(x) => extension_of(e@.norm) == Some(x@),
            None => extension_of(e@.norm) is None,
        },
{
    let n = chars_of(e.norm.as_str());
    extension_chars(n.as_slice())
}

/// The last piece of an entry's matching path.
fn entry_file_name(e: &TreeEntry) -> (r: Vec<char>)
    ensures
        r@ == last_piece(e@.norm, '/'),
{
    let n = chars_of(e.norm.as_str());
    last_piece_exec(n.as_slice(), '/')
}

/// Documentation, previews and operating-system litter.
fn is_junk_exec(e: &TreeEntry) -> (r: bool)
    ensures
        r == is_junk(e@),
{
    if entry_has_segment(e, chars_of("__macosx").as_slice()) {
        return true;
    }
    if junk_name_exec(entry_file_name(e).as_slice()) {
        return true;
    }
    match entry_ext(e) {
        Some(x) => junk_ext_exec(x.as_slice()),
        None => false,
    }
}

/// The file name of a path, or the path itself.
fn file_name_or_exec(p: &[char]) -> (r: Vec<char>)
    ensures
        r@ == file_name_or(p@),
{
    match crate::loadorder::path_file_name_exec(p) {
        Some(f) => f,
        None => copy_chars(p),
    }
}

/// The named component of a path at an index.
fn nth_comp_exec(p: &[char], k: usize) -> (r: Option<Vec<char>>)
    ensures
        match r {
            Some(c) => nth_comp(p@, k as int) == Some(c@),
            None => nth_comp(p@, k as int) is None,
        },
{
    let comps = components_of(p);
    if k < comps.len() {
        assert(comps@[k as int]@ == views(comps@)[k as int]);
        Some(copy_chars(comps[k].as_slice()))
    } else {
        None
    }
}

fn map_flat_exec(es: &Vec<TreeEntry>, dir: &str) -> (r: Vec<ComponentFile>)
    ensures
        file_views(r@) == map_flat(entry_views(es@), dir@),
{
    let ghost ev = entry_views(es@);
    let d = chars_of(dir);
    let mut out: Vec<ComponentFile> = Vec::new();
    let mut i: usize = 0;
    while i < es.len()
        invariant
            i <= es.len(),
            ev == entry_views(es@),
            d@ == dir@,
            file_views(out@) =~= map_flat(ev.subrange(0, i as int), dir@),
        decreases es.len() - i,
    {
        let p = chars_of(es[i].path.as_str());
        let name = file_name_or_exec(p.as_slice());
        let t = crate::plan::join_path_exec(d.as_slice(), name.as_slice());
        let f = ComponentFile { source: es[i].path.clone(), target: string_from_chars(t.as_slice()) };
        let ghost b = file_views(out@);
        out.push(f);
        assert(file_views(out@) =~= b.push(f@));
        assert(ev.subrange(0, i + 1) =~= ev.subrange(0, i as int).push(ev[i as int]));
        i = i + 1;
    }
    assert(ev.subrange(0, es.len() as int) =~= ev);
    out
}

fn map_preserving_exec(es: &Vec<TreeEntry>, dir: &[char], depth: usize) -> (r: Vec<ComponentFile>)
    ensures
        file_views(r@) == map_preserving(entry_views(es@), dir@, depth as nat),
{
    let ghost ev = entry_views(es@);
    let mut out: Vec<ComponentFile> = Vec::new();
    let mut i: usize = 0;
    while i < es.len()
        invariant
            i <= es.len(),
            ev == entry_views(es@),
            file_views(out@) =~= map_preserving(ev.subrange(0, i as int), dir@, depth as nat),
        decreases es.len() - i,
    {
        let p = chars_of(es[i].path.as_str());
        let rel = match strip_components_exec(p.as_slice(), depth) {
            Some(r) => r,
            None => file_name_or_exec(p.as_slice()),
        };
        let t = crate::plan::join_path_exec(dir, rel.as_slice());
        assert(t@ == kept_target(p@, dir@, depth as nat));
        let f = ComponentFile { source: es[i].path.clone(), target: string_from_chars(t.as_slice()) };
        let ghost b = file_views(out@);
        out.push(f);
        assert(file_views(out@) =~= b.push(f@));
        assert(ev.subrange(0, i + 1) =~= ev.subrange(0, i as int).push(ev[i as int]));
        i = i + 1;
    }
    assert(ev.subrange(0, es.len() as int) =~= ev);
    out
}

fn same_files_exec(es: &Vec<TreeEntry>) -> (r: Vec<ComponentFile>)
    ensures
        file_views(r@) == same_files(entry_views(es@)),
{
    let ghost ev = entry_views(es@);
    let mut out: Vec<ComponentFile> = Vec::new();
    let mut i: usize = 0;
    while i < es.len()
        invariant
            i <= es.len(),
            ev == entry_views(es@),
            file_views(out@) =~= same_files(ev.subrange(0, i as int)),
        decreases es.len() - i,
    {
        let f = ComponentFile { source: es[i].path.clone(), target: es[i].path.clone() };
        let ghost b = file_views(out@);
        out.push(f);
        assert(file_views(out@) =~= b.push(f@));
        assert(ev.subrange(0, i + 1) =~= ev.subrange(0, i as int).push(ev[i as int]));
        i = i + 1;
    }
    assert(ev.subrange(0, es.len() as int) =~= ev);
    out
}

fn mark_claimed(entries: &Vec<TreeEntry>, claimed: &mut Vec<Vec<char>>)
    ensures
        views(final(claimed)@) == views(old(claimed)@) + norms_of(entry_views(entries@)),
{
    let ghost start = views(claimed@);
    let ghost ev = entry_views(entries@);
    let mut i: usize = 0;
    while i < entries.len()
        invariant
            i <= entries.len(),
            ev == entry_views(entries@),
            views(claimed@) =~= start + norms_of(ev.subrange(0, i as int)),
        decreases entries.len() - i,
    {
        let n = chars_of(entries[i].norm.as_str());
        let ghost b = views(claimed@);
        claimed.push(n);
        assert(views(claimed@) =~= b.push(n@));
        assert(ev.subrange(0, i + 1) =~= ev.subrange(0, i as int).push(ev[i as int]));
        i = i + 1;
    }
    assert(ev.subrange(0, entries.len() as int) =~= ev);
}

/// A list holding one text.
fn one_text(s: &str) -> (r: Vec<String>)
    ensures
        string_views(r@) == seq![s@],
{
    let mut v: Vec<String> = Vec::new();
    v.push(crate::text::owned(s));
    assert(string_views(v@) =~= seq![s@]);
    v
}

fn no_texts() -> (r: Vec<String>)
    ensures
        string_views(r@) == Seq::<Seq<char>>::empty(),
{
    let v: Vec<String> = Vec::new();
    assert(string_views(v@) =~= Seq::<Seq<char>>::empty());
    v
}

fn no_sets() -> (r: Vec<PakSet>)
    ensures
        set_views(r@) == Seq::<PakSetModel>::empty(),
{
    let v: Vec<PakSet> = Vec::new();
    assert(set_views(v@) =~= Seq::<PakSetModel>::empty());
    v
}

/// Entries not claimed yet that are not litter.
fn free_entries(es: &Vec<TreeEntry>, claimed: &Vec<Vec<char>>) -> (r: Vec<TreeEntry>)
    ensures
        entry_views(r@) == entry_views(es@).filter(free_payload(views(claimed@))),
{
    let ghost ev = entry_views(es@);
    let ghost pred = free_payload(views(claimed@));
    let mut flags: Vec<bool> = Vec::new();
    let mut i: usize = 0;
    while i < es.len()
        invariant
            i <= es.len(),
            ev == entry_views(es@),
            pred == free_payload(views(claimed@)),
            flags.len() == i,
            forall|k: int| 0 <= k < i ==> flags@[k] == pred(#[trigger] ev[k]),
        decreases es.len() - i,
    {
        let n = chars_of(es[i].norm.as_str());
        let f = !contains_piece(claimed, n.as_slice()) && !is_junk_exec(&es[i]);
        flags.push(f);
        i = i + 1;
    }
    proof {
        lemma_flagged_filter(ev, flags@, pred);
    }
    select_entries(es, &flags)
}

/// Push a component and record its files as claimed.
fn claim_exec(
    entries: &Vec<TreeEntry>,
    c: DetectedComponent,
    claimed: &mut Vec<Vec<char>>,
    out: &mut Vec<DetectedComponent>,
)
    ensures
        (views(final(claimed)@), component_views(final(out)@)) == claim(
            (views(old(claimed)@), component_views(old(out)@)),
            entry_views(entries@),
            c@,
        ),
{
    mark_claimed(entries, claimed);
    let ghost b = component_views(out@);
    let ghost cv = c@;
    out.push(c);
    assert(component_views(out@) =~= b.push(cv));
}

/// The full UE4SS distribution: a DLL proxy plus the `ue4ss` runtime folder.
///
/// Distinguished from a Lua mod that happens to be packaged with `ue4ss/Mods/`
/// paths by the presence of `UE4SS.dll` itself.
fn claim_ue4ss_framework(es: &Vec<TreeEntry>, claimed: &mut Vec<Vec<char>>, out: &mut Vec<DetectedComponent>)
    ensures
        (views(final(claimed)@), component_views(final(out)@)) == claim_framework(
            entry_views(es@),
            (views(old(claimed)@), component_views(old(out)@)),
        ),
{
    let ghost ev = entry_views(es@);
    let core = chars_of("ue4ss.dll");
    let mut has_core = false;
    let mut i: usize = 0;
    while i < es.len()
        invariant
            i <= es.len(),
            ev == entry_views(es@),
            core@ == "ue4ss.dll"@,
            has_core == exists|k: int| 0 <= k < i && last_piece((#[trigger] ev[k]).norm, '/') == "ue4ss.dll"@,
        decreases es.len() - i,
    {
        let name = entry_file_name(&es[i]);
        assert(ev[i as int] == es@[i as int]@);
        if chars_eq(name.as_slice(), core.as_slice()) {
            has_core = true;
        }
        i = i + 1;
    }
    if !has_core {
        return;
    }
    let entries = free_entries(es, claimed);
    if entries.len() == 0 {
        return;
    }
    let files = map_preserving_exec(&entries, chars_of(BINARIES_WIN64).as_slice(), 0);
    let c = DetectedComponent {
        mod_type: ModType::Ue4ssFramework,
        confidence: Confidence::High,
        files,
        target_subdir: crate::text::owned(BINARIES_WIN64),
        ue4ss_mod_name: None,
        pak_sets: no_sets(),
        warnings: no_texts(),
        notes: one_text("Installs the UE4SS runtime. Required by Lua, C++ and Blueprint logic mods."),
    };
    claim_exec(&entries, c, claimed, out);
}

fn claim_logic_mods(es: &Vec<TreeEntry>, claimed: &mut Vec<Vec<char>>, out: &mut Vec<DetectedComponent>)
    ensures
        (views(final(claimed)@), component_views(final(out)@)) == claim_logic(
            entry_views(es@),
            (views(old(claimed)@), component_views(old(out)@)),
        ),
{
    let ghost ev = entry_views(es@);
    let ghost pred = logic_filter(views(claimed@));
    let seg = chars_of("logicmods");
    let mut flags: Vec<bool> = Vec::new();
    let mut i: usize = 0;
    while i < es.len()
        invariant
            i <= es.len(),
            ev == entry_views(es@),
            seg@ == "logicmods"@,
            pred == logic_filter(views(claimed@)),
            flags.len() == i,
            forall|k: int| 0 <= k < i ==> flags@[k] == pred(#[trigger] ev[k]),
        decreases es.len() - i,
    {
        let n = chars_of(es[i].norm.as_str());
        let f = entry_has_segment(&es[i], seg.as_slice()) && !contains_piece(claimed, n.as_slice())
            && !is_junk_exec(&es[i]);
        flags.push(f);
        i = i + 1;
    }
    proof {
        lemma_flagged_filter(ev, flags@, pred);
    }
    let entries = select_entries(es, &flags);
    if entries.len() == 0 {
        return;
    }
    let files = map_flat_exec(&entries, PAKS_LOGICMODS);
    let (pak_sets, warnings) = build_pak_sets(entries.as_slice());
    let c = DetectedComponent {
        mod_type: ModType::LogicMod,
        confidence: Confidence::High,
        files,
        target_subdir: crate::text::owned(PAKS_LOGICMODS),
        ue4ss_mod_name: None,
        pak_sets,
        warnings,
        notes: no_texts(),
    };
    claim_exec(&entries, c, claimed, out);
}

fn claim_movies_exec(es: &Vec<TreeEntry>, claimed: &mut Vec<Vec<char>>, out: &mut Vec<DetectedComponent>)
    ensures
        (views(final(claimed)@), component_views(final(out)@)) == claim_movies(
            entry_views(es@),
            (views(old(claimed)@), component_views(old(out)@)),
        ),
{
    let ghost ev = entry_views(es@);
    let ghost pred = movie_filter(views(claimed@));
    let seg = chars_of("movies");
    let mut flags: Vec<bool> = Vec::new();
    let mut i: usize = 0;
    while i < es.len()
        invariant
            i <= es.len(),
            ev == entry_views(es@),
            seg@ == "movies"@,
            pred == movie_filter(views(claimed@)),
            flags.len() == i,
            forall|k: int| 0 <= k < i ==> flags@[k] == pred(#[trigger] ev[k]),
        decreases es.len() - i,
    {
        let n = chars_of(es[i].norm.as_str());
        let by_ext = match entry_ext(&es[i]) {
            Some(x) => movie_ext_exec(x.as_slice()),
            None => false,
        };
        let f = !contains_piece(claimed, n.as_slice()) && (entry_has_segment(&es[i], seg.as_slice())
            || by_ext) && !is_junk_exec(&es[i]);
        flags.push(f);
        i = i + 1;
    }
    proof {
        lemma_flagged_filter(ev, flags@, pred);
    }
    let entries = select_entries(es, &flags);
    if entries.len() == 0 {
        return;
    }
    let files = map_flat_exec(&entries, CONTENT_MOVIES);
    let c = DetectedComponent {
        mod_type: ModType::Movie,
        confidence: Confidence::Medium,
        files,
        target_subdir: crate::text::owned(CONTENT_MOVIES),
        ue4ss_mod_name: None,
        pak_sets: no_sets(),
        warnings: no_texts(),
        notes: one_text("Replaces a game movie file of the same name."),
    };
    claim_exec(&entries, c, claimed, out);
}

/// ReShade and similar: a proxy DLL next to the executable, plus its assets.
fn claim_root_binaries_exec(es: &Vec<TreeEntry>, claimed: &mut Vec<Vec<char>>, out: &mut Vec<DetectedComponent>)
    ensures
        (views(final(claimed)@), component_views(final(out)@)) == claim_root_binaries(
            entry_views(es@),
            (views(old(claimed)@), component_views(old(out)@)),
        ),
{
    let ghost ev = entry_views(es@);
    let mut has_marker = false;
    let mut i: usize = 0;
    while i < es.len()
        invariant
            i <= es.len(),
            ev == entry_views(es@),
            has_marker == exists|k: int| 0 <= k < i && root_marker(#[trigger] ev[k]),
        decreases es.len() - i,
    {
        let n = chars_of(es[i].norm.as_str());
        let name = entry_file_name(&es[i]);
        let by_ext = match entry_ext(&es[i]) {
            Some(x) => root_binary_ext_exec(x.as_slice()),
            None => false,
        };
        let m = (!contains_char(n.as_slice(), '/') && proxy_dll_exec(name.as_slice()))
            || chars_eq(name.as_slice(), chars_of("reshade.ini").as_slice()) || by_ext
            || entry_has_segment(&es[i], chars_of("reshade-shaders").as_slice())
            || entry_has_segment(&es[i], chars_of("reshade-presets").as_slice());
        assert(m == root_marker(ev[i as int]));
        if m {
            has_marker = true;
        }
        i = i + 1;
    }
    if !has_marker {
        return;
    }
    let entries = free_entries(es, claimed);
    if entries.len() == 0 {
        return;
    }
    let files = map_preserving_exec(&entries, chars_of(BINARIES_WIN64).as_slice(), 0);
    let c = DetectedComponent {
        mod_type: ModType::RootBinary,
        confidence: Confidence::Medium,
        files,
        target_subdir: crate::text::owned(BINARIES_WIN64),
        ue4ss_mod_name: None,
        pak_sets: no_sets(),
        warnings: no_texts(),
        notes: one_text(
            "Installs next to the game executable. Only one proxy DLL of a given name can be active.",
        ),
    };
    claim_exec(&entries, c, claimed, out);
}

fn claim_generic_paks_exec(es: &Vec<TreeEntry>, claimed: &mut Vec<Vec<char>>, out: &mut Vec<DetectedComponent>)
    ensures
        (views(final(claimed)@), component_views(final(out)@)) == claim_generic_paks(
            entry_views(es@),
            (views(old(claimed)@), component_views(old(out)@)),
        ),
{
    let ghost ev = entry_views(es@);
    let ghost pred = pak_filter(views(claimed@));
    let mut flags: Vec<bool> = Vec::new();
    let mut i: usize = 0;
    while i < es.len()
        invariant
            i <= es.len(),
            ev == entry_views(es@),
            pred == pak_filter(views(claimed@)),
            flags.len() == i,
            forall|k: int| 0 <= k < i ==> flags@[k] == pred(#[trigger] ev[k]),
        decreases es.len() - i,
    {
        let n = chars_of(es[i].norm.as_str());
        let by_ext = match entry_ext(&es[i]) {
            Some(x) => loose_pak_ext_exec(x.as_slice()),
            None => false,
        };
        let f = !contains_piece(claimed, n.as_slice()) && by_ext;
        flags.push(f);
        i = i + 1;
    }
    proof {
        lemma_flagged_filter(ev, flags@, pred);
    }
    let entries = select_entries(es, &flags);
    if entries.len() == 0 {
        return;
    }
    let files = map_flat_exec(&entries, PAKS_MODS);
    let (pak_sets, warnings) = build_pak_sets(entries.as_slice());
    let c = DetectedComponent {
        mod_type: ModType::GenericPak,
        confidence: Confidence::High,
        files,
        target_subdir: crate::text::owned(PAKS_MODS),
        ue4ss_mod_name: None,
        pak_sets,
        warnings,
        notes: no_texts(),
    };
    claim_exec(&entries, c, claimed, out);
}

fn unknown_component(es: &Vec<TreeEntry>) -> (r: DetectedComponent)
    ensures
        r@ == unknown_of(entry_views(es@)),
{
    let r = DetectedComponent {
        mod_type: ModType::Unknown,
        confidence: Confidence::AskUser,
        files: same_files_exec(es),
        target_subdir: crate::text::owned(""),
        ue4ss_mod_name: None,
        pak_sets: no_sets(),
        warnings: one_text("Could not determine where these files belong."),
        notes: no_texts(),
    };
    r
}

proof fn lemma_depth_le(s: Seq<char>)
    ensures
        depth_of(s) <= s.len(),
    decreases s.len(),
{
    if s.len() > 0 {
        lemma_depth_le(s.drop_last());
    }
}

/// `dir_hit` on characters.
fn dir_hit_exec(n: &[char], needle: &[char]) -> (r: Option<Vec<char>>)
    ensures
        match r {
            Some(h) => dir_hit(n@, needle@) == Some(h@) && h@.len() < usize::MAX,
            None => dir_hit(n@, needle@) is None,
        },
{
    if chars_eq(n, needle) {
        return Some(Vec::new());
    }
    let mut suffix: Vec<char> = Vec::new();
    suffix.push('/');
    let suffix = concat_chars(suffix.as_slice(), needle);
    assert(suffix@ =~= seq!['/'] + needle@);
    if ends_with(n, suffix.as_slice()) {
        Some(slice_chars(n, 0, n.len() - needle.len() - 1))
    } else {
        None
    }
}

/// Claim what is left inside one UE4SS marker folder.
fn claim_dir_exec(
    es: &Vec<TreeEntry>,
    d: &[char],
    claimed: &mut Vec<Vec<char>>,
    out: &mut Vec<DetectedComponent>,
)
    requires
        d@.len() < usize::MAX,
    ensures
        (views(final(claimed)@), component_views(final(out)@)) == claim_dir(
            entry_views(es@),
            d@,
            (views(old(claimed)@), component_views(old(out)@)),
        ),
{
    let ghost ev = entry_views(es@);
    let ghost pred = mod_dir_filter(d@, views(claimed@));
    let mut prefix = lower_chars(d);
    prefix.push('/');
    let mut flags: Vec<bool> = Vec::new();
    let mut i: usize = 0;
    while i < es.len()
        invariant
            i <= es.len(),
            ev == entry_views(es@),
            prefix@ == lower(d@) + seq!['/'],
            pred == mod_dir_filter(d@, views(claimed@)),
            flags.len() == i,
            forall|k: int| 0 <= k < i ==> flags@[k] == pred(#[trigger] ev[k]),
        decreases es.len() - i,
    {
        let n = chars_of(es[i].norm.as_str());
        let f = (d.len() == 0 || starts_with(n.as_slice(), prefix.as_slice())) && !contains_piece(
            claimed,
            n.as_slice(),
        );
        flags.push(f);
        i = i + 1;
    }
    proof {
        lemma_flagged_filter(ev, flags@, pred);
    }
    let entries = select_entries(es, &flags);
    if entries.len() == 0 {
        return;
    }
    let ghost em = entry_views(entries@);
    let lua = chars_of("scripts/main.lua");
    let mut is_lua = false;
    let mut k: usize = 0;
    while k < entries.len()
        invariant
            k <= entries.len(),
            em == entry_views(entries@),
            lua@ == "scripts/main.lua"@,
            is_lua == exists|x: int| 0 <= x < k && is_suffix("scripts/main.lua"@, (#[trigger] em[x]).norm),
        decreases entries.len() - k,
    {
        let n = chars_of(entries[k].norm.as_str());
        assert(em[k as int].norm == n@);
        if ends_with(n.as_slice(), lua.as_slice()) {
            is_lua = true;
        }
        k = k + 1;
    }
    let mod_type = if is_lua {
        ModType::Ue4ssLua
    } else {
        ModType::Ue4ssDll
    };
    proof {
        lemma_depth_le(d@);
    }
    let depth: usize = if d.len() == 0 {
        0
    } else {
        depth_exec(d) + 1
    };
    assert(depth == dir_depth(d@));
    let name: Option<Vec<char>> = if d.len() == 0 {
        None
    } else {
        let p0 = chars_of(entries[0].path.as_str());
        assert(em[0].path == p0@);
        nth_comp_exec(p0.as_slice(), depth - 1)
    };
    let root: Vec<char> = match &name {
        Some(n) => {
            let mut a = chars_of(UE4SS_MODS);
            a.push('/');
            concat_chars(a.as_slice(), n.as_slice())
        },
        None => chars_of(UE4SS_MODS),
    };
    let files = map_preserving_exec(&entries, root.as_slice(), depth);
    let notes = match &name {
        Some(_) => one_text("Will be registered in UE4SS mods.txt so the loader picks it up."),
        None => {
            let mut v = one_text("Will be registered in UE4SS mods.txt so the loader picks it up.");
            let ghost b = string_views(v@);
            v.push(
                crate::text::owned(
                    "The archive has no mod folder; the mod name will be used as the folder name.",
                ),
            );
            assert(string_views(v@) =~= b.push(note_no_folder()));
            v
        },
    };
    let mod_name: Option<String> = match name {
        Some(n) => Some(string_from_chars(n.as_slice())),
        None => None,
    };
    let c = DetectedComponent {
        mod_type,
        confidence: Confidence::High,
        files,
        target_subdir: string_from_chars(root.as_slice()),
        ue4ss_mod_name: mod_name,
        pak_sets: no_sets(),
        warnings: no_texts(),
        notes,
    };
    let ghost want = mod_in_dir(em, d@);
    assert(c@.mod_type == want.mod_type);
    assert(c@.ue4ss_mod_name == want.ue4ss_mod_name);
    assert(c@.target_subdir == want.target_subdir);
    assert(c@.files == want.files);
    assert(c@.notes == want.notes);
    assert(c@ == want);
    claim_exec(&entries, c, claimed, out);
}

/// UE4SS Lua and C++ mods, identified by their `scripts/main.lua` or
/// `dlls/main.dll` marker.
fn claim_ue4ss_mods(es: &Vec<TreeEntry>, claimed: &mut Vec<Vec<char>>, out: &mut Vec<DetectedComponent>)
    ensures
        (views(final(claimed)@), component_views(final(out)@)) == claim_mods(
            entry_views(es@),
            (views(old(claimed)@), component_views(old(out)@)),
        ),
{
    let ghost ev = entry_views(es@);
    let ghost st0 = (views(claimed@), component_views(out@));
    let lua = chars_of("scripts/main.lua");
    let dll = chars_of("dlls/main.dll");
    let mut dirs: Vec<Vec<char>> = Vec::new();
    let mut i: usize = 0;
    while i < es.len()
        invariant
            i <= es.len(),
            ev == entry_views(es@),
            lua@ == "scripts/main.lua"@,
            dll@ == "dlls/main.dll"@,
            strictly_sorted(views(dirs@)),
            forall|y: Seq<char>| views(dirs@).contains(y) ==> y.len() < usize::MAX,
            forall|y: Seq<char>| views(dirs@).contains(y) <==> exists|k: int|
                0 <= k < i && (dir_hit((#[trigger] ev[k]).norm, "scripts/main.lua"@) == Some(y)
                    || dir_hit(ev[k].norm, "dlls/main.dll"@) == Some(y)),
        decreases es.len() - i,
    {
        let n = chars_of(es[i].norm.as_str());
        assert(ev[i as int].norm == n@);
        let ghost prev = views(dirs@);
        match dir_hit_exec(n.as_slice(), lua.as_slice()) {
            Some(h) => insert_sorted(&mut dirs, h),
            None => {},
        }
        let ghost mid = views(dirs@);
        match dir_hit_exec(n.as_slice(), dll.as_slice()) {
            Some(h) => insert_sorted(&mut dirs, h),
            None => {},
        }
        assert forall|y: Seq<char>| views(dirs@).contains(y) <==> exists|k: int|
            0 <= k < i + 1 && (dir_hit((#[trigger] ev[k]).norm, "scripts/main.lua"@) == Some(y)
                || dir_hit(ev[k].norm, "dlls/main.dll"@) == Some(y)) by {
            if exists|k: int|
                0 <= k < i + 1 && (dir_hit((#[trigger] ev[k]).norm, "scripts/main.lua"@) == Some(y)
                    || dir_hit(ev[k].norm, "dlls/main.dll"@) == Some(y)) {
                let k = choose|k: int|
                    0 <= k < i + 1 && (dir_hit((#[trigger] ev[k]).norm, "scripts/main.lua"@) == Some(y)
                        || dir_hit(ev[k].norm, "dlls/main.dll"@) == Some(y));
                if k < i {
                    assert(prev.contains(y));
                }
            }
        }
        i = i + 1;
    }
    proof {
        assert forall|y: Seq<char>| views(dirs@).contains(y) <==> marker_dirs(ev).contains(y) by {}
        lemma_is_sorted_of(views(dirs@), marker_dirs(ev));
    }
    let ghost order = views(dirs@);
    let mut j: usize = 0;
    while j < dirs.len()
        invariant
            j <= dirs.len(),
            ev == entry_views(es@),
            order == views(dirs@),
            forall|y: Seq<char>| order.contains(y) ==> y.len() < usize::MAX,
            (views(claimed@), component_views(out@)) == claim_dirs(ev, order.subrange(0, j as int), st0),
        decreases dirs.len() - j,
    {
        let ghost done = order.subrange(0, j + 1);
        assert(done.drop_last() =~= order.subrange(0, j as int));
        assert(done.last() == dirs@[j as int]@);
        assert(order.contains(order[j as int]));
        claim_dir_exec(es, dirs[j].as_slice(), claimed, out);
        j = j + 1;
    }
    assert(order.subrange(0, dirs.len() as int) =~= order);
}

/// Classification of a loose archive.
fn detect_heuristic(tree: &FileTree) -> (r: Vec<DetectedComponent>)
    ensures
        component_views(r@) == heuristic_of(tree@),
{
    let es = &tree.entries;
    let mut claimed: Vec<Vec<char>> = Vec::new();
    let mut out: Vec<DetectedComponent> = Vec::new();
    assert(views(claimed@) =~= Seq::<Seq<char>>::empty());
    assert(component_views(out@) =~= Seq::<ComponentModel>::empty());
    claim_ue4ss_framework(es, &mut claimed, &mut out);
    claim_logic_mods(es, &mut claimed, &mut out);
    claim_ue4ss_mods(es, &mut claimed, &mut out);
    claim_movies_exec(es, &mut claimed, &mut out);
    claim_root_binaries_exec(es, &mut claimed, &mut out);
    claim_generic_paks_exec(es, &mut claimed, &mut out);
    let leftovers = free_entries(es, &claimed);
    if leftovers.len() > 0 {
        let u = unknown_component(&leftovers);
        let ghost b = component_views(out@);
        let ghost uv = u@;
        out.push(u);
        assert(component_views(out@) =~= b.push(uv));
    }
    out
}

pub open spec fn opt_chars(o: Option<Vec<char>>) -> Option<Seq<char>> {
    match o {
        Some(v) => Some(v@),
        None => None,
    }
}

/// The recorded classification of an entry is its classification.
pub open spec fn cls_ok(e: EntryModel, is_sb: bool, t: ModType, n: Option<Vec<char>>) -> bool {
    is_sb == under_sb(e) && (is_sb ==> t == classify(e).0 && opt_chars(n) == classify(e).1)
}

/// Where an entry under `SB/` goes.
fn classify_exec(e: &TreeEntry) -> (r: (ModType, Option<Vec<char>>))
    requires
        under_sb(e@),
    ensures
        r.0 == classify(e@).0,
        opt_chars(r.1) == classify(e@).1,
{
    let n = chars_of(e.norm.as_str());
    let sbp = chars_of("sb/");
    let rel = slice_chars(n.as_slice(), sbp.len(), n.len());
    let r = rel.as_slice();
    if starts_with(r, chars_of("content/paks/logicmods/").as_slice()) {
        return (ModType::LogicMod, None);
    }
    if starts_with(r, chars_of("content/movies/").as_slice()) {
        return (ModType::Movie, None);
    }
    if starts_with(r, chars_of("content/paks/").as_slice()) {
        return (ModType::GenericPak, None);
    }
    let mods = chars_of("binaries/win64/ue4ss/mods/");
    if starts_with(r, mods.as_slice()) {
        let rest = slice_chars(r, mods.len(), r.len());
        match split_once_exec(rest.as_slice(), '/') {
            Some((name, tail)) => {
                let t = if starts_with(tail.as_slice(), chars_of("dlls/").as_slice()) {
                    ModType::Ue4ssDll
                } else {
                    ModType::Ue4ssLua
                };
                let p = chars_of(e.path.as_str());
                let original = match nth_comp_exec(p.as_slice(), 5) {
                    Some(o) => o,
                    None => name,
                };
                return (t, Some(original));
            },
            None => {
                return (ModType::Ue4ssFramework, None);
            },
        }
    }
    if starts_with(r, chars_of("binaries/win64/ue4ss/").as_slice()) {
        return (ModType::Ue4ssFramework, None);
    }
    if starts_with(r, chars_of("binaries/win64/").as_slice()) {
        return (ModType::RootBinary, None);
    }
    (ModType::GameRootOverlay, None)
}

/// One bucket of a game-relative tree as a component.
fn bucket_exec(es: &Vec<TreeEntry>, flags: &Vec<bool>, t: ModType, name: Option<Vec<char>>) -> (r:
    DetectedComponent)
    requires
        flags.len() == es.len(),
        crate::text::flagged(entry_views(es@), flags@) == entry_views(es@).filter(
            bucket_filter(t, opt_chars(name)),
        ),
    ensures
        r@ == bucket_component(entry_views(es@), t, opt_chars(name)),
{
    let b = select_entries(es, flags);
    let files = same_files_exec(&b);
    let (pak_sets, warnings) = build_pak_sets(b.as_slice());
    let notes = if t == ModType::GameRootOverlay {
        one_text("Ships explicit game paths and will be laid down directly onto the game folder.")
    } else {
        no_texts()
    };
    let nm: Option<String> = match name {
        Some(n) => Some(string_from_chars(n.as_slice())),
        None => None,
    };
    DetectedComponent {
        mod_type: t,
        confidence: Confidence::High,
        files,
        target_subdir: crate::text::owned(t.target_subdir()),
        ue4ss_mod_name: nm,
        pak_sets,
        warnings,
        notes,
    }
}

/// An archive that already spells out `SB/...`: bucket by destination, UE4SS
/// mods additionally by folder name so two bundled mods are not merged.
fn detect_game_relative(es: &Vec<TreeEntry>) -> (r: Vec<DetectedComponent>)
    ensures
        component_views(r@) == game_relative_of(entry_views(es@)),
{
    let ghost ev = entry_views(es@);
    let mut sbk: Vec<bool> = Vec::new();
    let mut types: Vec<ModType> = Vec::new();
    let mut names: Vec<Option<Vec<char>>> = Vec::new();
    let sbp = chars_of("sb/");
    let mut i: usize = 0;
    while i < es.len()
        invariant
            i <= es.len(),
            ev == entry_views(es@),
            sbp@ == "sb/"@,
            sbk.len() == i,
            types.len() == i,
            names.len() == i,
            forall|k: int| #![trigger sbk@[k]] 0 <= k < i ==> cls_ok(ev[k], sbk@[k], types@[k], names@[k]),
        decreases es.len() - i,
    {
        let n = chars_of(es[i].norm.as_str());
        assert(ev[i as int] == es@[i as int]@);
        assert(ev[i as int].norm == n@);
        let ghost (os, ot, on) = (sbk@, types@, names@);
        if starts_with(n.as_slice(), sbp.as_slice()) {
            let (t, nm) = classify_exec(&es[i]);
            sbk.push(true);
            types.push(t);
            names.push(nm);
        } else {
            sbk.push(false);
            types.push(ModType::Unknown);
            names.push(None);
        }
        assert forall|k: int| #![trigger sbk@[k]] 0 <= k < i + 1 implies cls_ok(ev[k], sbk@[k], types@[k], names@[k]) by {
            if k < i {
                assert(sbk@[k] == os[k] && types@[k] == ot[k] && names@[k] == on[k]);
            }
        }
        i = i + 1;
    }
    let all = ModType::all();
    let mut out: Vec<DetectedComponent> = Vec::new();
    assert(crate::model::all_types().subrange(0, 0) =~= Seq::<ModType>::empty());
    assert(component_views(out@) =~= Seq::<ComponentModel>::empty());
    assert(all@.subrange(0, 0) =~= Seq::<ModType>::empty());
    assert(buckets_of_types(ev, all@.subrange(0, 0)) =~= Seq::<ComponentModel>::empty());
    let mut ti: usize = 0;
    while ti < all.len()
        invariant
            ti <= all.len(),
            all@ == crate::model::all_types(),
            ev == entry_views(es@),
            sbk.len() == es.len(),
            types.len() == es.len(),
            names.len() == es.len(),
            forall|k: int| #![trigger sbk@[k]] 0 <= k < es.len() ==> cls_ok(ev[k], sbk@[k], types@[k], names@[k]),
            component_views(out@) == buckets_of_types(ev, all@.subrange(0, ti as int)),
        decreases all.len() - ti,
    {
        let t = all[ti];
        let ghost done = all@.subrange(0, ti + 1);
        assert(done.drop_last() =~= all@.subrange(0, ti as int));
        assert(done.last() == t);
        let ghost base = component_views(out@);
        let ghost keys = keys_of_type(ev, t);
        if t == ModType::Ue4ssLua || t == ModType::Ue4ssDll {
            let mut list: Vec<Vec<char>> = Vec::new();
            let mut k: usize = 0;
            while k < es.len()
                invariant
                    k <= es.len(),
                    t == ModType::Ue4ssLua || t == ModType::Ue4ssDll,
                    sbk.len() == es.len(),
                    types.len() == es.len(),
                    names.len() == es.len(),
                    forall|x: int| #![trigger sbk@[x]] 0 <= x < es.len() ==> cls_ok(ev[x], sbk@[x], types@[x], names@[x]),
                    strictly_sorted(views(list@)),
                    forall|y: Seq<char>| views(list@).contains(y) <==> exists|x: int|
                        0 <= x < k && under_sb(#[trigger] ev[x]) && classify(ev[x]) == (t, Some(y)),
                decreases es.len() - k,
            {
                let ghost prev = views(list@);
                if sbk[k] && types[k] == t {
                    match &names[k] {
                        Some(nm) => {
                            insert_sorted(&mut list, copy_chars(nm.as_slice()));
                        },
                        None => {},
                    }
                }
                assert forall|y: Seq<char>| views(list@).contains(y) <==> exists|x: int|
                    0 <= x < k + 1 && under_sb(#[trigger] ev[x]) && classify(ev[x]) == (t, Some(y)) by {
                    if exists|x: int| 0 <= x < k + 1 && under_sb(#[trigger] ev[x]) && classify(ev[x]) == (t, Some(y)) {
                        let x = choose|x: int| 0 <= x < k + 1 && under_sb(#[trigger] ev[x]) && classify(ev[x]) == (t, Some(y));
                        if x < k {
                            assert(prev.contains(y));
                        }
                    }
                }
                k = k + 1;
            }
            proof {
                assert forall|y: Seq<char>| views(list@).contains(y) <==> names_of_type(ev, t).contains(y) by {}
                lemma_is_sorted_of(views(list@), names_of_type(ev, t));
            }
            let ghost order = views(list@);
            assert(keys == order.map_values(|n: Seq<char>| Some(n)));
            let mut j: usize = 0;
            while j < list.len()
                invariant
                    j <= list.len(),
                    order == views(list@),
                    keys == order.map_values(|n: Seq<char>| Some(n)),
                    ev == entry_views(es@),
                    sbk.len() == es.len(),
                    types.len() == es.len(),
                    names.len() == es.len(),
                    forall|x: int| #![trigger sbk@[x]] 0 <= x < es.len() ==> cls_ok(ev[x], sbk@[x], types@[x], names@[x]),
                    component_views(out@) == base + keys.subrange(0, j as int).map_values(
                        |k: Option<Seq<char>>| bucket_component(ev, t, k),
                    ),
                decreases list.len() - j,
            {
                let name = copy_chars(list[j].as_slice());
                let mut flags: Vec<bool> = Vec::new();
                let mut x: usize = 0;
                while x < es.len()
                    invariant
                        x <= es.len(),
                        flags.len() == x,
                        name@ == order[j as int],
                        sbk.len() == es.len(),
                        types.len() == es.len(),
                        names.len() == es.len(),
                        forall|y: int| #![trigger sbk@[y]] 0 <= y < es.len() ==> cls_ok(ev[y], sbk@[y], types@[y], names@[y]),
                        forall|y: int| 0 <= y < x ==> flags@[y] == bucket_filter(t, Some(name@))(#[trigger] ev[y]),
                    decreases es.len() - x,
                {
                    let f = if sbk[x] && types[x] == t {
                        match &names[x] {
                            Some(nm) => chars_eq(nm.as_slice(), name.as_slice()),
                            None => false,
                        }
                    } else {
                        false
                    };
                    flags.push(f);
                    x = x + 1;
                }
                proof {
                    lemma_flagged_filter(ev, flags@, bucket_filter(t, Some(name@)));
                }
                let ghost nv = name@;
                let c = bucket_exec(es, &flags, t, Some(name));
                let ghost b = component_views(out@);
                let ghost cv = c@;
                out.push(c);
                assert(component_views(out@) =~= b.push(cv));
                assert(keys.subrange(0, j + 1) =~= keys.subrange(0, j as int).push(keys[j as int]));
                assert(keys[j as int] == Some(nv));
                assert(base + keys.subrange(0, j + 1).map_values(
                    |k: Option<Seq<char>>| bucket_component(ev, t, k),
                ) =~= b.push(cv));
                j = j + 1;
            }
            assert(keys.subrange(0, list.len() as int) =~= keys);
        } else {
            let mut flags: Vec<bool> = Vec::new();
            let mut any = false;
            let mut x: usize = 0;
            while x < es.len()
                invariant
                    x <= es.len(),
                    flags.len() == x,
                    t != ModType::Ue4ssLua && t != ModType::Ue4ssDll,
                    sbk.len() == es.len(),
                    types.len() == es.len(),
                    names.len() == es.len(),
                    forall|y: int| #![trigger sbk@[y]] 0 <= y < es.len() ==> cls_ok(ev[y], sbk@[y], types@[y], names@[y]),
                    forall|y: int| 0 <= y < x ==> flags@[y] == bucket_filter(t, None)(#[trigger] ev[y]),
                    any == exists|y: int| 0 <= y < x && under_sb(#[trigger] ev[y]) && classify(ev[y]).0 == t,
                decreases es.len() - x,
            {
                let f = sbk[x] && types[x] == t;
                proof {
                    if f {
                        lemma_classify_named(ev[x as int]);
                    }
                }
                flags.push(f);
                if f {
                    any = true;
                }
                x = x + 1;
            }
            if any {
                proof {
                    lemma_flagged_filter(ev, flags@, bucket_filter(t, None));
                }
                let c = bucket_exec(es, &flags, t, None);
                let ghost cv = c@;
                out.push(c);
                assert(keys =~= seq![None::<Seq<char>>]);
                assert(component_views(out@) =~= base.push(cv));
                assert(keys.map_values(|k: Option<Seq<char>>| bucket_component(ev, t, k)) =~= seq![cv]);
            } else {
                assert(keys =~= Seq::<Option<Seq<char>>>::empty());
                assert(keys.map_values(|k: Option<Seq<char>>| bucket_component(ev, t, k)) =~= Seq::<ComponentModel>::empty());
            }
        }
        assert(component_views(out@) =~= buckets_of_types(ev, all@.subrange(0, ti + 1)));
        ti = ti + 1;
    }
    assert(all@.subrange(0, all.len() as int) =~= crate::model::all_types());
    out
}

/// Only UE4SS mods carry a folder name.
proof fn lemma_classify_named(e: EntryModel)
    ensures
        classify(e).0 != ModType::Ue4ssLua && classify(e).0 != ModType::Ue4ssDll ==> classify(e).1 is None,
{
}

/// Classify every file in an extracted archive.
pub fn detect_components(tree: &FileTree) -> (r: Vec<DetectedComponent>)
    ensures
        component_views(r@) == detect_of(tree@),
{
    let t = tree.stripped();
    if t.entries.len() == 0 {
        let r: Vec<DetectedComponent> = Vec::new();
        assert(component_views(r@) =~= Seq::<ComponentModel>::empty());
        return r;
    }
    let ghost tv = t@;
    let sb = chars_of("sb");
    let sbp = chars_of("sb/");
    let mut flags: Vec<bool> = Vec::new();
    let mut nflags: Vec<bool> = Vec::new();
    let mut i: usize = 0;
    while i < t.entries.len()
        invariant
            i <= t.entries.len(),
            tv == t@,
            sb@ == "sb"@,
            sbp@ == "sb/"@,
            flags.len() == i,
            nflags.len() == i,
            forall|k: int| 0 <= k < i ==> flags@[k] == sb_filter()(#[trigger] tv[k]),
            forall|k: int| 0 <= k < i ==> nflags@[k] == other_filter()(#[trigger] tv[k]),
        decreases t.entries.len() - i,
    {
        let n = chars_of(t.entries[i].norm.as_str());
        assert(tv[i as int].norm == n@);
        let f = chars_eq(n.as_slice(), sb.as_slice()) || starts_with(n.as_slice(), sbp.as_slice());
        flags.push(f);
        nflags.push(!f);
        i = i + 1;
    }
    proof {
        lemma_flagged_filter(tv, flags@, sb_filter());
        lemma_flagged_filter(tv, nflags@, other_filter());
    }
    let sb_entries = select_entries(&t.entries, &flags);
    let other_entries = select_entries(&t.entries, &nflags);
    let mut components: Vec<DetectedComponent> = if sb_entries.len() > 0 {
        detect_game_relative(&sb_entries)
    } else {
        Vec::new()
    };
    let ghost c1 = component_views(components@);
    assert(sb_entries.len() == 0 ==> c1 =~= Seq::<ComponentModel>::empty());
    if other_entries.len() > 0 {
        let ghost ov = entry_views(other_entries@);
        let mut paths: Vec<String> = Vec::new();
        let mut k: usize = 0;
        while k < other_entries.len()
            invariant
                k <= other_entries.len(),
                ov == entry_views(other_entries@),
                string_views(paths@) =~= ov.subrange(0, k as int).map_values(path_of()),
            decreases other_entries.len() - k,
        {
            let p = other_entries[k].path.clone();
            let ghost b = string_views(paths@);
            paths.push(p);
            assert(string_views(paths@) =~= b.push(p@));
            assert(ov.subrange(0, k + 1) =~= ov.subrange(0, k as int).push(ov[k as int]));
            k = k + 1;
        }
        assert(ov.subrange(0, other_entries.len() as int) =~= ov);
        let rest = FileTree::from_paths(&paths);
        let mut found = detect_heuristic(&rest);
        let ghost fv = component_views(found@);
        let ghost before_c = components@;
        let ghost before_f = found@;
        components.append(&mut found);
        assert(components@ == before_c + before_f);
        assert(component_views(components@) =~= component_views(before_c) + component_views(before_f));
        assert(component_views(components@) =~= c1 + fv);
    } else {
        assert(component_views(components@) =~= c1 + Seq::<ComponentModel>::empty());
    }
    if components.len() == 0 {
        let u = unknown_component(&t.entries);
        let ghost uv = u@;
        components.push(u);
        assert(component_views(components@) =~= seq![uv]);
    }
    components
}

} // verus!
