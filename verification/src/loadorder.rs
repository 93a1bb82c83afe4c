//! Load order for `~mods`.
//!
//! Stellar Blade mounts loose paks in alphanumeric order, so priority is
//! expressed by rewriting the file name with a zero-padded numeric prefix. The
//! `_P` suffix has to stay at the end of the base name, and every file of an
//! IoStore set must keep the same base name, or the archive will not mount.

use vstd::prelude::*;

use crate::model::{file_views, set_files, set_views, ComponentFile, PakSet, PakSetModel};
use crate::text::{
    after_first, before_last, chars_eq, chars_of, components, components_of, concat_chars,
    contains_char, copy_chars, lemma_views_push, first_piece, is_suffix, join, join_chars, last_piece, lemma_join_split,
    lemma_split_nonempty, lower, lower_chars, slice_chars, split, split_chars, split_once_exec,
    string_from_chars, views,
};

verus! {

// ---------------------------------------------------------------------------
// Names
// ---------------------------------------------------------------------------

/// The priority as it is written: held to `0..=9999`.
pub open spec fn clamp_priority(p: int) -> int {
    if p < 0 {
        0
    } else if p > 9999 {
        9999
    } else {
        p
    }
}

/// The decimal digit `d`.
pub open spec fn digit(d: int) -> char {
    ((d + 48) as u8) as char
}

/// `n` written with four decimal digits, zero-padded.
pub open spec fn four_digits(n: int) -> Seq<char> {
    seq![digit(n / 1000), digit((n / 100) % 10), digit((n / 10) % 10), digit(n % 10)]
}

/// The base name a pak set gets on disk at a priority: `NNNN_<base>_P`.
pub open spec fn ordered_base_of(priority: int, base: Seq<char>) -> Seq<char> {
    four_digits(clamp_priority(priority)) + seq!['_'] + base + seq!['_', 'P']
}

/// Every character is an ASCII digit.
pub open spec fn all_digits(s: Seq<char>) -> bool {
    forall|i: int| 0 <= i < s.len() ==> '0' <= #[trigger] s[i] && s[i] <= '9'
}

/// A name without the text after its last `.`.
pub open spec fn without_ext(name: Seq<char>) -> Seq<char> {
    if name.contains('.') {
        before_last(name, '.')
    } else {
        name
    }
}

/// A name without a leading four-digit `NNNN_` prefix.
pub open spec fn without_prefix(s: Seq<char>) -> Seq<char> {
    if s.contains('_') && first_piece(s, '_').len() == 4 && all_digits(first_piece(s, '_')) {
        after_first(s, '_')
    } else {
        s
    }
}

/// What `strip_ordering` gives back for a deployed file name.
pub open spec fn strip_ordering_of(name: Seq<char>) -> Seq<char> {
    let w = without_prefix(without_ext(name));
    if is_suffix(seq!['_', 'P'], w) || is_suffix(seq!['_', 'p'], w) {
        w.subrange(0, w.len() - 2)
    } else {
        w
    }
}

/// A piece of a path that `Path::components` reports: not empty and not `.`.
pub open spec fn named_piece() -> spec_fn(Seq<char>) -> bool {
    |s: Seq<char>| s.len() > 0 && s != seq!['.']
}

/// `Path::file_name` for a `/`-separated path: its last component, unless
/// that is `..` or there is none.
pub open spec fn path_file_name(p: Seq<char>) -> Option<Seq<char>> {
    let c = split(p, '/').filter(named_piece());
    if c.len() > 0 && c.last() != seq!['.', '.'] {
        Some(c.last())
    } else {
        None
    }
}

/// `Path::file_name`.
pub fn path_file_name_exec(p: &[char]) -> (r: Option<Vec<char>>)
    ensures
        match r {
            Some(f) => path_file_name(p@) == Some(f@),
            None => path_file_name(p@) is None,
        },
{
    let pieces = split_chars(p, '/');
    let ghost pv = views(pieces@);
    let mut last: Option<Vec<char>> = None;
    let mut i: usize = 0;
    while i < pieces.len()
        invariant
            i <= pieces.len(),
            pv == views(pieces@),
            match last {
                Some(l) => pv.subrange(0, i as int).filter(named_piece()).len() > 0 && l@ == pv.subrange(0, i as int).filter(named_piece()).last(),
                None => pv.subrange(0, i as int).filter(named_piece()).len() == 0,
            },
        decreases pieces.len() - i,
    {
        let ghost t = pv.subrange(0, i + 1);
        assert(t.drop_last() =~= pv.subrange(0, i as int));
        assert(t.last() == pieces@[i as int]@);
        proof {
            crate::text::lemma_filter_step(t, named_piece());
        }
        let named = pieces[i].len() > 0 && !(pieces[i].len() == 1 && pieces[i][0] == '.');
        assert(named == named_piece()(pieces@[i as int]@)) by {
            if pieces@[i as int]@ == seq!['.'] {
                assert(pieces@[i as int]@.len() == 1);
            }
            if pieces@[i as int]@.len() == 1 && pieces@[i as int]@[0] == '.' {
                assert(pieces@[i as int]@ =~= seq!['.']);
            }
        }
        if named {
            last = Some(copy_chars(pieces[i].as_slice()));
        }
        i = i + 1;
    }
    assert(pv.subrange(0, pieces.len() as int) =~= pv);
    match last {
        Some(l) => {
            let is_up = l.len() == 2 && l[0] == '.' && l[1] == '.';
            assert(is_up == (l@ == seq!['.', '.'])) by {
                if l@ == seq!['.', '.'] {
                    assert(l@.len() == 2);
                }
                if l@.len() == 2 && l@[0] == '.' && l@[1] == '.' {
                    assert(l@ =~= seq!['.', '.']);
                }
            }
            if is_up {
                None
            } else {
                Some(l)
            }
        },
        None => None,
    }
}

/// `Path::extension`, lowercased: what follows the last `.` of the file
/// name, unless that `.` opens the name.
pub open spec fn path_extension(p: Seq<char>) -> Option<Seq<char>> {
    match path_file_name(p) {
        Some(f) => if f.contains('.') && before_last(f, '.').len() > 0 {
            Some(lower(last_piece(f, '.')))
        } else {
            None
        },
        None => None,
    }
}

/// A target moved to a new file name inside its own directory.
pub open spec fn renamed(t: Seq<char>, name: Seq<char>) -> Seq<char> {
    if t.contains('/') {
        before_last(t, '/') + seq!['/'] + name
    } else {
        name
    }
}

/// Every file whose source is `source` gets the new name.
pub open spec fn rename_source(
    files: Seq<(Seq<char>, Seq<char>)>,
    source: Seq<char>,
    name: Seq<char>,
) -> Seq<(Seq<char>, Seq<char>)> {
    files.map_values(
        |f: (Seq<char>, Seq<char>)|
            if f.0 == source {
                (f.0, renamed(f.1, name))
            } else {
                f
            },
    )
}

/// The renames for the first `n` sources of one set, applied in order.
pub open spec fn apply_sources(
    files: Seq<(Seq<char>, Seq<char>)>,
    sources: Seq<Seq<char>>,
    new_base: Seq<char>,
) -> Seq<(Seq<char>, Seq<char>)>
    decreases sources.len(),
{
    if sources.len() == 0 {
        files
    } else {
        let before = apply_sources(files, sources.drop_last(), new_base);
        match path_extension(sources.last()) {
            Some(ext) => rename_source(before, sources.last(), new_base + seq!['.'] + ext),
            None => before,
        }
    }
}

/// What `apply_load_order` makes of the files: the sets applied in order.
pub open spec fn apply_sets(
    files: Seq<(Seq<char>, Seq<char>)>,
    sets: Seq<PakSetModel>,
    priority: int,
) -> Seq<(Seq<char>, Seq<char>)>
    decreases sets.len(),
{
    if sets.len() == 0 {
        files
    } else {
        apply_sources(
            apply_sets(files, sets.drop_last(), priority),
            set_files(sets.last()),
            ordered_base_of(priority, sets.last().base),
        )
    }
}

// ---------------------------------------------------------------------------
// Lemmas
// ---------------------------------------------------------------------------

/// Splitting around one separator splits each side.
pub proof fn lemma_split_concat(a: Seq<char>, sep: char, b: Seq<char>)
    ensures
        split(a + seq![sep] + b, sep) == split(a, sep) + split(b, sep),
    decreases b.len(),
{
    let whole = a + seq![sep] + b;
    if b.len() == 0 {
        assert(whole.drop_last() =~= a);
        assert(split(b, sep) =~= seq![Seq::<char>::empty()]);
        assert(split(a, sep) + split(b, sep) =~= split(a, sep).push(Seq::<char>::empty()));
    } else {
        let b2 = b.drop_last();
        lemma_split_concat(a, sep, b2);
        assert(whole.drop_last() =~= a + seq![sep] + b2);
        assert(whole.last() == b.last());
        lemma_split_nonempty(b2, sep);
        lemma_split_nonempty(a, sep);
        let left = split(a, sep);
        let right = split(b2, sep);
        if b.last() == sep {
            assert(split(b, sep) == right.push(Seq::<char>::empty()));
            assert((left + right).push(Seq::<char>::empty()) =~= left + right.push(
                Seq::<char>::empty(),
            ));
        } else {
            assert(split(b, sep) == right.update(right.len() - 1, right.last().push(b.last())));
            let lr = left + right;
            assert(lr.last() == right.last());
            assert(lr.update(lr.len() - 1, lr.last().push(b.last())) =~= left + right.update(
                right.len() - 1,
                right.last().push(b.last()),
            ));
        }
    }
}

/// The first piece and the rest of `a + sep + b` when `a` holds no `sep`.
pub proof fn lemma_first_of_concat(a: Seq<char>, sep: char, b: Seq<char>)
    requires
        !a.contains(sep),
    ensures
        (a + seq![sep] + b).contains(sep),
        first_piece(a + seq![sep] + b, sep) == a,
        after_first(a + seq![sep] + b, sep) == b,
{
    let whole = a + seq![sep] + b;
    assert(whole[a.len() as int] == sep);
    lemma_split_concat(a, sep, b);
    crate::text::lemma_split_no_sep(a, sep);
    assert(split(whole, sep) =~= seq![a] + split(b, sep));
    assert(split(whole, sep).skip(1) =~= split(b, sep));
    lemma_join_split(b, sep);
}

/// What precedes the last `sep` of `a + sep + b` when `b` holds no `sep`.
pub proof fn lemma_before_last_of_concat(a: Seq<char>, sep: char, b: Seq<char>)
    requires
        !b.contains(sep),
    ensures
        (a + seq![sep] + b).contains(sep),
        before_last(a + seq![sep] + b, sep) == a,
{
    let whole = a + seq![sep] + b;
    assert(whole[a.len() as int] == sep);
    lemma_split_concat(a, sep, b);
    crate::text::lemma_split_no_sep(b, sep);
    assert(split(whole, sep).drop_last() =~= split(a, sep));
    lemma_join_split(a, sep);
}

// ---------------------------------------------------------------------------
// Executable
// ---------------------------------------------------------------------------

fn digit_exec(d: i64) -> (r: char)
    requires
        0 <= d <= 9,
    ensures
        r == digit(d as int),
{
    let b: u8 = (d + 48) as u8;
    b as char
}

/// Base name a pak set gets on disk at the given priority.
pub fn ordered_base(priority: i64, base: &str) -> (r: String)
    ensures
        r@ == ordered_base_of(priority as int, base@),
{
    let c: i64 = if priority < 0 {
        0
    } else if priority > 9999 {
        9999
    } else {
        priority
    };
    assert(c / 1000 <= 9) by (nonlinear_arith)
        requires
            0 <= c <= 9999,
    ;
    let mut v: Vec<char> = Vec::new();
    v.push(digit_exec(c / 1000));
    v.push(digit_exec((c / 100) % 10));
    v.push(digit_exec((c / 10) % 10));
    v.push(digit_exec(c % 10));
    v.push('_');
    let b = chars_of(base);
    let mut v = concat_chars(v.as_slice(), b.as_slice());
    v.push('_');
    v.push('P');
    assert(v@ =~= ordered_base_of(priority as int, base@));
    string_from_chars(v.as_slice())
}

/// What precedes the last `sep`.
pub fn before_last_exec(n: &[char], sep: char) -> (r: Vec<char>)
    ensures
        r@ == before_last(n@, sep),
{
    let pieces = split_chars(n, sep);
    proof {
        lemma_split_nonempty(n@, sep);
    }
    let mut head: Vec<Vec<char>> = Vec::new();
    let mut i: usize = 0;
    while i + 1 < pieces.len()
        invariant
            i + 1 <= pieces.len(),
            views(head@) =~= views(pieces@).subrange(0, i as int),
        decreases pieces.len() - i,
    {
        let c = copy_chars(pieces[i].as_slice());
        proof {
            lemma_views_push(head@, c);
        }
        head.push(c);
        assert(views(pieces@).subrange(0, i + 1) =~= views(pieces@).subrange(0, i as int).push(
            pieces@[i as int]@,
        ));
        i = i + 1;
    }
    assert(views(head@) =~= views(pieces@).drop_last());
    join_chars(&head, sep)
}

fn all_digits_exec(s: &[char]) -> (r: bool)
    ensures
        r == all_digits(s@),
{
    let mut i: usize = 0;
    while i < s.len()
        invariant
            i <= s.len(),
            forall|k: int| 0 <= k < i ==> '0' <= #[trigger] s@[k] && s@[k] <= '9',
        decreases s.len() - i,
    {
        if !('0' <= s[i] && s[i] <= '9') {
            return false;
        }
        assert('0' <= s@[i as int] && s@[i as int] <= '9');
        i = i + 1;
    }
    true
}

/// Recover the author's original base name from a deployed file name.
///
/// Used by the UI so the list shows `MyCoolMod`, not `0100_MyCoolMod_P`.
pub fn strip_ordering(name: &str) -> (r: String)
    ensures
        r@ == strip_ordering_of(name@),
{
    let n = chars_of(name);
    let w1 = if contains_char(n.as_slice(), '.') {
        before_last_exec(n.as_slice(), '.')
    } else {
        n
    };
    assert(w1@ == without_ext(name@));
    let w2 = match split_once_exec(w1.as_slice(), '_') {
        Some((prefix, rest)) => {
            if prefix.len() == 4 && all_digits_exec(prefix.as_slice()) {
                rest
            } else {
                w1
            }
        },
        None => w1,
    };
    assert(w2@ == without_prefix(without_ext(name@)));
    let len = w2.len();
    if len >= 2 && w2[len - 2] == '_' && (w2[len - 1] == 'P' || w2[len - 1] == 'p') {
        assert(is_suffix(seq!['_', w2@[len - 1]], w2@)) by {
            assert(w2@.subrange(len - 2, len as int) =~= seq!['_', w2@[len - 1]]);
        }
        string_from_chars(slice_chars(w2.as_slice(), 0, len - 2).as_slice())
    } else {
        assert(!is_suffix(seq!['_', 'P'], w2@) && !is_suffix(seq!['_', 'p'], w2@)) by {
            if len >= 2 {
                if is_suffix(seq!['_', 'P'], w2@) {
                    assert(w2@.subrange(len - 2, len as int)[0] == w2@[len - 2]);
                    assert(w2@.subrange(len - 2, len as int)[1] == w2@[len - 1]);
                }
                if is_suffix(seq!['_', 'p'], w2@) {
                    assert(w2@.subrange(len - 2, len as int)[0] == w2@[len - 2]);
                    assert(w2@.subrange(len - 2, len as int)[1] == w2@[len - 1]);
                }
            }
        }
        string_from_chars(w2.as_slice())
    }
}

/// `Path::extension` of a `/`-separated path, lowercased.
pub fn path_extension_exec(p: &[char]) -> (r: Option<Vec<char>>)
    ensures
        match r {
            Some(e) => path_extension(p@) == Some(e@),
            None => path_extension(p@) is None,
        },
{
    let f = match path_file_name_exec(p) {
        Some(f) => f,
        None => {
            return None;
        },
    };
    if !contains_char(f.as_slice(), '.') {
        return None;
    }
    let stem = before_last_exec(f.as_slice(), '.');
    if stem.len() == 0 {
        return None;
    }
    let pieces = split_chars(f.as_slice(), '.');
    proof {
        lemma_split_nonempty(f@, '.');
    }
    let j = pieces.len() - 1;
    assert(pieces@[j as int]@ == views(pieces@).last());
    Some(lower_chars(pieces[j].as_slice()))
}

/// The target moved to a new file name in the same directory.
pub fn renamed_exec(t: &[char], name: &[char]) -> (r: Vec<char>)
    ensures
        r@ == renamed(t@, name@),
{
    if contains_char(t, '/') {
        let mut d = before_last_exec(t, '/');
        d.push('/');
        concat_chars(d.as_slice(), name)
    } else {
        copy_chars(name)
    }
}

fn rename_source_exec(files: &mut Vec<ComponentFile>, source: &str, name: &[char])
    ensures
        file_views(final(files)@) == rename_source(file_views(old(files)@), source@, name@),
{
    let ghost start = file_views(files@);
    let ghost want = rename_source(start, source@, name@);
    let mut i: usize = 0;
    while i < files.len()
        invariant
            i <= files.len(),
            files.len() == start.len(),
            want == rename_source(start, source@, name@),
            forall|k: int| 0 <= k < i ==> #[trigger] file_views(files@)[k] == want[k],
            forall|k: int| i <= k < files.len() ==> #[trigger] file_views(files@)[k] == start[k],
        decreases files.len() - i,
    {
        let src = chars_of(files[i].source.as_str());
        let ghost before = files@;
        assert(file_views(before)[i as int] == start[i as int]);
        assert(want[i as int] == (if start[i as int].0 == source@ {
            (start[i as int].0, renamed(start[i as int].1, name@))
        } else {
            start[i as int]
        }));
        if chars_eq(src.as_slice(), chars_of(source).as_slice()) {
            let t = chars_of(files[i].target.as_str());
            let nt = renamed_exec(t.as_slice(), name);
            let f = ComponentFile {
                source: files[i].source.clone(),
                target: string_from_chars(nt.as_slice()),
            };
            files.set(i, f);
            assert forall|k: int| 0 <= k < files.len() && k != i implies #[trigger] file_views(files@)[k]
                == file_views(before)[k] by {
                assert(files@[k] == before[k]);
            }
            assert(file_views(files@)[i as int] == want[i as int]);
        }
        i = i + 1;
    }
    assert(file_views(files@) =~= want);
}

/// Rewrite the destination names of every pak set so the game mounts them in
/// priority order. Files outside the given sets are left untouched.
pub fn apply_load_order(files: &mut Vec<ComponentFile>, pak_sets: &[PakSet], priority: i64)
    ensures
        file_views(final(files)@) == apply_sets(
            file_views(old(files)@),
            set_views(pak_sets@),
            priority as int,
        ),
{
    let ghost start = file_views(files@);
    let ghost sets = set_views(pak_sets@);
    let mut s: usize = 0;
    while s < pak_sets.len()
        invariant
            s <= pak_sets.len(),
            sets == set_views(pak_sets@),
            file_views(files@) == apply_sets(start, sets.subrange(0, s as int), priority as int),
        decreases pak_sets.len() - s,
    {
        let ghost done = sets.subrange(0, s + 1);
        assert(done.drop_last() =~= sets.subrange(0, s as int));
        assert(done.last() == pak_sets@[s as int]@);
        let new_base = ordered_base(priority, pak_sets[s].base.as_str());
        let sources = pak_sets[s].files();
        let ghost base_files = file_views(files@);
        let ghost srcs = set_files(pak_sets@[s as int]@);
        let mut j: usize = 0;
        while j < sources.len()
            invariant
                j <= sources.len(),
                srcs == set_files(pak_sets@[s as int]@),
                crate::text::string_views(sources@) == srcs,
                new_base@ == ordered_base_of(priority as int, pak_sets@[s as int]@.base),
                file_views(files@) == apply_sources(base_files, srcs.subrange(0, j as int), new_base@),
            decreases sources.len() - j,
        {
            let ghost part = srcs.subrange(0, j + 1);
            assert(part.drop_last() =~= srcs.subrange(0, j as int));
            assert(part.last() == sources@[j as int]@);
            let src = chars_of(sources[j].as_str());
            match path_extension_exec(src.as_slice()) {
                Some(ext) => {
                    let mut nm = chars_of(new_base.as_str());
                    nm.push('.');
                    let nm = concat_chars(nm.as_slice(), ext.as_slice());
                    assert(nm@ =~= new_base@ + seq!['.'] + ext@);
                    rename_source_exec(files, sources[j].as_str(), nm.as_slice());
                },
                None => {},
            }
            j = j + 1;
        }
        assert(srcs.subrange(0, sources.len() as int) =~= srcs);
        s = s + 1;
    }
    assert(sets.subrange(0, pak_sets.len() as int) =~= sets);
}

/// Convenience for building a deployed pak file name directly.
pub fn ordered_file_name(priority: i64, base: &str, ext: &str) -> (r: String)
    ensures
        r@ == ordered_base_of(priority as int, base@) + seq!['.'] + ext@,
{
    let b = chars_of(ordered_base(priority, base).as_str());
    let mut b2 = b;
    b2.push('.');
    let e = chars_of(ext);
    string_from_chars(concat_chars(b2.as_slice(), e.as_slice()).as_slice())
}

// ---------------------------------------------------------------------------
// Laws
// ---------------------------------------------------------------------------

/// Four decimal digits hold no `_` and no `.`.
proof fn lemma_four_digits(n: int)
    requires
        0 <= n <= 9999,
    ensures
        four_digits(n).len() == 4,
        all_digits(four_digits(n)),
        !four_digits(n).contains('_'),
        !four_digits(n).contains('.'),
{
    let d = four_digits(n);
    assert(0 <= n / 1000 <= 9) by (nonlinear_arith)
        requires
            0 <= n <= 9999,
    ;
    assert forall|i: int| 0 <= i < 4 implies '0' <= #[trigger] d[i] && d[i] <= '9' by {
        let v = if i == 0 {
            n / 1000
        } else if i == 1 {
            (n / 100) % 10
        } else if i == 2 {
            (n / 10) % 10
        } else {
            n % 10
        };
        assert(0 <= v <= 9);
        assert(d[i] == digit(v));
        assert(((v + 48) as u8) as char == digit(v));
        assert(48 <= (v + 48) as u8 <= 57);
    }
}

/// Stripping the ordering from a deployed name gives the author's base name
/// back, for any priority, base name and extension without a `.`.
pub proof fn law_strip_ordering_round_trips(priority: int, base: Seq<char>, ext: Seq<char>)
    requires
        !ext.contains('.'),
    ensures
        strip_ordering_of(ordered_base_of(priority, base) + seq!['.'] + ext) == base,
{
    let c = clamp_priority(priority);
    lemma_four_digits(c);
    let d = four_digits(c);
    let stem = ordered_base_of(priority, base);
    let name = stem + seq!['.'] + ext;
    lemma_before_last_of_concat(stem, '.', ext);
    assert(without_ext(name) == stem);
    let rest = base + seq!['_', 'P'];
    assert(stem =~= d + seq!['_'] + rest);
    lemma_first_of_concat(d, '_', rest);
    assert(without_prefix(stem) == rest);
    assert(rest.subrange(rest.len() - 2, rest.len() as int) =~= seq!['_', 'P']);
    assert(rest.subrange(0, rest.len() - 2) =~= base);
}

} // verus!
