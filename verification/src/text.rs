//! Text as sequences of characters.
//!
//! Everything the manager matches on — archive paths, file names, link
//! segments, `mods.txt` lines — is reasoned about as a `Seq<char>`. This module
//! holds the vocabulary the rest of the crate states its contracts in, and the
//! executable helpers that meet it.

use vstd::prelude::*;

verus! {

broadcast use vstd::string::group_string_axioms;

// ---------------------------------------------------------------------------
// Vocabulary
// ---------------------------------------------------------------------------

/// ASCII lowercasing of one character; everything else is left alone.
pub open spec fn lower_char(c: char) -> char {
    if 'A' <= c && c <= 'Z' {
        ((c as u32) + 32) as char
    } else {
        c
    }
}

/// ASCII lowercasing of a whole text.
pub open spec fn lower(s: Seq<char>) -> Seq<char> {
    s.map_values(|c: char| lower_char(c))
}

/// Whether two texts are equal when ASCII case is ignored.
pub open spec fn eq_ignore_case(a: Seq<char>, b: Seq<char>) -> bool {
    lower(a) == lower(b)
}

pub open spec fn is_prefix(p: Seq<char>, s: Seq<char>) -> bool {
    p.len() <= s.len() && s.subrange(0, p.len() as int) == p
}

pub open spec fn is_suffix(p: Seq<char>, s: Seq<char>) -> bool {
    p.len() <= s.len() && s.subrange(s.len() - p.len(), s.len() as int) == p
}

/// The pieces of `s` between occurrences of `sep`, as `str::split` yields
/// them: always at least one piece, empty pieces kept.
pub open spec fn split(s: Seq<char>, sep: char) -> Seq<Seq<char>>
    decreases s.len(),
{
    if s.len() == 0 {
        seq![Seq::<char>::empty()]
    } else {
        let rest = split(s.drop_last(), sep);
        if s.last() == sep {
            rest.push(Seq::<char>::empty())
        } else {
            rest.update(rest.len() - 1, rest.last().push(s.last()))
        }
    }
}

/// The pieces glued back together with `sep` between them.
pub open spec fn join(parts: Seq<Seq<char>>, sep: char) -> Seq<char>
    decreases parts.len(),
{
    if parts.len() == 0 {
        Seq::<char>::empty()
    } else if parts.len() == 1 {
        parts[0]
    } else {
        join(parts.drop_last(), sep) + seq![sep] + parts.last()
    }
}

/// Lexicographic order by code point, which is the order Rust gives `String`
/// (byte order of UTF-8 agrees with code point order).
#[verifier::opaque]
pub open spec fn lex_lt(a: Seq<char>, b: Seq<char>) -> bool
    decreases a.len(),
{
    if b.len() == 0 {
        false
    } else if a.len() == 0 {
        true
    } else if a[0] != b[0] {
        a[0] < b[0]
    } else {
        lex_lt(a.drop_first(), b.drop_first())
    }
}

/// Strictly increasing, hence also free of duplicates.
pub open spec fn strictly_sorted(s: Seq<Seq<char>>) -> bool {
    forall|i: int, j: int| 0 <= i < j < s.len() ==> lex_lt(#[trigger] s[i], #[trigger] s[j])
}

pub open spec fn views(v: Seq<Vec<char>>) -> Seq<Seq<char>> {
    v.map_values(|x: Vec<char>| x@)
}

pub open spec fn string_views(v: Seq<String>) -> Seq<Seq<char>> {
    v.map_values(|x: String| x@)
}

pub proof fn lemma_views_push(v: Seq<Vec<char>>, x: Vec<char>)
    ensures
        views(v.push(x)) == views(v).push(x@),
{
    assert(views(v.push(x)) =~= views(v).push(x@));
}

pub proof fn lemma_filter_step<A>(t: Seq<A>, pred: spec_fn(A) -> bool)
    requires
        t.len() > 0,
    ensures
        pred(t.last()) ==> t.filter(pred) == t.drop_last().filter(pred).push(t.last()),
        !pred(t.last()) ==> t.filter(pred) == t.drop_last().filter(pred),
{
    reveal(Seq::filter);
}

// ---------------------------------------------------------------------------
// Lemmas
// ---------------------------------------------------------------------------

pub proof fn lemma_split_nonempty(s: Seq<char>, sep: char)
    ensures
        split(s, sep).len() >= 1,
    decreases s.len(),
{
    if s.len() > 0 {
        lemma_split_nonempty(s.drop_last(), sep);
    }
}

pub proof fn lemma_lex_irreflexive(a: Seq<char>)
    ensures
        !lex_lt(a, a),
    decreases a.len(),
{
    reveal(lex_lt);
    if a.len() > 0 {
        lemma_lex_irreflexive(a.drop_first());
    }
}

pub proof fn lemma_lex_asymmetric(a: Seq<char>, b: Seq<char>)
    ensures
        lex_lt(a, b) ==> !lex_lt(b, a),
    decreases a.len(),
{
    reveal(lex_lt);
    if a.len() > 0 && b.len() > 0 && a[0] == b[0] {
        lemma_lex_asymmetric(a.drop_first(), b.drop_first());
    }
}

pub proof fn lemma_lex_transitive(a: Seq<char>, b: Seq<char>, c: Seq<char>)
    requires
        lex_lt(a, b),
        lex_lt(b, c),
    ensures
        lex_lt(a, c),
    decreases a.len(),
{
    reveal(lex_lt);
    if a.len() > 0 && b.len() > 0 && c.len() > 0 && a[0] == b[0] && b[0] == c[0] {
        lemma_lex_transitive(a.drop_first(), b.drop_first(), c.drop_first());
    }
}

pub proof fn lemma_lex_total(a: Seq<char>, b: Seq<char>)
    ensures
        a == b || lex_lt(a, b) || lex_lt(b, a),
    decreases a.len(),
{
    reveal(lex_lt);
    if a.len() > 0 && b.len() > 0 && a[0] == b[0] {
        lemma_lex_total(a.drop_first(), b.drop_first());
        if a.drop_first() == b.drop_first() {
            assert(a =~= seq![a[0]] + a.drop_first());
            assert(b =~= seq![b[0]] + b.drop_first());
        }
    } else if a.len() == 0 && b.len() == 0 {
        assert(a =~= b);
    } else if a.len() > 0 && b.len() > 0 {
    }
}

// ---------------------------------------------------------------------------
// Executable helpers
// ---------------------------------------------------------------------------

/// The characters of a string slice, in order.
pub fn chars_of(s: &str) -> (v: Vec<char>)
    ensures
        v@ == s@,
{
    let n = s.unicode_len();
    let mut v: Vec<char> = Vec::new();
    let mut i: usize = 0;
    while i < n
        invariant
            n == s@.len(),
            i <= n,
            v@ == s@.subrange(0, i as int),
        decreases n - i,
    {
        let c = s.get_char(i);
        v.push(c);
        i = i + 1;
    }
    v
}

/// A `String` holding exactly the given characters.
#[verifier::external_body]
pub fn string_from_chars(v: &[char]) -> (s: String)
    ensures
        s@ == v@,
{
    v.iter().collect()
}

/// An owned copy of a string slice.
pub fn owned(s: &str) -> (r: String)
    ensures
        r@ == s@,
{
    s.to_owned()
}

pub fn lower_char_exec(c: char) -> (r: char)
    ensures
        r == lower_char(c),
{
    if 'A' <= c && c <= 'Z' {
        let b: u8 = (c as u32 + 32) as u8;
        b as char
    } else {
        c
    }
}

pub fn lower_chars(v: &[char]) -> (r: Vec<char>)
    ensures
        r@ == lower(v@),
{
    let mut r: Vec<char> = Vec::new();
    let mut i: usize = 0;
    while i < v.len()
        invariant
            i <= v.len(),
            r@ =~= lower(v@.subrange(0, i as int)),
        decreases v.len() - i,
    {
        r.push(lower_char_exec(v[i]));
        i = i + 1;
    }
    assert(v@.subrange(0, v.len() as int) =~= v@);
    r
}

/// `str::to_ascii_lowercase`.
pub fn to_ascii_lowercase(s: &str) -> (r: String)
    ensures
        r@ == lower(s@),
{
    let v = chars_of(s);
    let l = lower_chars(v.as_slice());
    string_from_chars(l.as_slice())
}

pub fn chars_eq(a: &[char], b: &[char]) -> (r: bool)
    ensures
        r == (a@ == b@),
{
    if a.len() != b.len() {
        return false;
    }
    let mut i: usize = 0;
    while i < a.len()
        invariant
            a.len() == b.len(),
            i <= a.len(),
            a@.subrange(0, i as int) == b@.subrange(0, i as int),
        decreases a.len() - i,
    {
        if a[i] != b[i] {
            assert(a@[i as int] != b@[i as int]);
            return false;
        }
        assert(a@.subrange(0, i + 1) =~= a@.subrange(0, i as int).push(a@[i as int]));
        assert(b@.subrange(0, i + 1) =~= b@.subrange(0, i as int).push(b@[i as int]));
        i = i + 1;
    }
    assert(a@ =~= a@.subrange(0, a.len() as int));
    assert(b@ =~= b@.subrange(0, b.len() as int));
    true
}

/// Whether `s` holds exactly the characters of `t`.
pub fn str_eq(s: &str, t: &str) -> (r: bool)
    ensures
        r == (s@ == t@),
{
    let a = chars_of(s);
    let b = chars_of(t);
    chars_eq(a.as_slice(), b.as_slice())
}

pub fn starts_with(s: &[char], p: &[char]) -> (r: bool)
    ensures
        r == is_prefix(p@, s@),
{
    if p.len() > s.len() {
        return false;
    }
    let mut i: usize = 0;
    while i < p.len()
        invariant
            p.len() <= s.len(),
            i <= p.len(),
            s@.subrange(0, i as int) == p@.subrange(0, i as int),
        decreases p.len() - i,
    {
        if s[i] != p[i] {
            assert(s@.subrange(0, p.len() as int)[i as int] != p@[i as int]);
            return false;
        }
        assert(s@.subrange(0, i + 1) =~= s@.subrange(0, i as int).push(s@[i as int]));
        assert(p@.subrange(0, i + 1) =~= p@.subrange(0, i as int).push(p@[i as int]));
        i = i + 1;
    }
    assert(p@ =~= p@.subrange(0, p.len() as int));
    true
}

pub fn ends_with(s: &[char], p: &[char]) -> (r: bool)
    ensures
        r == is_suffix(p@, s@),
{
    if p.len() > s.len() {
        return false;
    }
    let off = s.len() - p.len();
    let mut i: usize = 0;
    while i < p.len()
        invariant
            p.len() <= s.len(),
            off == s.len() - p.len(),
            i <= p.len(),
            s@.subrange(off as int, off + i) == p@.subrange(0, i as int),
        decreases p.len() - i,
    {
        if s[off + i] != p[i] {
            assert(s@.subrange(off as int, s.len() as int)[i as int] != p@[i as int]);
            return false;
        }
        assert(s@.subrange(off as int, off + i + 1) =~= s@.subrange(off as int, off + i).push(
            s@[off + i],
        ));
        assert(p@.subrange(0, i + 1) =~= p@.subrange(0, i as int).push(p@[i as int]));
        i = i + 1;
    }
    assert(p@ =~= p@.subrange(0, p.len() as int));
    true
}

pub fn contains_char(s: &[char], c: char) -> (r: bool)
    ensures
        r == s@.contains(c),
{
    let mut i: usize = 0;
    while i < s.len()
        invariant
            i <= s.len(),
            forall|k: int| 0 <= k < i ==> s@[k] != c,
        decreases s.len() - i,
    {
        if s[i] == c {
            assert(s@[i as int] == c);
            return true;
        }
        i = i + 1;
    }
    false
}

/// Position of the first `c`, as `str::find` with a `char` pattern.
pub fn find_char(s: &[char], c: char) -> (r: Option<usize>)
    ensures
        match r {
            Some(i) => i < s.len() && s@[i as int] == c && forall|k: int| 0 <= k < i ==> s@[k] != c,
            None => !s@.contains(c),
        },
{
    let mut i: usize = 0;
    while i < s.len()
        invariant
            i <= s.len(),
            forall|k: int| 0 <= k < i ==> s@[k] != c,
        decreases s.len() - i,
    {
        if s[i] == c {
            return Some(i);
        }
        i = i + 1;
    }
    None
}

/// Position of the last `c`, as `str::rfind` with a `char` pattern.
pub fn rfind_char(s: &[char], c: char) -> (r: Option<usize>)
    ensures
        match r {
            Some(i) => i < s.len() && s@[i as int] == c && forall|k: int|
                i < k < s.len() ==> s@[k] != c,
            None => !s@.contains(c),
        },
{
    let mut i: usize = s.len();
    while i > 0
        invariant
            i <= s.len(),
            forall|k: int| i <= k < s.len() ==> s@[k] != c,
        decreases i,
    {
        if s[i - 1] == c {
            return Some(i - 1);
        }
        i = i - 1;
    }
    None
}

/// The characters of `s` from `start` up to `end`.
pub fn slice_chars(s: &[char], start: usize, end: usize) -> (r: Vec<char>)
    requires
        start <= end <= s.len(),
    ensures
        r@ == s@.subrange(start as int, end as int),
{
    let mut r: Vec<char> = Vec::new();
    let mut i: usize = start;
    while i < end
        invariant
            start <= i <= end,
            end <= s.len(),
            r@ =~= s@.subrange(start as int, i as int),
        decreases end - i,
    {
        r.push(s[i]);
        i = i + 1;
    }
    r
}

pub fn concat_chars(a: &[char], b: &[char]) -> (r: Vec<char>)
    ensures
        r@ == a@ + b@,
{
    let mut r: Vec<char> = Vec::new();
    let mut i: usize = 0;
    while i < a.len()
        invariant
            i <= a.len(),
            r@ =~= a@.subrange(0, i as int),
        decreases a.len() - i,
    {
        r.push(a[i]);
        i = i + 1;
    }
    let mut j: usize = 0;
    while j < b.len()
        invariant
            j <= b.len(),
            r@ =~= a@ + b@.subrange(0, j as int),
        decreases b.len() - j,
    {
        r.push(b[j]);
        j = j + 1;
    }
    r
}

/// An owned copy of some characters.
pub fn copy_chars(v: &[char]) -> (r: Vec<char>)
    ensures
        r@ == v@,
{
    slice_chars(v, 0, v.len())
}

/// `str::split` with a `char` separator.
pub fn split_chars(s: &[char], sep: char) -> (r: Vec<Vec<char>>)
    ensures
        views(r@) == split(s@, sep),
{
    let mut done: Vec<Vec<char>> = Vec::new();
    let mut cur: Vec<char> = Vec::new();
    let mut i: usize = 0;
    while i < s.len()
        invariant
            i <= s.len(),
            views(done@).push(cur@) == split(s@.subrange(0, i as int), sep),
        decreases s.len() - i,
    {
        let ghost prev = s@.subrange(0, i as int);
        let ghost next = s@.subrange(0, i + 1);
        assert(next.drop_last() =~= prev);
        assert(next.last() == s@[i as int]);
        proof {
            lemma_split_nonempty(prev, sep);
        }
        if s[i] == sep {
            let piece = cur;
            done.push(piece);
            cur = Vec::new();
            assert(views(done@).push(cur@) =~= split(next, sep));
        } else {
            cur.push(s[i]);
            assert(views(done@).push(cur@) =~= split(next, sep));
        }
        i = i + 1;
    }
    assert(s@.subrange(0, s.len() as int) =~= s@);
    done.push(cur);
    assert(views(done@) =~= split(s@, sep));
    done
}

/// Pieces glued together with `sep` between them, as `[..].join(sep)`.
pub fn join_chars(parts: &Vec<Vec<char>>, sep: char) -> (r: Vec<char>)
    ensures
        r@ == join(views(parts@), sep),
{
    let mut r: Vec<char> = Vec::new();
    let mut i: usize = 0;
    while i < parts.len()
        invariant
            i <= parts.len(),
            r@ == join(views(parts@).subrange(0, i as int), sep),
        decreases parts.len() - i,
    {
        let ghost prefix = views(parts@).subrange(0, i + 1);
        assert(prefix.drop_last() =~= views(parts@).subrange(0, i as int));
        assert(prefix.last() == parts@[i as int]@);
        if i == 0 {
            r = concat_chars(r.as_slice(), parts[i].as_slice());
            assert(r@ =~= join(prefix, sep));
        } else {
            let mut with_sep = r.clone();
            with_sep.push(sep);
            r = concat_chars(with_sep.as_slice(), parts[i].as_slice());
            assert(r@ =~= join(prefix, sep));
        }
        i = i + 1;
    }
    assert(views(parts@).subrange(0, parts.len() as int) =~= views(parts@));
    r
}

/// The items of `s` whose flag is set, in order.
pub open spec fn flagged<A>(s: Seq<A>, flags: Seq<bool>) -> Seq<A>
    decreases s.len(),
{
    if s.len() == 0 {
        Seq::<A>::empty()
    } else {
        let rest = flagged(s.drop_last(), flags);
        if flags[s.len() - 1] {
            rest.push(s.last())
        } else {
            rest
        }
    }
}

/// Flags that record a predicate select what filtering by it keeps.
pub proof fn lemma_flagged_filter<A>(s: Seq<A>, flags: Seq<bool>, pred: spec_fn(A) -> bool)
    requires
        flags.len() >= s.len(),
        forall|k: int| 0 <= k < s.len() ==> flags[k] == pred(#[trigger] s[k]),
    ensures
        flagged(s, flags) == s.filter(pred),
    decreases s.len(),
{
    if s.len() > 0 {
        let t = s.drop_last();
        assert forall|k: int| 0 <= k < t.len() implies flags[k] == pred(#[trigger] t[k]) by {
            assert(t[k] == s[k]);
        }
        lemma_flagged_filter(t, flags, pred);
        lemma_filter_step(s, pred);
        assert(s.last() == s[s.len() - 1]);
    }
}

/// Whether one of the pieces equals `x`.
pub fn contains_piece(v: &Vec<Vec<char>>, x: &[char]) -> (r: bool)
    ensures
        r == views(v@).contains(x@),
{
    let mut i: usize = 0;
    while i < v.len()
        invariant
            i <= v.len(),
            forall|k: int| 0 <= k < i ==> views(v@)[k] != x@,
        decreases v.len() - i,
    {
        if chars_eq(v[i].as_slice(), x) {
            assert(views(v@)[i as int] == x@);
            return true;
        }
        i = i + 1;
    }
    false
}

/// Put `x` into a strictly increasing list of texts, unless it is there.
pub fn insert_sorted(v: &mut Vec<Vec<char>>, x: Vec<char>)
    requires
        strictly_sorted(views(old(v)@)),
    ensures
        strictly_sorted(views(final(v)@)),
        forall|y: Seq<char>| views(final(v)@).contains(y) <==> (views(old(v)@).contains(y) || y == x@),
{
    let ghost old_v = views(v@);
    let mut pos: usize = 0;
    while pos < v.len() && lex_less(v[pos].as_slice(), x.as_slice())
        invariant
            pos <= v.len(),
            views(v@) == old_v,
            forall|k: int| 0 <= k < pos ==> lex_lt(#[trigger] old_v[k], x@),
        decreases v.len() - pos,
    {
        pos = pos + 1;
    }
    if pos < v.len() && chars_eq(v[pos].as_slice(), x.as_slice()) {
        assert(old_v[pos as int] == x@);
        return;
    }
    proof {
        if pos < v.len() {
            assert(old_v[pos as int] == v@[pos as int]@);
            lemma_lex_total(x@, old_v[pos as int]);
        }
        assert forall|k: int| pos <= k < old_v.len() implies lex_lt(x@, #[trigger] old_v[k]) by {
            if k > pos {
                lemma_lex_transitive(x@, old_v[pos as int], old_v[k]);
            }
        }
    }
    let ghost xv = x@;
    v.insert(pos, x);
    let ghost nv = views(v@);
    assert(nv =~= old_v.insert(pos as int, xv));
    assert forall|a: int, b: int| 0 <= a < b < nv.len() implies lex_lt(#[trigger] nv[a], #[trigger] nv[b]) by {
        if b < pos {
        } else if b == pos {
        } else if a == pos {
            assert(nv[b] == old_v[b - 1]);
        } else if a < pos {
            assert(nv[b] == old_v[b - 1]);
            lemma_lex_transitive(old_v[a], xv, old_v[b - 1]);
        } else {
            assert(nv[a] == old_v[a - 1]);
            assert(nv[b] == old_v[b - 1]);
        }
    }
    assert forall|y: Seq<char>| nv.contains(y) <==> (old_v.contains(y) || y == xv) by {
        if nv.contains(y) {
            let k = choose|k: int| 0 <= k < nv.len() && nv[k] == y;
            if k < pos {
                assert(old_v[k] == y);
            } else if k > pos {
                assert(old_v[k - 1] == y);
            }
        }
        if old_v.contains(y) {
            let k = choose|k: int| 0 <= k < old_v.len() && old_v[k] == y;
            if k < pos {
                assert(nv[k] == y);
            } else {
                assert(nv[k + 1] == y);
            }
        }
        if y == xv {
            assert(nv[pos as int] == y);
        }
    }
}

/// ASCII uppercasing of one character.
pub open spec fn upper_char(c: char) -> char {
    if 'a' <= c && c <= 'z' {
        ((c as u32) - 32) as char
    } else {
        c
    }
}

/// ASCII uppercasing of a whole text.
pub open spec fn upper(s: Seq<char>) -> Seq<char> {
    s.map_values(|c: char| upper_char(c))
}

pub fn upper_chars(v: &[char]) -> (r: Vec<char>)
    ensures
        r@ == upper(v@),
{
    let mut r: Vec<char> = Vec::new();
    let mut i: usize = 0;
    while i < v.len()
        invariant
            i <= v.len(),
            r@ =~= upper(v@.subrange(0, i as int)),
        decreases v.len() - i,
    {
        let c = v[i];
        let d = if 'a' <= c && c <= 'z' {
            let b: u8 = (c as u32 - 32) as u8;
            b as char
        } else {
            c
        };
        r.push(d);
        i = i + 1;
    }
    assert(v@.subrange(0, v.len() as int) =~= v@);
    r
}

/// The decimal value of a run of ASCII digits.
pub open spec fn digits_value(s: Seq<char>) -> nat
    decreases s.len(),
{
    if s.len() == 0 {
        0
    } else {
        digits_value(s.drop_last()) * 10 + ((s.last() as int) - 48) as nat
    }
}

pub open spec fn is_digit(c: char) -> bool {
    '0' <= c && c <= '9'
}

pub open spec fn all_digit_chars(s: Seq<char>) -> bool {
    forall|i: int| 0 <= i < s.len() ==> is_digit(#[trigger] s[i])
}

/// What `str::parse` gives for an unsigned integer type whose largest value
/// is `max`: an optional `+`, then at least one ASCII digit, and a value that
/// fits.
pub open spec fn parse_unsigned_of(s: Seq<char>, max: nat) -> Option<nat> {
    let d = if s.len() > 0 && s[0] == '+' {
        s.drop_first()
    } else {
        s
    };
    if d.len() > 0 && all_digit_chars(d) && digits_value(d) <= max {
        Some(digits_value(d))
    } else {
        None
    }
}

/// `str::parse` for an unsigned integer type whose largest value is `max`.
pub fn parse_unsigned(s: &[char], max: u64) -> (r: Option<u64>)
    ensures
        match r {
            Some(v) => parse_unsigned_of(s@, max as nat) == Some(v as nat),
            None => parse_unsigned_of(s@, max as nat) is None,
        },
{
    let start: usize = if s.len() > 0 && s[0] == '+' {
        1
    } else {
        0
    };
    let ghost d = if s@.len() > 0 && s@[0] == '+' {
        s@.drop_first()
    } else {
        s@
    };
    assert(d =~= s@.subrange(start as int, s@.len() as int));
    if start >= s.len() {
        return None;
    }
    let mut v: u128 = 0;
    let mut over = false;
    let mut i: usize = start;
    while i < s.len()
        invariant
            start <= i <= s.len(),
            start < s.len(),
            d == s@.subrange(start as int, s@.len() as int),
            d == (if s@.len() > 0 && s@[0] == '+' {
                s@.drop_first()
            } else {
                s@
            }),
            all_digit_chars(s@.subrange(start as int, i as int)),
            !over ==> v == digits_value(s@.subrange(start as int, i as int)) && v <= max,
            over ==> digits_value(s@.subrange(start as int, i as int)) > max,
        decreases s.len() - i,
    {
        let c = s[i];
        if !('0' <= c && c <= '9') {
            assert(d[i - start] == s@[i as int]);
            assert(!is_digit(d[i - start]));
            assert(!all_digit_chars(d));
            return None;
        }
        let ghost prev = s@.subrange(start as int, i as int);
        let ghost next = s@.subrange(start as int, i + 1);
        assert(next.drop_last() =~= prev);
        assert(next.last() == c);
        assert forall|k: int| 0 <= k < next.len() implies is_digit(#[trigger] next[k]) by {
            if k < prev.len() {
                assert(next[k] == prev[k]);
            }
        }
        let dig: u128 = (c as u32 - 48) as u128;
        assert(dig == (c as int) - 48);
        assert(digits_value(next) == digits_value(prev) * 10 + dig);
        if !over {
            let w = v * 10 + dig;
            if w > max as u128 {
                over = true;
            } else {
                v = w;
            }
        }
        i = i + 1;
    }
    assert(s@.subrange(start as int, s@.len() as int) == d);
    if over {
        None
    } else {
        assert(v <= max);
        let out = v as u64;
        assert(out as nat == digits_value(d));
        assert(all_digit_chars(d));
        assert(d.len() > 0);
        Some(out)
    }
}

/// What `str::parse::<i64>` gives: an optional sign, then at least one ASCII
/// digit, and a value in range.
pub open spec fn parse_i64_of(s: Seq<char>) -> Option<int> {
    if s.len() > 0 && s[0] == '-' {
        let d = s.drop_first();
        if d.len() > 0 && all_digit_chars(d) && digits_value(d) <= 0x8000_0000_0000_0000 {
            Some(-(digits_value(d) as int))
        } else {
            None
        }
    } else {
        match parse_unsigned_of(s, 0x7fff_ffff_ffff_ffff) {
            Some(v) => Some(v as int),
            None => None,
        }
    }
}

/// `str::parse::<i64>`.
pub fn parse_i64(s: &[char]) -> (r: Option<i64>)
    ensures
        match r {
            Some(v) => parse_i64_of(s@) == Some(v as int),
            None => parse_i64_of(s@) is None,
        },
{
    if s.len() > 0 && s[0] == '-' {
        let rest = slice_chars(s, 1, s.len());
        assert(rest@ =~= s@.drop_first());
        if rest.len() > 0 && rest[0] == '+' {
            assert(!is_digit(rest@[0]));
            return None;
        }
        match parse_unsigned(rest.as_slice(), 0x8000_0000_0000_0000) {
            Some(v) => {
                let w: i128 = -(v as i128);
                Some(w as i64)
            },
            None => None,
        }
    } else {
        match parse_unsigned(s, 0x7fff_ffff_ffff_ffff) {
            Some(v) => Some(v as i64),
            None => None,
        }
    }
}

/// `Path::join` for a relative `x` on `/`-separated paths.
pub open spec fn path_join(root: Seq<char>, x: Seq<char>) -> Seq<char> {
    if root.len() == 0 || root.last() == '/' {
        root + x
    } else {
        root + seq!['/'] + x
    }
}

/// `Path::join` for a relative path.
pub fn path_join_exec(root: &str, x: &str) -> (r: String)
    ensures
        r@ == path_join(root@, x@),
{
    let mut a = chars_of(root);
    if a.len() > 0 && a[a.len() - 1] != '/' {
        a.push('/');
    }
    let v = concat_chars(a.as_slice(), chars_of(x).as_slice());
    string_from_chars(v.as_slice())
}

/// Lexicographic comparison, as `<` on `String`.
pub fn lex_less(a: &[char], b: &[char]) -> (r: bool)
    ensures
        r == lex_lt(a@, b@),
{
    reveal(lex_lt);
    let mut i: usize = 0;
    assert(a@.skip(0) =~= a@);
    assert(b@.skip(0) =~= b@);
    while i < a.len() && i < b.len()
        invariant
            i <= a.len(),
            i <= b.len(),
            a@.subrange(0, i as int) == b@.subrange(0, i as int),
            lex_lt(a@, b@) == lex_lt(a@.skip(i as int), b@.skip(i as int)),
        decreases a.len() - i,
    {
        proof {
            reveal(lex_lt);
        }
        if a[i] != b[i] {
            return a[i] < b[i];
        }
        assert(a@.skip(i as int).drop_first() =~= a@.skip(i + 1));
        assert(b@.skip(i as int).drop_first() =~= b@.skip(i + 1));
        assert(a@.subrange(0, i + 1) =~= a@.subrange(0, i as int).push(a@[i as int]));
        assert(b@.subrange(0, i + 1) =~= b@.subrange(0, i as int).push(b@[i as int]));
        i = i + 1;
    }
    proof {
        reveal(lex_lt);
    }
    i < b.len()
}

} // verus!

verus! {

// ---------------------------------------------------------------------------
// Paths
// ---------------------------------------------------------------------------

/// A piece of a path that names something: not empty, not `.`, not `..`.
pub open spec fn is_component(s: Seq<char>) -> bool {
    s.len() > 0 && s != seq!['.'] && s != seq!['.', '.']
}

pub open spec fn component_filter() -> spec_fn(Seq<char>) -> bool {
    |s: Seq<char>| is_component(s)
}

pub open spec fn nonempty_filter() -> spec_fn(Seq<char>) -> bool {
    |s: Seq<char>| s.len() > 0
}

pub open spec fn lower_map() -> spec_fn(Seq<char>) -> Seq<char> {
    |s: Seq<char>| lower(s)
}

/// The named components of a `/`-separated path, as `Path::components`
/// keeps the `Normal` ones.
pub open spec fn components(p: Seq<char>) -> Seq<Seq<char>> {
    split(p, '/').filter(component_filter())
}

/// The matching form of a path: its components, lowercased, joined by `/`.
pub open spec fn normalize(p: Seq<char>) -> Seq<char> {
    join(components(p).map_values(lower_map()), '/')
}

/// The non-empty `/`-separated pieces of a text.
pub open spec fn segments(n: Seq<char>) -> Seq<Seq<char>> {
    split(n, '/').filter(nonempty_filter())
}

/// What follows the last `/`, or the whole text when there is none.
pub open spec fn last_piece(n: Seq<char>, sep: char) -> Seq<char> {
    split(n, sep).last()
}

/// What precedes the first `sep`, or the whole text when there is none.
pub open spec fn first_piece(n: Seq<char>, sep: char) -> Seq<char> {
    split(n, sep)[0]
}

/// What follows the first `sep`.
pub open spec fn after_first(n: Seq<char>, sep: char) -> Seq<char> {
    join(split(n, sep).skip(1), sep)
}

/// What precedes the last `sep`.
pub open spec fn before_last(n: Seq<char>, sep: char) -> Seq<char> {
    join(split(n, sep).drop_last(), sep)
}

/// `strip_components`: drop the first `k` named components, or nothing is
/// left.
pub open spec fn strip_components(p: Seq<char>, k: nat) -> Option<Seq<char>> {
    let c = components(p);
    if c.len() <= k {
        None
    } else {
        Some(join(c.skip(k as int), '/'))
    }
}

pub proof fn lemma_split_no_sep(s: Seq<char>, sep: char)
    requires
        !s.contains(sep),
    ensures
        split(s, sep) == seq![s],
    decreases s.len(),
{
    if s.len() > 0 {
        assert(!s.drop_last().contains(sep)) by {
            if s.drop_last().contains(sep) {
                let i = choose|i: int| 0 <= i < s.drop_last().len() && s.drop_last()[i] == sep;
                assert(s[i] == sep);
            }
        }
        lemma_split_no_sep(s.drop_last(), sep);
        assert(s.last() != sep) by {
            assert(s[s.len() - 1] == s.last());
        }
        assert(s.drop_last().push(s.last()) =~= s);
    } else {
        assert(s =~= Seq::<char>::empty());
    }
}

pub proof fn lemma_split_contains(s: Seq<char>, sep: char)
    ensures
        s.contains(sep) <==> split(s, sep).len() > 1,
    decreases s.len(),
{
    if s.len() > 0 {
        lemma_split_contains(s.drop_last(), sep);
        lemma_split_nonempty(s.drop_last(), sep);
        if s.drop_last().contains(sep) {
            let i = choose|i: int| 0 <= i < s.drop_last().len() && s.drop_last()[i] == sep;
            assert(s[i] == sep);
        }
        if s.contains(sep) {
            let i = choose|i: int| 0 <= i < s.len() && s[i] == sep;
            if i < s.len() - 1 {
                assert(s.drop_last()[i] == sep);
            }
        }
    }
}

pub proof fn lemma_join_push_char(p: Seq<Seq<char>>, sep: char, x: char)
    requires
        p.len() >= 1,
    ensures
        join(p.update(p.len() - 1, p.last().push(x)), sep) == join(p, sep).push(x),
{
    let q = p.update(p.len() - 1, p.last().push(x));
    if p.len() == 1 {
    } else {
        assert(q.drop_last() =~= p.drop_last());
        assert(join(q, sep) == join(p.drop_last(), sep) + seq![sep] + p.last().push(x));
        assert(join(p.drop_last(), sep) + seq![sep] + p.last().push(x) =~= (join(
            p.drop_last(),
            sep,
        ) + seq![sep] + p.last()).push(x));
    }
}

/// Splitting and joining on the same separator gives the text back.
pub proof fn lemma_join_split(s: Seq<char>, sep: char)
    ensures
        join(split(s, sep), sep) == s,
    decreases s.len(),
{
    if s.len() == 0 {
    } else {
        let rest = split(s.drop_last(), sep);
        lemma_split_nonempty(s.drop_last(), sep);
        lemma_join_split(s.drop_last(), sep);
        if s.last() == sep {
            let q = rest.push(Seq::<char>::empty());
            assert(q.drop_last() =~= rest);
            assert(join(q, sep) =~= s.drop_last() + seq![sep] + Seq::<char>::empty());
            assert(s.drop_last() + seq![sep] =~= s);
        } else {
            lemma_join_push_char(rest, sep, s.last());
            assert(s.drop_last().push(s.last()) =~= s);
        }
    }
}

} // verus!

verus! {

pub fn is_component_exec(s: &[char]) -> (r: bool)
    ensures
        r == is_component(s@),
{
    if s.len() == 0 {
        return false;
    }
    if s.len() == 1 && s[0] == '.' {
        assert(s@ =~= seq!['.']);
        return false;
    }
    if s.len() == 2 && s[0] == '.' && s[1] == '.' {
        assert(s@ =~= seq!['.', '.']);
        return false;
    }
    assert(s@ != seq!['.']) by {
        if s@ == seq!['.'] {
            assert(s@[0] == '.');
        }
    }
    assert(s@ != seq!['.', '.']) by {
        if s@ == seq!['.', '.'] {
            assert(s@[0] == '.' && s@[1] == '.');
        }
    }
    true
}

/// The named components of a path.
pub fn components_of(p: &[char]) -> (r: Vec<Vec<char>>)
    ensures
        views(r@) == components(p@),
{
    let pieces = split_chars(p, '/');
    let ghost pv = views(pieces@);
    let ghost pred = component_filter();
    let mut out: Vec<Vec<char>> = Vec::new();
    let mut i: usize = 0;
    while i < pieces.len()
        invariant
            i <= pieces.len(),
            pv == views(pieces@),
            pred == component_filter(),
            views(out@) == pv.subrange(0, i as int).filter(pred),
        decreases pieces.len() - i,
    {
        let ghost t = pv.subrange(0, i + 1);
        assert(t.drop_last() =~= pv.subrange(0, i as int));
        assert(t.last() == pieces@[i as int]@);
        proof {
            lemma_filter_step(t, pred);
        }
        if is_component_exec(pieces[i].as_slice()) {
            let c = copy_chars(pieces[i].as_slice());
            proof {
                lemma_views_push(out@, c);
            }
            out.push(c);
        }
        i = i + 1;
    }
    assert(pv.subrange(0, pieces.len() as int) =~= pv);
    out
}

/// The non-empty pieces of a text.
pub fn segments_of(n: &[char]) -> (r: Vec<Vec<char>>)
    ensures
        views(r@) == segments(n@),
{
    let pieces = split_chars(n, '/');
    let ghost pv = views(pieces@);
    let ghost pred = nonempty_filter();
    let mut out: Vec<Vec<char>> = Vec::new();
    let mut i: usize = 0;
    while i < pieces.len()
        invariant
            i <= pieces.len(),
            pv == views(pieces@),
            pred == nonempty_filter(),
            views(out@) == pv.subrange(0, i as int).filter(pred),
        decreases pieces.len() - i,
    {
        let ghost t = pv.subrange(0, i + 1);
        assert(t.drop_last() =~= pv.subrange(0, i as int));
        assert(t.last() == pieces@[i as int]@);
        proof {
            lemma_filter_step(t, pred);
        }
        if pieces[i].len() > 0 {
            let c = copy_chars(pieces[i].as_slice());
            proof {
                lemma_views_push(out@, c);
            }
            out.push(c);
        }
        i = i + 1;
    }
    assert(pv.subrange(0, pieces.len() as int) =~= pv);
    out
}

/// Every piece lowercased.
pub fn lower_all(parts: &Vec<Vec<char>>) -> (r: Vec<Vec<char>>)
    ensures
        views(r@) == views(parts@).map_values(lower_map()),
{
    let mut out: Vec<Vec<char>> = Vec::new();
    let mut i: usize = 0;
    while i < parts.len()
        invariant
            i <= parts.len(),
            views(out@) =~= views(parts@).subrange(0, i as int).map_values(lower_map()),
        decreases parts.len() - i,
    {
        let l = lower_chars(parts[i].as_slice());
        proof {
            lemma_views_push(out@, l);
        }
        out.push(l);
        assert(views(parts@).subrange(0, i + 1) =~= views(parts@).subrange(0, i as int).push(parts@[i as int]@));
        i = i + 1;
    }
    out
}

/// The matching form of a path.
pub fn normalize_chars(p: &[char]) -> (r: Vec<char>)
    ensures
        r@ == normalize(p@),
{
    let comps = components_of(p);
    let lowered = lower_all(&comps);
    join_chars(&lowered, '/')
}

pub fn normalize_str(p: &str) -> (r: String)
    ensures
        r@ == normalize(p@),
{
    let v = chars_of(p);
    let n = normalize_chars(v.as_slice());
    string_from_chars(n.as_slice())
}

/// `strip_components`.
pub fn strip_components_exec(p: &[char], k: usize) -> (r: Option<Vec<char>>)
    ensures
        match r {
            Some(v) => strip_components(p@, k as nat) == Some(v@),
            None => strip_components(p@, k as nat) is None,
        },
{
    let comps = components_of(p);
    if comps.len() <= k {
        return None;
    }
    let mut rest: Vec<Vec<char>> = Vec::new();
    let mut i: usize = k;
    while i < comps.len()
        invariant
            k <= i <= comps.len(),
            views(rest@) =~= views(comps@).subrange(k as int, i as int),
        decreases comps.len() - i,
    {
        rest.push(copy_chars(comps[i].as_slice()));
        assert(views(comps@).subrange(k as int, i + 1) =~= views(comps@).subrange(k as int, i as int).push(comps@[i as int]@));
        i = i + 1;
    }
    assert(views(rest@) =~= views(comps@).skip(k as int));
    Some(join_chars(&rest, '/'))
}

/// The last piece after `sep`.
pub fn last_piece_exec(n: &[char], sep: char) -> (r: Vec<char>)
    ensures
        r@ == last_piece(n@, sep),
{
    let pieces = split_chars(n, sep);
    proof {
        lemma_split_nonempty(n@, sep);
    }
    let k = pieces.len() - 1;
    assert(pieces@[k as int]@ == views(pieces@)[k as int]);
    copy_chars(pieces[k].as_slice())
}

/// Convert every piece into a `String`.
pub fn strings_of(parts: &Vec<Vec<char>>) -> (r: Vec<String>)
    ensures
        string_views(r@) == views(parts@),
{
    let mut out: Vec<String> = Vec::new();
    let mut i: usize = 0;
    while i < parts.len()
        invariant
            i <= parts.len(),
            string_views(out@) =~= views(parts@).subrange(0, i as int),
        decreases parts.len() - i,
    {
        out.push(string_from_chars(parts[i].as_slice()));
        assert(views(parts@).subrange(0, i + 1) =~= views(parts@).subrange(0, i as int).push(parts@[i as int]@));
        i = i + 1;
    }
    out
}

} // verus!

verus! {

/// A text made of a piece, the separator and the rest.
pub proof fn lemma_join_front(p: Seq<Seq<char>>, sep: char)
    requires
        p.len() >= 2,
    ensures
        join(p, sep) == p[0] + seq![sep] + join(p.skip(1), sep),
    decreases p.len(),
{
    if p.len() == 2 {
        assert(p.drop_last() =~= seq![p[0]]);
        assert(p.skip(1) =~= seq![p[1]]);
        assert(join(p.skip(1), sep) == p[1]);
        assert(join(p, sep) == join(p.drop_last(), sep) + seq![sep] + p.last());
    } else {
        lemma_join_front(p.drop_last(), sep);
        let q = p.skip(1);
        assert(q.drop_last() =~= p.drop_last().skip(1));
        assert(q.last() == p.last());
        assert(join(q, sep) == join(q.drop_last(), sep) + seq![sep] + q.last());
        assert(join(p, sep) == join(p.drop_last(), sep) + seq![sep] + p.last());
        assert(p.drop_last()[0] == p[0]);
        assert(join(p, sep) =~= p[0] + seq![sep] + join(q, sep));
    }
}

/// A text that holds `sep` is its first piece, `sep`, then the rest.
pub proof fn lemma_first_after(n: Seq<char>, sep: char)
    requires
        n.contains(sep),
    ensures
        n == first_piece(n, sep) + seq![sep] + after_first(n, sep),
        after_first(n, sep).len() < n.len(),
{
    lemma_split_contains(n, sep);
    lemma_join_split(n, sep);
    lemma_join_front(split(n, sep), sep);
}

/// The first piece and the rest of a text that holds `sep`.
pub fn split_once_exec(n: &[char], sep: char) -> (r: Option<(Vec<char>, Vec<char>)>)
    ensures
        match r {
            Some((a, b)) => n@.contains(sep) && a@ == first_piece(n@, sep) && b@ == after_first(
                n@,
                sep,
            ),
            None => !n@.contains(sep),
        },
{
    let pieces = split_chars(n, sep);
    proof {
        lemma_split_contains(n@, sep);
    }
    if pieces.len() < 2 {
        return None;
    }
    let mut rest: Vec<Vec<char>> = Vec::new();
    let mut i: usize = 1;
    while i < pieces.len()
        invariant
            1 <= i <= pieces.len(),
            views(rest@) =~= views(pieces@).subrange(1, i as int),
        decreases pieces.len() - i,
    {
        let c = copy_chars(pieces[i].as_slice());
        proof {
            lemma_views_push(rest@, c);
        }
        rest.push(c);
        assert(views(pieces@).subrange(1, i + 1) =~= views(pieces@).subrange(1, i as int).push(
            pieces@[i as int]@,
        ));
        i = i + 1;
    }
    assert(views(rest@) =~= views(pieces@).skip(1));
    let first = copy_chars(pieces[0].as_slice());
    assert(first@ == views(pieces@)[0]);
    Some((first, join_chars(&rest, sep)))
}

} // verus!
