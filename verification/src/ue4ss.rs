//! Keeping UE4SS's `mods.txt` in sync.
//!
//! UE4SS only loads a Lua or C++ mod if its folder name is listed in
//! `ue4ss/Mods/mods.txt` as `<FolderName> : <0|1>`. Deploying the files alone
//! is not enough, so enabling and disabling a UE4SS mod has to rewrite this
//! file — carefully, because the user may have their own entries in it.
//!
//! The file is read and written by the caller; this module says what its
//! lines are, what they become, and who the file belongs to.

use vstd::prelude::*;

use crate::plan::{trim, trim_exec};
use crate::text::{
    after_first, chars_eq, chars_of, concat_chars, first_piece, lemma_lex_irreflexive,
    lemma_lex_total, lemma_lex_transitive, lex_less, lex_lt, split, split_chars,
    split_once_exec, string_from_chars, string_views, views,
};

verus! {

/// Where, under the backup folder, the note of who owns `mods.txt` is kept.
pub const OWNERSHIP_FILE: &'static str = "_originals/ue4ss-mods.owner";

/// Where, under the backup folder, the user's own `mods.txt` is kept.
pub const ORIGINAL_BACKUP: &'static str = "_originals/ue4ss-mods.txt";

/// One line of `mods.txt`.
#[derive(Debug, Clone, PartialEq, Eq)]
pub enum Line {
    /// A mod registration we may rewrite.
    Entry { name: String, enabled: bool },
    /// A comment or blank line, preserved verbatim.
    Raw(String),
}

pub enum LineModel {
    Entry { name: Seq<char>, enabled: bool },
    Raw(Seq<char>),
}

impl View for Line {
    type V = LineModel;

    open spec fn view(&self) -> LineModel {
        match self {
            Line::Entry { name, enabled } => LineModel::Entry { name: name@, enabled: *enabled },
            Line::Raw(r) => LineModel::Raw(r@),
        }
    }
}

pub open spec fn line_views(v: Seq<Line>) -> Seq<LineModel> {
    v.map_values(|l: Line| l@)
}

// ---------------------------------------------------------------------------
// Reading
// ---------------------------------------------------------------------------

/// A line without the `\r` of a `\r\n` ending.
pub open spec fn strip_cr(s: Seq<char>) -> Seq<char> {
    if s.len() > 0 && s.last() == '\r' {
        s.drop_last()
    } else {
        s
    }
}

/// The lines of a text, as `str::lines` gives them: split at each `\n`, the
/// `\r` of a `\r\n` dropped, and no empty line after a final line break.
pub open spec fn text_lines(t: Seq<char>) -> Seq<Seq<char>> {
    let p = split(t, '\n');
    let body = Seq::new((p.len() - 1) as nat, |i: int| strip_cr(p[i]));
    if p.last().len() > 0 {
        body.push(p.last())
    } else {
        body
    }
}

/// What one line of the file is: blank lines and `;` or `#` comments are
/// kept as they are, and so is anything without a name before a `:`; the
/// rest registers the name, enabled when the value starts with `1`.
pub open spec fn line_of(raw: Seq<char>) -> LineModel {
    let t = trim(raw);
    if t.len() == 0 || t[0] == ';' || t[0] == '#' || !t.contains(':') {
        LineModel::Raw(raw)
    } else {
        let name = trim(first_piece(t, ':'));
        let value = trim(after_first(t, ':'));
        if name.len() == 0 {
            LineModel::Raw(raw)
        } else {
            LineModel::Entry { name, enabled: value.len() > 0 && value[0] == '1' }
        }
    }
}

/// The lines of a `mods.txt`.
pub open spec fn parse_of(text: Seq<char>) -> Seq<LineModel> {
    text_lines(text).map_values(|l: Seq<char>| line_of(l))
}

fn strip_cr_exec(s: &[char]) -> (r: Vec<char>)
    ensures
        r@ == strip_cr(s@),
{
    if s.len() > 0 && s[s.len() - 1] == '\r' {
        let r = crate::text::slice_chars(s, 0, s.len() - 1);
        assert(r@ =~= s@.drop_last());
        r
    } else {
        crate::text::copy_chars(s)
    }
}

fn line_of_exec(raw: &[char]) -> (r: Line)
    ensures
        r@ == line_of(raw@),
{
    let t = trim_exec(raw);
    let keep = Line::Raw(string_from_chars(raw));
    if t.len() == 0 || t[0] == ';' || t[0] == '#' {
        return keep;
    }
    match split_once_exec(t.as_slice(), ':') {
        None => keep,
        Some((name, value)) => {
            let name = trim_exec(name.as_slice());
            let value = trim_exec(value.as_slice());
            if name.len() == 0 {
                keep
            } else {
                Line::Entry {
                    name: string_from_chars(name.as_slice()),
                    enabled: value.len() > 0 && value[0] == '1',
                }
            }
        },
    }
}

/// The lines of a `mods.txt`.
pub fn parse(text: &str) -> (r: Vec<Line>)
    ensures
        line_views(r@) == parse_of(text@),
{
    let pieces = split_chars(chars_of(text).as_slice(), '\n');
    let ghost p = views(pieces@);
    assert(p == split(text@, '\n'));
    proof {
        crate::text::lemma_split_nonempty(text@, '\n');
    }
    let k = pieces.len() - 1;
    let mut out: Vec<Line> = Vec::new();
    let mut i: usize = 0;
    while i < k
        invariant
            p == views(pieces@),
            p == split(text@, '\n'),
            k == pieces.len() - 1,
            i <= k,
            line_views(out@) =~= Seq::new(i as nat, |j: int| line_of(strip_cr(p[j]))),
        decreases k - i,
    {
        let ghost prev = line_views(out@);
        let l = strip_cr_exec(pieces[i].as_slice());
        assert(p[i as int] == pieces@[i as int]@);
        out.push(line_of_exec(l.as_slice()));
        assert(line_views(out@) =~= prev.push(line_of(strip_cr(p[i as int]))));
        i = i + 1;
    }
    let ghost body = Seq::new(k as nat, |j: int| strip_cr(p[j]));
    assert(line_views(out@) =~= body.map_values(|l: Seq<char>| line_of(l)));
    assert(p.last() == pieces@[k as int]@);
    if pieces[k].len() > 0 {
        let ghost prev = line_views(out@);
        out.push(line_of_exec(pieces[k].as_slice()));
        assert(line_views(out@) =~= prev.push(line_of(p.last())));
        assert(text_lines(text@) =~= body.push(p.last()));
        assert(line_views(out@) =~= body.push(p.last()).map_values(|l: Seq<char>| line_of(l)));
    } else {
        assert(text_lines(text@) =~= body);
    }
    out
}

// ---------------------------------------------------------------------------
// Rewriting
// ---------------------------------------------------------------------------

/// The state wanted for a name: the first one `states` gives it.
pub open spec fn desired(states: Seq<(String, bool)>, name: Seq<char>, i: int) -> Option<bool>
    decreases states.len() - i,
{
    if i < 0 || i >= states.len() {
        None
    } else if states[i].0@ == name {
        Some(states[i].1)
    } else {
        desired(states, name, i + 1)
    }
}

/// A line with the wanted state applied, when it registers a listed name.
pub open spec fn synced(l: LineModel, states: Seq<(String, bool)>) -> LineModel {
    match l {
        LineModel::Entry { name, enabled } => match desired(states, name, 0) {
            Some(d) => LineModel::Entry { name, enabled: d },
            None => l,
        },
        LineModel::Raw(_) => l,
    }
}

/// Whether a line registers `name`.
pub open spec fn entry_named(l: LineModel, name: Seq<char>) -> bool {
    l matches LineModel::Entry { name: n, .. } && n == name
}

/// Whether the lines register `name`.
pub open spec fn registers(lines: Seq<LineModel>, name: Seq<char>) -> bool {
    exists|i: int| 0 <= i < lines.len() && entry_named(#[trigger] lines[i], name)
}

/// The states whose names no line registers, as new lines, in order.
pub open spec fn appended(lines: Seq<LineModel>, states: Seq<(String, bool)>) -> Seq<LineModel>
    decreases states.len(),
{
    if states.len() == 0 {
        Seq::empty()
    } else {
        let before = appended(lines, states.drop_last());
        if registers(lines, states.last().0@) {
            before
        } else {
            before.push(LineModel::Entry { name: states.last().0@, enabled: states.last().1 })
        }
    }
}

/// The file with the given enabled states applied: every other line intact,
/// names the file does not list appended.
pub open spec fn with_states(lines: Seq<LineModel>, states: Seq<(String, bool)>) -> Seq<LineModel> {
    lines.map_values(|l: LineModel| synced(l, states)) + appended(lines, states)
}

fn desired_exec(states: &[(String, bool)], name: &str) -> (r: Option<bool>)
    ensures
        r == desired(states@, name@, 0),
{
    let n = chars_of(name);
    let mut i: usize = 0;
    while i < states.len()
        invariant
            i <= states.len(),
            n@ == name@,
            desired(states@, name@, i as int) == desired(states@, name@, 0),
        decreases states.len() - i,
    {
        if chars_eq(chars_of(states[i].0.as_str()).as_slice(), n.as_slice()) {
            return Some(states[i].1);
        }
        i = i + 1;
    }
    None
}

fn registers_exec(lines: &Vec<Line>, name: &str) -> (r: bool)
    ensures
        r == registers(line_views(lines@), name@),
{
    let n = chars_of(name);
    let mut i: usize = 0;
    while i < lines.len()
        invariant
            i <= lines.len(),
            n@ == name@,
            forall|j: int| 0 <= j < i ==> !entry_named(#[trigger] line_views(lines@)[j], name@),
        decreases lines.len() - i,
    {
        match &lines[i] {
            Line::Entry { name: m, .. } => {
                if chars_eq(chars_of(m.as_str()).as_slice(), n.as_slice()) {
                    assert(entry_named(line_views(lines@)[i as int], name@));
                    return true;
                }
            },
            Line::Raw(_) => {},
        }
        i = i + 1;
    }
    false
}

fn copy_line(l: &Line) -> (r: Line)
    ensures
        r@ == l@,
{
    match l {
        Line::Entry { name, enabled } => Line::Entry { name: crate::text::owned(name.as_str()), enabled: *enabled },
        Line::Raw(r) => Line::Raw(crate::text::owned(r.as_str())),
    }
}

/// Apply the given enabled/disabled states, leaving every other line intact.
///
/// Names absent from `states` are left exactly as the user had them; names in
/// `states` that are missing from the file are appended, in the order given.
pub fn apply_states(lines: &Vec<Line>, states: &[(String, bool)]) -> (r: Vec<Line>)
    ensures
        line_views(r@) == with_states(line_views(lines@), states@),
{
    let ghost lv = line_views(lines@);
    let mut out: Vec<Line> = Vec::new();
    let mut i: usize = 0;
    while i < lines.len()
        invariant
            i <= lines.len(),
            lv == line_views(lines@),
            line_views(out@) =~= lv.take(i as int).map_values(|l: LineModel| synced(l, states@)),
        decreases lines.len() - i,
    {
        let ghost prev = line_views(out@);
        assert(lv[i as int] == lines@[i as int]@);
        assert(lv.take(i + 1).map_values(|l: LineModel| synced(l, states@)) =~= lv.take(
            i as int,
        ).map_values(|l: LineModel| synced(l, states@)).push(synced(lv[i as int], states@)));
        let line = match &lines[i] {
            Line::Entry { name, enabled } => match desired_exec(states, name.as_str()) {
                Some(d) => Line::Entry { name: crate::text::owned(name.as_str()), enabled: d },
                None => copy_line(&lines[i]),
            },
            Line::Raw(_) => copy_line(&lines[i]),
        };
        assert(line@ == synced(lv[i as int], states@));
        out.push(line);
        assert(line_views(out@) =~= prev.push(line@));
        i = i + 1;
    }
    assert(lv.take(lines.len() as int) =~= lv);
    let ghost synced_part = line_views(out@);
    let mut j: usize = 0;
    while j < states.len()
        invariant
            j <= states.len(),
            lv == line_views(lines@),
            line_views(out@) =~= synced_part + appended(lv, states@.take(j as int)),
        decreases states.len() - j,
    {
        assert(states@.take(j + 1).drop_last() =~= states@.take(j as int));
        assert(states@.take(j + 1).last() == states@[j as int]);
        let ghost prev = line_views(out@);
        if !registers_exec(lines, states[j].0.as_str()) {
            let entry = Line::Entry { name: crate::text::owned(states[j].0.as_str()), enabled: states[j].1 };
            out.push(entry);
            assert(line_views(out@) =~= prev.push(entry@));
        }
        j = j + 1;
    }
    assert(states@.take(states.len() as int) =~= states@);
    out
}

/// Whether a line registers one of `names`.
pub open spec fn drops(l: LineModel, names: Seq<String>) -> bool {
    l matches LineModel::Entry { name, .. } && exists|i: int| 0 <= i < names.len() && (#[trigger] names[i])@ == name
}

/// The lines without the registrations of `names`.
pub open spec fn without_names(lines: Seq<LineModel>, names: Seq<String>) -> Seq<LineModel> {
    lines.filter(|l: LineModel| !drops(l, names))
}

fn named_exec(names: &[String], name: &str) -> (r: bool)
    ensures
        r == exists|i: int| 0 <= i < names@.len() && (#[trigger] names@[i])@ == name@,
{
    let n = chars_of(name);
    let mut i: usize = 0;
    while i < names.len()
        invariant
            i <= names.len(),
            n@ == name@,
            forall|j: int| 0 <= j < i ==> (#[trigger] names@[j])@ != name@,
        decreases names.len() - i,
    {
        if chars_eq(chars_of(names[i].as_str()).as_slice(), n.as_slice()) {
            return true;
        }
        i = i + 1;
    }
    false
}

/// Drop the registrations of `names`, for when those mods are uninstalled.
pub fn remove_entries(lines: &Vec<Line>, names: &[String]) -> (r: Vec<Line>)
    ensures
        line_views(r@) == without_names(line_views(lines@), names@),
{
    let ghost lv = line_views(lines@);
    let ghost keep = |l: LineModel| !drops(l, names@);
    let mut out: Vec<Line> = Vec::new();
    let mut i: usize = 0;
    while i < lines.len()
        invariant
            i <= lines.len(),
            lv == line_views(lines@),
            keep == (|l: LineModel| !drops(l, names@)),
            line_views(out@) == lv.take(i as int).filter(keep),
        decreases lines.len() - i,
    {
        let ghost t = lv.take(i + 1);
        assert(t.drop_last() =~= lv.take(i as int));
        proof {
            crate::text::lemma_filter_step(t, keep);
        }
        let dropped = match &lines[i] {
            Line::Entry { name, .. } => named_exec(names, name.as_str()),
            Line::Raw(_) => false,
        };
        if !dropped {
            let ghost before = line_views(out@);
            out.push(copy_line(&lines[i]));
            assert(line_views(out@) =~= before.push(lv[i as int]));
        }
        i = i + 1;
    }
    assert(lv.take(lines.len() as int) =~= lv);
    out
}

// ---------------------------------------------------------------------------
// Writing
// ---------------------------------------------------------------------------

/// How a line is written back.
pub open spec fn line_text(l: LineModel) -> Seq<char> {
    match l {
        LineModel::Entry { name, enabled } => name + " : "@ + (if enabled { "1"@ } else { "0"@ }),
        LineModel::Raw(r) => r,
    }
}

/// The file's text: each line followed by a line break.
pub open spec fn render_of(lines: Seq<LineModel>) -> Seq<char>
    decreases lines.len(),
{
    if lines.len() == 0 {
        Seq::empty()
    } else {
        render_of(lines.drop_last()) + line_text(lines.last()) + seq!['\n']
    }
}

/// The text to write for these lines.
pub fn render(lines: &Vec<Line>) -> (r: String)
    ensures
        r@ == render_of(line_views(lines@)),
{
    let ghost lv = line_views(lines@);
    let mut out: Vec<char> = Vec::new();
    let mut i: usize = 0;
    while i < lines.len()
        invariant
            i <= lines.len(),
            lv == line_views(lines@),
            out@ == render_of(lv.take(i as int)),
        decreases lines.len() - i,
    {
        let text = match &lines[i] {
            Line::Entry { name, enabled } => {
                let v = concat_chars(chars_of(name.as_str()).as_slice(), chars_of(" : ").as_slice());
                concat_chars(v.as_slice(), chars_of(if *enabled { "1" } else { "0" }).as_slice())
            },
            Line::Raw(r) => chars_of(r.as_str()),
        };
        assert(text@ == line_text(lv[i as int]));
        let v = concat_chars(out.as_slice(), text.as_slice());
        out = v;
        out.push('\n');
        assert(lv.take(i + 1).drop_last() =~= lv.take(i as int));
        i = i + 1;
    }
    assert(lv.take(lines.len() as int) =~= lv);
    string_from_chars(out.as_slice())
}

// ---------------------------------------------------------------------------
// The registrations
// ---------------------------------------------------------------------------

/// The registrations of the lines, by name: a name listed twice keeps its
/// last state.
pub open spec fn registrations_of(lines: Seq<LineModel>) -> Map<Seq<char>, bool>
    decreases lines.len(),
{
    if lines.len() == 0 {
        Map::empty()
    } else {
        let before = registrations_of(lines.drop_last());
        match lines.last() {
            LineModel::Entry { name, enabled } => before.insert(name, enabled),
            LineModel::Raw(_) => before,
        }
    }
}

pub open spec fn names_sorted(v: Seq<(String, bool)>) -> bool {
    forall|i: int, j: int| 0 <= i < j < v.len() ==> lex_lt(#[trigger] v[i].0@, #[trigger] v[j].0@)
}

/// The pairs as a map, later pairs winning.
pub open spec fn pairs_map(v: Seq<(String, bool)>) -> Map<Seq<char>, bool>
    decreases v.len(),
{
    if v.len() == 0 {
        Map::empty()
    } else {
        pairs_map(v.drop_last()).insert(v.last().0@, v.last().1)
    }
}

proof fn lemma_pairs_map(v: Seq<(String, bool)>)
    requires
        names_sorted(v),
    ensures
        forall|k: Seq<char>| #[trigger]
            pairs_map(v).dom().contains(k) <==> exists|i: int| 0 <= i < v.len() && (#[trigger] v[i]).0@ == k,
        forall|i: int| 0 <= i < v.len() ==> #[trigger] pairs_map(v)[v[i].0@] == v[i].1,
    decreases v.len(),
{
    if v.len() > 0 {
        let w = v.drop_last();
        assert(names_sorted(w));
        lemma_pairs_map(w);
        let m = pairs_map(v);
        assert forall|k: Seq<char>| #[trigger]
            m.dom().contains(k) <==> exists|i: int| 0 <= i < v.len() && (#[trigger] v[i]).0@ == k by {
            if m.dom().contains(k) && k != v.last().0@ {
                assert(pairs_map(w).dom().contains(k));
                let i = choose|i: int| 0 <= i < w.len() && (#[trigger] w[i]).0@ == k;
                assert(v[i] == w[i]);
            }
            if k == v.last().0@ {
                assert(v[v.len() - 1].0@ == k);
            }
            if exists|i: int| 0 <= i < v.len() && (#[trigger] v[i]).0@ == k {
                let i = choose|i: int| 0 <= i < v.len() && (#[trigger] v[i]).0@ == k;
                if i < v.len() - 1 {
                    assert(w[i] == v[i]);
                    assert(pairs_map(w).dom().contains(k));
                }
            }
        }
        assert forall|i: int| 0 <= i < v.len() implies #[trigger] m[v[i].0@] == v[i].1 by {
            if i < v.len() - 1 {
                assert(w[i] == v[i]);
                assert(pairs_map(w)[w[i].0@] == w[i].1);
                assert(lex_lt(v[i].0@, v[v.len() - 1].0@));
                lemma_lex_irreflexive(v[i].0@);
                assert(v[i].0@ != v.last().0@);
            }
        }
    }
}

/// Set `name` to `enabled` in a list kept in increasing name order.
fn put_registration(v: &mut Vec<(String, bool)>, name: String, enabled: bool)
    requires
        names_sorted(old(v)@),
    ensures
        names_sorted(final(v)@),
        pairs_map(final(v)@) == pairs_map(old(v)@).insert(name@, enabled),
{
    let ghost old_v = v@;
    let ghost nv_name = name@;
    let key = chars_of(name.as_str());
    let mut pos: usize = 0;
    while pos < v.len() && lex_less(chars_of(v[pos].0.as_str()).as_slice(), key.as_slice())
        invariant
            v@ == old_v,
            key@ == nv_name,
            pos <= v.len(),
            forall|k: int| 0 <= k < pos ==> lex_lt(#[trigger] old_v[k].0@, nv_name),
        decreases v.len() - pos,
    {
        pos = pos + 1;
    }
    let replace = pos < v.len() && chars_eq(chars_of(v[pos].0.as_str()).as_slice(), key.as_slice());
    let ghost at = pos as int;
    if replace {
        v.set(pos, (name, enabled));
    } else {
        proof {
            if pos < v.len() {
                lemma_lex_total(nv_name, old_v[at].0@);
            }
            assert forall|k: int| pos <= k < old_v.len() implies lex_lt(nv_name, #[trigger] old_v[k].0@) by {
                if k > pos {
                    lemma_lex_transitive(nv_name, old_v[at].0@, old_v[k].0@);
                }
            }
        }
        v.insert(pos, (name, enabled));
    }
    let ghost new_v = v@;
    proof {
        if replace {
            assert(new_v =~= old_v.update(at, new_v[at]));
        } else {
            assert(new_v =~= old_v.insert(at, new_v[at]));
        }
        assert forall|i: int, j: int| 0 <= i < j < new_v.len() implies lex_lt(
            #[trigger] new_v[i].0@,
            #[trigger] new_v[j].0@,
        ) by {
            if replace {
                assert(new_v[i].0@ == old_v[i].0@);
                assert(new_v[j].0@ == old_v[j].0@);
            } else if j < at {
            } else if j == at {
            } else if i == at {
                assert(new_v[j] == old_v[j - 1]);
            } else if i < at {
                assert(new_v[j] == old_v[j - 1]);
                lemma_lex_transitive(old_v[i].0@, nv_name, old_v[j - 1].0@);
            } else {
                assert(new_v[i] == old_v[i - 1]);
                assert(new_v[j] == old_v[j - 1]);
            }
        }
        lemma_pairs_map(old_v);
        lemma_pairs_map(new_v);
        let want = pairs_map(old_v).insert(nv_name, enabled);
        let got = pairs_map(new_v);
        assert forall|k: Seq<char>| #[trigger] got.dom().contains(k) <==> want.dom().contains(k) by {
            if got.dom().contains(k) {
                let i = choose|i: int| 0 <= i < new_v.len() && (#[trigger] new_v[i]).0@ == k;
                if replace {
                    if i != at {
                        assert(old_v[i] == new_v[i]);
                    }
                } else if i < at {
                    assert(old_v[i] == new_v[i]);
                } else if i > at {
                    assert(old_v[i - 1] == new_v[i]);
                }
            }
            if pairs_map(old_v).dom().contains(k) {
                let i = choose|i: int| 0 <= i < old_v.len() && (#[trigger] old_v[i]).0@ == k;
                if replace {
                    assert(new_v[i].0@ == k);
                } else if i < at {
                    assert(new_v[i] == old_v[i]);
                } else {
                    assert(new_v[i + 1] == old_v[i]);
                }
            }
            if k == nv_name {
                assert(new_v[at].0@ == k);
            }
        }
        assert forall|k: Seq<char>| #[trigger] got.dom().contains(k) implies got[k] == want[k] by {
            let i = choose|i: int| 0 <= i < new_v.len() && (#[trigger] new_v[i]).0@ == k;
            if k == nv_name {
                lemma_lex_irreflexive(k);
                if i != at {
                    if i < at {
                        assert(lex_lt(new_v[i].0@, new_v[at].0@));
                    } else {
                        assert(lex_lt(new_v[at].0@, new_v[i].0@));
                    }
                }
            } else {
                let oi = if replace || i < at { i } else { i - 1 };
                assert(old_v[oi] == new_v[i]);
            }
        }
        assert(got =~= want);
    }
}

/// The registrations the lines hold, in increasing name order, each name
/// with the state its last line gives it; for showing state in the UI.
pub fn registrations(lines: &Vec<Line>) -> (r: Vec<(String, bool)>)
    ensures
        names_sorted(r@),
        pairs_map(r@) == registrations_of(line_views(lines@)),
{
    let ghost lv = line_views(lines@);
    let mut out: Vec<(String, bool)> = Vec::new();
    let mut i: usize = 0;
    while i < lines.len()
        invariant
            i <= lines.len(),
            lv == line_views(lines@),
            names_sorted(out@),
            pairs_map(out@) == registrations_of(lv.take(i as int)),
        decreases lines.len() - i,
    {
        assert(lv.take(i + 1).drop_last() =~= lv.take(i as int));
        match &lines[i] {
            Line::Entry { name, enabled } => {
                put_registration(&mut out, crate::text::owned(name.as_str()), *enabled);
            },
            Line::Raw(_) => {},
        }
        i = i + 1;
    }
    assert(lv.take(lines.len() as int) =~= lv);
    out
}

/// The state of `name` in a list kept in increasing name order: its flag,
/// or off when it is not listed.
fn state_in(v: &Vec<(String, bool)>, name: &str) -> (r: bool)
    requires
        names_sorted(v@),
    ensures
        r == (pairs_map(v@).dom().contains(name@) && pairs_map(v@)[name@]),
{
    let key = chars_of(name);
    let mut i: usize = 0;
    while i < v.len()
        invariant
            i <= v.len(),
            key@ == name@,
            names_sorted(v@),
            forall|k: int| 0 <= k < i ==> (#[trigger] v@[k]).0@ != name@,
        decreases v.len() - i,
    {
        if chars_eq(chars_of(v[i].0.as_str()).as_slice(), key.as_slice()) {
            proof {
                lemma_pairs_map(v@);
                assert(v@[i as int].0@ == name@);
            }
            return v[i].1;
        }
        i = i + 1;
    }
    proof {
        lemma_pairs_map(v@);
    }
    false
}

/// One mod's registrations folded into the states gathered so far: each
/// of its names is on when it was on already or the mod is enabled.
pub open spec fn states_step(m: Map<Seq<char>, bool>, names: Seq<Seq<char>>, enabled: bool) -> Map<
    Seq<char>,
    bool,
>
    decreases names.len(),
{
    if names.len() == 0 {
        m
    } else {
        let before = states_step(m, names.drop_last(), enabled);
        let n = names.last();
        before.insert(n, (before.dom().contains(n) && before[n]) || enabled)
    }
}

/// The desired state of every UE4SS mod folder the mods register: a folder
/// is on when any enabled mod registers it. Two mods sharing a folder name
/// resolve to enabled.
pub open spec fn states_of(plans: Seq<(Seq<Seq<char>>, bool)>) -> Map<Seq<char>, bool>
    decreases plans.len(),
{
    if plans.len() == 0 {
        Map::empty()
    } else {
        states_step(states_of(plans.drop_last()), plans.last().0, plans.last().1)
    }
}

pub open spec fn plan_views(plans: Seq<(Vec<String>, bool)>) -> Seq<(Seq<Seq<char>>, bool)> {
    plans.map_values(|p: (Vec<String>, bool)| (string_views(p.0@), p.1))
}

/// The `mods.txt` states to write, from each mod's registrations and whether
/// it is enabled, in increasing name order.
pub fn registration_states(plans: &Vec<(Vec<String>, bool)>) -> (r: Vec<(String, bool)>)
    ensures
        names_sorted(r@),
        pairs_map(r@) == states_of(plan_views(plans@)),
{
    let ghost pv = plan_views(plans@);
    let mut out: Vec<(String, bool)> = Vec::new();
    let mut i: usize = 0;
    while i < plans.len()
        invariant
            i <= plans.len(),
            pv == plan_views(plans@),
            names_sorted(out@),
            pairs_map(out@) == states_of(pv.take(i as int)),
        decreases plans.len() - i,
    {
        assert(pv.take(i + 1).drop_last() =~= pv.take(i as int));
        let names = &plans[i].0;
        let enabled = plans[i].1;
        let ghost base = pairs_map(out@);
        let ghost nv = string_views(names@);
        assert(pv[i as int] == (nv, enabled));
        let mut j: usize = 0;
        while j < names.len()
            invariant
                j <= names.len(),
                nv == string_views(names@),
                names_sorted(out@),
                pairs_map(out@) == states_step(base, nv.take(j as int), enabled),
            decreases names.len() - j,
        {
            assert(nv.take(j + 1).drop_last() =~= nv.take(j as int));
            let current = state_in(&out, names[j].as_str());
            put_registration(&mut out, crate::text::owned(names[j].as_str()), current || enabled);
            j = j + 1;
        }
        assert(nv.take(names.len() as int) =~= nv);
        i = i + 1;
    }
    assert(pv.take(plans.len() as int) =~= pv);
    out
}

proof fn lemma_states_step(m: Map<Seq<char>, bool>, names: Seq<Seq<char>>, enabled: bool)
    ensures
        forall|n: Seq<char>| #[trigger]
            states_step(m, names, enabled).dom().contains(n) <==> (m.dom().contains(n)
                || names.contains(n)),
        forall|n: Seq<char>| #[trigger]
            states_step(m, names, enabled).dom().contains(n) ==> states_step(m, names, enabled)[n]
                == ((m.dom().contains(n) && m[n]) || (names.contains(n) && enabled)),
    decreases names.len(),
{
    if names.len() > 0 {
        let rest = names.drop_last();
        lemma_states_step(m, rest, enabled);
        assert forall|n: Seq<char>| names.contains(n) <==> (rest.contains(n) || n == names.last()) by {
            if names.contains(n) {
                let i = choose|i: int| 0 <= i < names.len() && names[i] == n;
                if i < names.len() - 1 {
                    assert(rest[i] == n);
                }
            }
            if rest.contains(n) {
                let i = choose|i: int| 0 <= i < rest.len() && rest[i] == n;
                assert(names[i] == n);
            }
            if n == names.last() {
                assert(names[names.len() - 1] == n);
            }
        }
        let before = states_step(m, rest, enabled);
        let last = names.last();
        assert(states_step(m, names, enabled) == before.insert(
            last,
            (before.dom().contains(last) && before[last]) || enabled,
        ));
        assert forall|n: Seq<char>| #[trigger]
            states_step(m, names, enabled).dom().contains(n) <==> (m.dom().contains(n)
                || names.contains(n)) by {
            assert(names.contains(n) <==> (rest.contains(n) || n == last));
        }
        assert forall|n: Seq<char>| #[trigger]
            states_step(m, names, enabled).dom().contains(n) implies states_step(m, names, enabled)[n]
                == ((m.dom().contains(n) && m[n]) || (names.contains(n) && enabled)) by {
            assert(names.contains(n) <==> (rest.contains(n) || n == last));
        }
    }
}

/// A UE4SS folder is listed exactly when some mod registers it, and listed
/// as on exactly when some enabled mod registers it: two mods sharing a
/// folder name resolve to enabled, whatever their order.
pub proof fn law_a_folder_is_on_when_any_enabled_mod_registers_it(plans: Seq<(Seq<Seq<char>>, bool)>)
    ensures
        forall|n: Seq<char>| #[trigger]
            states_of(plans).dom().contains(n) <==> exists|k: int|
                0 <= k < plans.len() && (#[trigger] plans[k]).0.contains(n),
        forall|n: Seq<char>| #[trigger]
            states_of(plans).dom().contains(n) ==> (states_of(plans)[n] <==> exists|k: int|
                0 <= k < plans.len() && (#[trigger] plans[k]).0.contains(n) && plans[k].1),
    decreases plans.len(),
{
    if plans.len() > 0 {
        let rest = plans.drop_last();
        law_a_folder_is_on_when_any_enabled_mod_registers_it(rest);
        let last = plans.last();
        lemma_states_step(states_of(rest), last.0, last.1);
        assert forall|n: Seq<char>| #[trigger] states_of(plans).dom().contains(n) <==> exists|k: int|
            0 <= k < plans.len() && (#[trigger] plans[k]).0.contains(n) by {
            if exists|k: int| 0 <= k < plans.len() && (#[trigger] plans[k]).0.contains(n) {
                let k = choose|k: int| 0 <= k < plans.len() && (#[trigger] plans[k]).0.contains(n);
                if k < plans.len() - 1 {
                    assert(rest[k] == plans[k]);
                }
            }
            if exists|k: int| 0 <= k < rest.len() && (#[trigger] rest[k]).0.contains(n) {
                let k = choose|k: int| 0 <= k < rest.len() && (#[trigger] rest[k]).0.contains(n);
                assert(plans[k] == rest[k]);
            }
            if last.0.contains(n) {
                assert(plans[plans.len() - 1] == last);
            }
        }
        assert forall|n: Seq<char>| #[trigger] states_of(plans).dom().contains(n) implies (
        states_of(plans)[n] <==> exists|k: int|
            0 <= k < plans.len() && (#[trigger] plans[k]).0.contains(n) && plans[k].1) by {
            if exists|k: int| 0 <= k < plans.len() && (#[trigger] plans[k]).0.contains(n) && plans[k].1 {
                let k = choose|k: int|
                    0 <= k < plans.len() && (#[trigger] plans[k]).0.contains(n) && plans[k].1;
                if k < plans.len() - 1 {
                    assert(rest[k] == plans[k]);
                }
            }
            if exists|k: int| 0 <= k < rest.len() && (#[trigger] rest[k]).0.contains(n) && rest[k].1 {
                let k = choose|k: int| 0 <= k < rest.len() && (#[trigger] rest[k]).0.contains(n) && rest[k].1;
                assert(plans[k] == rest[k]);
            }
            if last.0.contains(n) && last.1 {
                assert(plans[plans.len() - 1] == last);
            }
        }
    }
}

/// What becomes of `mods.txt` after applying.
#[derive(Debug, Clone, Copy, PartialEq, Eq, Structural)]
pub enum RegistrationSync {
    /// No mod registers anything: the file is left alone.
    Untouched,
    /// Write the states.
    Write,
    /// Nothing is left for UE4SS to load: take our `mods.txt` back out.
    Clear,
}

/// Whether to write `mods.txt` or take it back out, given the desired
/// states.
pub fn registration_sync(states: &Vec<(String, bool)>) -> (r: RegistrationSync)
    ensures
        states@.len() == 0 ==> r == RegistrationSync::Untouched,
        states@.len() > 0 && (exists|i: int| 0 <= i < states@.len() && (#[trigger] states@[i]).1)
            ==> r == RegistrationSync::Write,
        states@.len() > 0 && !(exists|i: int| 0 <= i < states@.len() && (#[trigger] states@[i]).1)
            ==> r == RegistrationSync::Clear,
{
    if states.len() == 0 {
        return RegistrationSync::Untouched;
    }
    let mut i: usize = 0;
    while i < states.len()
        invariant
            i <= states.len(),
            forall|k: int| 0 <= k < i ==> !(#[trigger] states@[k]).1,
        decreases states.len() - i,
    {
        if states[i].1 {
            return RegistrationSync::Write;
        }
        i = i + 1;
    }
    RegistrationSync::Clear
}

// ---------------------------------------------------------------------------
// Ownership
// ---------------------------------------------------------------------------

/// Who `mods.txt` belongs to.
#[derive(Debug, Clone, Copy, PartialEq, Eq, Structural)]
pub enum Ownership {
    /// The user already had one before we ever wrote to it.
    UsersOwn,
    /// It exists only because we created it.
    Ours,
}

/// Who owns `mods.txt`, going by the note kept the first time it was
/// touched (none when there is no note): only a note that says `users-own`
/// makes it the user's.
pub fn ownership_of(note: Option<&str>) -> (r: Ownership)
    ensures
        r == (if note matches Some(t) && trim(t@) == "users-own"@ {
            Ownership::UsersOwn
        } else {
            Ownership::Ours
        }),
{
    match note {
        Some(t) => {
            let trimmed = trim_exec(chars_of(t).as_slice());
            if chars_eq(trimmed.as_slice(), chars_of("users-own").as_slice()) {
                Ownership::UsersOwn
            } else {
                Ownership::Ours
            }
        },
        None => Ownership::Ours,
    }
}

/// The note to keep the first time `mods.txt` is touched: whether the file
/// was already there.
pub fn ownership_note(existed: bool) -> (r: &'static str)
    ensures
        r@ == (if existed { "users-own"@ } else { "ours"@ }),
{
    if existed {
        "users-own"
    } else {
        "ours"
    }
}

} // verus!
