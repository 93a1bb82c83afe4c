//! A minimal reader for Valve's KeyValues text format.
//!
//! Steam stores both `libraryfolders.vdf` and `appmanifest_*.acf` in this
//! format. Only what is needed to locate an install is supported: quoted
//! keys/values, nested blocks, and `//` comments.
//!
//! A block keeps its keys in increasing order without repeats, as a sorted
//! map would: a key given twice keeps its last value.

use vstd::prelude::*;

use crate::plan::{is_ws, is_ws_exec};
use crate::text::{
    chars_eq, chars_of, eq_ignore_case, lemma_lex_total, lemma_lex_transitive, lemma_lex_irreflexive,
    lex_less, lex_lt, lower_chars, slice_chars, string_from_chars,
};

verus! {

// ---------------------------------------------------------------------------
// Tokens
// ---------------------------------------------------------------------------

/// A piece of a KeyValues document.
#[derive(Debug)]
pub enum Token {
    Str(String),
    Open,
    Close,
}

pub enum TokenModel {
    Str(Seq<char>),
    Open,
    Close,
}

impl View for Token {
    type V = TokenModel;

    open spec fn view(&self) -> TokenModel {
        match self {
            Token::Str(s) => TokenModel::Str(s@),
            Token::Open => TokenModel::Open,
            Token::Close => TokenModel::Close,
        }
    }
}

pub open spec fn token_views(t: Seq<Token>) -> Seq<TokenModel> {
    t.map_values(|x: Token| x@)
}

/// Where a `//` comment starting at `i` ends: at the next line break, which
/// is left to be read as whitespace, or at the end.
pub open spec fn comment_end(cs: Seq<char>, i: int) -> int
    decreases cs.len() - i,
{
    if i < 0 || i >= cs.len() || cs[i] == '\n' {
        i
    } else {
        comment_end(cs, i + 1)
    }
}

/// The text of a quoted string whose contents start at `i`, with `\x` read
/// as `x` (Steam escapes the backslashes in Windows paths), and where the
/// closing quote is (or the end).
pub open spec fn quoted(cs: Seq<char>, i: int) -> (Seq<char>, int)
    decreases cs.len() - i,
{
    if i < 0 || i >= cs.len() || cs[i] == '"' {
        (Seq::empty(), i)
    } else if cs[i] == '\\' && i + 1 < cs.len() {
        let rest = quoted(cs, i + 2);
        (seq![cs[i + 1]] + rest.0, rest.1)
    } else {
        let rest = quoted(cs, i + 1);
        (seq![cs[i]] + rest.0, rest.1)
    }
}

/// Where an unquoted token starting at `i` ends: at whitespace, a brace, or
/// the end.
pub open spec fn bare_end(cs: Seq<char>, i: int) -> int
    decreases cs.len() - i,
{
    if i < 0 || i >= cs.len() || is_ws(cs[i]) || cs[i] == '{' || cs[i] == '}' {
        i
    } else {
        bare_end(cs, i + 1)
    }
}

pub proof fn lemma_comment_end(cs: Seq<char>, i: int)
    requires
        0 <= i,
    ensures
        i <= comment_end(cs, i),
        comment_end(cs, i) <= cs.len() || comment_end(cs, i) == i,
    decreases cs.len() - i,
{
    if i < cs.len() && cs[i] != '\n' {
        lemma_comment_end(cs, i + 1);
    }
}

pub proof fn lemma_quoted(cs: Seq<char>, i: int)
    requires
        0 <= i,
    ensures
        i <= quoted(cs, i).1,
        quoted(cs, i).1 <= cs.len() || quoted(cs, i).1 == i,
    decreases cs.len() - i,
{
    if i < cs.len() && cs[i] != '"' {
        if cs[i] == '\\' && i + 1 < cs.len() {
            lemma_quoted(cs, i + 2);
        } else {
            lemma_quoted(cs, i + 1);
        }
    }
}

pub proof fn lemma_bare_end(cs: Seq<char>, i: int)
    requires
        0 <= i,
    ensures
        i <= bare_end(cs, i),
        bare_end(cs, i) <= cs.len() || bare_end(cs, i) == i,
    decreases cs.len() - i,
{
    if i < cs.len() && !is_ws(cs[i]) && cs[i] != '{' && cs[i] != '}' {
        lemma_bare_end(cs, i + 1);
    }
}

/// The tokens of a document from character `i` on: whitespace and comments
/// skipped, braces, quoted strings, and anything else up to whitespace or a
/// brace as a string of its own.
pub open spec fn tokens_from(cs: Seq<char>, i: int) -> Seq<TokenModel>
    decreases cs.len() - i,
{
    if i < 0 || i >= cs.len() {
        Seq::empty()
    } else {
        let c = cs[i];
        if is_ws(c) {
            tokens_from(cs, i + 1)
        } else if c == '/' && i + 1 < cs.len() && cs[i + 1] == '/' {
            proof {
                lemma_comment_end(cs, i + 1);
            }
            tokens_from(cs, comment_end(cs, i + 1))
        } else if c == '{' {
            seq![TokenModel::Open] + tokens_from(cs, i + 1)
        } else if c == '}' {
            seq![TokenModel::Close] + tokens_from(cs, i + 1)
        } else if c == '"' {
            proof {
                lemma_quoted(cs, i + 1);
            }
            let q = quoted(cs, i + 1);
            if q.1 >= cs.len() {
                seq![TokenModel::Str(q.0)]
            } else {
                seq![TokenModel::Str(q.0)] + tokens_from(cs, q.1 + 1)
            }
        } else {
            proof {
                lemma_bare_end(cs, i + 1);
            }
            let j = bare_end(cs, i + 1);
            seq![TokenModel::Str(cs.subrange(i, j))] + tokens_from(cs, j)
        }
    }
}

/// The tokens of a KeyValues document.
pub fn tokenize(text: &str) -> (r: Vec<Token>)
    ensures
        token_views(r@) == tokens_from(text@, 0),
{
    let chars = chars_of(text);
    let ghost cs = chars@;
    let mut tokens: Vec<Token> = Vec::new();
    let mut i: usize = 0;
    while i < chars.len()
        invariant
            cs == chars@,
            cs == text@,
            i <= chars.len(),
            token_views(tokens@) + tokens_from(cs, i as int) == tokens_from(cs, 0),
        decreases chars.len() - i,
    {
        let ghost before = token_views(tokens@);
        let c = chars[i];
        if is_ws_exec(c) {
            i = i + 1;
        } else if c == '/' && i + 1 < chars.len() && chars[i + 1] == '/' {
            let mut j = i + 1;
            while j < chars.len() && chars[j] != '\n'
                invariant
                    cs == chars@,
                    i + 1 <= j <= chars.len(),
                    comment_end(cs, j as int) == comment_end(cs, i + 1),
                decreases chars.len() - j,
            {
                j = j + 1;
            }
            i = j;
        } else if c == '{' {
            tokens.push(Token::Open);
            assert(token_views(tokens@) =~= before.push(TokenModel::Open));
            i = i + 1;
        } else if c == '}' {
            tokens.push(Token::Close);
            assert(token_views(tokens@) =~= before.push(TokenModel::Close));
            i = i + 1;
        } else if c == '"' {
            let mut j = i + 1;
            let mut buf: Vec<char> = Vec::new();
            while j < chars.len() && chars[j] != '"'
                invariant
                    cs == chars@,
                    i + 1 <= j <= chars.len(),
                    buf@ + quoted(cs, j as int).0 == quoted(cs, i + 1).0,
                    quoted(cs, j as int).1 == quoted(cs, i + 1).1,
                decreases chars.len() - j,
            {
                if chars[j] == '\\' && j + 1 < chars.len() {
                    let ghost rest = quoted(cs, j + 2).0;
                    buf.push(chars[j + 1]);
                    assert(buf@ + rest =~= (buf@.drop_last() + (seq![cs[j + 1]] + rest)));
                    j = j + 2;
                } else {
                    let ghost rest = quoted(cs, j + 1).0;
                    buf.push(chars[j]);
                    assert(buf@ + rest =~= (buf@.drop_last() + (seq![cs[j as int]] + rest)));
                    j = j + 1;
                }
            }
            assert(buf@ =~= quoted(cs, i + 1).0);
            tokens.push(Token::Str(string_from_chars(buf.as_slice())));
            assert(token_views(tokens@) =~= before.push(TokenModel::Str(quoted(cs, i + 1).0)));
            i = if j < chars.len() {
                j + 1
            } else {
                j
            };
        } else {
            let mut j = i + 1;
            while j < chars.len() && !is_ws_exec(chars[j]) && chars[j] != '{' && chars[j] != '}'
                invariant
                    cs == chars@,
                    i + 1 <= j <= chars.len(),
                    bare_end(cs, j as int) == bare_end(cs, i + 1),
                decreases chars.len() - j,
            {
                j = j + 1;
            }
            let word = slice_chars(chars.as_slice(), i, j);
            tokens.push(Token::Str(string_from_chars(word.as_slice())));
            assert(token_views(tokens@) =~= before.push(
                TokenModel::Str(cs.subrange(i as int, j as int)),
            ));
            i = j;
        }
        assert(token_views(tokens@) + tokens_from(cs, i as int) =~= tokens_from(cs, 0));
    }
    assert(tokens_from(cs, i as int) =~= Seq::<TokenModel>::empty());
    assert(token_views(tokens@) =~= tokens_from(cs, 0));
    tokens
}

// ---------------------------------------------------------------------------
// Values
// ---------------------------------------------------------------------------

/// A value: a text, or a block of keyed values in increasing key order.
#[derive(Debug)]
pub enum VdfValue {
    Text(String),
    Block(Vec<(String, VdfValue)>),
}

/// A value as texts and maps.
pub enum ValueModel {
    Text(Seq<char>),
    Block(Map<Seq<char>, ValueModel>),
}

/// What a value holds.
pub open spec fn model_of(v: VdfValue) -> ValueModel
    decreases v, 0nat,
{
    match v {
        VdfValue::Text(s) => ValueModel::Text(s@),
        VdfValue::Block(es) => ValueModel::Block(entries_map(es@, es@.len())),
    }
}

/// The first `n` entries of a block as a map, later keys winning.
pub open spec fn entries_map(es: Seq<(String, VdfValue)>, n: nat) -> Map<Seq<char>, ValueModel>
    decreases es, n,
{
    if n == 0 || n > es.len() {
        Map::empty()
    } else {
        entries_map(es, (n - 1) as nat).insert(es[n - 1].0@, model_of(es[n - 1].1))
    }
}

/// Whether a block's keys increase.
pub open spec fn sorted_keys(es: Seq<(String, VdfValue)>) -> bool {
    forall|i: int, j: int| 0 <= i < j < es.len() ==> lex_lt(#[trigger] es[i].0@, #[trigger] es[j].0@)
}

/// Whether every block in a value keeps its keys in increasing order.
pub open spec fn value_wf(v: VdfValue) -> bool
    decreases v, 0nat,
{
    match v {
        VdfValue::Text(_) => true,
        VdfValue::Block(es) => sorted_keys(es@) && entries_wf(es@, es@.len()),
    }
}

/// Whether the first `n` entries' values are well-formed.
pub open spec fn entries_wf(es: Seq<(String, VdfValue)>, n: nat) -> bool
    decreases es, n,
{
    if n == 0 || n > es.len() {
        true
    } else {
        entries_wf(es, (n - 1) as nat) && value_wf(es[n - 1].1)
    }
}

proof fn lemma_entries_wf(es: Seq<(String, VdfValue)>, n: nat)
    requires
        n <= es.len(),
    ensures
        entries_wf(es, n) <==> forall|i: int| 0 <= i < n ==> #[trigger] value_wf(es[i].1),
    decreases n,
{
    if n > 0 {
        lemma_entries_wf(es, (n - 1) as nat);
        if entries_wf(es, n) {
            assert forall|i: int| 0 <= i < n implies #[trigger] value_wf(es[i].1) by {
                if i < n - 1 {
                    assert(entries_wf(es, (n - 1) as nat));
                }
            }
        }
        if forall|i: int| 0 <= i < n ==> #[trigger] value_wf(es[i].1) {
            assert forall|i: int| 0 <= i < n - 1 implies #[trigger] value_wf(es[i].1) by {
                assert(value_wf(es[i].1));
            }
            assert(value_wf(es[n - 1].1));
        }
    }
}

proof fn lemma_entries_map(es: Seq<(String, VdfValue)>, n: nat)
    requires
        n <= es.len(),
        sorted_keys(es),
    ensures
        forall|k: Seq<char>| #[trigger]
            entries_map(es, n).dom().contains(k) <==> exists|i: int|
                0 <= i < n && (#[trigger] es[i]).0@ == k,
        forall|i: int| 0 <= i < n ==> #[trigger] entries_map(es, n)[es[i].0@] == model_of(es[i].1),
    decreases n,
{
    if n > 0 {
        lemma_entries_map(es, (n - 1) as nat);
        let m = entries_map(es, n);
        assert forall|k: Seq<char>| #[trigger]
            m.dom().contains(k) <==> exists|i: int| 0 <= i < n && (#[trigger] es[i]).0@ == k by {
            if m.dom().contains(k) && k != es[n - 1].0@ {
                let i = choose|i: int| 0 <= i < n - 1 && (#[trigger] es[i]).0@ == k;
            }
            if exists|i: int| 0 <= i < n && (#[trigger] es[i]).0@ == k {
                let i = choose|i: int| 0 <= i < n && (#[trigger] es[i]).0@ == k;
                if i < n - 1 {
                    assert(entries_map(es, (n - 1) as nat).dom().contains(k));
                }
            }
        }
        assert forall|i: int| 0 <= i < n implies #[trigger] m[es[i].0@] == model_of(es[i].1) by {
            if i < n - 1 {
                assert(lex_lt(es[i].0@, es[n - 1].0@));
                lemma_lex_irreflexive(es[i].0@);
            }
        }
    }
}

/// Put `key` into a block with increasing keys, replacing the value when the
/// key is there already.
fn put(es: &mut Vec<(String, VdfValue)>, key: String, value: VdfValue)
    requires
        sorted_keys(old(es)@),
        entries_wf(old(es)@, old(es)@.len()),
        value_wf(value),
    ensures
        sorted_keys(final(es)@),
        entries_wf(final(es)@, final(es)@.len()),
        entries_map(final(es)@, final(es)@.len()) == entries_map(old(es)@, old(es)@.len()).insert(
            key@,
            model_of(value),
        ),
{
    let ghost old_es = es@;
    let ghost old_map = entries_map(old_es, old_es.len());
    let ghost kv = key@;
    let ghost mv = model_of(value);
    proof {
        lemma_entries_map(old_es, old_es.len());
        lemma_entries_wf(old_es, old_es.len());
    }
    let key_chars = chars_of(key.as_str());
    let mut pos: usize = 0;
    while pos < es.len() && lex_less(chars_of(es[pos].0.as_str()).as_slice(), key_chars.as_slice())
        invariant
            es@ == old_es,
            key_chars@ == kv,
            pos <= es.len(),
            forall|k: int| 0 <= k < pos ==> lex_lt(#[trigger] old_es[k].0@, kv),
        decreases es.len() - pos,
    {
        pos = pos + 1;
    }
    if pos < es.len() && chars_eq(chars_of(es[pos].0.as_str()).as_slice(), key_chars.as_slice()) {
        let ghost at = pos as int;
        es.set(pos, (key, value));
        let ghost new_es = es@;
        proof {
            assert(new_es =~= old_es.update(at, new_es[at]));
            assert(sorted_keys(new_es)) by {
                assert forall|i: int, j: int| 0 <= i < j < new_es.len() implies lex_lt(
                    #[trigger] new_es[i].0@,
                    #[trigger] new_es[j].0@,
                ) by {
                    assert(old_es[i].0@ == new_es[i].0@ || i == at);
                    assert(old_es[j].0@ == new_es[j].0@ || j == at);
                }
            }
            lemma_entries_map(new_es, new_es.len());
            lemma_entries_wf(new_es, new_es.len());
            let nm = entries_map(new_es, new_es.len());
            assert forall|k: Seq<char>| #[trigger] nm.dom().contains(k) <==> old_map.insert(
                kv,
                mv,
            ).dom().contains(k) by {
                if nm.dom().contains(k) {
                    let i = choose|i: int| 0 <= i < new_es.len() && (#[trigger] new_es[i]).0@ == k;
                    if i != at {
                        assert(old_es[i] == new_es[i]);
                    }
                }
                if old_map.dom().contains(k) {
                    let i = choose|i: int| 0 <= i < old_es.len() && (#[trigger] old_es[i]).0@ == k;
                    if i != at {
                        assert(old_es[i] == new_es[i]);
                    } else {
                        assert(new_es[at].0@ == k);
                    }
                }
                if k == kv {
                    assert(new_es[at].0@ == k);
                }
            }
            assert forall|k: Seq<char>| #[trigger] nm.dom().contains(k) implies nm[k] == old_map.insert(
                kv,
                mv,
            )[k] by {
                let i = choose|i: int| 0 <= i < new_es.len() && (#[trigger] new_es[i]).0@ == k;
                if i != at {
                    assert(old_es[i] == new_es[i]);
                    assert(old_map[old_es[i].0@] == model_of(old_es[i].1));
                }
            }
            assert(nm =~= old_map.insert(kv, mv));
        }
        return;
    }
    proof {
        if pos < es.len() {
            lemma_lex_total(kv, old_es[pos as int].0@);
        }
        assert forall|k: int| pos <= k < old_es.len() implies lex_lt(kv, #[trigger] old_es[k].0@) by {
            if k > pos {
                lemma_lex_transitive(kv, old_es[pos as int].0@, old_es[k].0@);
            }
        }
    }
    es.insert(pos, (key, value));
    let ghost new_es = es@;
    let ghost at = pos as int;
    proof {
        assert(new_es =~= old_es.insert(at, new_es[at]));
        assert forall|i: int, j: int| 0 <= i < j < new_es.len() implies lex_lt(
            #[trigger] new_es[i].0@,
            #[trigger] new_es[j].0@,
        ) by {
            if j < at {
            } else if j == at {
            } else if i == at {
                assert(new_es[j] == old_es[j - 1]);
            } else if i < at {
                assert(new_es[j] == old_es[j - 1]);
                lemma_lex_transitive(old_es[i].0@, kv, old_es[j - 1].0@);
            } else {
                assert(new_es[i] == old_es[i - 1]);
                assert(new_es[j] == old_es[j - 1]);
            }
        }
        lemma_entries_map(new_es, new_es.len());
        lemma_entries_wf(new_es, new_es.len());
        assert forall|i: int| 0 <= i < new_es.len() implies #[trigger] value_wf(new_es[i].1) by {
            if i < at {
                assert(new_es[i] == old_es[i]);
            } else if i > at {
                assert(new_es[i] == old_es[i - 1]);
            }
        }
        let nm = entries_map(new_es, new_es.len());
        assert forall|k: Seq<char>| #[trigger] nm.dom().contains(k) <==> old_map.insert(
            kv,
            mv,
        ).dom().contains(k) by {
            if nm.dom().contains(k) {
                let i = choose|i: int| 0 <= i < new_es.len() && (#[trigger] new_es[i]).0@ == k;
                if i < at {
                    assert(old_es[i] == new_es[i]);
                } else if i > at {
                    assert(old_es[i - 1] == new_es[i]);
                }
            }
            if old_map.dom().contains(k) {
                let i = choose|i: int| 0 <= i < old_es.len() && (#[trigger] old_es[i]).0@ == k;
                if i < at {
                    assert(old_es[i] == new_es[i]);
                } else {
                    assert(old_es[i] == new_es[i + 1]);
                }
            }
            if k == kv {
                assert(new_es[at].0@ == k);
            }
        }
        assert forall|k: Seq<char>| #[trigger] nm.dom().contains(k) implies nm[k] == old_map.insert(
            kv,
            mv,
        )[k] by {
            let i = choose|i: int| 0 <= i < new_es.len() && (#[trigger] new_es[i]).0@ == k;
            if i < at {
                assert(old_es[i] == new_es[i]);
                assert(old_map[old_es[i].0@] == model_of(old_es[i].1));
                lemma_lex_irreflexive(kv);
            } else if i > at {
                assert(old_es[i - 1] == new_es[i]);
                assert(old_map[old_es[i - 1].0@] == model_of(old_es[i - 1].1));
                lemma_lex_irreflexive(kv);
            }
        }
        assert(nm =~= old_map.insert(kv, mv));
    }
}

// ---------------------------------------------------------------------------
// Parsing
// ---------------------------------------------------------------------------

pub open spec fn clamp(c: int, lo: int, hi: int) -> int {
    if c < lo {
        lo
    } else if c > hi {
        hi
    } else {
        c
    }
}

/// Reading key/value pairs from token `cur` into `acc`, up to the `}` that
/// closes the block (which is consumed) or the end. A value is a string or a
/// braced block; a block with no key is read and dropped; a key followed by
/// a `}` or nothing ends the block without consuming the `}`. Gives the
/// block and the position after it.
pub open spec fn pairs(toks: Seq<TokenModel>, cur: int, acc: Map<Seq<char>, ValueModel>) -> (
    Map<Seq<char>, ValueModel>,
    int,
)
    decreases toks.len() - cur,
{
    if cur < 0 || cur >= toks.len() {
        (acc, cur)
    } else {
        match toks[cur] {
            TokenModel::Close => (acc, cur + 1),
            TokenModel::Open => {
                let inner = pairs(toks, cur + 1, Map::empty());
                pairs(toks, clamp(inner.1, cur + 1, toks.len() as int), acc)
            },
            TokenModel::Str(key) => if cur + 1 >= toks.len() {
                (acc, cur + 1)
            } else {
                match toks[cur + 1] {
                    TokenModel::Open => {
                        let inner = pairs(toks, cur + 2, Map::empty());
                        pairs(
                            toks,
                            clamp(inner.1, cur + 2, toks.len() as int),
                            acc.insert(key, ValueModel::Block(inner.0)),
                        )
                    },
                    TokenModel::Str(value) => pairs(
                        toks,
                        cur + 2,
                        acc.insert(key, ValueModel::Text(value)),
                    ),
                    TokenModel::Close => (acc, cur + 1),
                }
            },
        }
    }
}

/// Reading a block always moves forward, and never past the end.
pub proof fn lemma_pairs_advance(toks: Seq<TokenModel>, cur: int, acc: Map<Seq<char>, ValueModel>)
    requires
        0 <= cur <= toks.len(),
    ensures
        cur < toks.len() ==> cur < pairs(toks, cur, acc).1 <= toks.len(),
        cur == toks.len() ==> pairs(toks, cur, acc).1 == cur,
    decreases toks.len() - cur,
{
    if cur < toks.len() {
        match toks[cur] {
            TokenModel::Close => {},
            TokenModel::Open => {
                lemma_pairs_advance(toks, cur + 1, Map::empty());
                let inner = pairs(toks, cur + 1, Map::empty());
                lemma_pairs_advance(toks, clamp(inner.1, cur + 1, toks.len() as int), acc);
            },
            TokenModel::Str(key) => {
                if cur + 1 < toks.len() {
                    match toks[cur + 1] {
                        TokenModel::Open => {
                            lemma_pairs_advance(toks, cur + 2, Map::empty());
                            let inner = pairs(toks, cur + 2, Map::empty());
                            lemma_pairs_advance(
                                toks,
                                clamp(inner.1, cur + 2, toks.len() as int),
                                acc.insert(key, ValueModel::Block(inner.0)),
                            );
                        },
                        TokenModel::Str(value) => {
                            lemma_pairs_advance(
                                toks,
                                cur + 2,
                                acc.insert(key, ValueModel::Text(value)),
                            );
                        },
                        TokenModel::Close => {},
                    }
                }
            },
        }
    }
}

fn copy_string(s: &String) -> (r: String)
    ensures
        r@ == s@,
{
    crate::text::owned(s.as_str())
}

/// Read key/value pairs into `out`, from `*cursor` on; see [`pairs`].
fn parse_pairs(tokens: &Vec<Token>, cursor: &mut usize, out: &mut Vec<(String, VdfValue)>)
    requires
        *old(cursor) <= tokens.len(),
        sorted_keys(old(out)@),
        entries_wf(old(out)@, old(out)@.len()),
    ensures
        sorted_keys(final(out)@),
        entries_wf(final(out)@, final(out)@.len()),
        (entries_map(final(out)@, final(out)@.len()), *final(cursor) as int) == pairs(
            token_views(tokens@),
            *old(cursor) as int,
            entries_map(old(out)@, old(out)@.len()),
        ),
        *final(cursor) <= tokens.len(),
    decreases tokens.len() - *old(cursor),
{
    let ghost toks = token_views(tokens@);
    let ghost start = *cursor as int;
    let ghost goal = pairs(toks, start, entries_map(out@, out@.len()));
    while *cursor < tokens.len()
        invariant
            toks == token_views(tokens@),
            start == *old(cursor),
            goal == pairs(toks, *old(cursor) as int, entries_map(old(out)@, old(out)@.len())),
            start <= *cursor <= tokens.len(),
            sorted_keys(out@),
            entries_wf(out@, out@.len()),
            pairs(toks, *cursor as int, entries_map(out@, out@.len())) == goal,
        decreases tokens.len() - *cursor,
    {
        let cur = *cursor;
        assert(toks[cur as int] == tokens@[cur as int]@);
        match &tokens[cur] {
            Token::Close => {
                assert(toks[cur as int] == TokenModel::Close);
                *cursor = cur + 1;
                return;
            },
            Token::Open => {
                *cursor = cur + 1;
                let mut discard: Vec<(String, VdfValue)> = Vec::new();
                proof {
                    assert(entries_map(discard@, 0) == Map::<Seq<char>, ValueModel>::empty());
                    lemma_pairs_advance(toks, cur + 1, Map::empty());
                }
                parse_pairs(tokens, cursor, &mut discard);
            },
            Token::Str(key) => {
                assert(toks[cur as int] == TokenModel::Str(key@));
                let key = copy_string(key);
                *cursor = cur + 1;
                if cur + 1 >= tokens.len() {
                    return;
                }
                assert(toks[cur + 1] == tokens@[cur + 1]@);
                match &tokens[cur + 1] {
                    Token::Open => {
                        *cursor = cur + 2;
                        let mut block: Vec<(String, VdfValue)> = Vec::new();
                        proof {
                            assert(entries_map(block@, 0) == Map::<Seq<char>, ValueModel>::empty());
                            lemma_pairs_advance(toks, cur + 2, Map::empty());
                        }
                        parse_pairs(tokens, cursor, &mut block);
                        let value = VdfValue::Block(block);
                        assert(model_of(value) == ValueModel::Block(
                            entries_map(block@, block@.len()),
                        ));
                        put(out, key, value);
                    },
                    Token::Str(text) => {
                        let value = VdfValue::Text(copy_string(text));
                        put(out, key, value);
                        *cursor = cur + 2;
                    },
                    Token::Close => {
                        assert(toks[cur + 1] == TokenModel::Close);
                        return;
                    },
                }
            },
        }
    }
}

/// What a document reads as: its top-level pairs.
pub open spec fn parse_of(text: Seq<char>) -> Map<Seq<char>, ValueModel> {
    pairs(tokens_from(text, 0), 0, Map::empty()).0
}

/// Parse a KeyValues document into a single root block.
pub fn parse(text: &str) -> (r: VdfValue)
    ensures
        model_of(r) == ValueModel::Block(parse_of(text@)),
        value_wf(r),
{
    let tokens = tokenize(text);
    let mut cursor: usize = 0;
    let mut root: Vec<(String, VdfValue)> = Vec::new();
    assert(entries_map(root@, 0) == Map::<Seq<char>, ValueModel>::empty());
    parse_pairs(&tokens, &mut cursor, &mut root);
    VdfValue::Block(root)
}

// ---------------------------------------------------------------------------
// Reading values
// ---------------------------------------------------------------------------

/// The first entry from `i` on whose key matches `key` ignoring ASCII case.
pub open spec fn first_match(es: Seq<(String, VdfValue)>, key: Seq<char>, i: int) -> Option<int>
    decreases es.len() - i,
{
    if i < 0 || i >= es.len() {
        None
    } else if eq_ignore_case(es[i].0@, key) {
        Some(i)
    } else {
        first_match(es, key, i + 1)
    }
}

/// Whether `k` is the least key of `m`, in increasing order, that matches
/// `key` ignoring ASCII case.
pub open spec fn is_least_match(m: Map<Seq<char>, ValueModel>, key: Seq<char>, k: Seq<char>) -> bool {
    &&& m.dom().contains(k)
    &&& eq_ignore_case(k, key)
    &&& forall|k2: Seq<char>| #[trigger]
        m.dom().contains(k2) && eq_ignore_case(k2, key) ==> !lex_lt(k2, k)
}

/// The value under the least key matching `key` ignoring ASCII case, which
/// is the first one a block lists.
pub open spec fn lookup(m: Map<Seq<char>, ValueModel>, key: Seq<char>) -> Option<ValueModel> {
    if exists|k: Seq<char>| is_least_match(m, key, k) {
        Some(m[choose|k: Seq<char>| is_least_match(m, key, k)])
    } else {
        None
    }
}

/// The value under `key` in a block; nothing in a text.
pub open spec fn block_lookup(v: ValueModel, key: Seq<char>) -> Option<ValueModel> {
    match v {
        ValueModel::Block(m) => lookup(m, key),
        ValueModel::Text(_) => None,
    }
}

/// The text under `key` in a block, when it is a text.
pub open spec fn text_lookup(v: ValueModel, key: Seq<char>) -> Option<Seq<char>> {
    match block_lookup(v, key) {
        Some(ValueModel::Text(t)) => Some(t),
        _ => None,
    }
}

proof fn lemma_first_match_before(es: Seq<(String, VdfValue)>, key: Seq<char>, from: int, i: int)
    requires
        0 <= from,
        first_match(es, key, from) == Some(i),
    ensures
        from <= i < es.len(),
        eq_ignore_case(es[i].0@, key),
        forall|j: int| from <= j < i ==> !eq_ignore_case(#[trigger] es[j].0@, key),
    decreases es.len() - from,
{
    if from < es.len() && !eq_ignore_case(es[from].0@, key) {
        lemma_first_match_before(es, key, from + 1, i);
    }
}

proof fn lemma_first_match_none(es: Seq<(String, VdfValue)>, key: Seq<char>, from: int)
    requires
        0 <= from,
        first_match(es, key, from) is None,
    ensures
        forall|j: int| from <= j < es.len() ==> !eq_ignore_case(#[trigger] es[j].0@, key),
    decreases es.len() - from,
{
    if from < es.len() {
        lemma_first_match_none(es, key, from + 1);
    }
}

/// In a block with increasing keys, the first matching entry is the least
/// matching key of its map.
proof fn lemma_lookup(es: Seq<(String, VdfValue)>, key: Seq<char>)
    requires
        sorted_keys(es),
    ensures
        match first_match(es, key, 0) {
            Some(i) => lookup(entries_map(es, es.len()), key) == Some(model_of(es[i].1)),
            None => lookup(entries_map(es, es.len()), key) is None,
        },
{
    let m = entries_map(es, es.len());
    lemma_entries_map(es, es.len());
    match first_match(es, key, 0) {
        Some(i) => {
            lemma_first_match_before(es, key, 0, i);
            let k = es[i].0@;
            assert(m.dom().contains(k));
            assert forall|k2: Seq<char>| #[trigger]
                m.dom().contains(k2) && eq_ignore_case(k2, key) implies !lex_lt(k2, k) by {
                let j = choose|j: int| 0 <= j < es.len() && (#[trigger] es[j]).0@ == k2;
                if j > i {
                    assert(lex_lt(es[i].0@, es[j].0@));
                    crate::text::lemma_lex_asymmetric(es[i].0@, es[j].0@);
                } else if j == i {
                    lemma_lex_irreflexive(k);
                }
            }
            assert(is_least_match(m, key, k));
            let c = choose|c: Seq<char>| is_least_match(m, key, c);
            assert(c == k) by {
                lemma_lex_total(c, k);
            }
        },
        None => {
            lemma_first_match_none(es, key, 0);
            if exists|k: Seq<char>| is_least_match(m, key, k) {
                let k = choose|k: Seq<char>| is_least_match(m, key, k);
                let j = choose|j: int| 0 <= j < es.len() && (#[trigger] es[j]).0@ == k;
                assert(!eq_ignore_case(es[j].0@, key));
            }
        },
    }
}

/// The index of the first entry whose key matches `key` ignoring ASCII case.
fn find_key(es: &Vec<(String, VdfValue)>, key: &str) -> (r: Option<usize>)
    ensures
        r matches Some(j) ==> j < es.len() && first_match(es@, key@, 0) == Some(j as int),
        r is None ==> first_match(es@, key@, 0) is None,
{
    let wanted = lower_chars(chars_of(key).as_slice());
    let mut i: usize = 0;
    while i < es.len()
        invariant
            i <= es.len(),
            wanted@ == crate::text::lower(key@),
            first_match(es@, key@, i as int) == first_match(es@, key@, 0),
        decreases es.len() - i,
    {
        let k = lower_chars(chars_of(es[i].0.as_str()).as_slice());
        if chars_eq(k.as_slice(), wanted.as_slice()) {
            return Some(i);
        }
        i = i + 1;
    }
    None
}

impl VdfValue {
    /// The value under `key`, compared ignoring ASCII case; the first such
    /// key in order when several match.
    pub fn get(&self, key: &str) -> (r: Option<&VdfValue>)
        ensures
            match *self {
                VdfValue::Text(_) => r is None,
                VdfValue::Block(es) => match first_match(es@, key@, 0) {
                    Some(i) => r == Some(&es@[i].1),
                    None => r is None,
                },
            },
            value_wf(*self) ==> match r {
                Some(v) => block_lookup(model_of(*self), key@) == Some(model_of(*v)) && value_wf(*v),
                None => block_lookup(model_of(*self), key@) is None,
            },
    {
        match self {
            VdfValue::Text(_) => None,
            VdfValue::Block(es) => {
                proof {
                    if value_wf(*self) {
                        lemma_lookup(es@, key@);
                        lemma_entries_wf(es@, es@.len());
                    }
                }
                match find_key(es, key) {
                    Some(i) => {
                        proof {
                            if value_wf(*self) {
                                assert(value_wf(es@[i as int].1));
                            }
                        }
                        Some(&es[i].1)
                    },
                    None => None,
                }
            },
        }
    }

    /// The text, when this is one.
    pub fn as_text(&self) -> (r: Option<&str>)
        ensures
            match *self {
                VdfValue::Text(s) => r matches Some(t) && t@ == s@,
                VdfValue::Block(_) => r is None,
            },
    {
        match self {
            VdfValue::Text(s) => Some(s.as_str()),
            VdfValue::Block(_) => None,
        }
    }

    /// The text under `key`: `get(key)` then `as_text`.
    pub fn text_at(&self, key: &str) -> (r: Option<&str>)
        ensures
            match *self {
                VdfValue::Text(_) => r is None,
                VdfValue::Block(es) => match first_match(es@, key@, 0) {
                    Some(i) => match es@[i].1 {
                        VdfValue::Text(s) => r matches Some(t) && t@ == s@,
                        VdfValue::Block(_) => r is None,
                    },
                    None => r is None,
                },
            },
            value_wf(*self) ==> match r {
                Some(t) => text_lookup(model_of(*self), key@) == Some(t@),
                None => text_lookup(model_of(*self), key@) is None,
            },
    {
        match self.get(key) {
            Some(v) => v.as_text(),
            None => None,
        }
    }

    /// The entries of a block in key order; none for a text.
    pub fn entries(&self) -> (r: &[(String, VdfValue)])
        ensures
            match *self {
                VdfValue::Text(_) => r@.len() == 0,
                VdfValue::Block(es) => r@ == es@,
            },
    {
        match self {
            VdfValue::Text(_) => &[],
            VdfValue::Block(es) => es.as_slice(),
        }
    }
}

} // verus!
