//! Which mods replace the same asset, and which of them the game loads.
//!
//! The store knows, for every asset more than one installed mod provides,
//! which mods those are. Only enabled mods are in the game folder, and of
//! those the one that loads last — highest priority, then highest id — is
//! the one the game actually uses.

use vstd::prelude::*;
use vstd::multiset::Multiset;

use crate::app::{Claimant, Conflict, ConflictReport, ModConflictCount, ModRecord};

verus! {

broadcast use {vstd::seq_lib::group_to_multiset_ensures, vstd::multiset::group_multiset_axioms};

/// An asset more than one installed mod provides, as the store reports it.
#[derive(Debug, Clone)]
pub struct ContestedAsset {
    /// The asset path, or a chunk id when the container had no directory
    /// index.
    pub asset: String,
    pub named: bool,
    /// The mods providing it.
    pub mod_ids: Vec<i64>,
}

// ---------------------------------------------------------------------------
// Claims
// ---------------------------------------------------------------------------

/// The last enabled record with id `id` among the first `n`.
pub open spec fn enabled_before(mods: Seq<ModRecord>, id: i64, n: int) -> Option<int>
    decreases n,
{
    if n <= 0 || n > mods.len() {
        None
    } else if mods[n - 1].enabled && mods[n - 1].id == id {
        Some(n - 1)
    } else {
        enabled_before(mods, id, n - 1)
    }
}

/// The enabled record with id `id`: the last one listed, as a map keyed by
/// id keeps it.
pub open spec fn record_of(mods: Seq<ModRecord>, id: i64) -> Option<int> {
    enabled_before(mods, id, mods.len() as int)
}

pub open spec fn is_claim(mods: Seq<ModRecord>) -> spec_fn(i64) -> bool {
    |id: i64| record_of(mods, id) is Some
}

/// The ids of the enabled mods among `ids`, in order: an asset two disabled
/// mods share is no conflict, neither is in the game folder.
pub open spec fn claim_ids(mods: Seq<ModRecord>, ids: Seq<i64>) -> Seq<i64> {
    ids.filter(is_claim(mods))
}

pub open spec fn priority_of(mods: Seq<ModRecord>, id: i64) -> i64 {
    mods[record_of(mods, id)->0].priority
}

/// Whether mod `a` loads no later than mod `b`: by priority, then by id.
pub open spec fn loads_no_later(mods: Seq<ModRecord>, a: i64, b: i64) -> bool {
    let pa = priority_of(mods, a);
    let pb = priority_of(mods, b);
    pa < pb || (pa == pb && a <= b)
}

/// The claim that loads last.
pub open spec fn last_loaded(mods: Seq<ModRecord>, ids: Seq<i64>) -> i64
    decreases ids.len(),
{
    if ids.len() <= 1 {
        ids[0]
    } else {
        let b = last_loaded(mods, ids.drop_last());
        if loads_no_later(mods, b, ids.last()) {
            ids.last()
        } else {
            b
        }
    }
}

proof fn lemma_last_loaded(mods: Seq<ModRecord>, ids: Seq<i64>)
    requires
        ids.len() >= 1,
    ensures
        ids.contains(last_loaded(mods, ids)),
        forall|i: int| 0 <= i < ids.len() ==> loads_no_later(mods, #[trigger] ids[i], last_loaded(mods, ids)),
    decreases ids.len(),
{
    if ids.len() > 1 {
        let rest = ids.drop_last();
        lemma_last_loaded(mods, rest);
        let b = last_loaded(mods, rest);
        let k = choose|k: int| 0 <= k < rest.len() && rest[k] == b;
        assert(ids[k] == b);
        assert(ids[ids.len() - 1] == ids.last());
        assert forall|i: int| 0 <= i < ids.len() implies loads_no_later(mods, #[trigger] ids[i], last_loaded(mods, ids)) by {
            if i < ids.len() - 1 {
                assert(rest[i] == ids[i]);
                assert(loads_no_later(mods, rest[i], b));
            }
        }
    } else {
        assert(ids[0] == ids.last());
    }
}

/// How many times `m` is in `s`.
pub open spec fn count_in(s: Seq<i64>, m: i64) -> nat {
    s.to_multiset().count(m)
}

pub struct ClaimantModel {
    pub mod_id: i64,
    pub name: Seq<char>,
    pub priority: i64,
    pub wins: bool,
}

impl View for Claimant {
    type V = ClaimantModel;

    open spec fn view(&self) -> ClaimantModel {
        ClaimantModel { mod_id: self.mod_id, name: self.name@, priority: self.priority, wins: self.wins }
    }
}

pub open spec fn claimant_ids(cs: Seq<ClaimantModel>) -> Seq<i64> {
    cs.map_values(|c: ClaimantModel| c.mod_id)
}

/// Whether a claimant carries the name and priority of its enabled record.
pub open spec fn named_after(mods: Seq<ModRecord>, c: ClaimantModel) -> bool {
    record_of(mods, c.mod_id) matches Some(k) && c.name == mods[k].name@ && c.priority
        == mods[k].priority
}

/// The claimants of an asset provided by the mods `ids`: every enabled one
/// of them, in load order, each with its name and priority, and marked
/// when it is the one the game loads.
pub open spec fn claimants_fit(mods: Seq<ModRecord>, ids: Seq<i64>, cs: Seq<ClaimantModel>) -> bool {
    &&& claimant_ids(cs).to_multiset() == claim_ids(mods, ids).to_multiset()
    &&& forall|i: int, j: int|
        0 <= i < j < cs.len() ==> loads_no_later(mods, #[trigger] cs[i].mod_id, #[trigger] cs[j].mod_id)
    &&& forall|i: int| 0 <= i < cs.len() ==> #[trigger] named_after(mods, cs[i])
    &&& forall|i: int|
        0 <= i < cs.len() ==> (#[trigger] cs[i]).wins == (cs[i].mod_id == last_loaded(
            mods,
            claim_ids(mods, ids),
        ))
}

/// The index of the enabled record with id `id`.
fn find_enabled(mods: &[ModRecord], id: i64) -> (r: Option<usize>)
    ensures
        match r {
            Some(k) => record_of(mods@, id) == Some(k as int) && k < mods.len(),
            None => record_of(mods@, id) is None,
        },
{
    let mut n: usize = mods.len();
    while n > 0
        invariant
            n <= mods.len(),
            enabled_before(mods@, id, n as int) == record_of(mods@, id),
        decreases n,
    {
        if mods[n - 1].enabled && mods[n - 1].id == id {
            return Some(n - 1);
        }
        n = n - 1;
    }
    None
}

fn loads_no_later_exec(mods: &[ModRecord], a: (i64, usize), b: (i64, usize)) -> (r: bool)
    requires
        record_of(mods@, a.0) == Some(a.1 as int),
        record_of(mods@, b.0) == Some(b.1 as int),
        a.1 < mods.len(),
        b.1 < mods.len(),
    ensures
        r == loads_no_later(mods@, a.0, b.0),
{
    let pa = mods[a.1].priority;
    let pb = mods[b.1].priority;
    pa < pb || (pa == pb && a.0 <= b.0)
}

pub open spec fn claim_views(v: Seq<(i64, usize)>) -> Seq<i64> {
    v.map_values(|e: (i64, usize)| e.0)
}

proof fn lemma_insert_multiset(s: Seq<i64>, pos: int, x: i64)
    requires
        0 <= pos <= s.len(),
    ensures
        s.insert(pos, x).to_multiset() == s.to_multiset().insert(x),
{
    let t = s.insert(pos, x);
    assert(t.remove(pos) =~= s);
    assert(t[pos] == x);
    assert(t.to_multiset().count(x) > 0) by {
        assert(t.contains(x));
    }
    assert(t.to_multiset() =~= t.to_multiset().remove(x).insert(x));
}

/// The claims among `ids`, each with the index of its record, in load order.
fn sorted_claims(mods: &[ModRecord], ids: &[i64]) -> (r: Vec<(i64, usize)>)
    ensures
        claim_views(r@).to_multiset() == claim_ids(mods@, ids@).to_multiset(),
        forall|i: int, j: int|
            0 <= i < j < r@.len() ==> loads_no_later(mods@, #[trigger] r@[i].0, #[trigger] r@[j].0),
        forall|i: int|
            0 <= i < r@.len() ==> record_of(mods@, (#[trigger] r@[i]).0) == Some(r@[i].1 as int)
                && r@[i].1 < mods.len(),
        r@.len() == claim_ids(mods@, ids@).len(),
{
    let mut v: Vec<(i64, usize)> = Vec::new();
    let mut t: usize = 0;
    while t < ids.len()
        invariant
            t <= ids.len(),
            claim_views(v@).to_multiset() == claim_ids(mods@, ids@.take(t as int)).to_multiset(),
            v@.len() == claim_ids(mods@, ids@.take(t as int)).len(),
            forall|i: int, j: int|
                0 <= i < j < v@.len() ==> loads_no_later(mods@, #[trigger] v@[i].0, #[trigger] v@[j].0),
            forall|i: int|
                0 <= i < v@.len() ==> record_of(mods@, (#[trigger] v@[i]).0) == Some(v@[i].1 as int)
                    && v@[i].1 < mods.len(),
        decreases ids.len() - t,
    {
        let ghost pre = ids@.take(t as int);
        let ghost post = ids@.take(t + 1);
        assert(post.drop_last() =~= pre);
        assert(post.last() == ids@[t as int]);
        proof {
            crate::text::lemma_filter_step(post, is_claim(mods@));
        }
        let id = ids[t];
        match find_enabled(mods, id) {
            None => {},
            Some(k) => {
                let e = (id, k);
                let mut pos: usize = 0;
                while pos < v.len() && loads_no_later_exec(mods, v[pos], e)
                    invariant
                        e == (id, k),
                        pos <= v.len(),
                        record_of(mods@, id) == Some(k as int),
                        k < mods.len(),
                        forall|i: int|
                            0 <= i < v@.len() ==> record_of(mods@, (#[trigger] v@[i]).0) == Some(
                                v@[i].1 as int,
                            ) && v@[i].1 < mods.len(),
                        forall|i: int| 0 <= i < pos ==> loads_no_later(mods@, #[trigger] v@[i].0, id),
                    decreases v.len() - pos,
                {
                    pos = pos + 1;
                }
                let ghost old_v = v@;
                proof {
                    assert forall|i: int| pos <= i < old_v.len() implies !loads_no_later(
                        mods@,
                        #[trigger] old_v[i].0,
                        id,
                    ) by {
                        if i > pos && loads_no_later(mods@, old_v[i].0, id) {
                            assert(loads_no_later(mods@, old_v[pos as int].0, old_v[i].0));
                        }
                    }
                }
                v.insert(pos, e);
                proof {
                    let nv = v@;
                    assert(nv =~= old_v.insert(pos as int, e));
                    assert(claim_views(nv) =~= claim_views(old_v).insert(pos as int, id));
                    lemma_insert_multiset(claim_views(old_v), pos as int, id);
                    assert forall|i: int, j: int| 0 <= i < j < nv.len() implies loads_no_later(
                        mods@,
                        #[trigger] nv[i].0,
                        #[trigger] nv[j].0,
                    ) by {
                        if j < pos {
                        } else if j == pos {
                        } else if i == pos {
                            assert(nv[j] == old_v[j - 1]);
                        } else if i < pos {
                            assert(nv[j] == old_v[j - 1]);
                        } else {
                            assert(nv[i] == old_v[i - 1]);
                            assert(nv[j] == old_v[j - 1]);
                        }
                    }
                    assert forall|i: int| 0 <= i < nv.len() implies record_of(mods@, (#[trigger] nv[i]).0)
                        == Some(nv[i].1 as int) && nv[i].1 < mods.len() by {
                        if i < pos {
                            assert(nv[i] == old_v[i]);
                        } else if i > pos {
                            assert(nv[i] == old_v[i - 1]);
                        }
                    }
                }
            },
        }
        t = t + 1;
    }
    assert(ids@.take(ids.len() as int) =~= ids@);
    v
}

/// The last of a list in load order is the claim that loads last.
proof fn lemma_last_is_winner(mods: Seq<ModRecord>, ids: Seq<i64>, v: Seq<i64>)
    requires
        v.to_multiset() == claim_ids(mods, ids).to_multiset(),
        v.len() >= 1,
        forall|i: int, j: int| 0 <= i < j < v.len() ==> loads_no_later(mods, #[trigger] v[i], #[trigger] v[j]),
    ensures
        v.last() == last_loaded(mods, claim_ids(mods, ids)),
{
    let c = claim_ids(mods, ids);
    assert(c.len() == v.len()) by {
        assert(c.to_multiset().len() == v.to_multiset().len());
    }
    lemma_last_loaded(mods, c);
    let w = last_loaded(mods, c);
    assert(c.contains(w));
    assert(v.contains(v.last())) by {
        assert(v[v.len() - 1] == v.last());
    }
    assert(c.contains(v.last())) by {
        assert(v.to_multiset().count(v.last()) > 0);
    }
    assert(v.contains(w)) by {
        assert(c.to_multiset().count(w) > 0);
    }
    let k = choose|k: int| 0 <= k < v.len() && v[k] == w;
    if k < v.len() - 1 {
        assert(loads_no_later(mods, v[k], v[v.len() - 1]));
    }
    assert(loads_no_later(mods, v.last(), w));
    assert(loads_no_later(mods, w, v.last()));
}

// ---------------------------------------------------------------------------
// Counting
// ---------------------------------------------------------------------------

pub open spec fn kept(mods: Seq<ModRecord>) -> spec_fn(ContestedAsset) -> bool {
    |c: ContestedAsset| claim_ids(mods, c.mod_ids@).len() >= 2
}

/// How many assets `m` wins across the contested assets: each it provides
/// and loads last for, once per time it is listed.
pub open spec fn won(mods: Seq<ModRecord>, cs: Seq<ContestedAsset>, m: i64) -> int
    decreases cs.len(),
{
    if cs.len() == 0 {
        0
    } else {
        let ids = claim_ids(mods, cs.last().mod_ids@);
        won(mods, cs.drop_last(), m) + if ids.len() >= 2 && last_loaded(mods, ids) == m {
            count_in(ids, m) as int
        } else {
            0
        }
    }
}

/// How many assets `m` loses across the contested assets: each it provides
/// and another mod loads after it.
pub open spec fn lost(mods: Seq<ModRecord>, cs: Seq<ContestedAsset>, m: i64) -> int
    decreases cs.len(),
{
    if cs.len() == 0 {
        0
    } else {
        let ids = claim_ids(mods, cs.last().mod_ids@);
        lost(mods, cs.drop_last(), m) + if ids.len() >= 2 && last_loaded(mods, ids) != m {
            count_in(ids, m) as int
        } else {
            0
        }
    }
}

/// How many mod listings the contested assets hold in all.
pub open spec fn total_listings(cs: Seq<ContestedAsset>) -> int
    decreases cs.len(),
{
    if cs.len() == 0 {
        0
    } else {
        total_listings(cs.drop_last()) + cs.last().mod_ids@.len()
    }
}

proof fn lemma_count_bound(s: Seq<i64>, m: i64)
    ensures
        count_in(s, m) <= s.len(),
    decreases s.len(),
{
    if s.len() > 0 {
        lemma_count_bound(s.drop_last(), m);
        assert(s =~= s.drop_last().push(s.last()));
    } else {
        assert(s.to_multiset() =~= Multiset::<i64>::empty());
    }
}

proof fn lemma_filter_len(s: Seq<i64>, p: spec_fn(i64) -> bool)
    ensures
        s.filter(p).len() <= s.len(),
    decreases s.len(),
{
    if s.len() > 0 {
        lemma_filter_len(s.drop_last(), p);
        crate::text::lemma_filter_step(s, p);
    }
}

proof fn lemma_tally_bound(mods: Seq<ModRecord>, cs: Seq<ContestedAsset>, m: i64)
    ensures
        0 <= won(mods, cs, m),
        0 <= lost(mods, cs, m),
        won(mods, cs, m) + lost(mods, cs, m) <= total_listings(cs),
    decreases cs.len(),
{
    if cs.len() > 0 {
        lemma_tally_bound(mods, cs.drop_last(), m);
        let ids = claim_ids(mods, cs.last().mod_ids@);
        lemma_count_bound(ids, m);
        lemma_filter_len(cs.last().mod_ids@, is_claim(mods));
    }
}

proof fn lemma_total_prefix(cs: Seq<ContestedAsset>, t: int)
    requires
        0 <= t <= cs.len(),
    ensures
        total_listings(cs.take(t)) <= total_listings(cs),
    decreases cs.len() - t,
{
    if t < cs.len() {
        lemma_total_prefix(cs, t + 1);
        assert(cs.take(t + 1).drop_last() =~= cs.take(t));
    } else {
        assert(cs.take(t) =~= cs);
    }
}

pub struct CountModel {
    pub mod_id: i64,
    pub losing: i64,
    pub winning: i64,
}

impl View for ModConflictCount {
    type V = CountModel;

    open spec fn view(&self) -> CountModel {
        CountModel { mod_id: self.mod_id, losing: self.losing, winning: self.winning }
    }
}

pub open spec fn ids_increase(v: Seq<ModConflictCount>) -> bool {
    forall|i: int, j: int| 0 <= i < j < v.len() ==> #[trigger] v[i].mod_id < #[trigger] v[j].mod_id
}

/// The counts as a map from mod id to what it loses and wins, later entries
/// winning.
pub open spec fn count_map(v: Seq<ModConflictCount>) -> Map<i64, (int, int)>
    decreases v.len(),
{
    if v.len() == 0 {
        Map::empty()
    } else {
        count_map(v.drop_last()).insert(
            v.last().mod_id,
            (v.last().losing as int, v.last().winning as int),
        )
    }
}

proof fn lemma_count_map(v: Seq<ModConflictCount>)
    requires
        ids_increase(v),
    ensures
        forall|x: i64| #[trigger]
            count_map(v).dom().contains(x) <==> exists|i: int| 0 <= i < v.len() && (#[trigger] v[i]).mod_id == x,
        forall|i: int|
            0 <= i < v.len() ==> #[trigger] count_map(v)[v[i].mod_id] == (v[i].losing as int, v[i].winning as int),
    decreases v.len(),
{
    if v.len() > 0 {
        let w = v.drop_last();
        assert(ids_increase(w));
        lemma_count_map(w);
        let m = count_map(v);
        assert forall|x: i64| #[trigger]
            m.dom().contains(x) <==> exists|i: int| 0 <= i < v.len() && (#[trigger] v[i]).mod_id == x by {
            if m.dom().contains(x) && x != v.last().mod_id {
                assert(count_map(w).dom().contains(x));
                let i = choose|i: int| 0 <= i < w.len() && (#[trigger] w[i]).mod_id == x;
                assert(v[i] == w[i]);
            }
            if x == v.last().mod_id {
                assert(v[v.len() - 1].mod_id == x);
            }
            if exists|i: int| 0 <= i < v.len() && (#[trigger] v[i]).mod_id == x {
                let i = choose|i: int| 0 <= i < v.len() && (#[trigger] v[i]).mod_id == x;
                if i < v.len() - 1 {
                    assert(w[i] == v[i]);
                    assert(count_map(w).dom().contains(x));
                }
            }
        }
        assert forall|i: int| 0 <= i < v.len() implies #[trigger] m[v[i].mod_id] == (
            v[i].losing as int,
            v[i].winning as int,
        ) by {
            if i < v.len() - 1 {
                assert(w[i] == v[i]);
                assert(count_map(w)[w[i].mod_id] == (w[i].losing as int, w[i].winning as int));
                assert(v[i].mod_id < v[v.len() - 1].mod_id);
            }
        }
    }
}

/// What `m`'s counts become with one more loss or win.
pub open spec fn bumped(m: Map<i64, (int, int)>, id: i64, win: bool) -> (int, int) {
    let before = if m.dom().contains(id) {
        m[id]
    } else {
        (0int, 0int)
    };
    if win {
        (before.0, before.1 + 1)
    } else {
        (before.0 + 1, before.1)
    }
}

/// Add one to the losing or winning count of `m`.
fn bump(counts: &mut Vec<ModConflictCount>, m: i64, win: bool)
    requires
        ids_increase(old(counts)@),
        count_map(old(counts)@).dom().contains(m) ==> count_map(old(counts)@)[m].0 < i64::MAX
            && count_map(old(counts)@)[m].1 < i64::MAX,
    ensures
        ids_increase(final(counts)@),
        count_map(final(counts)@) == count_map(old(counts)@).insert(m, bumped(count_map(old(counts)@), m, win)),
{
    let ghost old_v = counts@;
    let ghost old_map = count_map(old_v);
    proof {
        lemma_count_map(old_v);
    }
    let mut pos: usize = 0;
    while pos < counts.len() && counts[pos].mod_id < m
        invariant
            counts@ == old_v,
            pos <= counts.len(),
            forall|k: int| 0 <= k < pos ==> (#[trigger] old_v[k]).mod_id < m,
        decreases counts.len() - pos,
    {
        pos = pos + 1;
    }
    let found = pos < counts.len() && counts[pos].mod_id == m;
    let ghost at = pos as int;
    if found {
        assert(old_map[m] == (old_v[at].losing as int, old_v[at].winning as int));
        let c = ModConflictCount {
            mod_id: m,
            losing: if win {
                counts[pos].losing
            } else {
                counts[pos].losing + 1
            },
            winning: if win {
                counts[pos].winning + 1
            } else {
                counts[pos].winning
            },
        };
        counts.set(pos, c);
    } else {
        proof {
            assert forall|k: int| pos <= k < old_v.len() implies m < #[trigger] old_v[k].mod_id by {
                if k > pos {
                    assert(old_v[at].mod_id < old_v[k].mod_id);
                }
            }
            assert(!old_map.dom().contains(m)) by {
                if old_map.dom().contains(m) {
                    let k = choose|k: int| 0 <= k < old_v.len() && (#[trigger] old_v[k]).mod_id == m;
                }
            }
        }
        let fresh = ModConflictCount {
            mod_id: m,
            losing: if win {
                0
            } else {
                1
            },
            winning: if win {
                1
            } else {
                0
            },
        };
        counts.insert(pos, fresh);
    }
    let ghost nv = counts@;
    proof {
        if found {
            assert(nv =~= old_v.update(at, nv[at]));
        } else {
            assert(nv =~= old_v.insert(at, nv[at]));
        }
        assert forall|i: int, j: int| 0 <= i < j < nv.len() implies #[trigger] nv[i].mod_id
            < #[trigger] nv[j].mod_id by {
            if found {
                assert(nv[i].mod_id == old_v[i].mod_id);
                assert(nv[j].mod_id == old_v[j].mod_id);
            } else if j < at {
            } else if j == at {
            } else if i == at {
                assert(nv[j] == old_v[j - 1]);
            } else if i < at {
                assert(nv[j] == old_v[j - 1]);
            } else {
                assert(nv[i] == old_v[i - 1]);
                assert(nv[j] == old_v[j - 1]);
            }
        }
        lemma_count_map(nv);
        let want = old_map.insert(m, bumped(old_map, m, win));
        let got = count_map(nv);
        assert forall|x: i64| #[trigger] got.dom().contains(x) <==> want.dom().contains(x) by {
            if got.dom().contains(x) {
                let i = choose|i: int| 0 <= i < nv.len() && (#[trigger] nv[i]).mod_id == x;
                if found {
                    if i != at {
                        assert(old_v[i] == nv[i]);
                    }
                } else if i < at {
                    assert(old_v[i] == nv[i]);
                } else if i > at {
                    assert(old_v[i - 1] == nv[i]);
                }
            }
            if old_map.dom().contains(x) {
                let i = choose|i: int| 0 <= i < old_v.len() && (#[trigger] old_v[i]).mod_id == x;
                if found {
                    assert(nv[i].mod_id == x);
                } else if i < at {
                    assert(nv[i] == old_v[i]);
                } else {
                    assert(nv[i + 1] == old_v[i]);
                }
            }
            if x == m {
                assert(nv[at].mod_id == x);
            }
        }
        assert forall|x: i64| #[trigger] got.dom().contains(x) implies got[x] == want[x] by {
            let i = choose|i: int| 0 <= i < nv.len() && (#[trigger] nv[i]).mod_id == x;
            if x != m {
                let oi = if found || i < at { i } else { i - 1 };
                assert(old_v[oi] == nv[i]);
                assert(old_map[old_v[oi].mod_id] == (old_v[oi].losing as int, old_v[oi].winning as int));
            } else {
                if i != at {
                    if i < at {
                        assert(nv[i].mod_id < nv[at].mod_id);
                    } else {
                        assert(nv[at].mod_id < nv[i].mod_id);
                    }
                }
            }
        }
        assert(got =~= want);
    }
}

/// The counts after a bump for each of `extra`, in turn, with `winner`'s
/// counted as wins and everybody else's as losses.
pub open spec fn add_claims(base: Map<i64, (int, int)>, extra: Seq<i64>, winner: i64) -> Map<i64, (int, int)>
    decreases extra.len(),
{
    if extra.len() == 0 {
        base
    } else {
        let before = add_claims(base, extra.drop_last(), winner);
        before.insert(extra.last(), bumped(before, extra.last(), extra.last() == winner))
    }
}

pub open spec fn base_or_zero(base: Map<i64, (int, int)>, m: i64) -> (int, int) {
    if base.dom().contains(m) {
        base[m]
    } else {
        (0int, 0int)
    }
}

/// What the counts hold after the bumps: each listed mod's tally grown by
/// how many times it is listed.
proof fn lemma_add_claims(base: Map<i64, (int, int)>, extra: Seq<i64>, winner: i64)
    ensures
        forall|m: i64| #[trigger]
            add_claims(base, extra, winner).dom().contains(m) <==> (base.dom().contains(m)
                || count_in(extra, m) > 0),
        forall|m: i64| #[trigger]
            add_claims(base, extra, winner).dom().contains(m) ==> add_claims(base, extra, winner)[m] == (
            base_or_zero(base, m).0 + if m != winner {
                count_in(extra, m) as int
            } else {
                0
            },
            base_or_zero(base, m).1 + if m == winner {
                count_in(extra, m) as int
            } else {
                0
            },
        ),
    decreases extra.len(),
{
    if extra.len() == 0 {
        assert(extra.to_multiset() =~= Multiset::<i64>::empty());
    } else {
        let rest = extra.drop_last();
        lemma_add_claims(base, rest, winner);
        assert(extra =~= rest.push(extra.last()));
        let x = extra.last();
        assert forall|m: i64| #[trigger] count_in(extra, m) == count_in(rest, m) + (if m == x {
            1nat
        } else {
            0nat
        }) by {
            assert(extra.to_multiset() == rest.to_multiset().insert(x));
        }
        let before = add_claims(base, rest, winner);
        let after = add_claims(base, extra, winner);
        assert(after == before.insert(x, bumped(before, x, x == winner)));
        assert forall|m: i64| #[trigger] after.dom().contains(m) <==> (base.dom().contains(m)
            || count_in(extra, m) > 0) by {
            assert(count_in(extra, m) == count_in(rest, m) + (if m == x { 1nat } else { 0nat }));
            assert(before.dom().contains(m) <==> (base.dom().contains(m) || count_in(rest, m) > 0));
        }
        assert forall|m: i64| #[trigger] after.dom().contains(m) implies after[m] == (
            base_or_zero(base, m).0 + if m != winner {
                count_in(extra, m) as int
            } else {
                0
            },
            base_or_zero(base, m).1 + if m == winner {
                count_in(extra, m) as int
            } else {
                0
            },
        ) by {
            assert(count_in(extra, m) == count_in(rest, m) + (if m == x { 1nat } else { 0nat }));
            assert(before.dom().contains(m) <==> (base.dom().contains(m) || count_in(rest, m) > 0));
            if m == x {
                if before.dom().contains(m) {
                    assert(before[m] == (
                        base_or_zero(base, m).0 + if m != winner { count_in(rest, m) as int } else { 0 },
                        base_or_zero(base, m).1 + if m == winner { count_in(rest, m) as int } else { 0 },
                    ));
                }
            } else {
                assert(before.dom().contains(m));
                assert(before[m] == (
                    base_or_zero(base, m).0 + if m != winner { count_in(rest, m) as int } else { 0 },
                    base_or_zero(base, m).1 + if m == winner { count_in(rest, m) as int } else { 0 },
                ));
            }
        }
    }
}

fn count_claims(counts: &mut Vec<ModConflictCount>, claims: &Vec<(i64, usize)>, winner: i64)
    requires
        ids_increase(old(counts)@),
        forall|m: i64| #[trigger]
            count_map(old(counts)@).dom().contains(m) ==> 0 <= count_map(old(counts)@)[m].0 && count_map(
                old(counts)@,
            )[m].0 + claims.len() <= i64::MAX && 0 <= count_map(old(counts)@)[m].1 && count_map(
                old(counts)@,
            )[m].1 + claims.len() <= i64::MAX,
        claims.len() <= i64::MAX,
    ensures
        ids_increase(final(counts)@),
        count_map(final(counts)@) == add_claims(count_map(old(counts)@), claim_views(claims@), winner),
{
    let ghost base = count_map(counts@);
    let ghost cv = claim_views(claims@);
    let mut j: usize = 0;
    while j < claims.len()
        invariant
            j <= claims.len(),
            cv == claim_views(claims@),
            claims.len() <= i64::MAX,
            ids_increase(counts@),
            forall|m: i64| #[trigger]
                base.dom().contains(m) ==> 0 <= base[m].0 && base[m].0 + claims.len() <= i64::MAX && 0
                    <= base[m].1 && base[m].1 + claims.len() <= i64::MAX,
            count_map(counts@) == add_claims(base, cv.take(j as int), winner),
        decreases claims.len() - j,
    {
        let m = claims[j].0;
        proof {
            let e = cv.take(j as int);
            lemma_add_claims(base, e, winner);
            lemma_count_bound(e, m);
            assert(cv.take(j + 1).drop_last() =~= e);
            assert(cv.take(j + 1).last() == m);
        }
        bump(counts, m, m == winner);
        j = j + 1;
    }
    assert(cv.take(claims.len() as int) =~= cv);
}

pub struct ConflictModel {
    pub asset: Seq<char>,
    pub named: bool,
    pub claimants: Seq<ClaimantModel>,
}

impl View for Conflict {
    type V = ConflictModel;

    open spec fn view(&self) -> ConflictModel {
        ConflictModel {
            asset: self.asset@,
            named: self.named,
            claimants: self.claimants@.map_values(|c: Claimant| c@),
        }
    }
}

/// Whether a conflict reports a contested asset.
pub open spec fn conflict_fits(mods: Seq<ModRecord>, c: ContestedAsset, x: ConflictModel) -> bool {
    x.asset == c.asset@ && x.named == c.named && claimants_fit(mods, c.mod_ids@, x.claimants)
}

/// Whether the conflicts report, in order, each contested asset that at
/// least two enabled mods provide.
pub open spec fn conflicts_fit(mods: Seq<ModRecord>, cs: Seq<ContestedAsset>, out: Seq<Conflict>) -> bool {
    let ks = cs.filter(kept(mods));
    out.len() == ks.len() && forall|k: int| 0 <= k < out.len() ==> conflict_fits(mods, ks[k], #[trigger] out[k]@)
}

/// Whether the counts hold, in increasing mod id order, what each mod with
/// any loses and wins, and no other mod.
pub open spec fn counts_fit(mods: Seq<ModRecord>, cs: Seq<ContestedAsset>, v: Seq<ModConflictCount>) -> bool {
    &&& ids_increase(v)
    &&& forall|m: i64| #[trigger]
        count_map(v).dom().contains(m) <==> (won(mods, cs, m) > 0 || lost(mods, cs, m) > 0)
    &&& forall|m: i64| #[trigger]
        count_map(v).dom().contains(m) ==> count_map(v)[m] == (lost(mods, cs, m), won(mods, cs, m))
}

pub open spec fn unindexed() -> spec_fn(ModRecord) -> bool {
    |m: ModRecord| m.enabled && m.assets_indexed_at is None
}

/// The names of the enabled mods whose assets have not been read: the
/// picture for them is missing, not empty, and saying nothing would read as
/// "conflicts with nothing".
pub open spec fn unreadable_of(mods: Seq<ModRecord>) -> Seq<Seq<char>> {
    mods.filter(unindexed()).map_values(|m: ModRecord| m.name@)
}

fn unreadable_names(mods: &[ModRecord]) -> (r: Vec<String>)
    ensures
        r@.map_values(|s: String| s@) == unreadable_of(mods@),
{
    let ghost all = mods@;
    let mut out: Vec<String> = Vec::new();
    let mut i: usize = 0;
    while i < mods.len()
        invariant
            i <= mods.len(),
            all == mods@,
            out@.map_values(|s: String| s@) == all.take(i as int).filter(unindexed()).map_values(
                |m: ModRecord| m.name@,
            ),
        decreases mods.len() - i,
    {
        let ghost t = all.take(i + 1);
        assert(t.drop_last() =~= all.take(i as int));
        assert(t.last() == all[i as int]);
        proof {
            crate::text::lemma_filter_step(t, unindexed());
        }
        if mods[i].enabled && mods[i].assets_indexed_at.is_none() {
            let ghost before = out@.map_values(|s: String| s@);
            out.push(crate::text::owned(mods[i].name.as_str()));
            assert(out@.map_values(|s: String| s@) =~= before.push(all[i as int].name@));
            assert(t.filter(unindexed()).map_values(|m: ModRecord| m.name@) =~= all.take(i as int).filter(
                unindexed(),
            ).map_values(|m: ModRecord| m.name@).push(all[i as int].name@));
        } else {
            assert(t.filter(unindexed()) == all.take(i as int).filter(unindexed()));
        }
        i = i + 1;
    }
    assert(all.take(mods.len() as int) =~= all);
    out
}

fn claimants_of(mods: &[ModRecord], claims: &Vec<(i64, usize)>, winner: i64) -> (r: Vec<Claimant>)
    requires
        forall|i: int|
            0 <= i < claims@.len() ==> record_of(mods@, (#[trigger] claims@[i]).0) == Some(claims@[i].1 as int)
                && claims@[i].1 < mods.len(),
    ensures
        r@.len() == claims@.len(),
        forall|i: int| 0 <= i < claims@.len() ==> {
            let c = (#[trigger] r@[i])@;
            c.mod_id == claims@[i].0 && named_after(mods@, c) && c.wins == (c.mod_id == winner)
        },
{
    let mut out: Vec<Claimant> = Vec::new();
    let mut i: usize = 0;
    while i < claims.len()
        invariant
            i <= claims.len(),
            out@.len() == i,
            forall|k: int|
                0 <= k < claims@.len() ==> record_of(mods@, (#[trigger] claims@[k]).0) == Some(
                    claims@[k].1 as int,
                ) && claims@[k].1 < mods.len(),
            forall|k: int| 0 <= k < i ==> {
                let c = (#[trigger] out@[k])@;
                c.mod_id == claims@[k].0 && named_after(mods@, c) && c.wins == (c.mod_id == winner)
            },
        decreases claims.len() - i,
    {
        let (id, k) = claims[i];
        let c = Claimant {
            mod_id: id,
            name: crate::text::owned(mods[k].name.as_str()),
            priority: mods[k].priority,
            wins: id == winner,
        };
        out.push(c);
        i = i + 1;
    }
    out
}

/// The conflict picture: every asset at least two enabled mods replace, with
/// those mods in load order and the one the game loads marked; for each mod
/// with any, how many assets it loses to a later mod and takes from an
/// earlier one; and the enabled mods whose assets could not be read.
///
/// The counts are kept in `i64`s, so there can be no more mod listings in
/// all than an `i64` counts.
pub fn conflict_report(mods: &[ModRecord], contested: &[ContestedAsset]) -> (r: ConflictReport)
    requires
        total_listings(contested@) <= i64::MAX,
    ensures
        conflicts_fit(mods@, contested@, r.conflicts@),
        counts_fit(mods@, contested@, r.overridden@),
        r.unreadable@.map_values(|s: String| s@) == unreadable_of(mods@),
{
    let unreadable = unreadable_names(mods);
    let ghost cs = contested@;
    let mut conflicts: Vec<Conflict> = Vec::new();
    let mut counts: Vec<ModConflictCount> = Vec::new();
    let mut t: usize = 0;
    proof {
        assert(cs.take(0).filter(kept(mods@)) =~= Seq::<ContestedAsset>::empty());
        assert(count_map(counts@) =~= Map::<i64, (int, int)>::empty());
    }
    while t < contested.len()
        invariant
            t <= contested.len(),
            cs == contested@,
            total_listings(cs) <= i64::MAX,
            conflicts_fit(mods@, cs.take(t as int), conflicts@),
            counts_fit(mods@, cs.take(t as int), counts@),
        decreases contested.len() - t,
    {
        let ghost pre = cs.take(t as int);
        let ghost post = cs.take(t + 1);
        assert(post.drop_last() =~= pre);
        assert(post.last() == cs[t as int]);
        proof {
            crate::text::lemma_filter_step(post, kept(mods@));
            lemma_total_prefix(cs, t + 1);
        }
        let c = &contested[t];
        let claims = sorted_claims(mods, c.mod_ids.as_slice());
        let ghost ids = claim_ids(mods@, c.mod_ids@);
        if claims.len() < 2 {
            proof {
                assert(post.filter(kept(mods@)) == pre.filter(kept(mods@)));
                assert forall|m: i64| won(mods@, post, m) == won(mods@, pre, m) && lost(mods@, post, m)
                    == lost(mods@, pre, m) by {}
            }
            t = t + 1;
            continue;
        }
        let winner = claims[claims.len() - 1].0;
        proof {
            assert(claim_views(claims@).last() == winner);
            lemma_last_is_winner(mods@, c.mod_ids@, claim_views(claims@));
        }
        let ghost before_map = count_map(counts@);
        proof {
            lemma_filter_len(c.mod_ids@, is_claim(mods@));
            assert(total_listings(post) == total_listings(pre) + c.mod_ids@.len());
            assert forall|m: i64| #[trigger] before_map.dom().contains(m) implies 0 <= before_map[m].0
                && before_map[m].0 + claims.len() <= i64::MAX && 0 <= before_map[m].1 && before_map[m].1
                + claims.len() <= i64::MAX by {
                lemma_tally_bound(mods@, pre, m);
            }
            lemma_tally_bound(mods@, pre, winner);
        }
        count_claims(&mut counts, &claims, winner);
        proof {
            let cv = claim_views(claims@);
            lemma_add_claims(before_map, cv, winner);
            assert forall|m: i64| #[trigger] count_in(cv, m) == count_in(ids, m) by {}
            let got = count_map(counts@);
            assert forall|m: i64| #[trigger]
                got.dom().contains(m) <==> (won(mods@, post, m) > 0 || lost(mods@, post, m) > 0) by {
                lemma_tally_bound(mods@, pre, m);
            }
            assert forall|m: i64| #[trigger] got.dom().contains(m) implies got[m] == (
                lost(mods@, post, m),
                won(mods@, post, m),
            ) by {
                lemma_tally_bound(mods@, pre, m);
            }
        }
        let claimants = claimants_of(mods, &claims, winner);
        let conflict = Conflict { asset: crate::text::owned(c.asset.as_str()), named: c.named, claimants };
        proof {
            let cm = conflict@.claimants;
            assert(claimant_ids(cm) =~= claim_views(claims@));
            assert forall|i: int, j: int| 0 <= i < j < cm.len() implies loads_no_later(
                mods@,
                #[trigger] cm[i].mod_id,
                #[trigger] cm[j].mod_id,
            ) by {
                assert(cm[i].mod_id == claims@[i].0);
                assert(cm[j].mod_id == claims@[j].0);
            }
            assert(conflict_fits(mods@, cs[t as int], conflict@));
        }
        let ghost before_conflicts = conflicts@;
        conflicts.push(conflict);
        proof {
            let ks = post.filter(kept(mods@));
            assert(ks == pre.filter(kept(mods@)).push(cs[t as int]));
            assert forall|k: int| 0 <= k < conflicts@.len() implies conflict_fits(
                mods@,
                ks[k],
                #[trigger] conflicts@[k]@,
            ) by {
                if k < before_conflicts.len() {
                    assert(conflicts@[k] == before_conflicts[k]);
                }
            }
        }
        t = t + 1;
    }
    assert(cs.take(contested.len() as int) =~= cs);
    ConflictReport { conflicts, overridden: counts, unreadable }
}

} // verus!
