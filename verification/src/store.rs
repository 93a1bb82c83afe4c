//! The rules the mod database keeps: where a new mod goes in the load order,
//! how a reordering is written, and what type a mod is listed under.
//!
//! Enabled state and priority are kept per profile rather than on the mod
//! itself, so profile switching can be added without touching existing data;
//! the rows themselves live in SQLite, outside this crate.

use vstd::prelude::*;

use crate::model::{type_id_of, DetectedComponent};

verus! {

/// The gap left between neighbouring priorities, so a single insert does not
/// require renumbering.
pub const PRIORITY_STEP: i64 = 10;

/// The priority of a newly installed mod: one step past the last one in the
/// order (`highest`, none when the order is empty). New mods start at the end
/// of the load order, so installing never changes what the game loads.
pub fn next_priority(highest: Option<i64>) -> (r: i64)
    requires
        highest matches Some(h) ==> h + PRIORITY_STEP <= i64::MAX,
    ensures
        r == match highest {
            Some(h) => h + PRIORITY_STEP,
            None => PRIORITY_STEP as int,
        },
{
    match highest {
        Some(h) => h + PRIORITY_STEP,
        None => PRIORITY_STEP,
    }
}

/// The priorities a reordering writes: the mod at position `i` of the new
/// order gets `(i + 1) * 10`.
pub fn order_priorities(ordered_ids: &[i64]) -> (r: Vec<(i64, i64)>)
    requires
        ordered_ids.len() * PRIORITY_STEP <= i64::MAX,
    ensures
        r.len() == ordered_ids.len(),
        forall|i: int| #![trigger r@[i]] 0 <= i < r.len() ==> r@[i].0 == ordered_ids@[i] && r@[i].1 == (i + 1) * PRIORITY_STEP,
{
    let mut out: Vec<(i64, i64)> = Vec::new();
    let mut i: usize = 0;
    while i < ordered_ids.len()
        invariant
            i <= ordered_ids.len(),
            ordered_ids.len() * PRIORITY_STEP <= i64::MAX,
            out.len() == i,
            forall|k: int| #![trigger out@[k]] 0 <= k < i ==> out@[k].0 == ordered_ids@[k] && out@[k].1 == (k + 1) * PRIORITY_STEP,
        decreases ordered_ids.len() - i,
    {
        assert((i + 1) * PRIORITY_STEP <= ordered_ids.len() * PRIORITY_STEP) by (nonlinear_arith)
            requires
                i < ordered_ids.len(),
        ;
        let priority: i64 = ((i + 1) as i64) * PRIORITY_STEP;
        out.push((ordered_ids[i], priority));
        i = i + 1;
    }
    out
}

/// The type a mod is listed under: that of its first component, or
/// `unknown` when nothing was detected.
pub fn primary_type(components: &[DetectedComponent]) -> (r: &'static str)
    ensures
        r@ == (if components.len() > 0 {
            type_id_of(components@[0].mod_type)
        } else {
            "unknown"@
        }),
{
    if components.len() > 0 {
        components[0].mod_type.as_str()
    } else {
        "unknown"
    }
}

/// Proof that a reordering lists the mods in the order given: each mod's
/// new priority is below the next one's.
pub proof fn law_reordering_follows_the_given_order(ordered_ids: Seq<i64>, written: Seq<(i64, i64)>)
    requires
        written.len() == ordered_ids.len(),
        forall|i: int| #![trigger written[i]] 0 <= i < written.len() ==> written[i].0 == ordered_ids[i] && written[i].1 == (i + 1) * PRIORITY_STEP,
    ensures
        forall|i: int, j: int| 0 <= i < j < written.len() ==> #[trigger] written[i].1 < #[trigger] written[j].1,
{
    assert forall|i: int, j: int| 0 <= i < j < written.len() implies #[trigger] written[i].1 < #[trigger] written[j].1 by {
        assert(written[i].1 == (i + 1) * PRIORITY_STEP);
        assert(written[j].1 == (j + 1) * PRIORITY_STEP);
    }
}

} // verus!
