//! The Settlement Detector: a one-shot, idempotent latch that fires the
//! first tick at which no two rooms overlap (and at least one room exists),
//! and never again.

use vstd::prelude::*;
use crate::components::{Room, sizes_ok};
use crate::separation::{overlaps, rooms_overlap};

verus! {

/// Some unordered pair of distinct rooms overlaps.
pub open spec fn any_overlap(s: Seq<Room>) -> bool {
    exists|i: int, j: int| 0 <= i < j < s.len() && overlaps(s[i], s[j])
}

/// The geometric settlement condition: at least one room, and no
/// overlapping pair. An empty store never settles — no decision without
/// data.
pub open spec fn settled(s: Seq<Room>) -> bool {
    s.len() > 0 && !any_overlap(s)
}

/// Executable scan for any overlapping pair, exact against `any_overlap`.
pub fn any_rooms_overlap(rooms: &Vec<Room>) -> (r: bool)
    requires
        sizes_ok(rooms@),
    ensures
        r == any_overlap(rooms@),
{
    let ghost s = rooms@;
    let n = rooms.len();
    let mut i: usize = 0;
    while i < n
        invariant
            rooms@ == s,
            n == s.len(),
            sizes_ok(s),
            i <= n,
            forall|a: int, b: int| 0 <= a < i && a < b < n ==> !#[trigger] overlaps(s[a], s[b]),
        decreases n - i,
    {
        let mut j: usize = i + 1;
        while j < n
            invariant
                rooms@ == s,
                n == s.len(),
                sizes_ok(s),
                i < n,
                i < j <= n,
                forall|b: int| i < b < j ==> !#[trigger] overlaps(s[i as int], s[b]),
            decreases n - j,
        {
            let a = rooms[i];
            let b = rooms[j];
            assert(a == s[i as int] && b == s[j as int]);
            assert(s[i as int].size_ok() && s[j as int].size_ok());
            if rooms_overlap(&a, &b) {
                assert(any_overlap(s));
                return true;
            }
            j = j + 1;
        }
        i = i + 1;
    }
    false
}

/// The latch. Starts unreported; transitions to reported exactly once.
#[derive(Clone, Copy, PartialEq, Eq, Structural, Debug)]
pub struct SettlementState {
    pub reported: bool,
}

impl Default for SettlementState {
    fn default() -> (r: SettlementState)
        ensures
            !r.reported,
    {
        SettlementState { reported: false }
    }
}

/// Evaluate the settlement condition and latch it. Returns whether the
/// one-time notification fires this tick: only on the transition from
/// unreported to reported, never once reported.
pub fn report_when_rooms_stopped(state: &mut SettlementState, rooms: &Vec<Room>) -> (fired: bool)
    requires
        sizes_ok(rooms@),
    ensures
        final(state).reported == (old(state).reported || settled(rooms@)),
        fired == (!old(state).reported && settled(rooms@)),
        old(state).reported ==> *final(state) == *old(state) && !fired,
{
    if state.reported {
        return false;
    }
    if rooms.len() == 0 {
        return false;
    }
    if !any_rooms_overlap(rooms) {
        state.reported = true;
        return true;
    }
    false
}

/// The latch value after an initial value and a sequence of per-tick
/// settlement observations.
pub open spec fn latch_after(init: bool, obs: Seq<bool>) -> bool
    decreases obs.len(),
{
    if obs.len() == 0 {
        init
    } else {
        latch_after(init, obs.drop_last()) || obs.last()
    }
}

/// Settlement latch law: once reported, the latch stays reported across
/// every later sequence of observations, however long.
pub proof fn lemma_settlement_latch(init: bool, obs: Seq<bool>)
    requires
        init,
    ensures
        latch_after(init, obs),
    decreases obs.len(),
{
    if obs.len() > 0 {
        lemma_settlement_latch(init, obs.drop_last());
    }
}

} // verus!
