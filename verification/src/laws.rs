//! The library's general guarantees, proved once and for all over the
//! tick's functional model: speed caps, pause freezing, braking, order
//! resolution, the carry transition's effects, and the avoidance
//! exclusion rule.

use vstd::prelude::*;
use crate::boid::spec_avoidance;
use crate::components::Command;
use crate::steering::{
    apply_intent, avoid_candidate, avoidance_phase, avoidance_unit, boid_of, carry_target_of,
    compose_phase, compose_unit, compose_vel, evasion_phase, evasion_unit, flush_diags_upto,
    flush_upto, front_of, intent_of, intents_upto, lemma_avoidance_unit_frame,
    lemma_evasion_unit_frame, lemma_persuit_unit_frame, max_force_of, persuit_phase, persuit_unit,
    popped, resolvable, spec_candidates, spec_intents, spec_tick, spec_tick_diags, CarryDiagnostic,
    CarryError, CarryIntent,
};
use crate::vec3::{
    lemma_sqrt_ceil, lemma_tdiv_bound, lemma_truncate_bounds, sqrt_ceil, tdiv, v3_add, v3_div,
    v3_mag_sq, v3_neg, v3_scale_div, v3_sub, v3_truncate, v3_zero,
};
use crate::world::{unit_wf, world_wf, UnitModel, WorldModel};

verus! {

/// Flushing carry intents never touches any unit's velocity, speed cap,
/// staged forces or evasion relation, and keeps the unit count.
pub proof fn lemma_flush_motion_frame(w: WorldModel, ints: Seq<CarryIntent>, n: int)
    ensures
        flush_upto(w, ints, n).units.len() == w.units.len(),
        flush_upto(w, ints, n).paused == w.paused,
        forall|j: int| 0 <= j < w.units.len() ==> {
            let u1 = #[trigger] flush_upto(w, ints, n).units[j];
            &&& u1.vel == w.units[j].vel
            &&& u1.max_speed == w.units[j].max_speed
            &&& u1.evading == w.units[j].evading
            &&& u1.staging_persuit == w.units[j].staging_persuit
            &&& u1.staging_evasion == w.units[j].staging_evasion
            &&& u1.staging_avoidance == w.units[j].staging_avoidance
        },
    decreases n,
{
    if n > 0 {
        lemma_flush_motion_frame(w, ints, n - 1);
        let wp = flush_upto(w, ints, n - 1);
        let w1 = apply_intent(wp, ints[n - 1]).0;
        assert forall|j: int| 0 <= j < w.units.len() implies {
            let u1 = #[trigger] w1.units[j];
            &&& u1.vel == w.units[j].vel
            &&& u1.max_speed == w.units[j].max_speed
            &&& u1.evading == w.units[j].evading
            &&& u1.staging_persuit == w.units[j].staging_persuit
            &&& u1.staging_evasion == w.units[j].staging_evasion
            &&& u1.staging_avoidance == w.units[j].staging_avoidance
        } by {
            assert(wp.units[j].vel == w.units[j].vel);
        }
    }
}

/// The three staged passes never touch a unit's position, queue,
/// carrying or nesting lists, velocity or speed cap beyond what their
/// frame lemmas state; chained, the world handed to the flush keeps
/// every unit's motion and structural state.
pub proof fn lemma_phases_frame(w: WorldModel, j: int)
    requires
        0 <= j < w.units.len(),
    ensures
        avoidance_phase(evasion_phase(persuit_phase(w))).units.len() == w.units.len(),
        avoidance_phase(evasion_phase(persuit_phase(w))).paused == w.paused,
        ({
            let u3 = avoidance_phase(evasion_phase(persuit_phase(w))).units[j];
            &&& u3.pos == w.units[j].pos
            &&& u3.vel == w.units[j].vel
            &&& u3.max_speed == w.units[j].max_speed
            &&& u3.queue == persuit_unit(w, j).queue
            &&& u3.carrying == w.units[j].carrying
            &&& u3.on_board == w.units[j].on_board
            &&& u3.staging_persuit == persuit_unit(w, j).staging_persuit
        }),
{
    let w1 = persuit_phase(w);
    let w2 = evasion_phase(w1);
    let w3 = avoidance_phase(w2);
    lemma_persuit_unit_frame(w, j);
    assert(w1.units[j] == persuit_unit(w, j));
    lemma_evasion_unit_frame(w1, j);
    assert(w2.units[j] == evasion_unit(w1, j));
    lemma_avoidance_unit_frame(w2, j);
    assert(w3.units[j] == avoidance_unit(w2, j));
}

/// Resulting velocity magnitude never exceeds the unit's speed cap, for
/// any unit, any tick, any input configuration.
pub proof fn lemma_speed_cap(w: WorldModel, i: int)
    requires
        world_wf(w),
        !w.paused,
        0 <= i < w.units.len(),
    ensures
        spec_tick(w).units.len() == w.units.len(),
        v3_mag_sq(spec_tick(w).units[i].vel)
            <= spec_tick(w).units[i].max_speed * spec_tick(w).units[i].max_speed,
{
    let w3 = avoidance_phase(evasion_phase(persuit_phase(w)));
    let ints = spec_intents(w);
    let w4 = flush_upto(w3, ints, ints.len() as int);
    lemma_phases_frame(w, i);
    lemma_flush_motion_frame(w3, ints, ints.len() as int);
    assert(w4.units[i].max_speed == w.units[i].max_speed);
    assert(!w4.paused);
    assert(spec_tick(w).units[i] == compose_unit(w4.units[i]));
    assert(unit_wf(w.units[i]));
    lemma_truncate_bounds(
        v3_add(w4.units[i].vel, v3_truncate(
            if v3_add(v3_add(w4.units[i].staging_persuit, w4.units[i].staging_evasion),
                w4.units[i].staging_avoidance) == v3_zero() {
                v3_neg(w4.units[i].vel)
            } else {
                v3_add(v3_add(w4.units[i].staging_persuit, w4.units[i].staging_evasion),
                    w4.units[i].staging_avoidance)
            },
            max_force_of(w4.units[i]),
        )),
        w4.units[i].max_speed,
    );
}

/// While paused, every unit's velocity is unchanged by a tick,
/// regardless of what the staged passes computed.
pub proof fn lemma_paused_freezes_velocity(w: WorldModel, i: int)
    requires
        w.paused,
        0 <= i < w.units.len(),
    ensures
        spec_tick(w).units.len() == w.units.len(),
        spec_tick(w).units[i].vel == w.units[i].vel,
{
    let w3 = avoidance_phase(evasion_phase(persuit_phase(w)));
    let ints = spec_intents(w);
    let w4 = flush_upto(w3, ints, ints.len() as int);
    lemma_phases_frame(w, i);
    lemma_flush_motion_frame(w3, ints, ints.len() as int);
    assert(w4.paused);
    assert(spec_tick(w) == w4);
    assert(w4.units[i].vel == w.units[i].vel);
}

/// A unit approaching another for a carry is excluded from its partner's
/// avoidance candidate set, and the partner from its own, in both
/// directions of the pair.
pub proof fn lemma_carry_pair_excluded(w: WorldModel, a: int, b: int)
    requires
        carry_target_of(w.units[a]) == Option::Some(b),
    ensures
        !avoid_candidate(w, a, b),
        !avoid_candidate(w, b, a),
{
}

/// Every other unit with a position, not in a carry approach with the
/// candidate in either direction, stays in the avoidance candidate set.
pub proof fn lemma_avoid_candidate_included(w: WorldModel, k: int, x: int)
    requires
        0 <= x < w.units.len(),
        w.units[x].pos is Some,
        carry_target_of(w.units[k]) != Option::Some(x),
        carry_target_of(w.units[x]) != Option::Some(k),
    ensures
        avoid_candidate(w, k, x),
{
}

/// A candidate's body is present in the accumulated candidate sequence.
pub proof fn lemma_candidate_present(w: WorldModel, i: int, j: int)
    requires
        avoid_candidate(w, i, j),
        j < w.units.len(),
    ensures
        spec_candidates(w, i).contains(boid_of(w.units[j])),
{
    lemma_candidate_present_upto(w, i, j, w.units.len() as int);
}

proof fn lemma_candidate_present_upto(w: WorldModel, i: int, j: int, n: int)
    requires
        avoid_candidate(w, i, j),
        j < n,
    ensures
        crate::steering::candidates_upto(w, i, n).contains(boid_of(w.units[j])),
    decreases n,
{
    let s = crate::steering::candidates_upto(w, i, n);
    if j == n - 1 {
        assert(s.last() == boid_of(w.units[j]));
        assert(s.contains(boid_of(w.units[j])));
    } else {
        lemma_candidate_present_upto(w, i, j, n - 1);
        let sp = crate::steering::candidates_upto(w, i, n - 1);
        let x = choose|k: int| 0 <= k < sp.len() && sp[k] == boid_of(w.units[j]);
        if avoid_candidate(w, i, n - 1) {
            assert(s == sp.push(boid_of(w.units[n - 1])));
            assert(s[x] == boid_of(w.units[j]));
        } else {
            assert(s == sp);
        }
    }
}

/// Every collected intent names the unit it came from: its ship index is
/// in range, it is exactly that unit's intent, and ships appear in
/// strictly increasing order (so each unit submits at most one intent).
pub proof fn lemma_intents_ships(w: WorldModel, n: int)
    requires
        world_wf(w),
        n <= w.units.len(),
    ensures
        forall|k: int| 0 <= k < intents_upto(w, n).len() ==> {
            let ci = #[trigger] intents_upto(w, n)[k];
            &&& 0 <= ci.ship as int
            &&& (ci.ship as int) < n
            &&& intent_of(w, ci.ship as int) == Option::Some(ci)
        },
        forall|k1: int, k2: int|
            0 <= k1 < k2 < intents_upto(w, n).len() ==> ((#[trigger] intents_upto(w, n)[k1]).ship
                as int) < ((#[trigger] intents_upto(w, n)[k2]).ship as int),
    decreases n,
{
    if n > 0 {
        lemma_intents_ships(w, n - 1);
        let sp = intents_upto(w, n - 1);
        let s = intents_upto(w, n);
        match intent_of(w, n - 1) {
            Option::Some(ci) => {
                assert(ci.ship as int == n - 1);
                assert(s == sp.push(ci));
                assert forall|k: int| 0 <= k < s.len() implies {
                    let c2 = #[trigger] s[k];
                    &&& 0 <= c2.ship as int
                    &&& (c2.ship as int) < n
                    &&& intent_of(w, c2.ship as int) == Option::Some(c2)
                } by {
                    if k < sp.len() {
                        assert(s[k] == sp[k]);
                    } else {
                        assert(s[k] == ci);
                    }
                }
            },
            Option::None => {
                assert(s == sp);
            },
        }
    }
}

/// A unit's intent is present in the collected list.
pub proof fn lemma_intent_in_list(w: WorldModel, i: int, n: int)
    requires
        0 <= i < n,
        intent_of(w, i) is Some,
    ensures
        exists|k: int| 0 <= k < intents_upto(w, n).len() && intents_upto(w, n)[k] == intent_of(
            w, i).unwrap(),
    decreases n,
{
    let s = intents_upto(w, n);
    if i == n - 1 {
        let ci = intent_of(w, i).unwrap();
        assert(s[s.len() - 1] == ci);
    } else {
        lemma_intent_in_list(w, i, n - 1);
        let sp = intents_upto(w, n - 1);
        let k = choose|k: int| 0 <= k < sp.len() && sp[k] == intent_of(w, i).unwrap();
        assert(s[k] == intent_of(w, i).unwrap());
    }
}

/// Carrying lists only ever grow during a flush: one that exists keeps
/// existing and keeps its members, one that is absent stays absent.
pub proof fn lemma_flush_carrying(w: WorldModel, ints: Seq<CarryIntent>, k: int, n: int, j: int)
    requires
        0 <= k <= n,
    ensures
        flush_upto(w, ints, n).units.len() == flush_upto(w, ints, k).units.len(),
        0 <= j < flush_upto(w, ints, k).units.len() ==> {
            let um = flush_upto(w, ints, k).units[j];
            let uf = flush_upto(w, ints, n).units[j];
            &&& (um.carrying is Some ==> uf.carrying is Some && (forall|x: int|
                um.carrying.unwrap().contains(x) ==> uf.carrying.unwrap().contains(x)))
            &&& (um.carrying is None ==> uf.carrying is None)
            &&& um.max_speed == uf.max_speed
        },
    decreases n - k,
{
    if n > k {
        lemma_flush_carrying(w, ints, k, n - 1, j);
        let wp = flush_upto(w, ints, n - 1);
        let wf2 = apply_intent(wp, ints[n - 1]).0;
        if 0 <= j < wp.units.len() {
            if wf2.units[j].carrying != wp.units[j].carrying {
                let t = ints[n - 1].target as int;
                let s = ints[n - 1].ship as int;
                assert(j == t && s != t && wp.units[t].carrying is Some);
                let cl = wp.units[t].carrying.unwrap();
                assert(wf2.units[j].carrying == Option::Some(cl.push(s)));
                assert forall|x: int| cl.contains(x) implies cl.push(s).contains(x) by {
                    let ix = choose|ix: int| 0 <= ix < cl.len() && cl[ix] == x;
                    assert(cl.push(s)[ix] == x);
                }
            }
        }
    }
}

/// A unit that is the ship of no intent in a flush segment keeps its
/// position and queue through it, and a nesting list that exists keeps
/// existing and keeps its members.
pub proof fn lemma_flush_segment(w: WorldModel, ints: Seq<CarryIntent>, k: int, n: int, j: int)
    requires
        0 <= k <= n,
        forall|k2: int| k <= k2 < n ==> (#[trigger] ints[k2]).ship as int != j,
    ensures
        flush_upto(w, ints, n).units.len() == flush_upto(w, ints, k).units.len(),
        0 <= j < flush_upto(w, ints, k).units.len() ==> {
            let um = flush_upto(w, ints, k).units[j];
            let uf = flush_upto(w, ints, n).units[j];
            &&& uf.pos == um.pos
            &&& uf.queue == um.queue
            &&& (um.on_board is Some ==> uf.on_board is Some && (forall|x: int|
                um.on_board.unwrap().contains(x) ==> uf.on_board.unwrap().contains(x)))
        },
    decreases n - k,
{
    if n > k {
        lemma_flush_segment(w, ints, k, n - 1, j);
        let wp = flush_upto(w, ints, n - 1);
        let wf2 = apply_intent(wp, ints[n - 1]).0;
        if 0 <= j < wp.units.len() {
            let s = ints[n - 1].ship as int;
            let t = ints[n - 1].target as int;
            assert(s != j);
            if wf2.units[j].on_board != wp.units[j].on_board {
                assert(j == t && s != t && wp.units[t].carrying is Some);
                assert(wp.units[s].on_board is Some && wp.units[t].on_board is Some);
                let tob = wp.units[t].on_board.unwrap();
                let sob = wp.units[s].on_board.unwrap();
                assert(wf2.units[j].on_board == Option::Some(tob + sob));
                assert forall|x: int| tob.contains(x) implies (tob + sob).contains(x) by {
                    let ix = choose|ix: int| 0 <= ix < tob.len() && tob[ix] == x;
                    assert((tob + sob)[ix] == x);
                }
            }
        }
    }
}

/// Diagnostics only accumulate during a flush.
pub proof fn lemma_flush_diags_grow(w: WorldModel, ints: Seq<CarryIntent>, k: int, n: int)
    requires
        0 <= k <= n,
    ensures
        forall|d: CarryDiagnostic| flush_diags_upto(w, ints, k).contains(d)
            ==> #[trigger] flush_diags_upto(w, ints, n).contains(d),
    decreases n - k,
{
    if n > k {
        lemma_flush_diags_grow(w, ints, k, n - 1);
        let dp = flush_diags_upto(w, ints, n - 1);
        let df = flush_diags_upto(w, ints, n);
        assert forall|d: CarryDiagnostic| dp.contains(d) implies df.contains(d) by {
            let ix = choose|ix: int| 0 <= ix < dp.len() && dp[ix] == d;
            assert(df[ix] == d);
        }
    }
}

/// Composition touches only velocities.
pub proof fn lemma_compose_frame(w: WorldModel, j: int)
    requires
        0 <= j < w.units.len(),
    ensures
        compose_phase(w).units.len() == w.units.len(),
        ({
            let u1 = compose_phase(w).units[j];
            &&& u1.pos == w.units[j].pos
            &&& u1.queue == w.units[j].queue
            &&& u1.carrying == w.units[j].carrying
            &&& u1.on_board == w.units[j].on_board
            &&& u1.max_speed == w.units[j].max_speed
        }),
{
}

/// One tick resolves a satisfied movement order: a unit within tolerance
/// of its move-to point has its queue shortened by exactly one.
pub proof fn lemma_move_to_resolves(w: WorldModel, i: int)
    requires
        world_wf(w),
        0 <= i < w.units.len(),
        w.units[i].pos is Some,
        w.units[i].queue is Some,
        front_of(w.units[i]) is Some,
        front_of(w.units[i]).unwrap() is MoveTo,
        v3_mag_sq(v3_sub(w.units[i].pos.unwrap(),
            front_of(w.units[i]).unwrap()->MoveTo_point@)) < max_force_of(w.units[i]),
    ensures
        spec_tick(w).units.len() == w.units.len(),
        spec_tick(w).units[i].queue is Some,
        spec_tick(w).units[i].queue.unwrap().len() == w.units[i].queue.unwrap().len() - 1,
{
    let w3 = avoidance_phase(evasion_phase(persuit_phase(w)));
    let ints = spec_intents(w);
    let l = ints.len() as int;
    lemma_phases_frame(w, i);
    assert(w3.units[i].queue == persuit_unit(w, i).queue);
    assert(persuit_unit(w, i).queue == popped(w.units[i].queue));
    assert(intent_of(w, i) is None);
    lemma_intents_ships(w, w.units.len() as int);
    assert forall|k2: int| 0 <= k2 < l implies (#[trigger] ints[k2]).ship as int != i by {
        if ints[k2].ship as int == i {
            assert(intent_of(w, i) == Option::Some(ints[k2]));
        }
    }
    lemma_flush_segment(w3, ints, 0, l, i);
    let w4 = flush_upto(w3, ints, l);
    assert(w4.units[i].queue == popped(w.units[i].queue));
    lemma_compose_frame(w4, i);
    assert(spec_tick(w).units[i].queue == popped(w.units[i].queue));
}

/// The conditions under which unit `a` submits a carry intent toward
/// unit `b` this tick.
pub open spec fn carry_approach(w: WorldModel, a: int, b: int) -> bool {
    &&& 0 <= a < w.units.len()
    &&& 0 <= b < w.units.len()
    &&& a != b
    &&& w.units[a].pos is Some
    &&& w.units[b].pos is Some
    &&& front_of(w.units[a]) is Some
    &&& front_of(w.units[a]).unwrap() matches Command::Interact { target, ty, range_sq }
        && target as int == b && ty is BeCarriedBy
        && v3_mag_sq(v3_sub(w.units[a].pos.unwrap(), w.units[b].pos.unwrap()))
            < range_sq + max_force_of(w.units[a])
}

/// Under an in-range carry approach, the approaching unit's intent is
/// exactly the pair.
proof fn lemma_carry_approach_intent(w: WorldModel, a: int, b: int)
    requires
        world_wf(w),
        carry_approach(w, a, b),
    ensures
        intent_of(w, a) is Some,
        intent_of(w, a).unwrap().ship as int == a,
        intent_of(w, a).unwrap().target as int == b,
{
    assert(resolvable(w, b));
}

/// The carry transition: after one tick of an in-range approach toward a
/// carry-capable target, the target's carrying list holds the ship, the
/// ship has no position any more, and its queue is fully consumed.
pub proof fn lemma_carry_transition(w: WorldModel, a: int, b: int)
    requires
        world_wf(w),
        carry_approach(w, a, b),
        w.units[b].carrying is Some,
    ensures
        spec_tick(w).units.len() == w.units.len(),
        spec_tick(w).units[b].carrying is Some,
        spec_tick(w).units[b].carrying.unwrap().contains(a),
        spec_tick(w).units[a].pos is None,
        spec_tick(w).units[a].queue == Option::Some(Seq::<Command>::empty()),
    decreases 0int,
{
    let w3 = avoidance_phase(evasion_phase(persuit_phase(w)));
    let ints = spec_intents(w);
    let l = ints.len() as int;
    let n = w.units.len() as int;
    lemma_phases_frame(w, a);
    lemma_phases_frame(w, b);
    lemma_carry_approach_intent(w, a, b);
    let ci = intent_of(w, a).unwrap();
    lemma_intents_ships(w, n);
    lemma_intent_in_list(w, a, n);
    let k = choose|k: int| 0 <= k < l && ints[k] == ci;
    assert(ints[k].ship as int == a);
    assert forall|k2: int| 0 <= k2 < l && k2 != k implies (#[trigger] ints[k2]).ship as int != a
        by {
        if k2 < k {
            assert((ints[k2].ship as int) < (ints[k].ship as int));
        } else {
            assert((ints[k].ship as int) < (ints[k2].ship as int));
        }
    }
    // The ship's queue is unchanged and the target's carrying list still
    // exists when the pair's intent is applied.
    assert(persuit_unit(w, a).queue == w.units[a].queue);
    lemma_flush_segment(w3, ints, 0, k, a);
    lemma_flush_carrying(w3, ints, 0, k, b);
    let wk = flush_upto(w3, ints, k);
    assert(wk.units[a].queue == w.units[a].queue);
    assert(wk.units[b].carrying is Some);
    let wk1 = flush_upto(w3, ints, k + 1);
    assert(wk1 == apply_intent(wk, ci).0);
    let cl = wk.units[b].carrying.unwrap();
    assert(wk1.units[b].carrying == Option::Some(cl.push(a)));
    assert(cl.push(a)[cl.len() as int] == a);
    assert(wk1.units[b].carrying.unwrap().contains(a));
    assert(wk1.units[a].pos is None);
    assert(wk1.units[a].queue == Option::Some(Seq::<Command>::empty()));
    // Both facts persist through the remaining intents and composition.
    lemma_flush_carrying(w3, ints, k + 1, l, b);
    lemma_flush_segment(w3, ints, k + 1, l, a);
    let w4 = flush_upto(w3, ints, l);
    assert(w4.units[b].carrying.unwrap().contains(a));
    assert(w4.units[a].pos is None);
    assert(w4.units[a].queue == Option::Some(Seq::<Command>::empty()));
    lemma_compose_frame(w4, a);
    lemma_compose_frame(w4, b);
}

/// Transitive nesting: when the approaching unit itself holds nested
/// units, they ride along onto the target's nesting list — provided the
/// target is not itself submitting a carry intent this tick (a target
/// that is being carried away hands its own nesting list on instead).
pub proof fn lemma_carry_nesting(w: WorldModel, a: int, b: int, x: int)
    requires
        world_wf(w),
        carry_approach(w, a, b),
        w.units[b].carrying is Some,
        w.units[a].on_board is Some,
        w.units[b].on_board is Some,
        intent_of(w, b) is None,
        w.units[a].on_board.unwrap().contains(x),
    ensures
        spec_tick(w).units[b].on_board is Some,
        spec_tick(w).units[b].on_board.unwrap().contains(x),
{
    let w3 = avoidance_phase(evasion_phase(persuit_phase(w)));
    let ints = spec_intents(w);
    let l = ints.len() as int;
    let n = w.units.len() as int;
    lemma_phases_frame(w, a);
    lemma_phases_frame(w, b);
    lemma_carry_approach_intent(w, a, b);
    let ci = intent_of(w, a).unwrap();
    lemma_intents_ships(w, n);
    lemma_intent_in_list(w, a, n);
    let k = choose|k: int| 0 <= k < l && ints[k] == ci;
    assert(ints[k].ship as int == a);
    assert forall|k2: int| 0 <= k2 < l && k2 != k implies (#[trigger] ints[k2]).ship as int != a
        by {
        if k2 < k {
            assert((ints[k2].ship as int) < (ints[k].ship as int));
        } else {
            assert((ints[k].ship as int) < (ints[k2].ship as int));
        }
    }
    assert forall|k2: int| 0 <= k2 < l implies (#[trigger] ints[k2]).ship as int != b by {
        if ints[k2].ship as int == b {
            assert(intent_of(w, b) == Option::Some(ints[k2]));
        }
    }
    lemma_flush_segment(w3, ints, 0, k, a);
    lemma_flush_segment(w3, ints, 0, k, b);
    lemma_flush_carrying(w3, ints, 0, k, b);
    let wk = flush_upto(w3, ints, k);
    assert(wk.units[a].on_board is Some && wk.units[a].on_board.unwrap().contains(x));
    assert(wk.units[b].on_board is Some);
    assert(wk.units[b].carrying is Some);
    let wk1 = flush_upto(w3, ints, k + 1);
    assert(wk1 == apply_intent(wk, ci).0);
    let tob = wk.units[b].on_board.unwrap();
    let sob = wk.units[a].on_board.unwrap();
    assert(wk1.units[b].on_board == Option::Some(tob + sob));
    let ix = choose|ix: int| 0 <= ix < sob.len() && sob[ix] == x;
    assert((tob + sob)[tob.len() + ix] == x);
    assert(wk1.units[b].on_board.unwrap().contains(x));
    lemma_flush_segment(w3, ints, k + 1, l, b);
    let w4 = flush_upto(w3, ints, l);
    assert(w4.units[b].on_board is Some && w4.units[b].on_board.unwrap().contains(x));
    lemma_compose_frame(w4, b);
}

/// An in-range approach toward a target without carry capability is
/// abandoned: a diagnostic naming both units is emitted, the order is
/// popped, and the approaching unit keeps its position.
pub proof fn lemma_carry_failure(w: WorldModel, a: int, b: int)
    requires
        world_wf(w),
        carry_approach(w, a, b),
        w.units[b].carrying is None,
    ensures
        spec_tick(w).units.len() == w.units.len(),
        spec_tick_diags(w).contains(CarryDiagnostic {
            ship: a as usize,
            target: b as usize,
            error: CarryError::TargetCannotCarry,
        }),
        spec_tick(w).units[a].queue == popped(w.units[a].queue),
        spec_tick(w).units[a].pos == w.units[a].pos,
{
    let w3 = avoidance_phase(evasion_phase(persuit_phase(w)));
    let ints = spec_intents(w);
    let l = ints.len() as int;
    let n = w.units.len() as int;
    lemma_phases_frame(w, a);
    lemma_phases_frame(w, b);
    lemma_carry_approach_intent(w, a, b);
    let ci = intent_of(w, a).unwrap();
    lemma_intents_ships(w, n);
    lemma_intent_in_list(w, a, n);
    let k = choose|k: int| 0 <= k < l && ints[k] == ci;
    assert(ints[k].ship as int == a);
    assert forall|k2: int| 0 <= k2 < l && k2 != k implies (#[trigger] ints[k2]).ship as int != a
        by {
        if k2 < k {
            assert((ints[k2].ship as int) < (ints[k].ship as int));
        } else {
            assert((ints[k].ship as int) < (ints[k2].ship as int));
        }
    }
    assert(persuit_unit(w, a).queue == w.units[a].queue);
    lemma_flush_segment(w3, ints, 0, k, a);
    lemma_flush_carrying(w3, ints, 0, k, b);
    let wk = flush_upto(w3, ints, k);
    assert(wk.units[a].queue == w.units[a].queue);
    assert(wk.units[a].pos == w.units[a].pos);
    assert(wk.units[b].carrying is None);
    let wk1 = flush_upto(w3, ints, k + 1);
    assert(wk1 == apply_intent(wk, ci).0);
    assert(wk1.units[a].queue == popped(w.units[a].queue));
    assert(wk1.units[a].pos == w.units[a].pos);
    let d = CarryDiagnostic {
        ship: a as usize,
        target: b as usize,
        error: CarryError::TargetCannotCarry,
    };
    assert(flush_diags_upto(w3, ints, k + 1).contains(d)) by {
        let dk1 = flush_diags_upto(w3, ints, k + 1);
        assert(dk1[dk1.len() - 1] == d);
    }
    lemma_flush_diags_grow(w3, ints, k + 1, l);
    lemma_flush_segment(w3, ints, k + 1, l, a);
    let w4 = flush_upto(w3, ints, l);
    assert(w4.units[a].queue == popped(w.units[a].queue));
    assert(w4.units[a].pos == w.units[a].pos);
    lemma_compose_frame(w4, a);
}

/// Unit `i` is listed in carrier `c`'s carrying list.
pub open spec fn carried_in(w: WorldModel, c: int, i: int) -> bool {
    &&& 0 <= c < w.units.len()
    &&& w.units[c].carrying is Some
    &&& w.units[c].carrying.unwrap().contains(i)
}

/// The carry relation is structurally sound: a carried unit is a real
/// unit with no independent position, it appears in the list of at most
/// one carrier, and in that list at most once.
pub open spec fn carry_structure_ok(w: WorldModel) -> bool {
    &&& forall|c: int, i: int| #[trigger] carried_in(w, c, i) ==> 0 <= i < w.units.len()
        && w.units[i].pos is None
    &&& forall|c1: int, c2: int, i: int| #[trigger] carried_in(w, c1, i)
        && #[trigger] carried_in(w, c2, i) ==> c1 == c2
    &&& forall|c: int, k1: int, k2: int|
        0 <= c < w.units.len() && w.units[c].carrying is Some && 0 <= k1 < k2
            < w.units[c].carrying.unwrap().len() ==> (#[trigger] w.units[c].carrying.unwrap()[k1])
            != (#[trigger] w.units[c].carrying.unwrap()[k2])
}

/// One flush step preserves the carry structure, provided the applied
/// intent's ship still has a position (it has not been carried earlier in
/// the same flush).
proof fn lemma_apply_intent_structure(w: WorldModel, ci: CarryIntent)
    requires
        carry_structure_ok(w),
        (ci.ship as int) < w.units.len() ==> w.units[ci.ship as int].pos is Some,
    ensures
        carry_structure_ok(apply_intent(w, ci).0),
        forall|j: int| 0 <= j < w.units.len() && j != ci.ship as int
            ==> apply_intent(w, ci).0.units[j].pos == (#[trigger] w.units[j]).pos,
{
    let w1 = apply_intent(w, ci).0;
    let s = ci.ship as int;
    let t = ci.target as int;
    if 0 <= s < w.units.len() && 0 <= t < w.units.len() && s != t
        && w.units[t].carrying is Some {
        let cl = w.units[t].carrying.unwrap();
        let cl1 = cl.push(s);
        assert(w1.units[t].carrying == Option::Some(cl1));
        assert(!cl.contains(s)) by {
            if cl.contains(s) {
                assert(carried_in(w, t, s));
                assert(w.units[s].pos is None);
            }
        }
        assert forall|c: int, i: int| #[trigger] carried_in(w1, c, i) implies 0 <= i
            < w1.units.len() && w1.units[i].pos is None by {
            if c == t {
                if i == s {
                    assert(w1.units[s].pos is None);
                } else {
                    assert(cl1.contains(i) && i != s);
                    let ix = choose|ix: int| 0 <= ix < cl1.len() && cl1[ix] == i;
                    assert(cl[ix] == i);
                    assert(carried_in(w, t, i));
                }
            } else {
                assert(carried_in(w, c, i));
                assert(w.units[i].pos is None);
                assert(i != s);
            }
        }
        assert forall|c1: int, c2: int, i: int| #[trigger] carried_in(w1, c1, i)
            && #[trigger] carried_in(w1, c2, i) implies c1 == c2 by {
            lemma_membership_back(w, ci, c1, i);
            lemma_membership_back(w, ci, c2, i);
            if i == s {
                assert(!carried_in(w, c1, s) ==> c1 == t);
                if carried_in(w, c1, s) {
                    assert(w.units[s].pos is None);
                }
                if carried_in(w, c2, s) {
                    assert(w.units[s].pos is None);
                }
            }
        }
        assert forall|c: int, k1: int, k2: int|
            0 <= c < w1.units.len() && w1.units[c].carrying is Some && 0 <= k1 < k2
                < w1.units[c].carrying.unwrap().len() implies (
        #[trigger] w1.units[c].carrying.unwrap()[k1]) != (
        #[trigger] w1.units[c].carrying.unwrap()[k2]) by {
            if c == t {
                if k2 == cl.len() {
                    assert(cl1[k2] == s);
                    assert(cl1[k1] == cl[k1]);
                    if cl[k1] == s {
                        assert(cl.contains(s));
                    }
                } else {
                    assert(cl1[k1] == cl[k1] && cl1[k2] == cl[k2]);
                }
            } else {
                assert(w1.units[c].carrying == w.units[c].carrying);
            }
        }
    } else {
        // The failing, self-directed and out-of-range branches leave
        // every carrying list and every position unchanged.
        assert forall|c: int, i: int| #[trigger] carried_in(w1, c, i) implies carried_in(w, c, i)
            by {
            assert(w1.units[c].carrying == w.units[c].carrying);
        }
        assert forall|c: int, i: int| #[trigger] carried_in(w1, c, i) implies 0 <= i
            < w1.units.len() && w1.units[i].pos is None by {
            assert(carried_in(w, c, i));
            assert(w1.units[i].pos == w.units[i].pos);
        }
        assert forall|c1: int, c2: int, i: int| #[trigger] carried_in(w1, c1, i)
            && #[trigger] carried_in(w1, c2, i) implies c1 == c2 by {
            assert(carried_in(w, c1, i) && carried_in(w, c2, i));
        }
        assert forall|c: int, k1: int, k2: int|
            0 <= c < w1.units.len() && w1.units[c].carrying is Some && 0 <= k1 < k2
                < w1.units[c].carrying.unwrap().len() implies (
        #[trigger] w1.units[c].carrying.unwrap()[k1]) != (
        #[trigger] w1.units[c].carrying.unwrap()[k2]) by {
            assert(w1.units[c].carrying == w.units[c].carrying);
        }
    }
}

/// Membership after one successful carry step comes from the old list or
/// is the freshly appended ship in the target's list.
proof fn lemma_membership_back(w: WorldModel, ci: CarryIntent, c: int, i: int)
    requires
        carried_in(apply_intent(w, ci).0, c, i),
    ensures
        carried_in(w, c, i) || (c == ci.target as int && i == ci.ship as int),
{
    let w1 = apply_intent(w, ci).0;
    let s = ci.ship as int;
    let t = ci.target as int;
    if 0 <= s < w.units.len() && 0 <= t < w.units.len() && s != t
        && w.units[t].carrying is Some && c == t {
        let cl = w.units[t].carrying.unwrap();
        let cl1 = cl.push(s);
        if i != s {
            let ix = choose|ix: int| 0 <= ix < cl1.len() && cl1[ix] == i;
            assert(cl[ix] == i);
        }
    } else {
        assert(w1.units[c].carrying == w.units[c].carrying);
    }
}

/// A flush preserves the carry structure, given that the pending ships
/// still have positions and each appears only once.
proof fn lemma_flush_structure(w: WorldModel, ints: Seq<CarryIntent>, n: int)
    requires
        0 <= n <= ints.len(),
        carry_structure_ok(w),
        forall|k1: int, k2: int| 0 <= k1 < k2 < ints.len()
            ==> ((#[trigger] ints[k1]).ship as int) != ((#[trigger] ints[k2]).ship as int),
        forall|k: int| 0 <= k < ints.len() ==> 0 <= ((#[trigger] ints[k]).ship as int)
            && ((ints[k]).ship as int) < w.units.len()
            && w.units[ints[k].ship as int].pos is Some,
    ensures
        flush_upto(w, ints, n).units.len() == w.units.len(),
        carry_structure_ok(flush_upto(w, ints, n)),
        forall|k: int| n <= k < ints.len()
            ==> flush_upto(w, ints, n).units[(#[trigger] ints[k]).ship as int].pos is Some,
    decreases n,
{
    if n > 0 {
        lemma_flush_structure(w, ints, n - 1);
        let wp = flush_upto(w, ints, n - 1);
        let wn = flush_upto(w, ints, n);
        assert(wn == apply_intent(wp, ints[n - 1]).0);
        assert(wn.units.len() == wp.units.len());
        lemma_apply_intent_structure(wp, ints[n - 1]);
        assert forall|k: int| n <= k < ints.len() implies wn.units[(
        #[trigger] ints[k]).ship as int].pos is Some by {
            assert((ints[k].ship as int) != (ints[n - 1].ship as int));
            assert(wp.units[ints[k].ship as int].pos is Some);
            assert(wn.units[ints[k].ship as int].pos == wp.units[ints[k].ship as int].pos);
        }
    }
}

/// A whole tick preserves the structural soundness of the carry
/// relation: a carried unit never regains a position, never gains a
/// second carrier, and never appears twice in a list.
pub proof fn lemma_tick_preserves_carry_structure(w: WorldModel)
    requires
        world_wf(w),
        carry_structure_ok(w),
    ensures
        carry_structure_ok(spec_tick(w)),
{
    let w3 = avoidance_phase(evasion_phase(persuit_phase(w)));
    let ints = spec_intents(w);
    let l = ints.len() as int;
    let n = w.units.len() as int;
    // The staged passes leave positions and carrying lists unchanged.
    assert forall|c: int, i: int| #[trigger] carried_in(w3, c, i) implies carried_in(w, c, i) by {
        lemma_phases_frame(w, c);
    }
    assert forall|c: int, i: int| #[trigger] carried_in(w, c, i) implies carried_in(w3, c, i) by {
        lemma_phases_frame(w, c);
    }
    assert forall|c: int, i: int| #[trigger] carried_in(w3, c, i) implies 0 <= i < w3.units.len()
        && w3.units[i].pos is None by {
        assert(carried_in(w, c, i));
        lemma_phases_frame(w, i);
    }
    assert forall|c1: int, c2: int, i: int| #[trigger] carried_in(w3, c1, i)
        && #[trigger] carried_in(w3, c2, i) implies c1 == c2 by {
        assert(carried_in(w, c1, i) && carried_in(w, c2, i));
    }
    assert forall|c: int, k1: int, k2: int|
        0 <= c < w3.units.len() && w3.units[c].carrying is Some && 0 <= k1 < k2
            < w3.units[c].carrying.unwrap().len() implies (
    #[trigger] w3.units[c].carrying.unwrap()[k1]) != (
    #[trigger] w3.units[c].carrying.unwrap()[k2]) by {
        lemma_phases_frame(w, c);
        assert(w3.units[c].carrying == w.units[c].carrying);
    }
    assert(carry_structure_ok(w3));
    // Pending ships are distinct and still have positions.
    lemma_intents_ships(w, n);
    assert forall|k: int| 0 <= k < l implies 0 <= ((#[trigger] ints[k]).ship as int)
        && ((ints[k]).ship as int) < n && w3.units[ints[k].ship as int].pos is Some by {
        assert(intent_of(w, ints[k].ship as int) == Option::Some(ints[k]));
        assert(w.units[ints[k].ship as int].pos is Some);
        lemma_phases_frame(w, ints[k].ship as int);
    }
    lemma_flush_structure(w3, ints, l);
    let w4 = flush_upto(w3, ints, l);
    // Composition touches only velocities.
    let w5 = compose_phase(w4);
    if !w4.paused {
        assert forall|c: int, i: int| #[trigger] carried_in(w5, c, i) implies carried_in(w4, c, i)
            by {
            lemma_compose_frame(w4, c);
        }
        assert forall|c: int, i: int| #[trigger] carried_in(w5, c, i) implies 0 <= i
            < w5.units.len() && w5.units[i].pos is None by {
            assert(carried_in(w4, c, i));
            lemma_compose_frame(w4, i);
        }
        assert forall|c1: int, c2: int, i: int| #[trigger] carried_in(w5, c1, i)
            && #[trigger] carried_in(w5, c2, i) implies c1 == c2 by {
            assert(carried_in(w4, c1, i) && carried_in(w4, c2, i));
        }
        assert forall|c: int, k1: int, k2: int|
            0 <= c < w5.units.len() && w5.units[c].carrying is Some && 0 <= k1 < k2
                < w5.units[c].carrying.unwrap().len() implies (
        #[trigger] w5.units[c].carrying.unwrap()[k1]) != (
        #[trigger] w5.units[c].carrying.unwrap()[k2]) by {
            lemma_compose_frame(w4, c);
            assert(w5.units[c].carrying == w4.units[c].carrying);
        }
    }
}

/// One component of active braking: adding the rescaled opposite
/// component never grows its square, and strictly shrinks it for a
/// dominant component once the force cap is at least two.
proof fn lemma_brake_component(c: int, mf: int, m: int)
    requires
        m >= 1,
        0 <= mf <= m,
    ensures
        ({
            let nc = c + tdiv((-c) * mf, m);
            &&& nc * nc <= c * c
            &&& ((2 * c >= m || 2 * (-c) >= m) && mf >= 2) ==> nc * nc < c * c
        }),
{
    let a = (-c) * mf;
    let q = tdiv(a, m);
    let nc = c + q;
    lemma_tdiv_bound(a, m);
    if c >= 0 {
        assert(a <= 0) by (nonlinear_arith) requires c >= 0 && mf >= 0 && a == (-c) * mf {}
        if a == 0 {
            assert(q == 0);
            assert(nc * nc <= c * c);
            if 2 * c >= m && mf >= 2 {
                assert(false) by (nonlinear_arith)
                    requires (-c) * mf == 0 && 2 * c >= m && m >= 1 && mf >= 2,
                {}
            }
        } else {
            assert(q <= 0 && q * m >= a);
            assert(-q <= c) by (nonlinear_arith)
                requires m >= 1 && 0 <= mf <= m && q <= 0 && q * m >= (-c) * mf && c >= 0,
            {}
            assert(0 <= nc <= c);
            assert(nc * nc <= c * c) by (nonlinear_arith) requires 0 <= nc <= c {}
            if 2 * c >= m && mf >= 2 {
                assert(c * mf >= m) by (nonlinear_arith)
                    requires 2 * c >= m && mf >= 2 && m >= 1 && c >= 0,
                {}
                assert(q == -((c * mf) / m)) by {
                    assert(a < 0);
                    assert(-a == c * mf) by (nonlinear_arith) requires a == (-c) * mf {}
                }
                assert((c * mf) / m >= 1) by (nonlinear_arith)
                    requires c * mf >= m && m >= 1,
                {}
                assert(q <= -1);
                assert(c >= 1);
                assert(nc * nc < c * c) by (nonlinear_arith)
                    requires 0 <= nc <= c - 1 && c >= 1,
                {}
            }
        }
    } else {
        assert(a >= 0) by (nonlinear_arith) requires c < 0 && mf >= 0 && a == (-c) * mf {}
        assert(q >= 0 && q * m <= a);
        assert(q <= -c) by (nonlinear_arith)
            requires m >= 1 && 0 <= mf <= m && q >= 0 && q * m <= (-c) * mf && c < 0,
        {}
        assert(c <= nc <= 0);
        assert(nc * nc <= c * c) by (nonlinear_arith) requires c <= nc <= 0 {}
        if 2 * (-c) >= m && mf >= 2 {
            assert((-c) * mf >= m) by (nonlinear_arith)
                requires 2 * (-c) >= m && mf >= 2 && m >= 1 && c < 0,
            {}
            assert(q == a / m);
            assert(a / m >= 1) by (nonlinear_arith)
                requires a >= m && m >= 1,
            {}
            assert(q >= 1);
            assert(c <= -1);
            assert(nc * nc < c * c) by (nonlinear_arith)
                requires c + 1 <= nc <= 0 && c <= -1,
            {}
        }
    }
}

/// Active braking: a unit whose three staged forces are all zero steers
/// with the negative of its velocity.  Within the force cap it stops in
/// one tick; above it, its speed strictly decreases, provided the force
/// cap is at least two (a unit whose cap truncates to below two can
/// stall above its cap).
pub proof fn lemma_braking_step(u: UnitModel)
    requires
        u.staging_persuit == v3_zero(),
        u.staging_evasion == v3_zero(),
        u.staging_avoidance == v3_zero(),
        0 <= u.max_speed,
        v3_mag_sq(u.vel) <= u.max_speed * u.max_speed,
        max_force_of(u) >= 2,
    ensures
        v3_mag_sq(u.vel) <= max_force_of(u) * max_force_of(u) ==> compose_vel(u) == v3_zero(),
        v3_mag_sq(u.vel) > max_force_of(u) * max_force_of(u) ==> v3_mag_sq(compose_vel(u))
            < v3_mag_sq(u.vel),
{
    let v = u.vel;
    let mf = max_force_of(u);
    let msq = v3_mag_sq(v);
    let s0 = v3_add(v3_add(u.staging_persuit, u.staging_evasion), u.staging_avoidance);
    assert(s0 =~= v3_zero());
    let s1 = v3_neg(v);
    let nv = v3_neg(v);
    assert(nv.x * nv.x == v.x * v.x) by (nonlinear_arith) requires nv.x == -v.x {}
    assert(nv.y * nv.y == v.y * v.y) by (nonlinear_arith) requires nv.y == -v.y {}
    assert(nv.z * nv.z == v.z * v.z) by (nonlinear_arith) requires nv.z == -v.z {}
    assert(v3_mag_sq(nv) == msq);
    if msq <= mf * mf {
        let st = v3_truncate(s1, mf);
        assert(st == s1);
        let sum = v3_add(v, st);
        assert(sum =~= v3_zero());
        assert(sum.x == 0 && sum.y == 0 && sum.z == 0);
        assert(sum.x * sum.x + sum.y * sum.y + sum.z * sum.z == 0) by (nonlinear_arith)
            requires sum.x == 0 && sum.y == 0 && sum.z == 0,
        {}
        assert(v3_mag_sq(sum) == 0);
        assert(u.max_speed * u.max_speed >= 0) by (nonlinear_arith) {}
        assert(v3_truncate(sum, u.max_speed) == sum);
        assert(compose_vel(u) == sum);
        assert(sum == v3_zero());
    } else {
        let m = sqrt_ceil(msq);
        lemma_sqrt_ceil(msq);
        assert(mf * mf >= 0) by (nonlinear_arith) requires mf >= 2 {}
        assert(m >= 1) by (nonlinear_arith)
            requires m >= 0 && m * m >= msq && msq >= 1,
        {}
        assert(mf <= m) by (nonlinear_arith)
            requires mf >= 0 && m >= 0 && mf * mf < msq && m * m >= msq,
        {}
        let st = v3_scale_div(nv, mf, m);
        assert(v3_truncate(s1, mf) == st);
        let w2 = v3_add(v, st);
        assert(st.x == tdiv((-v.x) * mf, m));
        assert(st.y == tdiv((-v.y) * mf, m));
        assert(st.z == tdiv((-v.z) * mf, m));
        lemma_brake_component(v.x, mf, m);
        lemma_brake_component(v.y, mf, m);
        lemma_brake_component(v.z, mf, m);
        assert(w2.x * w2.x <= v.x * v.x);
        assert(w2.y * w2.y <= v.y * v.y);
        assert(w2.z * w2.z <= v.z * v.z);
        // Some component carries at least a third of the squared
        // magnitude; braking strictly shrinks that component.
        if v.x * v.x >= v.y * v.y && v.x * v.x >= v.z * v.z {
            lemma_dominant_halves(v.x, msq, m);
            assert(w2.x * w2.x < v.x * v.x);
        } else if v.y * v.y >= v.x * v.x && v.y * v.y >= v.z * v.z {
            lemma_dominant_halves(v.y, msq, m);
            assert(w2.y * w2.y < v.y * v.y);
        } else {
            lemma_dominant_halves(v.z, msq, m);
            assert(w2.z * w2.z < v.z * v.z);
        }
        assert(v3_mag_sq(w2) < msq);
        assert(v3_mag_sq(w2) <= u.max_speed * u.max_speed);
        assert(v3_truncate(w2, u.max_speed) == w2);
        assert(compose_vel(u) == w2);
    }
}

/// A component holding at least a third of the squared magnitude, once
/// doubled, reaches the ceiling square root.
proof fn lemma_dominant_halves(c: int, msq: int, m: int)
    requires
        msq >= 1,
        3 * (c * c) >= msq,
        m == sqrt_ceil(msq),
    ensures
        2 * c >= m || 2 * (-c) >= m,
{
    lemma_sqrt_ceil(msq);
    let ac = if c >= 0 { c } else { -c };
    assert((2 * ac) * (2 * ac) >= msq) by (nonlinear_arith)
        requires 3 * (c * c) >= msq && (ac == c || ac == -c) && msq >= 1,
    {}
    assert(m >= 1) by (nonlinear_arith)
        requires m >= 0 && m * m >= msq && msq >= 1,
    {}
    assert(m <= 2 * ac) by (nonlinear_arith)
        requires
            m >= 1,
            ac >= 0,
            (m - 1) * (m - 1) < msq,
            (2 * ac) * (2 * ac) >= msq,
    {}
}

/// Active braking through a whole tick: a unit with an empty or absent
/// queue, no evasion relation, and no repulsion from any body (none
/// within the proximity threshold) stages only zero forces, so its
/// velocity strictly decays to zero, tick over tick.
pub proof fn lemma_idle_unit_brakes(w: WorldModel, i: int)
    requires
        world_wf(w),
        !w.paused,
        0 <= i < w.units.len(),
        front_of(w.units[i]) is None,
        w.units[i].evading is None,
        forall|j: int| 0 <= j < w.units.len() && (#[trigger] w.units[j]).pos is Some
            ==> crate::boid::spec_repulsion(boid_of(w.units[i]), boid_of(w.units[j]))
                == v3_zero(),
        v3_mag_sq(w.units[i].vel) <= w.units[i].max_speed * w.units[i].max_speed,
        max_force_of(w.units[i]) >= 2,
    ensures
        spec_tick(w).units.len() == w.units.len(),
        v3_mag_sq(w.units[i].vel) <= max_force_of(w.units[i]) * max_force_of(w.units[i])
            ==> spec_tick(w).units[i].vel == v3_zero(),
        v3_mag_sq(w.units[i].vel) > max_force_of(w.units[i]) * max_force_of(w.units[i])
            ==> v3_mag_sq(spec_tick(w).units[i].vel) < v3_mag_sq(w.units[i].vel),
{
    let w1 = persuit_phase(w);
    let w2 = evasion_phase(w1);
    let w3 = avoidance_phase(w2);
    let ints = spec_intents(w);
    let l = ints.len() as int;
    let w4 = flush_upto(w3, ints, l);
    lemma_persuit_unit_frame(w, i);
    assert(w1.units[i] == persuit_unit(w, i));
    assert(w1.units[i].staging_persuit == v3_zero());
    lemma_evasion_unit_frame(w1, i);
    assert(w2.units[i] == evasion_unit(w1, i));
    assert(w1.units[i].evading is None);
    assert(w2.units[i].staging_evasion == v3_zero());
    assert(w2.units[i].staging_persuit == v3_zero());
    assert(w3.units[i] == avoidance_unit(w2, i));
    if w.units[i].pos is Some {
        assert(boid_of(w2.units[i]) == boid_of(w.units[i]));
        lemma_avoidance_sum_zero(w2, i, w2.units.len() as int);
        assert(spec_avoidance(boid_of(w2.units[i]), spec_candidates(w2, i)) == v3_zero());
        assert(w3.units[i].staging_avoidance == v3_div(v3_zero(), 10));
        assert(v3_div(v3_zero(), 10) =~= v3_zero());
    } else {
        assert(w3.units[i].staging_avoidance == v3_zero());
    }
    lemma_avoidance_unit_frame(w2, i);
    assert(w3.units[i].staging_persuit == v3_zero());
    assert(w3.units[i].staging_evasion == v3_zero());
    assert(w3.units[i].vel == w.units[i].vel);
    assert(w3.units[i].max_speed == w.units[i].max_speed);
    lemma_flush_motion_frame(w3, ints, l);
    assert(w4.units[i].staging_persuit == v3_zero());
    assert(w4.units[i].staging_evasion == v3_zero());
    assert(w4.units[i].staging_avoidance == v3_zero());
    assert(w4.units[i].vel == w.units[i].vel);
    assert(w4.units[i].max_speed == w.units[i].max_speed);
    assert(!w4.paused);
    assert(spec_tick(w).units[i] == compose_unit(w4.units[i]));
    lemma_braking_step(w4.units[i]);
}

/// With every repulsion toward the unit zero (no body within the
/// proximity threshold), the accumulated avoidance sum is zero, whatever
/// subset of bodies the exclusion rule admits.
proof fn lemma_avoidance_sum_zero(w: WorldModel, i: int, n: int)
    requires
        0 <= i < w.units.len(),
        w.units[i].pos is Some,
        n <= w.units.len(),
        forall|j: int| 0 <= j < w.units.len() && (#[trigger] w.units[j]).pos is Some
            ==> crate::boid::spec_repulsion(boid_of(w.units[i]), boid_of(w.units[j]))
                == v3_zero(),
    ensures
        spec_avoidance(boid_of(w.units[i]), crate::steering::candidates_upto(w, i, n))
            == v3_zero(),
    decreases n,
{
    let b = boid_of(w.units[i]);
    let s = crate::steering::candidates_upto(w, i, n);
    if n <= 0 {
        assert(s.len() == 0);
    } else {
        lemma_avoidance_sum_zero(w, i, n - 1);
        let sp = crate::steering::candidates_upto(w, i, n - 1);
        if avoid_candidate(w, i, n - 1) {
            assert(s == sp.push(boid_of(w.units[n - 1])));
            assert(s.drop_last() =~= sp);
            assert(s.last() == boid_of(w.units[n - 1]));
            assert(crate::boid::spec_repulsion(b, boid_of(w.units[n - 1])) == v3_zero());
            assert(v3_add(v3_zero(), v3_zero()) =~= v3_zero());
        } else {
            assert(s == sp);
        }
    }
}

} // verus!
