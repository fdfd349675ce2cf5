//! The per-tick steering systems, in the staged architecture: three
//! independent passes each write one per-cause force field (pursuit or
//! interaction, evasion, avoidance), carry transitions are deferred as
//! intents and flushed in submission order, and a final composition pass
//! merges the staged forces into one clamped velocity per unit.
//!
//! Every pass is pinned to a spec function of the world model, so a whole
//! tick is a mathematical function of the previous world state.

use vstd::prelude::*;
use crate::boid::{
    boid_wf, boids_view, spec_avoidance, spec_evade, spec_pursue, spec_seek, Boid, BoidModel,
    REPULSE, SHIP_RADIUS_SQ, STEER_LIMIT,
};
use crate::components::{Command, InteractionType};
use crate::vec3::{
    lemma_tdiv_bound, tdiv, tdiv_exec, truncate, v3_add, v3_bounded, v3_div, v3_mag_sq, v3_neg,
    v3_sub, v3_truncate, v3_zero, Vec3, V3,
};
use crate::world::{
    cmd_wf, unit_wf, world_wf, Unit, UnitModel, World, WorldModel, AVOIDANCE_DIVISOR,
    EVASION_DIVISOR, FORCE_LIMIT, MAX_FORCE_DIVISOR,
};

verus! {

/// A deferred carry transition: `ship` has come within range of `target`
/// while ordered to be carried by it.
#[derive(Clone, Copy, PartialEq, Eq, Structural, Debug)]
pub struct CarryIntent {
    pub ship: usize,
    pub target: usize,
}

/// Why a carry transition was abandoned.
#[derive(Clone, Copy, PartialEq, Eq, Structural, Debug)]
pub enum CarryError {
    /// The target has no carrying list: it cannot carry ships.
    TargetCannotCarry,
    /// The unit asked to be carried by itself.
    TargetIsSelf,
}

/// A structured report of an abandoned carry transition, naming the
/// approaching unit and the intended target.
#[derive(Clone, Copy, PartialEq, Eq, Structural, Debug)]
pub struct CarryDiagnostic {
    pub ship: usize,
    pub target: usize,
    pub error: CarryError,
}

/// The active order of a unit: the front of its queue, if it has one.
pub open spec fn front_of(u: UnitModel) -> Option<Command> {
    match u.queue {
        Option::None => Option::None,
        Option::Some(q) => if q.len() == 0 {
            Option::None
        } else {
            Option::Some(q[0])
        },
    }
}

/// Whether `id` names a unit that currently resolves to a moving body:
/// in range of the store and not carried.
pub open spec fn resolvable(w: WorldModel, id: int) -> bool {
    0 <= id < w.units.len() && w.units[id].pos is Some
}

/// The moving body a unit with a position presents to the steering
/// primitives.
pub open spec fn boid_of(u: UnitModel) -> BoidModel {
    BoidModel {
        pos: u.pos.unwrap(),
        vel: u.vel,
        max_vel: u.max_speed,
        radius_sq: SHIP_RADIUS_SQ as int,
    }
}

/// The cap on a unit's steering force, a fixed fraction of its speed cap.
/// Also used as the arrival tolerance and the in-range slack.
pub open spec fn max_force_of(u: UnitModel) -> int {
    u.max_speed / MAX_FORCE_DIVISOR as int
}

/// The queue with its front popped (unchanged when empty or absent).
pub open spec fn popped(q: Option<Seq<Command>>) -> Option<Seq<Command>> {
    match q {
        Option::None => Option::None,
        Option::Some(s) => if s.len() > 0 {
            Option::Some(s.remove(0))
        } else {
            Option::Some(s)
        },
    }
}

/// One unit after the pursuit pass: the transition table over the front
/// of its queue.  A unit without a position (it is being carried) stages
/// no force; so does one without a queue or with an empty one.  A stale
/// interaction target pops the order with no force this tick.
pub open spec fn persuit_unit(w: WorldModel, i: int) -> UnitModel {
    let u = w.units[i];
    if u.pos is None {
        UnitModel { staging_persuit: v3_zero(), ..u }
    } else {
        match front_of(u) {
            Option::None => UnitModel { staging_persuit: v3_zero(), ..u },
            Option::Some(c) => match c {
                Command::MoveTo { point } => {
                    let force = spec_seek(boid_of(u), point@);
                    if v3_mag_sq(v3_sub(u.pos.unwrap(), point@)) < max_force_of(u) {
                        UnitModel { staging_persuit: force, queue: popped(u.queue), ..u }
                    } else {
                        UnitModel { staging_persuit: force, ..u }
                    }
                },
                Command::Interact { target, ty, range_sq } => {
                    if !resolvable(w, target as int) {
                        UnitModel { staging_persuit: v3_zero(), queue: popped(u.queue), ..u }
                    } else {
                        UnitModel {
                            staging_persuit: spec_pursue(
                                boid_of(u),
                                boid_of(w.units[target as int]),
                                0,
                            ),
                            ..u
                        }
                    }
                },
            },
        }
    }
}

/// The world after the pursuit pass.
pub open spec fn persuit_phase(w: WorldModel) -> WorldModel {
    WorldModel { units: Seq::new(w.units.len(), |i: int| persuit_unit(w, i)), ..w }
}

/// The carry intent unit `i` submits this tick: its front order is an
/// in-range be-carried-by interaction with a resolvable target.
pub open spec fn intent_of(w: WorldModel, i: int) -> Option<CarryIntent> {
    let u = w.units[i];
    if u.pos is Some {
        match front_of(u) {
            Option::Some(Command::Interact { target, ty: InteractionType::BeCarriedBy, range_sq }) => {
                if resolvable(w, target as int) {
                    let t = w.units[target as int];
                    if v3_mag_sq(v3_sub(u.pos.unwrap(), t.pos.unwrap()))
                        < range_sq + max_force_of(u) {
                        Option::Some(CarryIntent { ship: i as usize, target })
                    } else {
                        Option::None
                    }
                } else {
                    Option::None
                }
            },
            _ => Option::None,
        }
    } else {
        Option::None
    }
}

/// The intents of the units before `n`, in index (submission) order.
pub open spec fn intents_upto(w: WorldModel, n: int) -> Seq<CarryIntent>
    decreases n,
{
    if n <= 0 {
        Seq::empty()
    } else {
        match intent_of(w, n - 1) {
            Option::Some(ci) => intents_upto(w, n - 1).push(ci),
            Option::None => intents_upto(w, n - 1),
        }
    }
}

/// All carry intents of the tick, in submission order.
pub open spec fn spec_intents(w: WorldModel) -> Seq<CarryIntent> {
    intents_upto(w, w.units.len() as int)
}

/// One unit after the evasion pass: half-weighted evasion away from a
/// resolvable threat; a stale threat clears the relation with no force.
pub open spec fn evasion_unit(w: WorldModel, i: int) -> UnitModel {
    let u = w.units[i];
    if u.pos is None {
        UnitModel { staging_evasion: v3_zero(), ..u }
    } else {
        match u.evading {
            Option::None => UnitModel { staging_evasion: v3_zero(), ..u },
            Option::Some(j) => if resolvable(w, j) {
                UnitModel {
                    staging_evasion: v3_div(
                        spec_evade(boid_of(u), boid_of(w.units[j])),
                        EVASION_DIVISOR as int,
                    ),
                    ..u
                }
            } else {
                UnitModel { staging_evasion: v3_zero(), evading: Option::None, ..u }
            },
        }
    }
}

/// The world after the evasion pass.
pub open spec fn evasion_phase(w: WorldModel) -> WorldModel {
    WorldModel { units: Seq::new(w.units.len(), |i: int| evasion_unit(w, i)), ..w }
}

/// The unit another unit's front order asks to be carried by, if any.
pub open spec fn carry_target_of(u: UnitModel) -> Option<int> {
    match front_of(u) {
        Option::Some(Command::Interact { target, ty: InteractionType::BeCarriedBy, range_sq }) =>
            Option::Some(target as int),
        _ => Option::None,
    }
}

/// Whether unit `j` belongs to unit `i`'s avoidance candidate set: it
/// must present a body, and the pair must not be closing a carry
/// approach in either direction.  The exclusion is symmetric and read
/// from each candidate's own queue front.
pub open spec fn avoid_candidate(w: WorldModel, i: int, j: int) -> bool {
    &&& 0 <= j < w.units.len()
    &&& w.units[j].pos is Some
    &&& carry_target_of(w.units[i]) != Option::Some(j)
    &&& carry_target_of(w.units[j]) != Option::Some(i)
}

/// The candidate bodies among the units before `n`, in index order.
pub open spec fn candidates_upto(w: WorldModel, i: int, n: int) -> Seq<BoidModel>
    decreases n,
{
    if n <= 0 {
        Seq::empty()
    } else {
        if avoid_candidate(w, i, n - 1) {
            candidates_upto(w, i, n - 1).push(boid_of(w.units[n - 1]))
        } else {
            candidates_upto(w, i, n - 1)
        }
    }
}

/// Unit `i`'s full avoidance candidate set.
pub open spec fn spec_candidates(w: WorldModel, i: int) -> Seq<BoidModel> {
    candidates_upto(w, i, w.units.len() as int)
}

/// One unit after the avoidance pass.
pub open spec fn avoidance_unit(w: WorldModel, i: int) -> UnitModel {
    let u = w.units[i];
    if u.pos is None {
        UnitModel { staging_avoidance: v3_zero(), ..u }
    } else {
        UnitModel {
            staging_avoidance: v3_div(
                spec_avoidance(boid_of(u), spec_candidates(w, i)),
                AVOIDANCE_DIVISOR as int,
            ),
            ..u
        }
    }
}

/// The world after the avoidance pass.
pub open spec fn avoidance_phase(w: WorldModel) -> WorldModel {
    WorldModel { units: Seq::new(w.units.len(), |i: int| avoidance_unit(w, i)), ..w }
}

/// The queue cleared (the order fully consumed), kept present.
pub open spec fn cleared(q: Option<Seq<Command>>) -> Option<Seq<Command>> {
    match q {
        Option::None => Option::None,
        Option::Some(s) => Option::Some(Seq::empty()),
    }
}

/// One carry transition applied to the world: either the full structural
/// edit, or an abandoned order with a diagnostic.  Out-of-range identities
/// are skipped silently (the pursuit pass never submits them).
pub open spec fn apply_intent(w: WorldModel, ci: CarryIntent) -> (WorldModel, Option<
    CarryDiagnostic,
>) {
    let s = ci.ship as int;
    let t = ci.target as int;
    if !(0 <= s < w.units.len() && 0 <= t < w.units.len()) {
        (w, Option::None)
    } else if s == t {
        let su = w.units[s];
        (
            WorldModel { units: w.units.update(s, UnitModel { queue: popped(su.queue), ..su }), ..w },
            Option::Some(CarryDiagnostic {
                ship: ci.ship,
                target: ci.target,
                error: CarryError::TargetIsSelf,
            }),
        )
    } else {
        let su = w.units[s];
        let tu = w.units[t];
        match tu.carrying {
            Option::None => (
                WorldModel {
                    units: w.units.update(s, UnitModel { queue: popped(su.queue), ..su }),
                    ..w
                },
                Option::Some(CarryDiagnostic {
                    ship: ci.ship,
                    target: ci.target,
                    error: CarryError::TargetCannotCarry,
                }),
            ),
            Option::Some(cl) => {
                let splice = su.on_board is Some && tu.on_board is Some;
                let tu2 = UnitModel {
                    carrying: Option::Some(cl.push(s)),
                    on_board: if splice {
                        Option::Some(tu.on_board.unwrap() + su.on_board.unwrap())
                    } else {
                        tu.on_board
                    },
                    ..tu
                };
                let su2 = UnitModel {
                    queue: cleared(su.queue),
                    pos: Option::None,
                    on_board: if splice {
                        Option::Some(Seq::<int>::empty())
                    } else {
                        su.on_board
                    },
                    ..su
                };
                (
                    WorldModel { units: w.units.update(t, tu2).update(s, su2), ..w },
                    Option::None,
                )
            },
        }
    }
}

/// The world after the first `n` intents have been flushed, in order.
pub open spec fn flush_upto(w: WorldModel, intents: Seq<CarryIntent>, n: int) -> WorldModel
    decreases n,
{
    if n <= 0 {
        w
    } else {
        apply_intent(flush_upto(w, intents, n - 1), intents[n - 1]).0
    }
}

/// The diagnostics the first `n` intents emit, in order.
pub open spec fn flush_diags_upto(w: WorldModel, intents: Seq<CarryIntent>, n: int) -> Seq<
    CarryDiagnostic,
>
    decreases n,
{
    if n <= 0 {
        Seq::empty()
    } else {
        match apply_intent(flush_upto(w, intents, n - 1), intents[n - 1]).1 {
            Option::Some(d) => flush_diags_upto(w, intents, n - 1).push(d),
            Option::None => flush_diags_upto(w, intents, n - 1),
        }
    }
}

/// The composed velocity of one unit: the staged forces summed, pure
/// braking when they cancel to zero, clamped to the force cap, integrated
/// and clamped to the speed cap.
pub open spec fn compose_vel(u: UnitModel) -> V3 {
    let s0 = v3_add(v3_add(u.staging_persuit, u.staging_evasion), u.staging_avoidance);
    let s1 = if s0 == v3_zero() {
        v3_neg(u.vel)
    } else {
        s0
    };
    let st = v3_truncate(s1, max_force_of(u));
    v3_truncate(v3_add(u.vel, st), u.max_speed)
}

/// One unit after composition.
pub open spec fn compose_unit(u: UnitModel) -> UnitModel {
    UnitModel { vel: compose_vel(u), ..u }
}

/// The world after composition: the identity while paused (velocities
/// are frozen, not zeroed).
pub open spec fn compose_phase(w: WorldModel) -> WorldModel {
    if w.paused {
        w
    } else {
        WorldModel { units: Seq::new(w.units.len(), |i: int| compose_unit(w.units[i])), ..w }
    }
}

/// The whole tick: pursuit, evasion and avoidance write their staged
/// fields, the carry intents collected against the pre-tick state are
/// flushed in submission order, and composition integrates velocities.
pub open spec fn spec_tick(w: WorldModel) -> WorldModel {
    let w3 = avoidance_phase(evasion_phase(persuit_phase(w)));
    let ints = spec_intents(w);
    compose_phase(flush_upto(w3, ints, ints.len() as int))
}

/// The diagnostics one tick emits.
pub open spec fn spec_tick_diags(w: WorldModel) -> Seq<CarryDiagnostic> {
    let w3 = avoidance_phase(evasion_phase(persuit_phase(w)));
    let ints = spec_intents(w);
    flush_diags_upto(w3, ints, ints.len() as int)
}

/// The pursuit pass touches only the staged pursuit force and the queue.
pub proof fn lemma_persuit_unit_frame(w: WorldModel, j: int)
    ensures
        persuit_unit(w, j).pos == w.units[j].pos,
        persuit_unit(w, j).vel == w.units[j].vel,
        persuit_unit(w, j).max_speed == w.units[j].max_speed,
        persuit_unit(w, j).evading == w.units[j].evading,
        persuit_unit(w, j).carrying == w.units[j].carrying,
        persuit_unit(w, j).on_board == w.units[j].on_board,
        persuit_unit(w, j).staging_evasion == w.units[j].staging_evasion,
        persuit_unit(w, j).staging_avoidance == w.units[j].staging_avoidance,
{
}

/// The evasion pass touches only the staged evasion force and the
/// evading relation.
pub proof fn lemma_evasion_unit_frame(w: WorldModel, j: int)
    ensures
        evasion_unit(w, j).pos == w.units[j].pos,
        evasion_unit(w, j).vel == w.units[j].vel,
        evasion_unit(w, j).max_speed == w.units[j].max_speed,
        evasion_unit(w, j).queue == w.units[j].queue,
        evasion_unit(w, j).carrying == w.units[j].carrying,
        evasion_unit(w, j).on_board == w.units[j].on_board,
        evasion_unit(w, j).staging_persuit == w.units[j].staging_persuit,
        evasion_unit(w, j).staging_avoidance == w.units[j].staging_avoidance,
{
}

/// The avoidance pass touches only the staged avoidance force.
pub proof fn lemma_avoidance_unit_frame(w: WorldModel, j: int)
    ensures
        avoidance_unit(w, j).pos == w.units[j].pos,
        avoidance_unit(w, j).vel == w.units[j].vel,
        avoidance_unit(w, j).max_speed == w.units[j].max_speed,
        avoidance_unit(w, j).queue == w.units[j].queue,
        avoidance_unit(w, j).evading == w.units[j].evading,
        avoidance_unit(w, j).carrying == w.units[j].carrying,
        avoidance_unit(w, j).on_board == w.units[j].on_board,
        avoidance_unit(w, j).staging_persuit == w.units[j].staging_persuit,
        avoidance_unit(w, j).staging_evasion == w.units[j].staging_evasion,
{
}

/// Dividing a bounded vector by a positive divisor keeps the bound.
pub proof fn lemma_v3_div_bounded(v: V3, d: int, b: int)
    requires
        d >= 1,
        b >= 0,
        v3_bounded(v, b),
    ensures
        v3_bounded(v3_div(v, d), b),
{
    lemma_tdiv_keeps_bound(v.x, d, b);
    lemma_tdiv_keeps_bound(v.y, d, b);
    lemma_tdiv_keeps_bound(v.z, d, b);
}

/// One component of the division bound.
proof fn lemma_tdiv_keeps_bound(c: int, d: int, b: int)
    requires
        d >= 1,
        b >= 0,
        -b <= c <= b,
    ensures
        -b <= tdiv(c, d) <= b,
{
    lemma_tdiv_bound(c, d);
    let q = tdiv(c, d);
    if c >= 0 {
        assert(q <= q * d) by (nonlinear_arith)
            requires q >= 0 && d >= 1,
        {}
    } else {
        assert(q * d <= q) by (nonlinear_arith)
            requires q <= 0 && d >= 1,
        {}
    }
}

/// Pursuit and interaction: act on the front of each unit's queue as the
/// transition table prescribes, staging the pursuit force, popping
/// satisfied or stale orders, and collecting the carry intents of the
/// tick in submission order for the post-pass flush.
pub fn run_persuit(world: &mut World) -> (intents: Vec<CarryIntent>)
    requires
        world_wf(old(world)@),
    ensures
        final(world)@ == persuit_phase(old(world)@),
        intents@ == spec_intents(old(world)@),
        world_wf(final(world)@),
{
    let ghost w0 = world@;
    let n = world.units.len();
    let mut intents: Vec<CarryIntent> = Vec::new();
    let mut i: usize = 0;
    while i < n
        invariant
            0 <= i <= n,
            n == world@.units.len(),
            n == w0.units.len(),
            world@.paused == w0.paused,
            world_wf(w0),
            forall|j: int| 0 <= j < i ==> (#[trigger] world@.units[j]) == persuit_unit(w0, j),
            forall|j: int| i <= j < n ==> (#[trigger] world@.units[j]) == w0.units[j],
            forall|j: int| 0 <= j < i ==> unit_wf(#[trigger] world@.units[j]),
            intents@ == intents_upto(w0, i as int),
        decreases n - i,
    {
        let ghost wpre = world@;
        let ghost upre = world.units@;
        proof {
            assert(world.units@[i as int]@ == world@.units[i as int]);
            assert(world@.units[i as int] == w0.units[i as int]);
            assert(unit_wf(w0.units[i as int]));
        }
        let u = &world.units[i];
        let upos = u.pos;
        let uvel = u.vel;
        let ums = u.max_speed;
        let front: Option<Command> = match &u.queue {
            None => None,
            Some(q) => if q.len() == 0 {
                None
            } else {
                Some(q[0])
            },
        };
        proof {
            assert(front == front_of(w0.units[i as int]));
            if front is Some {
                let q = w0.units[i as int].queue.unwrap();
                assert(cmd_wf(q[0]));
            }
        }
        let mut force = Vec3::zero();
        let mut pop = false;
        let mut intent: Option<CarryIntent> = None;
        if upos.is_some() {
            let pos = upos.unwrap();
            let me = Boid { pos, vel: uvel, max_vel: ums, radius_sq: SHIP_RADIUS_SQ };
            proof {
                assert(me@ == boid_of(w0.units[i as int]));
                assert(boid_wf(me@));
            }
            match front {
                None => {},
                Some(Command::MoveTo { point }) => {
                    force = me.seek(point);
                    let diff = pos.minus(point);
                    let ds = diff.mag_sq();
                    let mf = tdiv_exec(ums, MAX_FORCE_DIVISOR);
                    proof {
                        assert(mf == max_force_of(w0.units[i as int]));
                    }
                    if ds < mf {
                        pop = true;
                    }
                },
                Some(Command::Interact { target, ty, range_sq }) => {
                    let resolv = target < n && world.units[target].pos.is_some();
                    proof {
                        if (target as int) < n as int {
                            assert(world.units@[target as int]@ == world@.units[target as int]);
                            if (target as int) < i as int {
                                lemma_persuit_unit_frame(w0, target as int);
                                assert(world@.units[target as int]
                                    == persuit_unit(w0, target as int));
                            } else {
                                assert(world@.units[target as int] == w0.units[target as int]);
                            }
                            assert(world@.units[target as int].pos == w0.units[target as int].pos);
                            assert(unit_wf(w0.units[target as int]));
                        }
                        assert(resolv == resolvable(w0, target as int));
                    }
                    if !resolv {
                        pop = true;
                    } else {
                        let tref = &world.units[target];
                        let tb = Boid {
                            pos: tref.pos.unwrap(),
                            vel: tref.vel,
                            max_vel: tref.max_speed,
                            radius_sq: SHIP_RADIUS_SQ,
                        };
                        proof {
                            assert(tb@ == boid_of(w0.units[target as int]));
                            assert(boid_wf(tb@));
                        }
                        // Ships turn constantly, so a predictive lead makes
                        // the intercept point of a far-away target wobble
                        // visibly; plain pursuit of the present position is
                        // used deliberately.
                        force = me.persue(tb, 0);
                        let diff = pos.minus(tb.pos);
                        let ds = diff.mag_sq();
                        let mf = tdiv_exec(ums, MAX_FORCE_DIVISOR);
                        proof {
                            assert(mf == max_force_of(w0.units[i as int]));
                        }
                        if ds < range_sq + mf {
                            match ty {
                                InteractionType::BeCarriedBy => {
                                    intent = Some(CarryIntent { ship: i, target });
                                },
                                InteractionType::Mine => {},
                                InteractionType::Attack => {},
                            }
                        }
                    }
                },
            }
        }
        proof {
            assert(intent == intent_of(w0, i as int));
        }
        let um = &mut world.units[i];
        um.staging_persuit = force;
        if pop {
            if let Some(q) = &mut um.queue {
                if q.len() > 0 {
                    q.remove(0);
                }
            }
        }
        if let Some(ci) = intent {
            intents.push(ci);
        }
        proof {
            assert(world.units@[i as int]@ == world@.units[i as int]);
            assert(world@.units[i as int] =~~= persuit_unit(w0, i as int));
            let nu = world@.units[i as int];
            if nu.queue is Some {
                let q1 = nu.queue.unwrap();
                let q0 = w0.units[i as int].queue.unwrap();
                assert forall|k: int| 0 <= k < q1.len() implies cmd_wf(#[trigger] q1[k]) by {
                    if pop && q0.len() > 0 {
                        assert(q1 =~= q0.remove(0));
                        assert(q1[k] == q0[k + 1]);
                        assert(cmd_wf(q0[k + 1]));
                    } else {
                        assert(q1 == q0);
                        assert(cmd_wf(q0[k]));
                    }
                }
            }
            assert(unit_wf(world@.units[i as int]));
            assert forall|j: int| 0 <= j < n && j != i as int implies world@.units[j]
                == wpre.units[j] by {
                assert(world.units@[j] == upre[j]);
                assert(world@.units[j] == world.units@[j]@);
                assert(wpre.units[j] == upre[j]@);
            }
            assert forall|j: int| 0 <= j < i as int + 1 implies (#[trigger] world@.units[j])
                == persuit_unit(w0, j) by {
                if j != i as int {
                    assert(world@.units[j] == wpre.units[j]);
                    assert(wpre.units[j] == persuit_unit(w0, j));
                }
            }
            assert forall|j: int| i as int + 1 <= j < n implies (#[trigger] world@.units[j])
                == w0.units[j] by {
                assert(world@.units[j] == wpre.units[j]);
                assert(wpre.units[j] == w0.units[j]);
            }
            assert forall|j: int| 0 <= j < i as int + 1 implies unit_wf(
                #[trigger] world@.units[j]) by {
                if j != i as int {
                    assert(world@.units[j] == wpre.units[j]);
                    assert(unit_wf(wpre.units[j]));
                }
            }
            assert(intents@ == intents_upto(w0, i as int + 1));
        }
        i = i + 1;
    }
    proof {
        assert(world@ =~~= persuit_phase(w0));
    }
    intents
}

/// Evasion: flee a resolvable threat at half weight; clear a stale
/// relation.  Writes each unit's staged evasion force exactly as the
/// evasion pass of the model prescribes.
pub fn run_evasion(world: &mut World)
    requires
        world_wf(old(world)@),
    ensures
        final(world)@ == evasion_phase(old(world)@),
        world_wf(final(world)@),
{
    let ghost w0 = world@;
    let n = world.units.len();
    let mut i: usize = 0;
    while i < n
        invariant
            0 <= i <= n,
            n == world@.units.len(),
            n == w0.units.len(),
            world@.paused == w0.paused,
            world_wf(w0),
            forall|j: int| 0 <= j < i ==> (#[trigger] world@.units[j]) == evasion_unit(w0, j),
            forall|j: int| i <= j < n ==> (#[trigger] world@.units[j]) == w0.units[j],
            forall|j: int| 0 <= j < i ==> unit_wf(#[trigger] world@.units[j]),
        decreases n - i,
    {
        let ghost wpre = world@;
        let ghost upre = world.units@;
        proof {
            assert(world.units@[i as int]@ == world@.units[i as int]);
            assert(world@.units[i as int] == w0.units[i as int]);
            assert(unit_wf(w0.units[i as int]));
        }
        let u = &world.units[i];
        let upos = u.pos;
        let uvel = u.vel;
        let ums = u.max_speed;
        let uev = u.evading;
        let mut force = Vec3::zero();
        let mut clear = false;
        if upos.is_some() {
            match uev {
                Some(j) => {
                    let resolv = j < n && world.units[j].pos.is_some();
                    proof {
                        if (j as int) < n as int {
                            assert(world.units@[j as int]@ == world@.units[j as int]);
                            if (j as int) < i as int {
                                lemma_evasion_unit_frame(w0, j as int);
                                assert(world@.units[j as int] == evasion_unit(w0, j as int));
                            } else {
                                assert(world@.units[j as int] == w0.units[j as int]);
                            }
                            assert(world@.units[j as int].pos == w0.units[j as int].pos);
                            assert(unit_wf(w0.units[j as int]));
                        }
                        assert(resolv == resolvable(w0, j as int));
                    }
                    if resolv {
                        let tref = &world.units[j];
                        let me = Boid {
                            pos: upos.unwrap(),
                            vel: uvel,
                            max_vel: ums,
                            radius_sq: SHIP_RADIUS_SQ,
                        };
                        let tb = Boid {
                            pos: tref.pos.unwrap(),
                            vel: tref.vel,
                            max_vel: tref.max_speed,
                            radius_sq: SHIP_RADIUS_SQ,
                        };
                        proof {
                            assert(me@ == boid_of(w0.units[i as int]));
                            assert(tb@ == boid_of(w0.units[j as int]));
                            assert(boid_wf(me@));
                            assert(boid_wf(tb@));
                        }
                        let ev = me.evade(tb);
                        proof {
                            lemma_v3_div_bounded(ev@, EVASION_DIVISOR as int, STEER_LIMIT as int);
                        }
                        force = ev.div_by(EVASION_DIVISOR);
                    } else {
                        clear = true;
                    }
                },
                None => {},
            }
        }
        let um = &mut world.units[i];
        um.staging_evasion = force;
        if clear {
            um.evading = None;
        }
        proof {
            assert(world.units@[i as int]@ == world@.units[i as int]);
            assert(world@.units[i as int] =~~= evasion_unit(w0, i as int));
            assert(unit_wf(world@.units[i as int]));
            assert forall|j: int| 0 <= j < n && j != i as int implies world@.units[j]
                == wpre.units[j] by {
                assert(world.units@[j] == upre[j]);
                assert(world@.units[j] == world.units@[j]@);
                assert(wpre.units[j] == upre[j]@);
            }
            assert forall|j: int| 0 <= j < i as int + 1 implies (#[trigger] world@.units[j])
                == evasion_unit(w0, j) by {
                if j != i as int {
                    assert(world@.units[j] == wpre.units[j]);
                    assert(wpre.units[j] == evasion_unit(w0, j));
                }
            }
            assert forall|j: int| i as int + 1 <= j < n implies (#[trigger] world@.units[j])
                == w0.units[j] by {
                assert(world@.units[j] == wpre.units[j]);
                assert(wpre.units[j] == w0.units[j]);
            }
            assert forall|j: int| 0 <= j < i as int + 1 implies unit_wf(
                #[trigger] world@.units[j]) by {
                if j != i as int {
                    assert(world@.units[j] == wpre.units[j]);
                    assert(unit_wf(wpre.units[j]));
                }
            }
        }
        i = i + 1;
    }
    proof {
        assert(world@ =~~= evasion_phase(w0));
    }
}

/// The carry target a unit's front order names, if any.
fn carry_target_exec(u: &Unit) -> (r: Option<usize>)
    ensures
        r is Some ==> carry_target_of(u@) == Option::Some(r.unwrap() as int),
        r is None ==> carry_target_of(u@) is None,
{
    match &u.queue {
        None => None,
        Some(q) => {
            if q.len() == 0 {
                None
            } else {
                match q[0] {
                    Command::Interact { target, ty: InteractionType::BeCarriedBy, .. } => Some(
                        target,
                    ),
                    _ => None,
                }
            }
        },
    }
}

/// Avoidance: each unit accumulates repulsion away from every other body
/// except its carry-approach partner (in either direction), so that the
/// pair can close the distance the transition needs.
pub fn run_avoidance(world: &mut World)
    requires
        world_wf(old(world)@),
    ensures
        final(world)@ == avoidance_phase(old(world)@),
        world_wf(final(world)@),
{
    let ghost w0 = world@;
    let n = world.units.len();
    let mut i: usize = 0;
    while i < n
        invariant
            0 <= i <= n,
            n == world@.units.len(),
            n == w0.units.len(),
            world@.paused == w0.paused,
            world_wf(w0),
            forall|j: int| 0 <= j < i ==> (#[trigger] world@.units[j]) == avoidance_unit(w0, j),
            forall|j: int| i <= j < n ==> (#[trigger] world@.units[j]) == w0.units[j],
            forall|j: int| 0 <= j < i ==> unit_wf(#[trigger] world@.units[j]),
        decreases n - i,
    {
        let ghost wpre = world@;
        let ghost upre = world.units@;
        proof {
            assert(world.units@[i as int]@ == world@.units[i as int]);
            assert(world@.units[i as int] == w0.units[i as int]);
            assert(unit_wf(w0.units[i as int]));
        }
        let u = &world.units[i];
        let upos = u.pos;
        let uvel = u.vel;
        let ums = u.max_speed;
        let my_ct = carry_target_exec(u);
        proof {
            match my_ct {
                Option::Some(t) => {
                    assert(carry_target_of(w0.units[i as int]) == Option::Some(t as int));
                },
                Option::None => {
                    assert(carry_target_of(w0.units[i as int]) is None);
                },
            }
        }
        let mut force = Vec3::zero();
        if upos.is_some() {
            let me = Boid {
                pos: upos.unwrap(),
                vel: uvel,
                max_vel: ums,
                radius_sq: SHIP_RADIUS_SQ,
            };
            proof {
                assert(me@ == boid_of(w0.units[i as int]));
                assert(boid_wf(me@));
            }
            let mut cands: Vec<Boid> = Vec::new();
            let mut j: usize = 0;
            while j < n
                invariant
                    0 <= j <= n,
                    n == world@.units.len(),
                    n == w0.units.len(),
                    world_wf(w0),
                    i < n,
                    me@ == boid_of(w0.units[i as int]),
                    boid_wf(me@),
                    my_ct is Some ==> carry_target_of(w0.units[i as int]) == Option::Some(
                        my_ct.unwrap() as int),
                    my_ct is None ==> carry_target_of(w0.units[i as int]) is None,
                    forall|k: int| 0 <= k < i ==> (#[trigger] world@.units[k]) == avoidance_unit(
                        w0, k),
                    forall|k: int| i <= k < n ==> (#[trigger] world@.units[k]) == w0.units[k],
                    boids_view(cands@) == candidates_upto(w0, i as int, j as int),
                    forall|k: int| 0 <= k < cands@.len() ==> boid_wf(#[trigger] cands@[k]@),
                    cands@.len() <= j,
                decreases n - j,
            {
                proof {
                    assert(world.units@[j as int]@ == world@.units[j as int]);
                    if (j as int) < i as int {
                        lemma_avoidance_unit_frame(w0, j as int);
                        assert(world@.units[j as int] == avoidance_unit(w0, j as int));
                    } else {
                        assert(world@.units[j as int] == w0.units[j as int]);
                    }
                    assert(world@.units[j as int].pos == w0.units[j as int].pos);
                    assert(world@.units[j as int].queue == w0.units[j as int].queue);
                    assert(unit_wf(w0.units[j as int]));
                }
                let cu = &world.units[j];
                if cu.pos.is_some() {
                    let their_ct = carry_target_exec(cu);
                    proof {
                        assert(cu@.queue == w0.units[j as int].queue);
                        assert(carry_target_of(cu@) == carry_target_of(w0.units[j as int]));
                    }
                    let excl_mine = match my_ct {
                        Some(t) => t == j,
                        None => false,
                    };
                    let excl_theirs = match their_ct {
                        Some(t) => t == i,
                        None => false,
                    };
                    if !excl_mine && !excl_theirs {
                        let b = Boid {
                            pos: cu.pos.unwrap(),
                            vel: cu.vel,
                            max_vel: cu.max_speed,
                            radius_sq: SHIP_RADIUS_SQ,
                        };
                        proof {
                            assert(b@ == boid_of(w0.units[j as int]));
                            assert(boid_wf(b@));
                            assert(avoid_candidate(w0, i as int, j as int));
                        }
                        cands.push(b);
                        proof {
                            assert(boids_view(cands@) =~= candidates_upto(
                                w0, i as int, j as int).push(b@));
                        }
                    } else {
                        proof {
                            assert(!avoid_candidate(w0, i as int, j as int));
                        }
                    }
                } else {
                    proof {
                        assert(!avoid_candidate(w0, i as int, j as int));
                    }
                }
                j = j + 1;
            }
            proof {
                assert(candidates_upto(w0, i as int, n as int) == spec_candidates(w0, i as int));
                assert(cands@.len() * REPULSE as int <= n as int * REPULSE as int);
            }
            let raw = me.avoidance(&cands);
            proof {
                lemma_v3_div_bounded(raw@, AVOIDANCE_DIVISOR as int,
                    cands@.len() * REPULSE as int);
                assert(v3_bounded(raw@, FORCE_LIMIT as int));
            }
            force = raw.div_by(AVOIDANCE_DIVISOR);
            proof {
                lemma_v3_div_bounded(raw@, AVOIDANCE_DIVISOR as int, FORCE_LIMIT as int);
                assert(v3_bounded(force@, FORCE_LIMIT as int));
            }
        }
        let um = &mut world.units[i];
        um.staging_avoidance = force;
        proof {
            assert(world.units@[i as int]@ == world@.units[i as int]);
            assert(world@.units[i as int] =~~= avoidance_unit(w0, i as int));
            assert(unit_wf(world@.units[i as int]));
            assert forall|j: int| 0 <= j < n && j != i as int implies world@.units[j]
                == wpre.units[j] by {
                assert(world.units@[j] == upre[j]);
                assert(world@.units[j] == world.units@[j]@);
                assert(wpre.units[j] == upre[j]@);
            }
            assert forall|j: int| 0 <= j < i as int + 1 implies (#[trigger] world@.units[j])
                == avoidance_unit(w0, j) by {
                if j != i as int {
                    assert(world@.units[j] == wpre.units[j]);
                    assert(wpre.units[j] == avoidance_unit(w0, j));
                }
            }
            assert forall|j: int| i as int + 1 <= j < n implies (#[trigger] world@.units[j])
                == w0.units[j] by {
                assert(world@.units[j] == wpre.units[j]);
                assert(wpre.units[j] == w0.units[j]);
            }
            assert forall|j: int| 0 <= j < i as int + 1 implies unit_wf(
                #[trigger] world@.units[j]) by {
                if j != i as int {
                    assert(world@.units[j] == wpre.units[j]);
                    assert(unit_wf(wpre.units[j]));
                }
            }
        }
        i = i + 1;
    }
    proof {
        assert(world@ =~~= avoidance_phase(w0));
    }
}

/// A carry transition preserves well-formedness: it only moves or clears
/// components and appends identities.
pub proof fn lemma_apply_intent_wf(w: WorldModel, ci: CarryIntent)
    requires
        world_wf(w),
    ensures
        world_wf(apply_intent(w, ci).0),
        apply_intent(w, ci).0.units.len() == w.units.len(),
        apply_intent(w, ci).0.paused == w.paused,
{
    let w1 = apply_intent(w, ci).0;
    let s = ci.ship as int;
    let t = ci.target as int;
    assert forall|j: int| 0 <= j < w1.units.len() implies unit_wf(#[trigger] w1.units[j]) by {
        assert(unit_wf(w.units[j]));
        if j == s || j == t {
            let q0 = w.units[j].queue;
            if q0 is Some && w1.units[j].queue is Some {
                let qs0 = q0.unwrap();
                let qs1 = w1.units[j].queue.unwrap();
                assert forall|k: int| 0 <= k < qs1.len() implies cmd_wf(#[trigger] qs1[k]) by {
                    if qs1 == qs0.remove(0) && qs0.len() > 0 {
                        assert(qs1[k] == qs0[k + 1]);
                    } else if qs1 == qs0 {
                        assert(cmd_wf(qs0[k]));
                    }
                }
            }
        }
    }
}

/// Flush the deferred carry transitions, in submission order: append the
/// ship to the target's carrying list, consume its queue, remove its
/// position and splice its nesting list onto the target's; a target
/// without carry capability (or the ship itself) abandons the order with
/// a diagnostic instead.
pub fn flush_carry_intents(world: &mut World, intents: &Vec<CarryIntent>) -> (diags: Vec<
    CarryDiagnostic,
>)
    requires
        world_wf(old(world)@),
    ensures
        final(world)@ == flush_upto(old(world)@, intents@, intents@.len() as int),
        diags@ == flush_diags_upto(old(world)@, intents@, intents@.len() as int),
        world_wf(final(world)@),
{
    let ghost w0 = world@;
    let n = world.units.len();
    let m = intents.len();
    let mut diags: Vec<CarryDiagnostic> = Vec::new();
    let mut k: usize = 0;
    while k < m
        invariant
            0 <= k <= m,
            m == intents@.len(),
            n == w0.units.len(),
            n == world@.units.len(),
            world_wf(w0),
            world@ == flush_upto(w0, intents@, k as int),
            diags@ == flush_diags_upto(w0, intents@, k as int),
            world_wf(world@),
        decreases m - k,
    {
        let ghost wpre = world@;
        let ghost upre = world.units@;
        let ci = intents[k];
        let ship = ci.ship;
        let target = ci.target;
        if ship < n && target < n {
            if ship == target {
                proof {
                    assert(world.units@[ship as int]@ == world@.units[ship as int]);
                }
                let su = &mut world.units[ship];
                if let Some(q) = &mut su.queue {
                    if q.len() > 0 {
                        q.remove(0);
                    }
                }
                diags.push(CarryDiagnostic { ship, target, error: CarryError::TargetIsSelf });
                proof {
                    assert(world.units@[ship as int]@ == world@.units[ship as int]);
                    assert(world@.units[ship as int] =~~= apply_intent(wpre, ci).0.units[
                        ship as int]);
                    assert forall|j: int| 0 <= j < n && j != ship as int implies
                        world@.units[j] == wpre.units[j] by {
                        assert(world.units@[j] == upre[j]);
                        assert(world@.units[j] == world.units@[j]@);
                        assert(wpre.units[j] == upre[j]@);
                    }
                    assert(world@ =~~= apply_intent(wpre, ci).0);
                }
            } else {
                let has_carrying = world.units[target].carrying.is_some();
                if has_carrying {
                    proof {
                        assert(world.units@[target as int]@ == world@.units[target as int]);
                        assert(world.units@[ship as int]@ == world@.units[ship as int]);
                    }
                    let tu = &mut world.units[target];
                    if let Some(c) = &mut tu.carrying {
                        c.push(ship);
                    }
                    let both = world.units[ship].on_board.is_some()
                        && world.units[target].on_board.is_some();
                    if both {
                        let sob_opt = world.units[ship].on_board.take();
                        let mut sob = sob_opt.unwrap();
                        let tu2 = &mut world.units[target];
                        if let Some(tob) = &mut tu2.on_board {
                            tob.append(&mut sob);
                        }
                        let su2 = &mut world.units[ship];
                        su2.on_board = Some(sob);
                    }
                    let su3 = &mut world.units[ship];
                    if let Some(q) = &mut su3.queue {
                        q.clear();
                    }
                    su3.pos = None;
                    proof {
                        assert(world.units@[ship as int]@ == world@.units[ship as int]);
                        assert(world.units@[target as int]@ == world@.units[target as int]);
                        let su0 = wpre.units[ship as int];
                        let tu0 = wpre.units[target as int];
                        let splice = su0.on_board is Some && tu0.on_board is Some;
                        if splice {
                            assert(world@.units[target as int].on_board.unwrap()
                                =~= tu0.on_board.unwrap() + su0.on_board.unwrap());
                            assert(world@.units[ship as int].on_board.unwrap()
                                =~= Seq::<int>::empty());
                        }
                        assert(world@.units[target as int].carrying.unwrap()
                            =~= tu0.carrying.unwrap().push(ship as int));
                        assert(world@.units[ship as int] =~~= apply_intent(wpre, ci).0.units[
                            ship as int]);
                        assert(world@.units[target as int] =~~= apply_intent(wpre, ci).0.units[
                            target as int]);
                        assert forall|j: int| 0 <= j < n && j != ship as int && j != target as int
                            implies world@.units[j] == wpre.units[j] by {
                            assert(world.units@[j] == upre[j]);
                            assert(world@.units[j] == world.units@[j]@);
                            assert(wpre.units[j] == upre[j]@);
                        }
                        assert(world@ =~~= apply_intent(wpre, ci).0);
                    }
                } else {
                    proof {
                        assert(world.units@[ship as int]@ == world@.units[ship as int]);
                    }
                    let su = &mut world.units[ship];
                    if let Some(q) = &mut su.queue {
                        if q.len() > 0 {
                            q.remove(0);
                        }
                    }
                    diags.push(CarryDiagnostic {
                        ship,
                        target,
                        error: CarryError::TargetCannotCarry,
                    });
                    proof {
                        assert(world.units@[ship as int]@ == world@.units[ship as int]);
                        assert(world@.units[ship as int] =~~= apply_intent(wpre, ci).0.units[
                            ship as int]);
                        assert forall|j: int| 0 <= j < n && j != ship as int implies
                            world@.units[j] == wpre.units[j] by {
                            assert(world.units@[j] == upre[j]);
                            assert(world@.units[j] == world.units@[j]@);
                            assert(wpre.units[j] == upre[j]@);
                        }
                        assert(world@ =~~= apply_intent(wpre, ci).0);
                    }
                }
            }
        } else {
            proof {
                assert(world@ =~~= apply_intent(wpre, ci).0);
            }
        }
        proof {
            lemma_apply_intent_wf(wpre, ci);
            assert(world@ == flush_upto(w0, intents@, k as int + 1));
            assert(diags@ == flush_diags_upto(w0, intents@, k as int + 1));
        }
        k = k + 1;
    }
    diags
}

/// Composition and integration: merge the three staged forces into one
/// steering vector (pure braking when they cancel), clamp it to the force
/// cap, integrate, and clamp the new velocity to the unit's speed cap.
/// Skipped entirely while paused: velocities are frozen, not zeroed.
pub fn apply_staging_velocity(world: &mut World)
    requires
        world_wf(old(world)@),
    ensures
        final(world)@ == compose_phase(old(world)@),
        world_wf(final(world)@),
{
    if world.paused.0 {
        return;
    }
    let ghost w0 = world@;
    let n = world.units.len();
    let mut i: usize = 0;
    while i < n
        invariant
            0 <= i <= n,
            n == world@.units.len(),
            n == w0.units.len(),
            world@.paused == w0.paused,
            world_wf(w0),
            forall|j: int| 0 <= j < i ==> (#[trigger] world@.units[j]) == compose_unit(
                w0.units[j]),
            forall|j: int| i <= j < n ==> (#[trigger] world@.units[j]) == w0.units[j],
            forall|j: int| 0 <= j < i ==> unit_wf(#[trigger] world@.units[j]),
        decreases n - i,
    {
        let ghost wpre = world@;
        let ghost upre = world.units@;
        proof {
            assert(world.units@[i as int]@ == world@.units[i as int]);
            assert(world@.units[i as int] == w0.units[i as int]);
            assert(unit_wf(w0.units[i as int]));
        }
        let u = &world.units[i];
        let vel = u.vel;
        let ms = u.max_speed;
        let sp = u.staging_persuit;
        let se = u.staging_evasion;
        let sa = u.staging_avoidance;
        let s0 = sp.plus(se).plus(sa);
        let s1 = if s0 == Vec3::zero() {
            vel.negate()
        } else {
            s0
        };
        let mf = tdiv_exec(ms, MAX_FORCE_DIVISOR);
        proof {
            assert(mf == max_force_of(w0.units[i as int]));
        }
        let st = truncate(s1, mf);
        let nv = truncate(vel.plus(st), ms);
        let um = &mut world.units[i];
        um.vel = nv;
        proof {
            assert(world.units@[i as int]@ == world@.units[i as int]);
            assert(world@.units[i as int] =~~= compose_unit(w0.units[i as int]));
            assert(unit_wf(world@.units[i as int]));
            assert forall|j: int| 0 <= j < n && j != i as int implies world@.units[j]
                == wpre.units[j] by {
                assert(world.units@[j] == upre[j]);
                assert(world@.units[j] == world.units@[j]@);
                assert(wpre.units[j] == upre[j]@);
            }
            assert forall|j: int| 0 <= j < i as int + 1 implies (#[trigger] world@.units[j])
                == compose_unit(w0.units[j]) by {
                if j != i as int {
                    assert(world@.units[j] == wpre.units[j]);
                    assert(wpre.units[j] == compose_unit(w0.units[j]));
                }
            }
            assert forall|j: int| i as int + 1 <= j < n implies (#[trigger] world@.units[j])
                == w0.units[j] by {
                assert(world@.units[j] == wpre.units[j]);
                assert(wpre.units[j] == w0.units[j]);
            }
            assert forall|j: int| 0 <= j < i as int + 1 implies unit_wf(
                #[trigger] world@.units[j]) by {
                if j != i as int {
                    assert(world@.units[j] == wpre.units[j]);
                    assert(unit_wf(wpre.units[j]));
                }
            }
        }
        i = i + 1;
    }
    proof {
        assert(world@ =~~= compose_phase(w0));
    }
}

/// One whole simulation tick: the three staged passes, the deferred
/// carry flush in submission order, then composition and integration.
/// Returns the structured diagnostics of the carry transitions that were
/// abandoned this tick.
pub fn run_tick(world: &mut World) -> (diags: Vec<CarryDiagnostic>)
    requires
        world_wf(old(world)@),
    ensures
        final(world)@ == spec_tick(old(world)@),
        diags@ == spec_tick_diags(old(world)@),
        world_wf(final(world)@),
{
    let intents = run_persuit(world);
    run_evasion(world);
    run_avoidance(world);
    let diags = flush_carry_intents(world, &intents);
    apply_staging_velocity(world);
    diags
}

} // verus!
