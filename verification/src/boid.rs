//! Steering primitives over a lightweight moving-body abstraction: seek,
//! pursuit with a lead factor, evasion, and neighbour avoidance.  All
//! outputs are raw, unclamped vectors; clamping is the composition stage's
//! responsibility.

use vstd::prelude::*;
use crate::vec3::{
    ceil_sqrt, lemma_abs_le, lemma_component_sq_le_mag_sq, lemma_mul_abs_bound, lemma_mul_bounds,
    lemma_scale_div_bounds, lemma_sqrt_ceil, lemma_tdiv_bound, sqrt_ceil, tdiv, tdiv_exec,
    v3_add, v3_bounded, v3_mag_sq, v3_neg, v3_scale_div, v3_sub, v3_zero, Vec3, V3,
    COMPONENT_LIMIT,
};

verus! {

/// Bound on position components of a body.
pub const POS_LIMIT: i64 = 1_000_000;

/// Bound on velocity components and on the speed cap of a body.
pub const SPEED_LIMIT: i64 = 1_000_000;

/// Bound on the squared collision radius of a body.
pub const RADIUS_SQ_LIMIT: i64 = 1_000_000;

/// Bound on the components of a point handed to `seek` (a pursuit target
/// projected ahead by the lead factor stays within it).
pub const TARGET_LIMIT: i64 = 200_000_000;

/// Bound on the lead factor of `pursue`.
pub const LEAD_LIMIT: i64 = 100;

/// Squared collision radius shared by all ships.
pub const SHIP_RADIUS_SQ: i64 = 9;

/// The avoidance proximity threshold is the combined squared collision
/// radii of the two bodies times this factor.
pub const AVOID_FACTOR: i64 = 4;

/// Strength of the repulsion a neighbour within the proximity threshold
/// contributes; the contribution is weighted inversely by distance.
pub const REPULSE: i64 = 64;

/// Lead factor used when predicting a threat's future position for evasion.
pub const EVASION_LEAD: i64 = 1;

/// Bound on the components of a seek, pursue or evade output.
pub const STEER_LIMIT: i64 = 2_000_000;

/// Mathematical model of a moving body.
#[verifier::ext_equal]
pub ghost struct BoidModel {
    pub pos: V3,
    pub vel: V3,
    pub max_vel: int,
    pub radius_sq: int,
}

/// A moving body: position, velocity, speed cap and collision radius.
#[derive(Clone, Copy, PartialEq, Eq, Structural, Debug)]
pub struct Boid {
    pub pos: Vec3,
    pub vel: Vec3,
    pub max_vel: i64,
    pub radius_sq: i64,
}

impl View for Boid {
    type V = BoidModel;

    open spec fn view(&self) -> BoidModel {
        BoidModel {
            pos: self.pos@,
            vel: self.vel@,
            max_vel: self.max_vel as int,
            radius_sq: self.radius_sq as int,
        }
    }
}

/// The bounds under which all steering arithmetic stays within the machine
/// word.
pub open spec fn boid_wf(b: BoidModel) -> bool {
    &&& v3_bounded(b.pos, POS_LIMIT as int)
    &&& v3_bounded(b.vel, SPEED_LIMIT as int)
    &&& 0 <= b.max_vel <= SPEED_LIMIT as int
    &&& 0 <= b.radius_sq <= RADIUS_SQ_LIMIT as int
}

/// Steering from the current velocity toward the velocity that would carry
/// the body straight at `target` at its speed cap.  At the target itself
/// the desired velocity is zero, so the result is pure braking.
pub open spec fn spec_seek(b: BoidModel, target: V3) -> V3 {
    let d = v3_sub(target, b.pos);
    let ds = v3_mag_sq(d);
    if ds == 0 {
        v3_neg(b.vel)
    } else {
        v3_sub(v3_scale_div(d, b.max_vel, sqrt_ceil(ds)), b.vel)
    }
}

/// The target point predicted ahead of a moving target by `lead`.
pub open spec fn spec_lead_point(t: BoidModel, lead: int) -> V3 {
    V3 { x: t.pos.x + t.vel.x * lead, y: t.pos.y + t.vel.y * lead, z: t.pos.z + t.vel.z * lead }
}

/// Seek toward the target's predicted intercept point.
pub open spec fn spec_pursue(b: BoidModel, t: BoidModel, lead: int) -> V3 {
    spec_seek(b, spec_lead_point(t, lead))
}

/// Steer away from a predicted future position of the threat: the mirror
/// of pursuit, negated.
pub open spec fn spec_evade(b: BoidModel, t: BoidModel) -> V3 {
    v3_neg(spec_pursue(b, t, EVASION_LEAD as int))
}

/// The repulsion a single neighbour contributes: along the vector away
/// from the neighbour, weighted inversely by distance, and only within the
/// proximity threshold derived from the combined collision radii.  A
/// neighbour at the exact same position contributes nothing (there is no
/// direction to flee along).
pub open spec fn spec_repulsion(b: BoidModel, o: BoidModel) -> V3 {
    let d = v3_sub(b.pos, o.pos);
    let ds = v3_mag_sq(d);
    let thr = (b.radius_sq + o.radius_sq) * AVOID_FACTOR as int;
    if 0 < ds < thr {
        V3 {
            x: tdiv(d.x * REPULSE as int, ds),
            y: tdiv(d.y * REPULSE as int, ds),
            z: tdiv(d.z * REPULSE as int, ds),
        }
    } else {
        v3_zero()
    }
}

/// Accumulated repulsion over a candidate set of neighbours; the empty set
/// yields the zero vector.
pub open spec fn spec_avoidance(b: BoidModel, s: Seq<BoidModel>) -> V3
    decreases s.len(),
{
    if s.len() == 0 {
        v3_zero()
    } else {
        v3_add(spec_avoidance(b, s.drop_last()), spec_repulsion(b, s.last()))
    }
}

/// The view of a sequence of bodies.
pub open spec fn boids_view(s: Seq<Boid>) -> Seq<BoidModel> {
    s.map_values(|b: Boid| b@)
}

/// A single neighbour's repulsion never exceeds `REPULSE` per component.
pub proof fn lemma_repulsion_bounded(b: BoidModel, o: BoidModel)
    ensures
        v3_bounded(spec_repulsion(b, o), REPULSE as int),
{
    let d = v3_sub(b.pos, o.pos);
    let ds = v3_mag_sq(d);
    let thr = (b.radius_sq + o.radius_sq) * AVOID_FACTOR as int;
    if 0 < ds < thr {
        lemma_component_sq_le_mag_sq(d);
        lemma_repulsion_component(d.x, ds);
        lemma_repulsion_component(d.y, ds);
        lemma_repulsion_component(d.z, ds);
    }
}

/// One component of the repulsion: dividing `c * REPULSE` by a squared
/// distance of which `c * c` is a part keeps the quotient within `REPULSE`.
proof fn lemma_repulsion_component(c: int, ds: int)
    requires
        ds >= 1,
        c * c <= ds,
    ensures
        -REPULSE as int <= tdiv(c * REPULSE as int, ds) <= REPULSE as int,
{
    let k = REPULSE as int;
    assert(-ds <= c <= ds) by (nonlinear_arith)
        requires ds >= 1 && c * c <= ds,
    {}
    lemma_tdiv_bound(c * k, ds);
    let q = tdiv(c * k, ds);
    if c >= 0 {
        assert(q * ds <= c * k && q >= 0);
        assert(q <= k) by (nonlinear_arith)
            requires ds >= 1 && 0 <= c <= ds && q >= 0 && q * ds <= c * k && k > 0,
        {}
    } else {
        assert(q * ds >= c * k && q <= 0);
        assert(q >= -k) by (nonlinear_arith)
            requires ds >= 1 && -ds <= c < 0 && q <= 0 && q * ds >= c * k && k > 0,
        {}
    }
}

/// The accumulated avoidance vector is bounded by the number of
/// neighbours times the per-neighbour repulsion strength.
pub proof fn lemma_avoidance_bounded(b: BoidModel, s: Seq<BoidModel>)
    ensures
        v3_bounded(spec_avoidance(b, s), s.len() * REPULSE as int),
    decreases s.len(),
{
    if s.len() == 0 {
    } else {
        lemma_avoidance_bounded(b, s.drop_last());
        lemma_repulsion_bounded(b, s.last());
    }
}

impl Boid {
    /// A steering vector pointing from the current velocity toward the
    /// velocity that would carry the body straight at `target`.
    pub fn seek(self, target: Vec3) -> (r: Vec3)
        requires
            boid_wf(self@),
            v3_bounded(target@, TARGET_LIMIT as int),
        ensures
            r@ == spec_seek(self@, target@),
            v3_bounded(r@, STEER_LIMIT as int),
    {
        let d = target.minus(self.pos);
        let ds = d.mag_sq();
        if ds == 0 {
            self.vel.negate()
        } else {
            let m = ceil_sqrt(ds);
            proof {
                lemma_sqrt_ceil(ds as int);
                assert(m >= 1) by (nonlinear_arith)
                    requires m >= 0 && m * m >= ds && ds >= 1,
                {}
                lemma_component_sq_le_mag_sq(d@);
                lemma_abs_le(d@.x, m as int);
                lemma_abs_le(d@.y, m as int);
                lemma_abs_le(d@.z, m as int);
                lemma_scale_div_bounds(d@, self@.max_vel, m as int);
                lemma_mul_abs_bound(d@.x, self.max_vel as int, COMPONENT_LIMIT as int);
                lemma_mul_abs_bound(d@.y, self.max_vel as int, COMPONENT_LIMIT as int);
                lemma_mul_abs_bound(d@.z, self.max_vel as int, COMPONENT_LIMIT as int);
            }
            let desired = Vec3 {
                x: tdiv_exec(d.x * self.max_vel, m),
                y: tdiv_exec(d.y * self.max_vel, m),
                z: tdiv_exec(d.z * self.max_vel, m),
            };
            desired.minus(self.vel)
        }
    }

    /// Seek toward the point the target will occupy `lead_factor` ticks
    /// ahead at its current velocity.  A lead factor of zero pursues the
    /// target's present position.
    pub fn persue(self, target: Boid, lead_factor: i64) -> (r: Vec3)
        requires
            boid_wf(self@),
            boid_wf(target@),
            0 <= lead_factor <= LEAD_LIMIT,
        ensures
            r@ == spec_pursue(self@, target@, lead_factor as int),
            v3_bounded(r@, STEER_LIMIT as int),
    {
        proof {
            lemma_mul_bounds(target@.vel.x, lead_factor as int, SPEED_LIMIT as int, LEAD_LIMIT as int);
            lemma_mul_bounds(target@.vel.y, lead_factor as int, SPEED_LIMIT as int, LEAD_LIMIT as int);
            lemma_mul_bounds(target@.vel.z, lead_factor as int, SPEED_LIMIT as int, LEAD_LIMIT as int);
        }
        let predicted = Vec3 {
            x: target.pos.x + target.vel.x * lead_factor,
            y: target.pos.y + target.vel.y * lead_factor,
            z: target.pos.z + target.vel.z * lead_factor,
        };
        self.seek(predicted)
    }

    /// Steer away from the threat's predicted future position.
    pub fn evade(self, threat: Boid) -> (r: Vec3)
        requires
            boid_wf(self@),
            boid_wf(threat@),
        ensures
            r@ == spec_evade(self@, threat@),
            v3_bounded(r@, STEER_LIMIT as int),
    {
        self.persue(threat, EVASION_LEAD).negate()
    }

    /// Accumulated repulsion away from every candidate neighbour within
    /// the proximity threshold; tolerates an empty candidate set.
    pub fn avoidance(self, neighbors: &Vec<Boid>) -> (r: Vec3)
        requires
            boid_wf(self@),
            forall|i: int| 0 <= i < neighbors@.len() ==> boid_wf(#[trigger] neighbors@[i]@),
            neighbors@.len() * REPULSE as int <= 1_000_000_000,
        ensures
            r@ == spec_avoidance(self@, boids_view(neighbors@)),
            v3_bounded(r@, neighbors@.len() * REPULSE as int),
    {
        let mut acc = Vec3::zero();
        let mut i: usize = 0;
        let n = neighbors.len();
        while i < n
            invariant
                0 <= i <= n,
                n == neighbors@.len(),
                boid_wf(self@),
                forall|j: int| 0 <= j < n ==> boid_wf(#[trigger] neighbors@[j]@),
                n * REPULSE as int <= 1_000_000_000,
                acc@ == spec_avoidance(self@, boids_view(neighbors@).subrange(0, i as int)),
                v3_bounded(acc@, i as int * REPULSE as int),
            decreases n - i,
        {
            let c = self.repulsion(neighbors[i]);
            proof {
                let pre = boids_view(neighbors@).subrange(0, i as int);
                let nxt = boids_view(neighbors@).subrange(0, i as int + 1);
                assert(nxt.drop_last() =~= pre);
                assert(nxt.last() == neighbors@[i as int]@);
                assert((i as int + 1) * REPULSE as int == i as int * REPULSE as int + REPULSE as int)
                    by (nonlinear_arith)
                {}
                assert(i as int * REPULSE as int >= 0) by (nonlinear_arith)
                    requires i >= 0,
                {}
            }
            acc = acc.plus(c);
            i = i + 1;
        }
        proof {
            assert(boids_view(neighbors@).subrange(0, n as int) =~= boids_view(neighbors@));
        }
        acc
    }

    /// The repulsion contributed by a single neighbour.
    fn repulsion(self, o: Boid) -> (r: Vec3)
        requires
            boid_wf(self@),
            boid_wf(o@),
        ensures
            r@ == spec_repulsion(self@, o@),
            v3_bounded(r@, REPULSE as int),
    {
        proof {
            lemma_repulsion_bounded(self@, o@);
        }
        let d = self.pos.minus(o.pos);
        let ds = d.mag_sq();
        let thr = (self.radius_sq + o.radius_sq) * AVOID_FACTOR;
        if 0 < ds && ds < thr {
            Vec3 {
                x: tdiv_exec(d.x * REPULSE, ds),
                y: tdiv_exec(d.y * REPULSE, ds),
                z: tdiv_exec(d.z * REPULSE, ds),
            }
        } else {
            Vec3::zero()
        }
    }
}

/// Lead factor zero degenerates pursuit into plain seek of the target's
/// present position.
pub proof fn lemma_pursue_zero_lead(b: BoidModel, t: BoidModel)
    ensures
        spec_pursue(b, t, 0) == spec_seek(b, t.pos),
{
    assert(spec_lead_point(t, 0) =~= t.pos);
}

/// Seeking the point the body already occupies, with zero velocity, yields
/// a zero-magnitude steering vector.
pub proof fn lemma_seek_at_rest(b: BoidModel)
    requires
        b.vel == v3_zero(),
    ensures
        spec_seek(b, b.pos) == v3_zero(),
{
    assert(v3_sub(b.pos, b.pos) =~= v3_zero());
    assert(spec_seek(b, b.pos) =~= v3_zero());
}

} // verus!
