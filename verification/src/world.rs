//! The simulated world: one record per unit holding its motion state, its
//! order queue, its relations to other units, and the per-cause staged
//! force fields written during evaluation and consumed once per tick by
//! composition.

use vstd::prelude::*;
use crate::components::Command;
use crate::resources::Paused;
use crate::vec3::{v3_bounded, v3_zero, Vec3, V3};
use crate::boid::{POS_LIMIT, SPEED_LIMIT};

verus! {

/// Bound on how many units a world may hold; keeps every force
/// accumulation within the machine word.
pub const MAX_UNITS: usize = 1_000_000;

/// Bound on the components of a staged force field.
pub const FORCE_LIMIT: i64 = 100_000_000;

/// Bound on the squared interaction range of an order.
pub const RANGE_SQ_LIMIT: i64 = 100_000_000_000_000;

/// The maximum steering force is the unit's speed cap divided by this:
/// faster units are proportionally quicker to reach top speed and to
/// redirect.
pub const MAX_FORCE_DIVISOR: i64 = 10;

/// Evasion tempers but does not override other goals: its force is
/// divided by this.
pub const EVASION_DIVISOR: i64 = 2;

/// Weight applied to the accumulated avoidance force.
pub const AVOIDANCE_DIVISOR: i64 = 10;

/// Mathematical model of one unit.
#[verifier::ext_equal]
pub ghost struct UnitModel {
    /// Absent exactly while the unit is being carried: it then has no
    /// independent spatial existence.
    pub pos: Option<V3>,
    pub vel: V3,
    pub max_speed: int,
    /// The order queue; absent for units that take no orders.
    pub queue: Option<Seq<Command>>,
    /// The unit this unit is currently fleeing, if any.
    pub evading: Option<int>,
    /// Units currently held inside this unit; absent for units that
    /// cannot carry.
    pub carrying: Option<Seq<int>>,
    /// Bookkeeping of units nested within this unit across carry levels.
    pub on_board: Option<Seq<int>>,
    pub staging_persuit: V3,
    pub staging_evasion: V3,
    pub staging_avoidance: V3,
}

/// Mathematical model of the whole world.
#[verifier::ext_equal]
pub ghost struct WorldModel {
    pub units: Seq<UnitModel>,
    pub paused: bool,
}

/// One unit of the simulation.
pub struct Unit {
    pub pos: Option<Vec3>,
    pub vel: Vec3,
    pub max_speed: i64,
    pub queue: Option<Vec<Command>>,
    pub evading: Option<usize>,
    pub carrying: Option<Vec<usize>>,
    pub on_board: Option<Vec<usize>>,
    pub staging_persuit: Vec3,
    pub staging_evasion: Vec3,
    pub staging_avoidance: Vec3,
}

/// The view of an optional identity list.
pub open spec fn ids_view(v: Option<Vec<usize>>) -> Option<Seq<int>> {
    match v {
        Option::None => Option::None,
        Option::Some(s) => Option::Some(s@.map_values(|u: usize| u as int)),
    }
}

impl View for Unit {
    type V = UnitModel;

    open spec fn view(&self) -> UnitModel {
        UnitModel {
            pos: match self.pos {
                Option::None => Option::None,
                Option::Some(p) => Option::Some(p@),
            },
            vel: self.vel@,
            max_speed: self.max_speed as int,
            queue: match self.queue {
                Option::None => Option::None,
                Option::Some(q) => Option::Some(q@),
            },
            evading: match self.evading {
                Option::None => Option::None,
                Option::Some(e) => Option::Some(e as int),
            },
            carrying: ids_view(self.carrying),
            on_board: ids_view(self.on_board),
            staging_persuit: self.staging_persuit@,
            staging_evasion: self.staging_evasion@,
            staging_avoidance: self.staging_avoidance@,
        }
    }
}

/// The world: the unit store and the pause flag gating integration.
pub struct World {
    pub units: Vec<Unit>,
    pub paused: Paused,
}

impl View for World {
    type V = WorldModel;

    open spec fn view(&self) -> WorldModel {
        WorldModel {
            units: self.units@.map_values(|u: Unit| u@),
            paused: self.paused.0,
        }
    }
}

/// The bounds a stored command obeys.
pub open spec fn cmd_wf(c: Command) -> bool {
    match c {
        Command::MoveTo { point } => v3_bounded(point@, POS_LIMIT as int),
        Command::Interact { target, ty, range_sq } => 0 <= range_sq <= RANGE_SQ_LIMIT as int,
    }
}

/// The bounds under which every per-unit computation stays within the
/// machine word.
pub open spec fn unit_wf(u: UnitModel) -> bool {
    &&& match u.pos {
        Option::Some(p) => v3_bounded(p, POS_LIMIT as int),
        Option::None => true,
    }
    &&& v3_bounded(u.vel, SPEED_LIMIT as int)
    &&& 0 <= u.max_speed <= SPEED_LIMIT as int
    &&& match u.queue {
        Option::Some(q) => forall|i: int| 0 <= i < q.len() ==> cmd_wf(#[trigger] q[i]),
        Option::None => true,
    }
    &&& v3_bounded(u.staging_persuit, FORCE_LIMIT as int)
    &&& v3_bounded(u.staging_evasion, FORCE_LIMIT as int)
    &&& v3_bounded(u.staging_avoidance, FORCE_LIMIT as int)
}

/// Well-formedness of a whole world.
pub open spec fn world_wf(w: WorldModel) -> bool {
    &&& w.units.len() <= MAX_UNITS as int
    &&& forall|i: int| 0 <= i < w.units.len() ==> unit_wf(#[trigger] w.units[i])
}

/// The model of a freshly added unit.
pub open spec fn fresh_unit(pos: V3, vel: V3, max_speed: int) -> UnitModel {
    UnitModel {
        pos: Option::Some(pos),
        vel: vel,
        max_speed: max_speed,
        queue: Option::Some(Seq::empty()),
        evading: Option::None,
        carrying: Option::None,
        on_board: Option::Some(Seq::empty()),
        staging_persuit: v3_zero(),
        staging_evasion: v3_zero(),
        staging_avoidance: v3_zero(),
    }
}

impl World {
    /// An empty, unpaused world.
    pub fn new() -> (w: World)
        ensures
            w@.units =~= Seq::<UnitModel>::empty(),
            w@.paused == false,
            world_wf(w@),
    {
        let w = World { units: Vec::new(), paused: Paused(false) };
        proof {
            assert(w@.units =~= Seq::<UnitModel>::empty());
        }
        w
    }

    /// Add a unit with the given motion state, an empty order queue, an
    /// empty nesting list, no evasion relation and no carry capability.
    /// Returns its identity.
    pub fn add_unit(&mut self, pos: Vec3, vel: Vec3, max_speed: i64) -> (id: usize)
        requires
            world_wf(old(self)@),
            old(self)@.units.len() < MAX_UNITS as int,
            v3_bounded(pos@, POS_LIMIT as int),
            v3_bounded(vel@, SPEED_LIMIT as int),
            0 <= max_speed <= SPEED_LIMIT,
        ensures
            id == old(self)@.units.len(),
            final(self)@.units =~= old(self)@.units.push(
                fresh_unit(pos@, vel@, max_speed as int)),
            final(self)@.paused == old(self)@.paused,
            world_wf(final(self)@),
    {
        let id = self.units.len();
        self.units.push(Unit {
            pos: Some(pos),
            vel: vel,
            max_speed: max_speed,
            queue: Some(Vec::new()),
            evading: None,
            carrying: None,
            on_board: Some(Vec::new()),
            staging_persuit: Vec3::zero(),
            staging_evasion: Vec3::zero(),
            staging_avoidance: Vec3::zero(),
        });
        proof {
            assert(self@.units =~~= old(self)@.units.push(fresh_unit(pos@, vel@, max_speed as int)));
            assert forall|j: int| 0 <= j < self@.units.len() implies unit_wf(
                #[trigger] self@.units[j]) by {
                if j < old(self)@.units.len() {
                    assert(self@.units[j] == old(self)@.units[j]);
                }
            }
        }
        id
    }

    /// Give a unit an empty carrying list if it has none, making it a
    /// valid carry target.
    pub fn make_carrier(&mut self, i: usize)
        requires
            i < old(self)@.units.len(),
        ensures
            final(self)@.units.len() == old(self)@.units.len(),
            final(self)@.paused == old(self)@.paused,
            forall|j: int| 0 <= j < old(self)@.units.len() && j != i ==>
                final(self)@.units[j] == old(self)@.units[j],
            final(self)@.units[i as int] == (UnitModel {
                carrying: if old(self)@.units[i as int].carrying is Some {
                    old(self)@.units[i as int].carrying
                } else {
                    Option::Some(Seq::<int>::empty())
                },
                ..old(self)@.units[i as int]
            }),
            world_wf(old(self)@) ==> world_wf(final(self)@),
    {
        let u = &mut self.units[i];
        if u.carrying.is_none() {
            u.carrying = Some(Vec::new());
        }
        proof {
            assert(self@.units[i as int] =~~= (UnitModel {
                carrying: if old(self)@.units[i as int].carrying is Some {
                    old(self)@.units[i as int].carrying
                } else {
                    Option::Some(Seq::<int>::empty())
                },
                ..old(self)@.units[i as int]
            }));
            if world_wf(old(self)@) {
                assert forall|j: int| 0 <= j < self@.units.len() implies unit_wf(
                    #[trigger] self@.units[j]) by {
                    if j != i {
                        assert(self@.units[j] == old(self)@.units[j]);
                    } else {
                        assert(unit_wf(old(self)@.units[j]));
                    }
                }
            }
        }
    }

    /// Append an order to a unit's queue.
    pub fn push_command(&mut self, i: usize, c: Command)
        requires
            i < old(self)@.units.len(),
            old(self)@.units[i as int].queue is Some,
            cmd_wf(c),
        ensures
            final(self)@.units.len() == old(self)@.units.len(),
            final(self)@.paused == old(self)@.paused,
            forall|j: int| 0 <= j < old(self)@.units.len() && j != i ==>
                final(self)@.units[j] == old(self)@.units[j],
            final(self)@.units[i as int] == (UnitModel {
                queue: Option::Some(old(self)@.units[i as int].queue.unwrap().push(c)),
                ..old(self)@.units[i as int]
            }),
            world_wf(old(self)@) ==> world_wf(final(self)@),
    {
        let u = &mut self.units[i];
        if let Some(q) = &mut u.queue {
            q.push(c);
        }
        proof {
            assert(self@.units[i as int] =~~= (UnitModel {
                queue: Option::Some(old(self)@.units[i as int].queue.unwrap().push(c)),
                ..old(self)@.units[i as int]
            }));
            if world_wf(old(self)@) {
                let q1 = old(self)@.units[i as int].queue.unwrap().push(c);
                assert forall|k: int| 0 <= k < q1.len() implies cmd_wf(#[trigger] q1[k]) by {
                    let q0 = old(self)@.units[i as int].queue.unwrap();
                    assert(unit_wf(old(self)@.units[i as int]));
                    if k < q0.len() {
                        assert(cmd_wf(q0[k]));
                    } else {
                        assert(q1[k] == c);
                    }
                }
                assert forall|j: int| 0 <= j < self@.units.len() implies unit_wf(
                    #[trigger] self@.units[j]) by {
                    if j != i {
                        assert(self@.units[j] == old(self)@.units[j]);
                    } else {
                        assert(unit_wf(old(self)@.units[j]));
                    }
                }
            }
        }
    }

    /// Remove a unit's order queue entirely, modelling a unit that takes
    /// no orders.
    pub fn remove_queue(&mut self, i: usize)
        requires
            i < old(self)@.units.len(),
        ensures
            final(self)@.units.len() == old(self)@.units.len(),
            final(self)@.paused == old(self)@.paused,
            forall|j: int| 0 <= j < old(self)@.units.len() && j != i ==>
                final(self)@.units[j] == old(self)@.units[j],
            final(self)@.units[i as int] == (UnitModel {
                queue: Option::None,
                ..old(self)@.units[i as int]
            }),
            world_wf(old(self)@) ==> world_wf(final(self)@),
    {
        let u = &mut self.units[i];
        u.queue = None;
        proof {
            assert(self@.units[i as int] =~~= (UnitModel {
                queue: Option::None,
                ..old(self)@.units[i as int]
            }));
            if world_wf(old(self)@) {
                assert forall|j: int| 0 <= j < self@.units.len() implies unit_wf(
                    #[trigger] self@.units[j]) by {
                    if j != i {
                        assert(self@.units[j] == old(self)@.units[j]);
                    } else {
                        assert(unit_wf(old(self)@.units[j]));
                    }
                }
            }
        }
    }

    /// Record a unit as nested within another across carry levels.
    pub fn push_on_board(&mut self, i: usize, id: usize)
        requires
            i < old(self)@.units.len(),
            old(self)@.units[i as int].on_board is Some,
        ensures
            final(self)@.units.len() == old(self)@.units.len(),
            final(self)@.paused == old(self)@.paused,
            forall|j: int| 0 <= j < old(self)@.units.len() && j != i ==>
                final(self)@.units[j] == old(self)@.units[j],
            final(self)@.units[i as int] == (UnitModel {
                on_board: Option::Some(old(self)@.units[i as int].on_board.unwrap().push(
                    id as int)),
                ..old(self)@.units[i as int]
            }),
            world_wf(old(self)@) ==> world_wf(final(self)@),
    {
        let u = &mut self.units[i];
        if let Some(ob) = &mut u.on_board {
            ob.push(id);
        }
        proof {
            assert(self@.units[i as int] =~~= (UnitModel {
                on_board: Option::Some(old(self)@.units[i as int].on_board.unwrap().push(
                    id as int)),
                ..old(self)@.units[i as int]
            }));
            if world_wf(old(self)@) {
                assert forall|j: int| 0 <= j < self@.units.len() implies unit_wf(
                    #[trigger] self@.units[j]) by {
                    if j != i {
                        assert(self@.units[j] == old(self)@.units[j]);
                    } else {
                        assert(unit_wf(old(self)@.units[j]));
                    }
                }
            }
        }
    }

    /// Make a unit flee another.
    pub fn set_evading(&mut self, i: usize, threat: usize)
        requires
            i < old(self)@.units.len(),
        ensures
            final(self)@.units.len() == old(self)@.units.len(),
            final(self)@.paused == old(self)@.paused,
            forall|j: int| 0 <= j < old(self)@.units.len() && j != i ==>
                final(self)@.units[j] == old(self)@.units[j],
            final(self)@.units[i as int] == (UnitModel {
                evading: Option::Some(threat as int),
                ..old(self)@.units[i as int]
            }),
            world_wf(old(self)@) ==> world_wf(final(self)@),
    {
        let u = &mut self.units[i];
        u.evading = Some(threat);
        proof {
            assert(self@.units[i as int] =~~= (UnitModel {
                evading: Option::Some(threat as int),
                ..old(self)@.units[i as int]
            }));
            if world_wf(old(self)@) {
                assert forall|j: int| 0 <= j < self@.units.len() implies unit_wf(
                    #[trigger] self@.units[j]) by {
                    if j != i {
                        assert(self@.units[j] == old(self)@.units[j]);
                    } else {
                        assert(unit_wf(old(self)@.units[j]));
                    }
                }
            }
        }
    }

    /// Pause or resume velocity integration.
    pub fn set_paused(&mut self, paused: bool)
        ensures
            final(self)@.units == old(self)@.units,
            final(self)@.paused == paused,
    {
        self.paused = Paused(paused);
    }
}

} // verus!
