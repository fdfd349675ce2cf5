//! Whole-tick behaviour of the world: order resolution, the carry
//! transition and its failure modes, the avoidance exclusion, speed
//! capping, pausing, and active braking.

use steering_core::components::{Command, InteractionType};
use steering_core::steering::{
    apply_staging_velocity, run_avoidance, run_evasion, run_persuit, run_tick, CarryError,
};
use steering_core::vec3::Vec3;
use steering_core::world::World;

fn ship(world: &mut World, x: i64, y: i64, z: i64) -> usize {
    world.add_unit(Vec3::new(x, y, z), Vec3::zero(), 100)
}

fn move_to(x: i64, y: i64, z: i64) -> Command {
    Command::MoveTo { point: Vec3::new(x, y, z) }
}

fn interact(target: usize, ty: InteractionType, range_sq: i64) -> Command {
    Command::Interact { target, ty, range_sq }
}

#[test]
fn empty_world_ticks_quietly() {
    let mut world = World::new();
    let diags = run_tick(&mut world);
    assert!(diags.is_empty());
    assert!(world.units.is_empty());
}

#[test]
fn distant_move_to_accelerates_toward_point() {
    let mut world = World::new();
    let a = ship(&mut world, 0, 0, 0);
    world.push_command(a, move_to(3000, 4000, 0));
    let diags = run_tick(&mut world);
    assert!(diags.is_empty());
    // Seek force (60, 80, 0), clamped to the force cap 10 as (6, 8, 0).
    assert_eq!(world.units[a].staging_persuit, Vec3::new(60, 80, 0));
    assert_eq!(world.units[a].vel, Vec3::new(6, 8, 0));
    // The order is not yet satisfied.
    assert_eq!(world.units[a].queue.as_ref().unwrap().len(), 1);
}

#[test]
fn move_to_within_tolerance_pops_exactly_one_order() {
    let mut world = World::new();
    let a = ship(&mut world, 0, 0, 0);
    // Distance squared 2 is below the tolerance (force cap 10).
    world.push_command(a, move_to(1, 1, 0));
    world.push_command(a, move_to(5000, 0, 0));
    run_tick(&mut world);
    let queue = world.units[a].queue.as_ref().unwrap();
    assert_eq!(queue.len(), 1);
    assert_eq!(queue[0], move_to(5000, 0, 0));
}

#[test]
fn stale_interact_target_pops_order_with_no_force() {
    let mut world = World::new();
    let a = ship(&mut world, 0, 0, 0);
    world.push_command(a, interact(99, InteractionType::Attack, 100));
    let diags = run_tick(&mut world);
    assert!(diags.is_empty());
    assert_eq!(world.units[a].queue.as_ref().unwrap().len(), 0);
    assert_eq!(world.units[a].staging_persuit, Vec3::zero());
}

#[test]
fn out_of_range_interact_pursues_without_lead() {
    let mut world = World::new();
    let a = ship(&mut world, 0, 0, 0);
    let b = ship(&mut world, 2000, 0, 0);
    // The target is moving; zero lead ignores that deliberately.
    world.units[b].vel = Vec3::new(50, 0, 0);
    world.push_command(a, interact(b, InteractionType::Attack, 100));
    run_persuit(&mut world);
    assert_eq!(world.units[a].staging_persuit, Vec3::new(100, 0, 0));
    assert_eq!(world.units[a].queue.as_ref().unwrap().len(), 1);
}

#[test]
fn attack_in_range_keeps_order_and_units() {
    let mut world = World::new();
    let a = ship(&mut world, 0, 0, 0);
    let b = ship(&mut world, 2, 0, 0);
    world.push_command(a, interact(b, InteractionType::Attack, 100));
    let diags = run_tick(&mut world);
    assert!(diags.is_empty());
    assert_eq!(world.units[a].queue.as_ref().unwrap().len(), 1);
    assert!(world.units[a].pos.is_some());
    assert!(world.units[b].carrying.is_none());
}

#[test]
fn carry_transition_nests_the_ship() {
    let mut world = World::new();
    let a = ship(&mut world, 0, 0, 0);
    let b = ship(&mut world, 1, 0, 0);
    world.make_carrier(b);
    world.push_command(a, interact(b, InteractionType::BeCarriedBy, 100));
    let diags = run_tick(&mut world);
    assert!(diags.is_empty());
    assert_eq!(world.units[b].carrying.as_ref().unwrap().as_slice(), &[a]);
    assert!(world.units[a].pos.is_none());
    assert_eq!(world.units[a].queue.as_ref().unwrap().len(), 0);
    assert!(world.units[b].pos.is_some());
}

#[test]
fn carry_transition_splices_nested_units() {
    let mut world = World::new();
    let a = ship(&mut world, 0, 0, 0);
    let b = ship(&mut world, 1, 0, 0);
    let c = ship(&mut world, 500, 500, 500);
    let d = ship(&mut world, 600, 600, 600);
    // Two levels of nesting: d rides within c, both ride within a.
    world.push_on_board(c, d);
    world.push_on_board(a, c);
    world.push_on_board(a, d);
    world.make_carrier(b);
    world.push_command(a, interact(b, InteractionType::BeCarriedBy, 100));
    let diags = run_tick(&mut world);
    assert!(diags.is_empty());
    assert_eq!(world.units[b].on_board.as_ref().unwrap().as_slice(), &[c, d]);
    assert_eq!(world.units[a].on_board.as_ref().unwrap().len(), 0);
    // The deeper level is untouched by the splice.
    assert_eq!(world.units[c].on_board.as_ref().unwrap().as_slice(), &[d]);
}

#[test]
fn carry_toward_non_carrier_is_abandoned_with_diagnostic() {
    let mut world = World::new();
    let a = ship(&mut world, 0, 0, 0);
    let b = ship(&mut world, 1, 0, 0);
    world.push_command(a, interact(b, InteractionType::BeCarriedBy, 100));
    let diags = run_tick(&mut world);
    assert_eq!(diags.len(), 1);
    assert_eq!(diags[0].ship, a);
    assert_eq!(diags[0].target, b);
    assert_eq!(diags[0].error, CarryError::TargetCannotCarry);
    assert_eq!(world.units[a].queue.as_ref().unwrap().len(), 0);
    assert!(world.units[a].pos.is_some());
    assert!(world.units[b].carrying.is_none());
}

#[test]
fn carry_toward_self_is_abandoned_with_diagnostic() {
    let mut world = World::new();
    let a = ship(&mut world, 0, 0, 0);
    world.make_carrier(a);
    world.push_command(a, interact(a, InteractionType::BeCarriedBy, 100));
    let diags = run_tick(&mut world);
    assert_eq!(diags.len(), 1);
    assert_eq!(diags[0].ship, a);
    assert_eq!(diags[0].target, a);
    assert_eq!(diags[0].error, CarryError::TargetIsSelf);
    assert_eq!(world.units[a].queue.as_ref().unwrap().len(), 0);
    assert!(world.units[a].pos.is_some());
    assert_eq!(world.units[a].carrying.as_ref().unwrap().len(), 0);
}

#[test]
fn evasion_is_half_weighted() {
    let mut world = World::new();
    let a = ship(&mut world, 0, 0, 0);
    let b = ship(&mut world, 10, 0, 0);
    world.set_evading(a, b);
    run_evasion(&mut world);
    // Full evasion force is (-100, 0, 0); staged at half weight.
    assert_eq!(world.units[a].staging_evasion, Vec3::new(-50, 0, 0));
}

#[test]
fn stale_evasion_target_clears_the_relation() {
    let mut world = World::new();
    let a = ship(&mut world, 0, 0, 0);
    world.set_evading(a, 99);
    run_evasion(&mut world);
    assert!(world.units[a].evading.is_none());
    assert_eq!(world.units[a].staging_evasion, Vec3::zero());
}

#[test]
fn avoidance_excludes_the_carry_pair_both_ways() {
    let mut world = World::new();
    let a = ship(&mut world, 0, 0, 0);
    let b = ship(&mut world, 2, 0, 0);
    let e = ship(&mut world, 0, 2, 0);
    world.make_carrier(b);
    world.push_command(a, interact(b, InteractionType::BeCarriedBy, 1));
    run_avoidance(&mut world);
    // All three are within the proximity threshold of one another.
    // The approaching pair ignore each other but still avoid the
    // bystander; the bystander avoids both.
    assert_eq!(world.units[a].staging_avoidance, Vec3::new(0, -3, 0));
    assert_eq!(world.units[b].staging_avoidance, Vec3::new(1, -1, 0));
    assert_eq!(world.units[e].staging_avoidance, Vec3::new(-1, 4, 0));
}

#[test]
fn avoidance_applies_without_a_carry_order() {
    let mut world = World::new();
    let a = ship(&mut world, 0, 0, 0);
    let b = ship(&mut world, 2, 0, 0);
    let e = ship(&mut world, 0, 2, 0);
    let _ = e;
    let _ = b;
    run_avoidance(&mut world);
    // Without the order, a is repelled by both neighbours:
    // (-32, 0, 0) + (0, -32, 0), then a tenth of it.
    assert_eq!(world.units[a].staging_avoidance, Vec3::new(-3, -3, 0));
}

#[test]
fn speed_never_exceeds_the_cap() {
    let mut world = World::new();
    let a = world.add_unit(Vec3::zero(), Vec3::new(9000, 0, 0), 50);
    world.push_command(a, move_to(-400_000, 13_000, 77_000));
    for _ in 0..10 {
        run_tick(&mut world);
        let v = world.units[a].vel;
        assert!(v.mag_sq() <= 50 * 50);
    }
}

#[test]
fn oversped_unit_is_clamped_to_the_cap_in_one_tick() {
    let mut world = World::new();
    let a = world.add_unit(Vec3::zero(), Vec3::new(9000, 0, 0), 50);
    run_tick(&mut world);
    assert_eq!(world.units[a].vel, Vec3::new(50, 0, 0));
}

#[test]
fn paused_world_freezes_velocity_but_still_evaluates() {
    let mut world = World::new();
    let a = world.add_unit(Vec3::zero(), Vec3::new(5, 6, 7), 100);
    world.push_command(a, move_to(3000, 4000, 0));
    world.set_paused(true);
    run_tick(&mut world);
    assert_eq!(world.units[a].vel, Vec3::new(5, 6, 7));
    // Force evaluation still ran while paused.
    assert_eq!(world.units[a].staging_persuit, Vec3::new(55, 74, -7));
}

#[test]
fn identical_worlds_compose_identical_velocities() {
    let build = || {
        let mut world = World::new();
        let a = world.add_unit(Vec3::new(3, 1, 4), Vec3::new(1, 5, 9), 100);
        let b = world.add_unit(Vec3::new(-2, 7, 1), Vec3::new(8, -2, 8), 90);
        world.push_command(a, move_to(100, 200, 300));
        world.set_evading(b, a);
        world
    };
    let mut w1 = build();
    let mut w2 = build();
    for _ in 0..5 {
        run_tick(&mut w1);
        run_tick(&mut w2);
    }
    for i in 0..w1.units.len() {
        assert_eq!(w1.units[i].vel, w2.units[i].vel);
    }
}

#[test]
fn idle_unit_brakes_to_a_stop() {
    let mut world = World::new();
    let a = world.add_unit(Vec3::zero(), Vec3::new(30, 40, 0), 100);
    let expected = [
        Vec3::new(24, 32, 0),
        Vec3::new(18, 24, 0),
        Vec3::new(12, 16, 0),
        Vec3::new(6, 8, 0),
        Vec3::zero(),
        Vec3::zero(),
    ];
    let mut last_sq = world.units[a].vel.mag_sq();
    for step in expected {
        run_tick(&mut world);
        let v = world.units[a].vel;
        assert_eq!(v, step);
        assert!(v.mag_sq() < last_sq || last_sq == 0);
        last_sq = v.mag_sq();
    }
}

#[test]
fn unit_without_a_queue_stages_no_pursuit() {
    let mut world = World::new();
    let a = ship(&mut world, 0, 0, 0);
    world.remove_queue(a);
    let diags = run_tick(&mut world);
    assert!(diags.is_empty());
    assert_eq!(world.units[a].staging_persuit, Vec3::zero());
    assert!(world.units[a].queue.is_none());
}

#[test]
fn braking_stalls_below_a_force_cap_of_two() {
    let mut world = World::new();
    // With a speed cap of 10 the force cap truncates to 1, and the
    // braking force on a diagonal velocity rounds to zero: the unit
    // coasts instead of slowing.
    let a = world.add_unit(Vec3::zero(), Vec3::new(3, 4, 0), 10);
    run_tick(&mut world);
    assert_eq!(world.units[a].vel, Vec3::new(3, 4, 0));
}

#[test]
fn carry_transitions_flush_in_submission_order() {
    let mut world = World::new();
    let a = ship(&mut world, 0, 1, 0);
    let b = ship(&mut world, 0, 0, 0);
    let c = ship(&mut world, 1, 0, 0);
    world.make_carrier(b);
    world.push_command(a, interact(b, InteractionType::BeCarriedBy, 100));
    world.push_command(c, interact(b, InteractionType::BeCarriedBy, 100));
    let diags = run_tick(&mut world);
    assert!(diags.is_empty());
    // Both transitions land this tick, in unit order.
    assert_eq!(world.units[b].carrying.as_ref().unwrap().as_slice(), &[a, c]);
    assert!(world.units[a].pos.is_none());
    assert!(world.units[c].pos.is_none());
}

#[test]
fn carried_unit_brakes_to_rest_on_later_ticks() {
    let mut world = World::new();
    let a = ship(&mut world, 0, 0, 0);
    let b = ship(&mut world, 1, 0, 0);
    world.make_carrier(b);
    world.push_command(a, interact(b, InteractionType::BeCarriedBy, 100));
    run_tick(&mut world);
    assert!(world.units[a].pos.is_none());
    for _ in 0..30 {
        run_tick(&mut world);
    }
    // A carried unit stages no forces, so its leftover velocity decays.
    assert_eq!(world.units[a].vel, Vec3::zero());
    assert!(world.units[a].pos.is_none());
}

#[test]
fn extreme_coordinates_stay_within_the_cap() {
    let mut world = World::new();
    let a = world.add_unit(
        Vec3::new(1_000_000, -1_000_000, 1_000_000),
        Vec3::new(1_000_000, 1_000_000, -1_000_000),
        1_000_000,
    );
    world.push_command(a, move_to(-1_000_000, 1_000_000, -1_000_000));
    for _ in 0..3 {
        run_tick(&mut world);
        assert!(world.units[a].vel.mag_sq() <= 1_000_000 * 1_000_000);
    }
}

#[test]
fn composition_brakes_when_forces_cancel() {
    let mut world = World::new();
    let a = world.add_unit(Vec3::zero(), Vec3::new(6, 0, 0), 100);
    // Oppose the staged forces exactly so they cancel to zero.
    world.units[a].staging_persuit = Vec3::new(25, -4, 0);
    world.units[a].staging_evasion = Vec3::new(-20, 2, 0);
    world.units[a].staging_avoidance = Vec3::new(-5, 2, 0);
    apply_staging_velocity(&mut world);
    // Braking: velocity within the force cap stops outright.
    assert_eq!(world.units[a].vel, Vec3::zero());
}
