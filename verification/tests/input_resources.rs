//! Keyboard state handling and the plain resources around the core.

use steering_core::components::ModelId;
use steering_core::gpu_structs::DrawIndexedIndirect;
use steering_core::keyboard::{Key, KeyboardState, Tapped};
use steering_core::resources::{Dimensions, Models, Paused};

#[test]
fn tapped_latches_until_reset() {
    let mut t = Tapped(false);
    t.handle(false);
    assert!(!t.0);
    t.handle(true);
    assert!(t.0);
    // A release does not clear the latch; only the reset does.
    t.handle(false);
    assert!(t.0);
    t.reset();
    assert!(!t.0);
}

#[test]
fn keyboard_tracks_held_keys() {
    let mut k = KeyboardState::default();
    k.handle(Key::Up, true);
    k.handle(Key::Right, true);
    k.handle(Key::LShift, true);
    assert!(k.camera_forwards);
    assert!(k.camera_right);
    assert!(k.shift);
    assert!(!k.camera_left);
    k.handle(Key::Up, false);
    assert!(!k.camera_forwards);
}

#[test]
fn keyboard_latches_tapped_keys() {
    let mut k = KeyboardState::default();
    k.handle(Key::P, true);
    k.handle(Key::P, false);
    k.handle(Key::B, true);
    assert!(k.pause.0);
    assert!(k.build_fighter.0);
    assert!(!k.stop.0);
}

#[test]
fn keyboard_ignores_unmapped_keys() {
    let mut k = KeyboardState::default();
    k.handle(Key::Other, true);
    assert_eq!(k, KeyboardState::default());
}

#[test]
fn keyboard_update_clears_latches_and_keeps_held_keys() {
    let mut k = KeyboardState::default();
    k.handle(Key::Up, true);
    k.handle(Key::F, true);
    k.handle(Key::P, true);
    k.handle(Key::C, true);
    k.handle(Key::M, true);
    k.update();
    assert!(k.camera_forwards);
    assert!(k.fire);
    assert!(!k.pause.0);
    assert!(!k.center_camera.0);
    assert!(!k.build_carrier.0);
}

#[test]
fn models_select_by_identifier() {
    let models = Models(["carrier", "fighter", "explosion", "asteroid"]);
    assert_eq!(*models.get(ModelId::Carrier), "carrier");
    assert_eq!(*models.get(ModelId::Fighter), "fighter");
    assert_eq!(*models.get(ModelId::Explosion), "explosion");
    assert_eq!(*models.get(ModelId::Asteroid), "asteroid");
}

#[test]
fn plain_resources_hold_their_values() {
    let d = Dimensions { width: 1920, height: 1080 };
    assert_eq!(d.width, 1920);
    assert_eq!(d.height, 1080);
    let p = Paused(true);
    assert!(p.0);
    let draw = DrawIndexedIndirect {
        index_count: 36,
        instance_count: 128,
        base_index: 0,
        vertex_offset: -4,
        base_instance: 2,
    };
    assert_eq!(draw.instance_count, 128);
    assert_eq!(draw.vertex_offset, -4);
    assert_eq!(DrawIndexedIndirect::default().index_count, 0);
}
