//! Keyboard state consumed by the camera and command-issuing systems:
//! held keys are plain flags, tapped keys latch until the end-of-frame
//! reset.

use vstd::prelude::*;

verus! {

/// A key the state distinguishes; anything else is `Other` and ignored.
#[derive(Clone, Copy, PartialEq, Eq, Structural, Debug)]
pub enum Key {
    Up,
    Left,
    Down,
    Right,
    C,
    F,
    LShift,
    S,
    P,
    U,
    A,
    Escape,
    L,
    B,
    N,
    M,
    Other,
}

/// A key that latches on press and is cleared once per frame.
#[derive(Clone, Copy, PartialEq, Eq, Structural, Debug, Default)]
pub struct Tapped(pub bool);

impl Tapped {
    /// Latch the flag if the key is pressed.
    pub fn handle(&mut self, pressed: bool)
        ensures
            final(self).0 == (old(self).0 || pressed),
    {
        self.0 = self.0 || pressed;
    }

    /// Clear the latch.
    pub fn reset(&mut self)
        ensures
            final(self).0 == false,
    {
        self.0 = false;
    }
}

/// All keyboard-driven intent the simulation reads.
#[derive(Clone, Copy, PartialEq, Eq, Structural, Debug, Default)]
pub struct KeyboardState {
    pub camera_forwards: bool,
    pub camera_left: bool,
    pub camera_back: bool,
    pub camera_right: bool,
    pub center_camera: Tapped,
    pub fire: bool,
    pub shift: bool,
    pub stop: Tapped,
    pub pause: Tapped,
    pub unload: Tapped,
    pub attack_move: Tapped,
    pub escape: Tapped,
    pub load: Tapped,
    pub build_fighter: Tapped,
    pub build_miner: Tapped,
    pub build_carrier: Tapped,
}

/// The state after the end-of-frame reset: every tapped latch cleared,
/// held keys kept.
pub open spec fn spec_update(s: KeyboardState) -> KeyboardState {
    KeyboardState {
        center_camera: Tapped(false),
        stop: Tapped(false),
        pause: Tapped(false),
        unload: Tapped(false),
        escape: Tapped(false),
        attack_move: Tapped(false),
        load: Tapped(false),
        build_fighter: Tapped(false),
        build_miner: Tapped(false),
        build_carrier: Tapped(false),
        ..s
    }
}

impl KeyboardState {
    /// Record one key event: a held key tracks the pressed flag, a tapped
    /// key latches it, an unrecognised key changes nothing.
    pub fn handle(&mut self, key: Key, pressed: bool)
        ensures
            final(self).camera_forwards == if key == Key::Up { pressed } else { old(self).camera_forwards },
            final(self).camera_left == if key == Key::Left { pressed } else { old(self).camera_left },
            final(self).camera_back == if key == Key::Down { pressed } else { old(self).camera_back },
            final(self).camera_right == if key == Key::Right { pressed } else { old(self).camera_right },
            final(self).fire == if key == Key::F { pressed } else { old(self).fire },
            final(self).shift == if key == Key::LShift { pressed } else { old(self).shift },
            final(self).center_camera.0 == (old(self).center_camera.0 || (key == Key::C && pressed)),
            final(self).stop.0 == (old(self).stop.0 || (key == Key::S && pressed)),
            final(self).pause.0 == (old(self).pause.0 || (key == Key::P && pressed)),
            final(self).unload.0 == (old(self).unload.0 || (key == Key::U && pressed)),
            final(self).attack_move.0 == (old(self).attack_move.0 || (key == Key::A && pressed)),
            final(self).escape.0 == (old(self).escape.0 || (key == Key::Escape && pressed)),
            final(self).load.0 == (old(self).load.0 || (key == Key::L && pressed)),
            final(self).build_fighter.0 == (old(self).build_fighter.0 || (key == Key::B && pressed)),
            final(self).build_miner.0 == (old(self).build_miner.0 || (key == Key::N && pressed)),
            final(self).build_carrier.0 == (old(self).build_carrier.0 || (key == Key::M && pressed)),
    {
        match key {
            Key::Up => self.camera_forwards = pressed,
            Key::Left => self.camera_left = pressed,
            Key::Down => self.camera_back = pressed,
            Key::Right => self.camera_right = pressed,
            Key::C => self.center_camera = Tapped(self.center_camera.0 || pressed),
            Key::F => self.fire = pressed,
            Key::LShift => self.shift = pressed,
            Key::S => self.stop = Tapped(self.stop.0 || pressed),
            Key::P => self.pause = Tapped(self.pause.0 || pressed),
            Key::U => self.unload = Tapped(self.unload.0 || pressed),
            Key::A => self.attack_move = Tapped(self.attack_move.0 || pressed),
            Key::Escape => self.escape = Tapped(self.escape.0 || pressed),
            Key::L => self.load = Tapped(self.load.0 || pressed),
            Key::B => self.build_fighter = Tapped(self.build_fighter.0 || pressed),
            Key::N => self.build_miner = Tapped(self.build_miner.0 || pressed),
            Key::M => self.build_carrier = Tapped(self.build_carrier.0 || pressed),
            Key::Other => {}
        }
    }

    /// Clear every tapped latch at the end of the frame.
    pub fn update(&mut self)
        ensures
            *final(self) == spec_update(*old(self)),
    {
        self.center_camera.reset();
        self.stop.reset();
        self.pause.reset();
        self.unload.reset();
        self.escape.reset();
        self.attack_move.reset();
        self.load.reset();

        self.build_fighter.reset();
        self.build_miner.reset();
        self.build_carrier.reset();
    }
}

} // verus!
