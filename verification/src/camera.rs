//! Which movements the camera's keys hold down.
use vstd::prelude::*;

verus! {

/// The keys the camera reacts to.
#[derive(Clone, Copy, Debug, PartialEq, Eq, Structural)]
pub enum Key {
    KeyW,
    KeyS,
    KeyA,
    KeyD,
    ArrowLeft,
    ArrowRight,
    ArrowUp,
    ArrowDown,
    Space,
    ShiftLeft,
    /// Any other key.
    Other,
}

/// The movements currently held down.
#[derive(Clone, Copy, Debug, PartialEq, Eq, Structural)]
pub struct Controls {
    pub move_forward: bool,
    pub move_backward: bool,
    pub move_left: bool,
    pub move_right: bool,
    pub move_up: bool,
    pub move_down: bool,
    pub rotate_left: bool,
    pub rotate_right: bool,
    pub rotate_up: bool,
    pub rotate_down: bool,
}

/// The controls after `key` was pressed (`pressed`) or released: W/S move forward
/// and back, A/D left and right, the arrows rotate, Space and left Shift move up
/// and down; other keys change nothing.
pub open spec fn controls_after(c: Controls, key: Key, pressed: bool) -> Controls {
    match key {
        Key::KeyW => Controls { move_forward: pressed, ..c },
        Key::KeyS => Controls { move_backward: pressed, ..c },
        Key::KeyA => Controls { move_left: pressed, ..c },
        Key::KeyD => Controls { move_right: pressed, ..c },
        Key::ArrowLeft => Controls { rotate_left: pressed, ..c },
        Key::ArrowRight => Controls { rotate_right: pressed, ..c },
        Key::ArrowUp => Controls { rotate_up: pressed, ..c },
        Key::ArrowDown => Controls { rotate_down: pressed, ..c },
        Key::Space => Controls { move_up: pressed, ..c },
        Key::ShiftLeft => Controls { move_down: pressed, ..c },
        Key::Other => c,
    }
}

impl Controls {
    /// No movement held down.
    pub fn new() -> (c: Controls)
        ensures
            !c.move_forward && !c.move_backward && !c.move_left && !c.move_right,
            !c.move_up && !c.move_down,
            !c.rotate_left && !c.rotate_right && !c.rotate_up && !c.rotate_down,
    {
        Controls {
            move_forward: false,
            move_backward: false,
            move_left: false,
            move_right: false,
            move_up: false,
            move_down: false,
            rotate_left: false,
            rotate_right: false,
            rotate_up: false,
            rotate_down: false,
        }
    }

    /// Records that `key` was pressed or released.
    pub fn handle_input(&mut self, key: Key, pressed: bool)
        ensures
            *final(self) == controls_after(*old(self), key, pressed),
            key == Key::KeyW ==> *final(self) == (Controls { move_forward: pressed, ..*old(self) }),
            key == Key::KeyS ==> *final(self) == (Controls { move_backward: pressed, ..*old(self) }),
            key == Key::KeyA ==> *final(self) == (Controls { move_left: pressed, ..*old(self) }),
            key == Key::KeyD ==> *final(self) == (Controls { move_right: pressed, ..*old(self) }),
            key == Key::ArrowLeft ==> *final(self) == (Controls { rotate_left: pressed, ..*old(self) }),
            key == Key::ArrowRight ==> *final(self) == (Controls { rotate_right: pressed, ..*old(self) }),
            key == Key::ArrowUp ==> *final(self) == (Controls { rotate_up: pressed, ..*old(self) }),
            key == Key::ArrowDown ==> *final(self) == (Controls { rotate_down: pressed, ..*old(self) }),
            key == Key::Space ==> *final(self) == (Controls { move_up: pressed, ..*old(self) }),
            key == Key::ShiftLeft ==> *final(self) == (Controls { move_down: pressed, ..*old(self) }),
            key == Key::Other ==> *final(self) == *old(self),
    {
        let c = *self;
        let next = match key {
            Key::KeyW => Controls { move_forward: pressed, ..c },
            Key::KeyS => Controls { move_backward: pressed, ..c },
            Key::KeyA => Controls { move_left: pressed, ..c },
            Key::KeyD => Controls { move_right: pressed, ..c },
            Key::ArrowLeft => Controls { rotate_left: pressed, ..c },
            Key::ArrowRight => Controls { rotate_right: pressed, ..c },
            Key::ArrowUp => Controls { rotate_up: pressed, ..c },
            Key::ArrowDown => Controls { rotate_down: pressed, ..c },
            Key::Space => Controls { move_up: pressed, ..c },
            Key::ShiftLeft => Controls { move_down: pressed, ..c },
            Key::Other => c,
        };
        *self = next;
    }
}

/// Each key drives its own movement: W and S forward and back, A and D left and
/// right, Space and left Shift up and down, the arrows the four rotations. A
/// press or release sets exactly that movement to the key's state, and every other
/// movement stays as it was.
pub proof fn lemma_each_key_drives_its_movement(c: Controls, pressed: bool)
    ensures
        ({
            let a = controls_after(c, Key::KeyA, pressed);
            &&& a.move_left == pressed
            &&& a.move_right == c.move_right && a.move_forward == c.move_forward && a.move_backward == c.move_backward
            &&& a.move_up == c.move_up && a.move_down == c.move_down
            &&& a.rotate_left == c.rotate_left && a.rotate_right == c.rotate_right
            &&& a.rotate_up == c.rotate_up && a.rotate_down == c.rotate_down
        }),
        ({
            let d = controls_after(c, Key::KeyD, pressed);
            &&& d.move_right == pressed
            &&& d.move_left == c.move_left && d.move_forward == c.move_forward && d.move_backward == c.move_backward
            &&& d.move_up == c.move_up && d.move_down == c.move_down
            &&& d.rotate_left == c.rotate_left && d.rotate_right == c.rotate_right
            &&& d.rotate_up == c.rotate_up && d.rotate_down == c.rotate_down
        }),
        controls_after(c, Key::KeyW, pressed) == (Controls { move_forward: pressed, ..c }),
        controls_after(c, Key::KeyS, pressed) == (Controls { move_backward: pressed, ..c }),
        controls_after(c, Key::Space, pressed) == (Controls { move_up: pressed, ..c }),
        controls_after(c, Key::ShiftLeft, pressed) == (Controls { move_down: pressed, ..c }),
        controls_after(c, Key::ArrowLeft, pressed) == (Controls { rotate_left: pressed, ..c }),
        controls_after(c, Key::ArrowRight, pressed) == (Controls { rotate_right: pressed, ..c }),
        controls_after(c, Key::ArrowUp, pressed) == (Controls { rotate_up: pressed, ..c }),
        controls_after(c, Key::ArrowDown, pressed) == (Controls { rotate_down: pressed, ..c }),
        controls_after(c, Key::Other, pressed) == c,
        controls_after(controls_after(c, Key::KeyA, true), Key::KeyA, false).move_left == false,
{
}

} // verus!
