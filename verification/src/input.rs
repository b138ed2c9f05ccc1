use vstd::prelude::*;

verus! {

/// A key that the player controls react to; every other key is `Other`.
#[derive(Debug, Clone, Copy, PartialEq, Eq, Structural)]
pub enum Key {
    W,
    S,
    A,
    D,
    ShiftLeft,
    ShiftRight,
    Space,
    Other,
}

/// The value of a movement axis driven by two opposing controls: 1 when only the
/// positive control is held, -1 when only the negative one is, 0 otherwise.
pub open spec fn axis_value(positive: bool, negative: bool) -> i8 {
    if positive && !negative {
        1i8
    } else if !positive && negative {
        -1i8
    } else {
        0i8
    }
}

/// The value of a movement axis driven by two opposing controls.
pub fn axis(positive: bool, negative: bool) -> (a: i8)
    ensures
        a == axis_value(positive, negative),
{
    if positive && !negative {
        1
    } else if !positive && negative {
        -1
    } else {
        0
    }
}

/// Which player controls are held, whether a jump was pressed this frame, and how the
/// cursor is being read.
#[derive(Debug, Clone, Copy, PartialEq, Eq, Structural)]
pub struct KeyState {
    pub forward: bool,
    pub back: bool,
    pub left: bool,
    pub right: bool,
    pub sprint: bool,
    pub jump_held: bool,
    /// A jump was pressed since the end of the last frame.
    pub jump_pressed: bool,
    pub cursor_captured: bool,
    /// Raw mouse motion arrived this frame, so cursor positions are not used for looking.
    pub received_raw_mouse: bool,
}

/// The state in which nothing is held, pressed or captured.
pub open spec fn idle_keys() -> KeyState {
    KeyState {
        forward: false,
        back: false,
        left: false,
        right: false,
        sprint: false,
        jump_held: false,
        jump_pressed: false,
        cursor_captured: false,
        received_raw_mouse: false,
    }
}

/// The state after `key` was pressed (`pressed`) or released, `repeat` telling an
/// auto-repeat event. Space starts a jump only on a fresh press while it is not held.
pub open spec fn after_key(s: KeyState, key: Key, pressed: bool, repeat: bool) -> KeyState {
    match key {
        Key::W => KeyState { forward: pressed, ..s },
        Key::S => KeyState { back: pressed, ..s },
        Key::A => KeyState { left: pressed, ..s },
        Key::D => KeyState { right: pressed, ..s },
        Key::ShiftLeft | Key::ShiftRight => KeyState { sprint: pressed, ..s },
        Key::Space => KeyState {
            jump_pressed: s.jump_pressed || (pressed && !repeat && !s.jump_held),
            jump_held: pressed,
            ..s
        },
        Key::Other => s,
    }
}

/// The state at the start of the next frame: the jump press and the raw-mouse flag are
/// consumed, held keys stay.
pub open spec fn after_frame(s: KeyState) -> KeyState {
    KeyState { jump_pressed: false, received_raw_mouse: false, ..s }
}

impl Default for KeyState {
    fn default() -> (s: Self)
        ensures
            s == idle_keys(),
    {
        KeyState {
            forward: false,
            back: false,
            left: false,
            right: false,
            sprint: false,
            jump_held: false,
            jump_pressed: false,
            cursor_captured: false,
            received_raw_mouse: false,
        }
    }
}

impl KeyState {
    /// Forward movement: 1 forward, -1 back, 0 when neither or both are held.
    pub open spec fn forward_axis(self) -> i8 {
        axis_value(self.forward, self.back)
    }

    /// Sideways movement: 1 right, -1 left, 0 when neither or both are held.
    pub open spec fn right_axis(self) -> i8 {
        axis_value(self.right, self.left)
    }

    /// Records a key event.
    pub fn handle_key(&mut self, key: Key, pressed: bool, repeat: bool)
        ensures
            *final(self) == after_key(*old(self), key, pressed, repeat),
    {
        match key {
            Key::W => self.forward = pressed,
            Key::S => self.back = pressed,
            Key::A => self.left = pressed,
            Key::D => self.right = pressed,
            Key::ShiftLeft | Key::ShiftRight => self.sprint = pressed,
            Key::Space => {
                if pressed && !repeat && !self.jump_held {
                    self.jump_pressed = true;
                }
                self.jump_held = pressed;
            },
            Key::Other => {},
        }
    }

    /// Forward movement: 1 forward, -1 back, 0 when neither or both are held.
    pub fn move_forward(&self) -> (a: i8)
        ensures
            a == self.forward_axis(),
    {
        axis(self.forward, self.back)
    }

    /// Sideways movement: 1 right, -1 left, 0 when neither or both are held.
    pub fn move_right(&self) -> (a: i8)
        ensures
            a == self.right_axis(),
    {
        axis(self.right, self.left)
    }

    /// Whether cursor positions should be turned into look motion: the cursor is
    /// captured and no raw mouse motion arrived this frame.
    pub fn tracks_cursor(&self) -> (t: bool)
        ensures
            t == (self.cursor_captured && !self.received_raw_mouse),
    {
        self.cursor_captured && !self.received_raw_mouse
    }

    /// Ends the frame: the jump press and the raw-mouse flag are consumed.
    pub fn end_frame(&mut self)
        ensures
            *final(self) == after_frame(*old(self)),
    {
        self.jump_pressed = false;
        self.received_raw_mouse = false;
    }

    /// Forgets every held key and releases the cursor, as when the window loses focus.
    pub fn clear_focus_state(&mut self)
        ensures
            *final(self) == idle_keys(),
    {
        self.forward = false;
        self.back = false;
        self.left = false;
        self.right = false;
        self.sprint = false;
        self.jump_held = false;
        self.jump_pressed = false;
        self.cursor_captured = false;
        self.received_raw_mouse = false;
    }
}

/// Opposing controls cancel symmetrically: swapping them negates the axis.
pub proof fn axis_is_antisymmetric(positive: bool, negative: bool)
    ensures
        axis_value(positive, negative) == -axis_value(negative, positive),
{
}

/// Holding Space starts one jump: once the press of a fresh Space key was consumed by the
/// end of a frame, further presses (auto-repeat or not) start no jump until it is released.
pub proof fn jump_starts_once_per_press(s: KeyState, repeat: bool)
    requires
        !s.jump_held,
    ensures
        after_key(s, Key::Space, true, false).jump_pressed,
        !after_key(after_frame(after_key(s, Key::Space, true, false)), Key::Space, true, repeat).jump_pressed,
        after_key(
            after_key(after_frame(after_key(s, Key::Space, true, false)), Key::Space, false, false),
            Key::Space,
            true,
            false,
        ).jump_pressed,
{
}

/// Movement and sprint keys are held exactly while pressed: after an event for `W`, `S`,
/// `A`, `D` or a Shift key, its control is held iff the event is a press, whatever was held
/// before, and every other control is left as it was. Releasing a key therefore stops the
/// movement it drove.
pub proof fn keys_are_held_while_pressed(s: KeyState, pressed: bool, repeat: bool)
    ensures
        after_key(s, Key::W, pressed, repeat).forward == pressed,
        after_key(s, Key::S, pressed, repeat).back == pressed,
        after_key(s, Key::A, pressed, repeat).left == pressed,
        after_key(s, Key::D, pressed, repeat).right == pressed,
        after_key(s, Key::ShiftLeft, pressed, repeat).sprint == pressed,
        after_key(s, Key::ShiftRight, pressed, repeat).sprint == pressed,
        after_key(s, Key::Space, pressed, repeat).jump_held == pressed,
        after_key(s, Key::W, pressed, repeat) == (KeyState { forward: pressed, ..s }),
        after_key(s, Key::S, pressed, repeat) == (KeyState { back: pressed, ..s }),
        after_key(s, Key::A, pressed, repeat) == (KeyState { left: pressed, ..s }),
        after_key(s, Key::D, pressed, repeat) == (KeyState { right: pressed, ..s }),
        after_key(s, Key::Other, pressed, repeat) == s,
        !pressed ==> after_key(s, Key::D, pressed, repeat).right_axis() <= 0,
        !pressed ==> after_key(s, Key::A, pressed, repeat).right_axis() >= 0,
        !pressed ==> after_key(s, Key::W, pressed, repeat).forward_axis() <= 0,
        !pressed ==> after_key(s, Key::S, pressed, repeat).forward_axis() >= 0,
        pressed && !s.left ==> after_key(s, Key::D, pressed, repeat).right_axis() == 1,
        pressed && !s.right ==> after_key(s, Key::A, pressed, repeat).right_axis() == -1,
        pressed && !s.back ==> after_key(s, Key::W, pressed, repeat).forward_axis() == 1,
        pressed && !s.forward ==> after_key(s, Key::S, pressed, repeat).forward_axis() == -1,
{
}

} // verus!
