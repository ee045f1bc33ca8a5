//! Per-frame edge tracking of digital controls (keys, buttons) and the
//! registry of connected gamepads with their last raw axis readings.
use vstd::prelude::*;

verus! {

/// Number of keyboard scancodes tracked.
pub const SCANCODE_COUNT: usize = 512;

/// Number of buttons tracked per gamepad.
pub const PAD_BUTTON_COUNT: usize = 26;

/// Number of axes tracked per gamepad.
pub const PAD_AXIS_COUNT: usize = 6;

/// A digital control: down now, and down at the end of the previous frame.
#[derive(Clone, Copy, Debug, PartialEq, Eq, Structural)]
pub struct ControlState {
    pub down: bool,
    pub was_down: bool,
}

pub open spec fn released() -> ControlState {
    ControlState { down: false, was_down: false }
}

pub open spec fn control_down(s: Seq<ControlState>, c: int) -> bool {
    0 <= c < s.len() && s[c].down
}

pub open spec fn control_pressed(s: Seq<ControlState>, c: int) -> bool {
    0 <= c < s.len() && s[c].down && !s[c].was_down
}

pub open spec fn control_released(s: Seq<ControlState>, c: int) -> bool {
    0 <= c < s.len() && !s[c].down && s[c].was_down
}

/// The controls after a down/up event on control `c`; out-of-range controls
/// are ignored.
pub open spec fn with_control(s: Seq<ControlState>, c: int, down: bool) -> Seq<ControlState> {
    if 0 <= c < s.len() {
        s.update(c, ControlState { down, was_down: s[c].was_down })
    } else {
        s
    }
}

/// The controls at the start of the next frame: each remembers its state.
pub open spec fn next_frame(s: Seq<ControlState>) -> Seq<ControlState> {
    Seq::new(s.len(), |i: int| ControlState { down: s[i].down, was_down: s[i].down })
}

/// A fixed-size set of digital controls.
pub struct Buttons {
    pub states: Vec<ControlState>,
}

impl View for Buttons {
    type V = Seq<ControlState>;

    open spec fn view(&self) -> Seq<ControlState> {
        self.states@
    }
}

impl Buttons {
    /// `count` controls, all up.
    pub fn new(count: usize) -> (r: Buttons)
        ensures
            r@ == Seq::new(count as nat, |i: int| released()),
    {
        let mut states: Vec<ControlState> = Vec::new();
        let mut i: usize = 0;
        while i < count
            invariant
                i <= count,
                states@ == Seq::new(i as nat, |j: int| released()),
            decreases count - i,
        {
            states.push(ControlState { down: false, was_down: false });
            i = i + 1;
            assert(states@ =~= Seq::new(i as nat, |j: int| released()));
        }
        Buttons { states }
    }

    pub fn len(&self) -> (r: usize)
        ensures
            r == self@.len(),
    {
        self.states.len()
    }

    /// Records a down or up event on `control`.
    pub fn set(&mut self, control: usize, down: bool)
        ensures
            final(self)@ == with_control(old(self)@, control as int, down),
    {
        if control < self.states.len() {
            let was_down = self.states[control].was_down;
            self.states.set(control, ControlState { down, was_down });
        }
    }

    pub fn is_down(&self, control: usize) -> (r: bool)
        ensures
            r == control_down(self@, control as int),
    {
        control < self.states.len() && self.states[control].down
    }

    pub fn just_pressed(&self, control: usize) -> (r: bool)
        ensures
            r == control_pressed(self@, control as int),
    {
        control < self.states.len() && self.states[control].down && !self.states[control].was_down
    }

    pub fn just_released(&self, control: usize) -> (r: bool)
        ensures
            r == control_released(self@, control as int),
    {
        control < self.states.len() && !self.states[control].down && self.states[control].was_down
    }

    /// Ends the frame: every control remembers whether it is down.
    pub fn advance_frame(&mut self)
        ensures
            final(self)@ == next_frame(old(self)@),
    {
        let n = self.states.len();
        let mut i: usize = 0;
        while i < n
            invariant
                i <= n,
                n == old(self)@.len(),
                self@.len() == n,
                forall|j: int| 0 <= j < i ==> self@[j] == (ControlState {
                    down: old(self)@[j].down,
                    was_down: old(self)@[j].down,
                }),
                forall|j: int| i <= j < n ==> self@[j] == old(self)@[j],
            decreases n - i,
        {
            let down = self.states[i].down;
            self.states.set(i, ControlState { down, was_down: down });
            i = i + 1;
        }
        assert(self@ =~= next_frame(old(self)@));
    }
}

/// A pressed control stops being "just pressed" once the frame advances,
/// even while it is held.
pub proof fn lemma_pressed_once(s: Seq<ControlState>, c: int)
    ensures
        !control_pressed(next_frame(s), c),
        control_down(next_frame(s), c) == control_down(s, c),
{
}

/// A down event on a control that was up through the last frame makes it
/// just pressed; after the frame advances it is still down but no longer
/// just pressed.
pub proof fn lemma_press_then_advance(s: Seq<ControlState>, c: int)
    requires
        0 <= c < s.len(),
        !s[c].down,
        !s[c].was_down,
    ensures
        control_pressed(with_control(s, c, true), c),
        control_down(next_frame(with_control(s, c, true)), c),
        !control_pressed(next_frame(with_control(s, c, true)), c),
{
    let t = with_control(s, c, true);
    assert(t[c].down);
    assert(next_frame(t)[c].down);
}

/// The keyboard: one control per scancode.
pub struct Keyboard {
    pub keys: Buttons,
}

impl View for Keyboard {
    type V = Seq<ControlState>;

    open spec fn view(&self) -> Seq<ControlState> {
        self.keys@
    }
}

impl Keyboard {
    /// Every key up.
    pub open spec fn new_view() -> Seq<ControlState> {
        Seq::new(SCANCODE_COUNT as nat, |i: int| released())
    }

    pub fn new() -> (r: Keyboard)
        ensures
            r@ == Keyboard::new_view(),
    {
        Keyboard { keys: Buttons::new(SCANCODE_COUNT) }
    }

    /// Records a key event. A repeat of a held key leaves it down.
    pub fn key_event(&mut self, scancode: u32, down: bool, repeat: bool)
        ensures
            final(self)@ == with_control(old(self)@, scancode as int, down),
    {
        self.keys.set(scancode as usize, down);
    }

    pub fn is_down(&self, scancode: u32) -> (r: bool)
        ensures
            r == control_down(self@, scancode as int),
    {
        self.keys.is_down(scancode as usize)
    }

    pub fn just_pressed(&self, scancode: u32) -> (r: bool)
        ensures
            r == control_pressed(self@, scancode as int),
    {
        self.keys.just_pressed(scancode as usize)
    }

    pub fn just_released(&self, scancode: u32) -> (r: bool)
        ensures
            r == control_released(self@, scancode as int),
    {
        self.keys.just_released(scancode as usize)
    }

    pub fn advance_frame(&mut self)
        ensures
            final(self)@ == next_frame(old(self)@),
    {
        self.keys.advance_frame();
    }
}

} // verus!
