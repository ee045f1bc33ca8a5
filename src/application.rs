//! The application core: routes platform events, runs the clock and the
//! frame-rate counter, and sequences the active mode's frame.
use vstd::prelude::*;
use crate::clock::{clamped_step, elapsed_since, FpsCounter, FrameClock, FPS_WINDOW_NANOS, rate};
use crate::gamepad::{with_axis, with_button, GamePads};
use crate::input::{next_frame, with_control, Keyboard};
use crate::mode::{ended, installed, record, Director, Hook, HookLog, Mode, Transition};

verus! {

/// The key symbols the loop itself reacts to.
#[derive(Clone, Copy, Debug, PartialEq, Eq, Structural)]
pub enum KeySym {
    Return,
    Other,
}

/// A platform event, as plain values.
#[derive(Clone, Copy, Debug, PartialEq, Eq, Structural)]
pub enum Event {
    Quit,
    Key { key: KeySym, scancode: u32, down: bool, repeat: bool, alt: bool },
    EnterFullscreen,
    LeaveFullscreen,
    PadAdded { id: u32 },
    PadRemoved { id: u32 },
    PadButton { id: u32, button: u32, down: bool },
    PadAxis { id: u32, axis: u32, value: i16 },
    Other,
}

/// What the host is to do after an event.
#[derive(Clone, Copy, Debug, PartialEq, Eq, Structural)]
pub enum EventOutcome {
    /// Keep running.
    Continue,
    /// Stop, successfully.
    Success,
    /// Ask the platform to enter (`true`) or leave fullscreen; the flag
    /// follows once the platform confirms.
    SetFullscreen(bool),
}

/// Whether a key event is the fullscreen toggle: Return pressed with Alt,
/// not a repeat.
pub open spec fn is_toggle(key: KeySym, down: bool, repeat: bool, alt: bool) -> bool {
    key == KeySym::Return && down && !repeat && alt
}

pub struct Application<M> {
    pub director: Director<M>,
    pub time: FrameClock,
    pub fps_counter: FpsCounter,
    pub keyboard: Keyboard,
    pub gamepads: GamePads,
    pub currently_fullscreen: bool,
}

impl<M: HookLog> Application<M> {
    pub open spec fn wf(&self) -> bool {
        &&& self.director.wf()
        &&& self.fps_counter.wf()
        &&& self.gamepads.wf()
    }

    pub fn new() -> (r: Application<M>)
        ensures
            r.wf(),
            !r.director.active(),
            r.director.history@ == Seq::<Seq<Hook>>::empty(),
            r.keyboard@ == Keyboard::new_view(),
            forall|id: u32| !r.gamepads.connected(id),
            !r.currently_fullscreen,
    {
        Application {
            director: Director::new(),
            time: FrameClock::new(),
            fps_counter: FpsCounter::new(),
            keyboard: Keyboard::new(),
            gamepads: GamePads::new(),
            currently_fullscreen: false,
        }
    }
}

impl<M: HookLog> Application<M> {
    /// `self` and `other` agree on everything but the input state and the
    /// fullscreen flag.
    pub open spec fn same_loop(&self, other: &Application<M>) -> bool {
        &&& self.director == other.director
        &&& self.time == other.time
        &&& self.fps_counter == other.fps_counter
    }

    /// Handles one platform event. Only a quit request stops the loop;
    /// Alt+Return asks for the other fullscreen state, and the platform's
    /// confirmation sets the flag; all other input goes to the keyboard and
    /// gamepad trackers.
    pub fn event(&mut self, event: Event) -> (r: EventOutcome)
        requires
            old(self).wf(),
        ensures
            final(self).wf(),
            final(self).same_loop(old(self)),
            match event {
                Event::Quit => r == EventOutcome::Success && *final(self) == *old(self),
                Event::Key { key, scancode, down, repeat, alt } => if is_toggle(key, down, repeat, alt) {
                    r == EventOutcome::SetFullscreen(!old(self).currently_fullscreen) && *final(self)
                        == *old(self)
                } else {
                    &&& r == EventOutcome::Continue
                    &&& final(self).keyboard@ == with_control(old(self).keyboard@, scancode as int, down)
                    &&& final(self).gamepads == old(self).gamepads
                    &&& final(self).currently_fullscreen == old(self).currently_fullscreen
                },
                Event::EnterFullscreen => {
                    &&& r == EventOutcome::Continue
                    &&& final(self).currently_fullscreen
                    &&& final(self).keyboard == old(self).keyboard
                    &&& final(self).gamepads == old(self).gamepads
                },
                Event::LeaveFullscreen => {
                    &&& r == EventOutcome::Continue
                    &&& !final(self).currently_fullscreen
                    &&& final(self).keyboard == old(self).keyboard
                    &&& final(self).gamepads == old(self).gamepads
                },
                Event::PadAdded { id } => {
                    &&& r == EventOutcome::Continue
                    &&& final(self).gamepads.connected(id)
                    &&& final(self).gamepads.pad(id) == if old(self).gamepads.connected(id) {
                        old(self).gamepads.pad(id)
                    } else {
                        crate::gamepad::fresh_pad()
                    }
                    &&& final(self).gamepads.same_except(&old(self).gamepads, id)
                    &&& final(self).keyboard == old(self).keyboard
                    &&& final(self).currently_fullscreen == old(self).currently_fullscreen
                },
                Event::PadRemoved { id } => {
                    &&& r == EventOutcome::Continue
                    &&& !final(self).gamepads.connected(id)
                    &&& final(self).gamepads.same_except(&old(self).gamepads, id)
                    &&& final(self).keyboard == old(self).keyboard
                    &&& final(self).currently_fullscreen == old(self).currently_fullscreen
                },
                Event::PadButton { id, button, down } => {
                    &&& r == EventOutcome::Continue
                    &&& final(self).gamepads.connected(id) == old(self).gamepads.connected(id)
                    &&& old(self).gamepads.connected(id) ==> final(self).gamepads.pad(id)
                        == with_button(old(self).gamepads.pad(id), button as int, down)
                    &&& final(self).gamepads.same_except(&old(self).gamepads, id)
                    &&& final(self).keyboard == old(self).keyboard
                    &&& final(self).currently_fullscreen == old(self).currently_fullscreen
                },
                Event::PadAxis { id, axis, value } => {
                    &&& r == EventOutcome::Continue
                    &&& final(self).gamepads.connected(id) == old(self).gamepads.connected(id)
                    &&& old(self).gamepads.connected(id) ==> final(self).gamepads.pad(id)
                        == with_axis(old(self).gamepads.pad(id), axis as int, value)
                    &&& final(self).gamepads.same_except(&old(self).gamepads, id)
                    &&& final(self).keyboard == old(self).keyboard
                    &&& final(self).currently_fullscreen == old(self).currently_fullscreen
                },
                Event::Other => r == EventOutcome::Continue && *final(self) == *old(self),
            },
    {
        match event {
            Event::Quit => EventOutcome::Success,
            Event::Key { key, scancode, down, repeat, alt } => {
                match key {
                    KeySym::Return if down && !repeat && alt => {
                        EventOutcome::SetFullscreen(!self.currently_fullscreen)
                    },
                    _ => {
                        self.keyboard.key_event(scancode, down, repeat);
                        EventOutcome::Continue
                    },
                }
            },
            Event::EnterFullscreen => {
                self.currently_fullscreen = true;
                EventOutcome::Continue
            },
            Event::LeaveFullscreen => {
                self.currently_fullscreen = false;
                EventOutcome::Continue
            },
            Event::PadAdded { id } => {
                self.gamepads.connected_event(id);
                EventOutcome::Continue
            },
            Event::PadRemoved { id } => {
                self.gamepads.removed_event(id);
                EventOutcome::Continue
            },
            Event::PadButton { id, button, down } => {
                self.gamepads.button_event(id, button, down);
                EventOutcome::Continue
            },
            Event::PadAxis { id, axis, value } => {
                self.gamepads.axis_event(id, axis, value);
                EventOutcome::Continue
            },
            Event::Other => EventOutcome::Continue,
        }
    }
}

impl<M: HookLog> Application<M> {
    /// Installs the first mode (ending any earlier one) and starts the clock
    /// at `now`.
    pub fn init<R>(&mut self, mode: M, renderer: &mut R, now: u64)
        where
            M: Mode<R>,
        requires
            old(self).wf(),
        ensures
            final(self).wf(),
            final(self).director.active(),
            final(self).director.history@ == ended(
                old(self).director.history@,
                old(self).director.active(),
            ).push(seq![Hook::Load, Hook::Init]),
            final(self).time.last == now,
            final(self).time.duration == 0,
    {
        self.director.change_state(mode, renderer);
        self.time.init(now);
    }

    /// Starts a frame at `now`: the clock advances and the frame-rate counter
    /// counts the frame. Returns the frame rate when a window closes.
    pub fn begin_frame(&mut self, now: u64) -> (r: Option<u64>)
        requires
            old(self).wf(),
        ensures
            final(self).wf(),
            final(self).time.last == now,
            final(self).time.duration == elapsed_since(old(self).time.last, now),
            final(self).director == old(self).director,
            final(self).keyboard == old(self).keyboard,
            final(self).gamepads == old(self).gamepads,
            ({
                let e = old(self).fps_counter.elapsed + final(self).time.duration;
                let f = if old(self).fps_counter.frames < u64::MAX {
                    old(self).fps_counter.frames + 1
                } else {
                    old(self).fps_counter.frames as int
                };
                if e >= FPS_WINDOW_NANOS {
                    r == Some(rate(f, e) as u64)
                } else {
                    r is None
                }
            }),
    {
        self.time.frame_advance(now);
        let d = self.time.get_duration();
        self.fps_counter.frame(d)
    }

    /// The step handed to the mode this frame: the frame's duration, at most
    /// 1/15 s.
    pub fn deltatime(&self) -> (r: u64)
        ensures
            r == clamped_step(self.time.duration),
    {
        self.time.get_deltatime()
    }

    /// Ticks the active mode with the clamped step, then draws it with the
    /// same step, whatever it asked for: the old mode still draws its last
    /// frame before a switch.
    /// Returns what the mode asked for, to be applied by `end_frame`.
    pub fn iterate<R>(&mut self, renderer: &mut R) -> (r: Transition<M>)
        where
            M: Mode<R>,
        requires
            old(self).wf(),
        ensures
            final(self).wf(),
            final(self).director.active() == old(self).director.active(),
            final(self).director.history@ == if old(self).director.active() {
                record(
                    record(old(self).director.history@, Hook::Tick(clamped_step(old(self).time.duration))),
                    Hook::Draw(clamped_step(old(self).time.duration)),
                )
            } else {
                old(self).director.history@
            },
            final(self).time == old(self).time,
            final(self).keyboard == old(self).keyboard,
            final(self).gamepads == old(self).gamepads,
            !old(self).director.active() ==> r is Continue,
    {
        let delta = self.deltatime();
        let cmd = self.director.tick::<R>(delta);
        self.director.draw(renderer, delta);
        cmd
    }

    /// Applies what the mode asked for. Unless it asked to quit, the input
    /// trackers then end their frame. Returns whether the loop goes on.
    pub fn end_frame<R>(&mut self, cmd: Transition<M>, renderer: &mut R) -> (r: bool)
        where
            M: Mode<R>,
        requires
            old(self).wf(),
        ensures
            final(self).wf(),
            r == !(cmd is Quit),
            cmd is SwitchTo ==> final(self).director.active() && final(self).director.history@
                == ended(old(self).director.history@, old(self).director.active()).push(
                seq![Hook::Load, Hook::Init],
            ),
            !(cmd is SwitchTo) ==> final(self).director == old(self).director,
            r ==> final(self).keyboard@ == next_frame(old(self).keyboard@),
            r ==> forall|o: u32| #[trigger]
                final(self).gamepads.connected(o) == old(self).gamepads.connected(o) && (old(
                    self,
                ).gamepads.connected(o) ==> final(self).gamepads.pad(o)
                    == crate::gamepad::pad_next_frame(old(self).gamepads.pad(o))),
            !r ==> final(self).keyboard == old(self).keyboard && final(self).gamepads == old(
                self,
            ).gamepads,
            final(self).time == old(self).time,
    {
        let go_on = self.director.apply(cmd, renderer);
        if go_on {
            self.gamepads.advance_frame();
            self.keyboard.advance_frame();
        }
        go_on
    }

    /// Shuts down: the active mode, if any, gets its `quit` and is dropped.
    pub fn quit<R>(&mut self)
        where
            M: Mode<R>,
        requires
            old(self).wf(),
        ensures
            final(self).wf(),
            !final(self).director.active(),
            final(self).director.history@ == ended(
                old(self).director.history@,
                old(self).director.active(),
            ),
    {
        self.director.quit::<R>();
    }
}

} // verus!
