//! Registry of connected gamepads: each holds its buttons' edge state and
//! the last raw reading of each axis, normalised only when read.
use vstd::prelude::*;
use crate::deadzone::{axis_deadzone, axis_value, radial_result, valid_thresholds, Vec2};
use crate::input::{
    control_down, control_pressed, control_released, next_frame, released, with_control,
    Buttons, ControlState, PAD_AXIS_COUNT, PAD_BUTTON_COUNT,
};

verus! {

/// One connected gamepad.
pub struct Pad {
    pub id: u32,
    pub buttons: Buttons,
    pub axes: Vec<i16>,
}

/// What is known of a connected gamepad.
pub struct PadModel {
    pub buttons: Seq<ControlState>,
    pub axes: Seq<i16>,
}

pub open spec fn model_of(p: Pad) -> PadModel {
    PadModel { buttons: p.buttons@, axes: p.axes@ }
}

/// A freshly connected gamepad: all buttons up, all axes centred.
pub open spec fn fresh_pad() -> PadModel {
    PadModel {
        buttons: Seq::new(PAD_BUTTON_COUNT as nat, |i: int| released()),
        axes: Seq::new(PAD_AXIS_COUNT as nat, |i: int| 0i16),
    }
}

pub open spec fn holds_at(pads: Seq<Pad>, id: u32, i: int) -> bool {
    0 <= i < pads.len() && pads[i].id == id
}

/// All connected gamepads, at most one entry per device id.
pub struct GamePads {
    pub pads: Vec<Pad>,
}

impl GamePads {
    pub open spec fn wf(&self) -> bool {
        forall|i: int, j: int|
            0 <= i < j < self.pads@.len() ==> self.pads@[i].id != self.pads@[j].id
    }

    pub open spec fn connected(&self, id: u32) -> bool {
        exists|i: int| holds_at(self.pads@, id, i)
    }

    /// The state of the connected gamepad `id`.
    pub open spec fn pad(&self, id: u32) -> PadModel {
        model_of(self.pads@[choose|i: int| holds_at(self.pads@, id, i)])
    }

    /// `self` and `other` know the same of every device but `id`.
    pub open spec fn same_except(&self, other: &GamePads, id: u32) -> bool {
        forall|o: u32|
            o != id ==> #[trigger] self.connected(o) == other.connected(o) && (self.connected(o)
                ==> self.pad(o) == other.pad(o))
    }

    proof fn lemma_pad_at(&self, id: u32, i: int)
        requires
            self.wf(),
            holds_at(self.pads@, id, i),
        ensures
            self.connected(id),
            self.pad(id) == model_of(self.pads@[i]),
    {
        let j = choose|j: int| holds_at(self.pads@, id, j);
        assert(holds_at(self.pads@, id, j));
        if i < j {
            assert(self.pads@[i].id != self.pads@[j].id);
        } else if j < i {
            assert(self.pads@[j].id != self.pads@[i].id);
        }
    }

    /// `b` keeps every gamepad of `a` but `id`, in whatever place, and adds
    /// none but `id`.
    proof fn lemma_keeps_others(a: &GamePads, b: &GamePads, id: u32)
        requires
            a.wf(),
            b.wf(),
            forall|j: int|
                0 <= j < a.pads@.len() && a.pads@[j].id != id ==> exists|k: int|
                    holds_at(b.pads@, a.pads@[j].id, k) && model_of(b.pads@[k]) == model_of(
                        #[trigger] a.pads@[j],
                    ),
            forall|k: int|
                0 <= k < b.pads@.len() && b.pads@[k].id != id ==> exists|j: int|
                    holds_at(a.pads@, (#[trigger] b.pads@[k]).id, j),
        ensures
            b.same_except(a, id),
    {
        assert forall|o: u32| o != id implies #[trigger] b.connected(o) == a.connected(o) && (
        b.connected(o) ==> b.pad(o) == a.pad(o)) by {
            if a.connected(o) {
                let j = choose|j: int| holds_at(a.pads@, o, j);
                assert(a.pads@[j].id != id);
                let k = choose|k: int|
                    holds_at(b.pads@, a.pads@[j].id, k) && model_of(b.pads@[k]) == model_of(
                        a.pads@[j],
                    );
                a.lemma_pad_at(o, j);
                b.lemma_pad_at(o, k);
            }
            if b.connected(o) {
                let k = choose|k: int| holds_at(b.pads@, o, k);
                assert(b.pads@[k].id != id);
                let j = choose|j: int| holds_at(a.pads@, b.pads@[k].id, j);
                assert(a.connected(o));
            }
        }
    }

    /// No gamepad connected.
    pub fn new() -> (r: GamePads)
        ensures
            r.wf(),
            forall|id: u32| !r.connected(id),
    {
        GamePads { pads: Vec::new() }
    }

    /// The index of gamepad `id`, if it is connected.
    fn find(&self, id: u32) -> (r: Option<usize>)
        requires
            self.wf(),
        ensures
            r is None ==> !self.connected(id),
            r matches Some(i) ==> holds_at(self.pads@, id, i as int),
    {
        let mut i: usize = 0;
        while i < self.pads.len()
            invariant
                i <= self.pads@.len(),
                forall|j: int| 0 <= j < i ==> self.pads@[j].id != id,
            decreases self.pads@.len() - i,
        {
            if self.pads[i].id == id {
                return Some(i);
            }
            i = i + 1;
        }
        None
    }
}

/// All axes centred.
fn centred_axes() -> (r: Vec<i16>)
    ensures
        r@ == fresh_pad().axes,
{
    let mut axes: Vec<i16> = Vec::new();
    let mut i: usize = 0;
    while i < PAD_AXIS_COUNT
        invariant
            i <= PAD_AXIS_COUNT,
            axes@ == Seq::new(i as nat, |j: int| 0i16),
        decreases PAD_AXIS_COUNT - i,
    {
        axes.push(0);
        i = i + 1;
        assert(axes@ =~= Seq::new(i as nat, |j: int| 0i16));
    }
    axes
}

impl GamePads {
    /// A device was connected. A device that is already known keeps its state.
    pub fn connected_event(&mut self, id: u32)
        requires
            old(self).wf(),
        ensures
            final(self).wf(),
            final(self).connected(id),
            final(self).pad(id) == if old(self).connected(id) {
                old(self).pad(id)
            } else {
                fresh_pad()
            },
            final(self).same_except(old(self), id),
    {
        match self.find(id) {
            Some(i) => {
                proof {
                    self.lemma_pad_at(id, i as int);
                }
            },
            None => {
                let ghost before = *self;
                let pad = Pad { id, buttons: Buttons::new(PAD_BUTTON_COUNT), axes: centred_axes() };
                self.pads.push(pad);
                proof {
                    let n = before.pads@.len();
                    assert(self.pads@[n as int] == pad);
                    assert forall|i: int, j: int| 0 <= i < j < self.pads@.len() implies
                        self.pads@[i].id != self.pads@[j].id by {
                        if j == n {
                            assert(!holds_at(before.pads@, id, i));
                        } else {
                            assert(self.pads@[i] == before.pads@[i]);
                        }
                    }
                    self.lemma_pad_at(id, n as int);
                    assert(model_of(pad).buttons =~= fresh_pad().buttons);
                    assert forall|j: int|
                        0 <= j < before.pads@.len() && before.pads@[j].id != id implies exists|
                        k: int,
                    |
                        holds_at(self.pads@, before.pads@[j].id, k) && model_of(self.pads@[k])
                            == model_of(#[trigger] before.pads@[j]) by {
                        assert(holds_at(self.pads@, before.pads@[j].id, j));
                    }
                    assert forall|k: int|
                        0 <= k < self.pads@.len() && self.pads@[k].id != id implies exists|j: int|
                        holds_at(before.pads@, (#[trigger] self.pads@[k]).id, j) by {
                        assert(holds_at(before.pads@, self.pads@[k].id, k));
                    }
                    GamePads::lemma_keeps_others(&before, self, id);
                }
            },
        }
    }

    /// A device was disconnected: its whole entry goes.
    pub fn removed_event(&mut self, id: u32)
        requires
            old(self).wf(),
        ensures
            final(self).wf(),
            !final(self).connected(id),
            final(self).same_except(old(self), id),
    {
        match self.find(id) {
            Some(i) => {
                let ghost before = *self;
                let _gone = self.pads.remove(i);
                proof {
                    let n = before.pads@.len();
                    assert forall|a: int| 0 <= a < self.pads@.len() implies #[trigger] self.pads@[a]
                        == before.pads@[if a < i { a } else { a + 1 }] by {}
                    assert forall|a: int, b: int| 0 <= a < b < self.pads@.len() implies
                        self.pads@[a].id != self.pads@[b].id by {
                        let a2 = if a < i { a } else { a + 1 };
                        let b2 = if b < i { b } else { b + 1 };
                        assert(before.pads@[a2].id != before.pads@[b2].id);
                    }
                    assert forall|k: int| !holds_at(self.pads@, id, k) by {
                        if 0 <= k < self.pads@.len() {
                            let k2 = if k < i { k } else { k + 1 };
                            if k < i {
                                assert(before.pads@[k2].id != before.pads@[i as int].id);
                            } else {
                                assert(before.pads@[i as int].id != before.pads@[k2].id);
                            }
                        }
                    }
                    assert forall|j: int|
                        0 <= j < before.pads@.len() && before.pads@[j].id != id implies exists|
                        k: int,
                    |
                        holds_at(self.pads@, before.pads@[j].id, k) && model_of(self.pads@[k])
                            == model_of(#[trigger] before.pads@[j]) by {
                        let k = if j < i { j } else { j - 1 };
                        assert(self.pads@[k] == before.pads@[j]);
                        assert(holds_at(self.pads@, before.pads@[j].id, k));
                    }
                    assert forall|k: int|
                        0 <= k < self.pads@.len() && self.pads@[k].id != id implies exists|j: int|
                        holds_at(before.pads@, (#[trigger] self.pads@[k]).id, j) by {
                        let j = if k < i { k } else { k + 1 };
                        assert(holds_at(before.pads@, self.pads@[k].id, j));
                    }
                    GamePads::lemma_keeps_others(&before, self, id);
                }
            },
            None => {},
        }
    }
}

/// A gamepad whose button `b` went down or up.
pub open spec fn with_button(p: PadModel, b: int, down: bool) -> PadModel {
    PadModel { buttons: with_control(p.buttons, b, down), axes: p.axes }
}

/// A gamepad whose axis `a` reads `value`; out-of-range axes are ignored.
pub open spec fn with_axis(p: PadModel, a: int, value: i16) -> PadModel {
    PadModel {
        buttons: p.buttons,
        axes: if 0 <= a < p.axes.len() {
            p.axes.update(a, value)
        } else {
            p.axes
        },
    }
}

/// A gamepad at the start of the next frame.
pub open spec fn pad_next_frame(p: PadModel) -> PadModel {
    PadModel { buttons: next_frame(p.buttons), axes: p.axes }
}

impl GamePads {
    /// Putting back, at the same place, a gamepad with the same id changes
    /// that gamepad only.
    proof fn lemma_update_at(before: &GamePads, after: &GamePads, i: int, p: Pad)
        requires
            before.wf(),
            0 <= i < before.pads@.len(),
            p.id == before.pads@[i].id,
            after.pads@ == before.pads@.update(i, p),
        ensures
            after.wf(),
            after.connected(p.id),
            after.pad(p.id) == model_of(p),
            after.same_except(before, p.id),
    {
        assert forall|a: int, b: int| 0 <= a < b < after.pads@.len() implies after.pads@[a].id
            != after.pads@[b].id by {
            assert(before.pads@[a].id != before.pads@[b].id);
        }
        after.lemma_pad_at(p.id, i);
        assert forall|j: int|
            0 <= j < before.pads@.len() && before.pads@[j].id != p.id implies exists|k: int|
            holds_at(after.pads@, before.pads@[j].id, k) && model_of(after.pads@[k]) == model_of(
                #[trigger] before.pads@[j],
            ) by {
            assert(holds_at(after.pads@, before.pads@[j].id, j));
        }
        assert forall|k: int|
            0 <= k < after.pads@.len() && after.pads@[k].id != p.id implies exists|j: int|
            holds_at(before.pads@, (#[trigger] after.pads@[k]).id, j) by {
            assert(holds_at(before.pads@, after.pads@[k].id, k));
        }
        GamePads::lemma_keeps_others(before, after, p.id);
    }

    /// A button of gamepad `id` went down or up. Events for a device that is
    /// not connected are ignored.
    pub fn button_event(&mut self, id: u32, button: u32, down: bool)
        requires
            old(self).wf(),
        ensures
            final(self).wf(),
            final(self).connected(id) == old(self).connected(id),
            old(self).connected(id) ==> final(self).pad(id) == with_button(
                old(self).pad(id),
                button as int,
                down,
            ),
            final(self).same_except(old(self), id),
    {
        if let Some(i) = self.find(id) {
            let ghost before = *self;
            proof {
                before.lemma_pad_at(id, i as int);
            }
            let mut p = self.pads.remove(i);
            p.buttons.set(button as usize, down);
            self.pads.insert(i, p);
            proof {
                assert(self.pads@ =~= before.pads@.update(i as int, p));
                GamePads::lemma_update_at(&before, self, i as int, p);
            }
        }
    }

    /// Axis `axis` of gamepad `id` moved to the raw reading `value`. Events
    /// for a device that is not connected are ignored.
    pub fn axis_event(&mut self, id: u32, axis: u32, value: i16)
        requires
            old(self).wf(),
        ensures
            final(self).wf(),
            final(self).connected(id) == old(self).connected(id),
            old(self).connected(id) ==> final(self).pad(id) == with_axis(
                old(self).pad(id),
                axis as int,
                value,
            ),
            final(self).same_except(old(self), id),
    {
        if let Some(i) = self.find(id) {
            let ghost before = *self;
            proof {
                before.lemma_pad_at(id, i as int);
            }
            let mut p = self.pads.remove(i);
            if (axis as usize) < p.axes.len() {
                p.axes.set(axis as usize, value);
            }
            self.pads.insert(i, p);
            proof {
                assert(self.pads@ =~= before.pads@.update(i as int, p));
                GamePads::lemma_update_at(&before, self, i as int, p);
            }
        }
    }
}

/// The normalised reading of axis `a` of a gamepad: zero for an axis it
/// does not have.
pub open spec fn axis_of(p: PadModel, a: int, min: int, max: int) -> int {
    if 0 <= a < p.axes.len() {
        axis_value(p.axes[a] as int, min, max)
    } else {
        0
    }
}

impl GamePads {
    /// Whether button `button` of gamepad `id` is down; a device that is not
    /// connected has no button down.
    pub fn is_down(&self, id: u32, button: u32) -> (r: bool)
        requires
            self.wf(),
        ensures
            r == (self.connected(id) && control_down(self.pad(id).buttons, button as int)),
    {
        match self.find(id) {
            Some(i) => {
                proof {
                    self.lemma_pad_at(id, i as int);
                }
                self.pads[i].buttons.is_down(button as usize)
            },
            None => false,
        }
    }

    pub fn just_pressed(&self, id: u32, button: u32) -> (r: bool)
        requires
            self.wf(),
        ensures
            r == (self.connected(id) && control_pressed(self.pad(id).buttons, button as int)),
    {
        match self.find(id) {
            Some(i) => {
                proof {
                    self.lemma_pad_at(id, i as int);
                }
                self.pads[i].buttons.just_pressed(button as usize)
            },
            None => false,
        }
    }

    pub fn just_released(&self, id: u32, button: u32) -> (r: bool)
        requires
            self.wf(),
        ensures
            r == (self.connected(id) && control_released(self.pad(id).buttons, button as int)),
    {
        match self.find(id) {
            Some(i) => {
                proof {
                    self.lemma_pad_at(id, i as int);
                }
                self.pads[i].buttons.just_released(button as usize)
            },
            None => false,
        }
    }

    /// The reading of axis `axis` of gamepad `id` through the 1-D deadzone;
    /// zero for a device that is not connected.
    pub fn axis(&self, id: u32, axis: u32, min: i32, max: i32) -> (r: i32)
        requires
            self.wf(),
            valid_thresholds(min as int, max as int),
        ensures
            r == if self.connected(id) {
                axis_of(self.pad(id), axis as int, min as int, max as int)
            } else {
                0
            },
    {
        match self.find(id) {
            Some(i) => {
                proof {
                    self.lemma_pad_at(id, i as int);
                }
                if (axis as usize) < self.pads[i].axes.len() {
                    axis_deadzone(self.pads[i].axes[axis as usize] as i32, min, max)
                } else {
                    0
                }
            },
            None => 0,
        }
    }

    /// Ends the frame for every connected gamepad.
    pub fn advance_frame(&mut self)
        requires
            old(self).wf(),
        ensures
            final(self).wf(),
            forall|o: u32| #[trigger]
                final(self).connected(o) == old(self).connected(o) && (old(self).connected(o)
                    ==> final(self).pad(o) == pad_next_frame(old(self).pad(o))),
    {
        let ghost before = *self;
        let n = self.pads.len();
        let mut i: usize = 0;
        while i < n
            invariant
                i <= n,
                n == before.pads@.len(),
                self.pads@.len() == n,
                forall|j: int| 0 <= j < n ==> #[trigger] self.pads@[j].id == before.pads@[j].id,
                forall|j: int|
                    0 <= j < i ==> #[trigger] model_of(self.pads@[j]) == pad_next_frame(
                        model_of(before.pads@[j]),
                    ),
                forall|j: int|
                    i <= j < n ==> #[trigger] model_of(self.pads@[j]) == model_of(before.pads@[j]),
            decreases n - i,
        {
            let ghost prev = self.pads@;
            let mut p = self.pads.remove(i);
            let ghost p0 = p;
            assert(model_of(p0) == model_of(before.pads@[i as int]));
            p.buttons.advance_frame();
            self.pads.insert(i, p);
            proof {
                assert(self.pads@ =~= prev.update(i as int, p));
                assert(model_of(p) == pad_next_frame(model_of(before.pads@[i as int])));
            }
            i = i + 1;
        }
        assert forall|a: int, b: int| 0 <= a < b < self.pads@.len() implies self.pads@[a].id
            != self.pads@[b].id by {
            assert(before.pads@[a].id != before.pads@[b].id);
        }
        assert forall|o: u32| #[trigger]
            self.connected(o) == before.connected(o) && (before.connected(o) ==> self.pad(o)
                == pad_next_frame(before.pad(o))) by {
            if before.connected(o) {
                let j = choose|j: int| holds_at(before.pads@, o, j);
                before.lemma_pad_at(o, j);
                self.lemma_pad_at(o, j);
            }
            if self.connected(o) {
                let j = choose|j: int| holds_at(self.pads@, o, j);
                assert(holds_at(before.pads@, o, j));
            }
        }
    }
}

impl GamePads {
    /// The stick made of axes `ax` and `ay` of gamepad `id`, through the
    /// radial deadzone; zero for a device that is not connected or an axis
    /// it does not have.
    pub fn stick(&self, id: u32, ax: u32, ay: u32, min: i32, max: i32) -> (r: Vec2)
        requires
            self.wf(),
            valid_thresholds(min as int, max as int),
        ensures
            ({
                let p = self.pad(id);
                if self.connected(id) && ax < p.axes.len() && ay < p.axes.len() {
                    radial_result(p.axes[ax as int] as int, p.axes[ay as int] as int, min as int, max as int, r)
                } else {
                    r == Vec2 { x: 0, y: 0 }
                }
            }),
    {
        match self.find(id) {
            Some(i) => {
                proof {
                    self.lemma_pad_at(id, i as int);
                }
                let axes = &self.pads[i].axes;
                if (ax as usize) < axes.len() && (ay as usize) < axes.len() {
                    let v = Vec2::new(axes[ax as usize] as i32, axes[ay as usize] as i32);
                    v.radial_deadzone(min, max)
                } else {
                    Vec2::new(0, 0)
                }
            },
            None => Vec2::new(0, 0),
        }
    }
}

} // verus!
