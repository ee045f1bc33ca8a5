//! Interactive modes and the director that owns the active one.
//!
//! Each mode keeps a model of the hooks called on it, and every hook states
//! that it appends itself there. The director reads each mode's entries back
//! after every call and keeps them, per mode, in the order in which the modes
//! were installed. Its invariant is that every mode's history is a lifecycle:
//! `load`, `init`, then ticks and draws with their steps, then `quit` exactly
//! once and last, and only the newest mode may still be live.
use vstd::prelude::*;

verus! {

/// What a mode asks for at the end of its tick.
pub enum Transition<M> {
    Continue,
    SwitchTo(M),
    Quit,
}

/// A value that keeps, as its model, the hooks called on it so far. A
/// verified mode gives its own record; the default, an empty record, only
/// serves modes written outside verified code.
pub trait HookLog {
    open spec fn hooks(&self) -> Seq<Hook> {
        Seq::empty()
    }
}

/// An interactive mode driven by the director. `R` is the renderer it loads
/// resources from and draws with. `hooks` is the sequence of hooks called on
/// the mode so far; each hook appends itself, with the step it was given.
pub trait Mode<R>: HookLog + Sized {
    fn load(&mut self, renderer: &mut R)
        ensures
            final(self).hooks() == old(self).hooks().push(Hook::Load),
    ;

    fn init(&mut self)
        ensures
            final(self).hooks() == old(self).hooks().push(Hook::Init),
    ;

    fn tick(&mut self, deltatime: u64) -> (r: Transition<Self>)
        ensures
            final(self).hooks() == old(self).hooks().push(Hook::Tick(deltatime)),
    ;

    fn draw(&mut self, renderer: &mut R, deltatime: u64)
        ensures
            final(self).hooks() == old(self).hooks().push(Hook::Draw(deltatime)),
    ;

    fn quit(&mut self)
        ensures
            final(self).hooks() == old(self).hooks().push(Hook::Quit),
    ;
}

/// A hook of a mode that the director calls, with the step handed to a tick
/// or a draw.
#[derive(Clone, Copy, Debug, PartialEq, Eq, Structural)]
pub enum Hook {
    Load,
    Init,
    Tick(u64),
    Draw(u64),
    Quit,
}

/// `h` is the history of one mode: `load`, `init`, ticks and draws, and,
/// when `ended`, a single `quit` at the end.
pub open spec fn lifecycle(h: Seq<Hook>, ended: bool) -> bool {
    let body_end = if ended { h.len() - 1 } else { h.len() as int };
    &&& h.len() >= if ended { 3int } else { 2int }
    &&& h[0] == Hook::Load
    &&& h[1] == Hook::Init
    &&& forall|i: int| 2 <= i < body_end ==> (h[i] is Tick || h[i] is Draw)
    &&& ended ==> h[h.len() - 1] == Hook::Quit
}

/// Every mode but the newest has ended its lifecycle; the newest is live
/// exactly when `live`.
pub open spec fn history_ok(h: Seq<Seq<Hook>>, live: bool) -> bool {
    &&& forall|k: int| 0 <= k < h.len() - 1 ==> lifecycle(#[trigger] h[k], true)
    &&& h.len() > 0 ==> lifecycle(h[h.len() - 1], !live)
    &&& h.len() == 0 ==> !live
}

/// Owner of the active mode.
pub struct Director<M> {
    pub mode: Option<M>,
    /// The hooks the active mode had already received when it was installed.
    pub base: Ghost<Seq<Hook>>,
    /// Per installed mode, in order of installation, the hooks the director
    /// called on it, as read from the mode itself.
    pub history: Ghost<Seq<Seq<Hook>>>,
}

/// `h` with `hook` called on its newest mode.
pub open spec fn record(h: Seq<Seq<Hook>>, hook: Hook) -> Seq<Seq<Hook>> {
    h.update(h.len() - 1, h[h.len() - 1].push(hook))
}

/// The history after ending the active mode, if there is one.
pub open spec fn ended(h: Seq<Seq<Hook>>, active: bool) -> Seq<Seq<Hook>> {
    if active {
        record(h, Hook::Quit)
    } else {
        h
    }
}

/// The history after installing a new mode that was loaded and initialised.
pub open spec fn installed(h: Seq<Seq<Hook>>, active: bool) -> Seq<Seq<Hook>> {
    ended(h, active).push(seq![Hook::Load, Hook::Init])
}

impl<M: HookLog> Director<M> {
    pub open spec fn active(&self) -> bool {
        self.mode is Some
    }

    /// The history is in order, and the active mode's own record of its
    /// hooks is what it had when installed followed by the newest entry.
    pub open spec fn wf(&self) -> bool {
        &&& history_ok(self.history@, self.active())
        &&& self.mode matches Some(m) ==> m.hooks() == self.base@ + self.history@.last()
    }

    /// No mode yet.
    pub fn new() -> (r: Director<M>)
        ensures
            r.wf(),
            !r.active(),
            r.history@ == Seq::<Seq<Hook>>::empty(),
    {
        Director { mode: None, base: Ghost(Seq::empty()), history: Ghost(Seq::empty()) }
    }

    /// Ends the active mode, if any: `quit` is called on it and it is dropped.
    pub fn quit<R>(&mut self)
        where
            M: Mode<R>,
        requires
            old(self).wf(),
        ensures
            final(self).wf(),
            !final(self).active(),
            final(self).history@ == ended(old(self).history@, old(self).active()),
    {
        let ghost h = self.history@;
        if let Some(mut m) = self.mode.take() {
            m.quit();
            proof {
                let n = h.len() - 1;
                let b = self.base@;
                let seen = m.hooks().subrange(b.len() as int, m.hooks().len() as int);
                assert(seen =~= h[n].push(Hook::Quit));
                let nh = h.update(n, seen);
                assert(lifecycle(nh[n], true));
                assert forall|k: int| 0 <= k < nh.len() - 1 implies lifecycle(#[trigger] nh[k], true) by {
                    assert(nh[k] == h[k]);
                }
                self.history = Ghost(nh);
            }
        }
    }

    /// Ends the active mode, if any, then installs `mode`, loads it and
    /// initialises it.
    pub fn change_state<R>(&mut self, mode: M, renderer: &mut R)
        where
            M: Mode<R>,
        requires
            old(self).wf(),
        ensures
            final(self).wf(),
            final(self).active(),
            final(self).history@ == installed(old(self).history@, old(self).active()),
            final(self).mode matches Some(m) && m.hooks() == mode.hooks() + seq![Hook::Load, Hook::Init],
    {
        self.quit::<R>();
        let ghost b = mode.hooks();
        let mut m = mode;
        m.load(renderer);
        m.init();
        proof {
            let h = self.history@;
            let seen = m.hooks().subrange(b.len() as int, m.hooks().len() as int);
            assert(seen =~= seq![Hook::Load, Hook::Init]);
            assert(m.hooks() =~= b + seen);
            let nh = h.push(seen);
            assert forall|k: int| 0 <= k < nh.len() - 1 implies lifecycle(#[trigger] nh[k], true) by {
                assert(nh[k] == h[k]);
                if k < h.len() - 1 {
                    assert(lifecycle(h[k], true));
                }
            }
            self.history = Ghost(nh);
            self.base = Ghost(b);
        }
        self.mode = Some(m);
    }

    /// Ticks the active mode with `deltatime` and hands back what it asks
    /// for; with no mode active the answer is to go on.
    pub fn tick<R>(&mut self, deltatime: u64) -> (r: Transition<M>)
        where
            M: Mode<R>,
        requires
            old(self).wf(),
        ensures
            final(self).wf(),
            final(self).active() == old(self).active(),
            final(self).history@ == if old(self).active() {
                record(old(self).history@, Hook::Tick(deltatime))
            } else {
                old(self).history@
            },
            !old(self).active() ==> r is Continue,
    {
        if let Some(mut m) = self.mode.take() {
            let ghost m0 = m;
            let cmd = m.tick(deltatime);
            proof {
                let h = self.history@;
                let b = self.base@;
                assert(m0.hooks() == b + h[h.len() - 1]);
                assert(m.hooks().subrange(b.len() as int, m.hooks().len() as int)
                    =~= h[h.len() - 1].push(Hook::Tick(deltatime)));
                assert(m.hooks() =~= b + h[h.len() - 1].push(Hook::Tick(deltatime)));
                self.history = Ghost(self.observed(m));
                lemma_record_body(old(self).history@, Hook::Tick(deltatime));
                assert(self.history@ =~= record(old(self).history@, Hook::Tick(deltatime)));
            }
            self.mode = Some(m);
            cmd
        } else {
            Transition::Continue
        }
    }

    /// Draws the active mode, if any, with `deltatime`.
    pub fn draw<R>(&mut self, renderer: &mut R, deltatime: u64)
        where
            M: Mode<R>,
        requires
            old(self).wf(),
        ensures
            final(self).wf(),
            final(self).active() == old(self).active(),
            final(self).history@ == if old(self).active() {
                record(old(self).history@, Hook::Draw(deltatime))
            } else {
                old(self).history@
            },
    {
        if let Some(mut m) = self.mode.take() {
            let ghost m0 = m;
            m.draw(renderer, deltatime);
            proof {
                let h = self.history@;
                let b = self.base@;
                assert(m0.hooks() == b + h[h.len() - 1]);
                assert(m.hooks().subrange(b.len() as int, m.hooks().len() as int)
                    =~= h[h.len() - 1].push(Hook::Draw(deltatime)));
                assert(m.hooks() =~= b + h[h.len() - 1].push(Hook::Draw(deltatime)));
                self.history = Ghost(self.observed(m));
                lemma_record_body(old(self).history@, Hook::Draw(deltatime));
                assert(self.history@ =~= record(old(self).history@, Hook::Draw(deltatime)));
            }
            self.mode = Some(m);
        }
    }

    /// The history with the newest entry read back from `m`.
    pub open spec fn observed(&self, m: M) -> Seq<Seq<Hook>> {
        let h = self.history@;
        h.update(h.len() - 1, m.hooks().subrange(self.base@.len() as int, m.hooks().len() as int))
    }
}

/// A tick or draw of the live newest mode keeps the history in order.
proof fn lemma_record_body(h: Seq<Seq<Hook>>, hook: Hook)
    requires
        history_ok(h, true),
        hook is Tick || hook is Draw,
    ensures
        history_ok(record(h, hook), true),
{
    let nh = record(h, hook);
    let n = h.len() - 1;
    assert(nh[n] =~= h[n].push(hook));
    assert forall|k: int| 0 <= k < nh.len() - 1 implies lifecycle(#[trigger] nh[k], true) by {
        assert(nh[k] == h[k]);
    }
}

impl<M: HookLog> Director<M> {
    /// Carries out what the active mode asked for at its tick. Returns whether
    /// the loop goes on.
    pub fn apply<R>(&mut self, cmd: Transition<M>, renderer: &mut R) -> (r: bool)
        where
            M: Mode<R>,
        requires
            old(self).wf(),
        ensures
            final(self).wf(),
            match cmd {
                Transition::SwitchTo(next) => {
                    &&& r
                    &&& final(self).active()
                    &&& final(self).history@ == installed(old(self).history@, old(self).active())
                    &&& final(self).mode matches Some(m) && m.hooks() == next.hooks() + seq![Hook::Load, Hook::Init]
                },
                Transition::Quit => {
                    &&& !r
                    &&& *final(self) == *old(self)
                },
                Transition::Continue => {
                    &&& r
                    &&& *final(self) == *old(self)
                },
            },
    {
        match cmd {
            Transition::SwitchTo(next) => {
                self.change_state(next, renderer);
                true
            },
            Transition::Quit => false,
            Transition::Continue => true,
        }
    }
}

/// Every mode that has been replaced or shut down received `quit` exactly
/// once, as the last call it got, and so before the next mode's `load`; the
/// mode that is still live has not received it.
pub proof fn lemma_one_quit_per_mode(h: Seq<Seq<Hook>>, live: bool, k: int)
    requires
        history_ok(h, live),
        0 <= k < h.len(),
    ensures
        k < h.len() - 1 || !live ==> {
            &&& h[k].len() > 0
            &&& h[k][h[k].len() - 1] == Hook::Quit
            &&& forall|i: int| 0 <= i < h[k].len() - 1 ==> h[k][i] != Hook::Quit
        },
        k == h.len() - 1 && live ==> forall|i: int| 0 <= i < h[k].len() ==> h[k][i] != Hook::Quit,
        k < h.len() - 1 ==> h[k + 1][0] == Hook::Load,
{
    if k < h.len() - 1 {
        assert(lifecycle(h[k], true));
        if k + 1 < h.len() - 1 {
            assert(lifecycle(h[k + 1], true));
        }
    }
}

} // verus!
