use vstd::prelude::*;
use vstd::arithmetic::div_mod::lemma_div_is_ordered;

verus! {

/// The fraction `1` of a tween's active window, in parts per million.
pub const FRACTION_ONE: u64 = 1_000_000;

/// What the schedule of one timed effect is. Times are in microseconds; a
/// negative repetition count stands for "run forever".
pub struct TweenView {
    pub duration: nat,
    pub progress: nat,
    pub cooldown: nat,
    pub repetitions: int,
}

impl TweenView {
    pub open spec fn wf(self) -> bool {
        &&& self.duration + self.cooldown <= u64::MAX
        &&& (self.progress == 0 || self.progress < self.duration + self.cooldown)
        &&& i32::MIN <= self.repetitions <= i32::MAX
    }

    /// Whether the entry has used up all its repetitions.
    pub open spec fn exhausted(self) -> bool {
        self.repetitions == 0
    }
}

/// The share of the active window that `progress` has covered, capped at
/// `FRACTION_ONE`. A zero-length window is always complete.
pub open spec fn fraction(progress: nat, duration: nat) -> nat {
    if progress >= duration {
        FRACTION_ONE as nat
    } else {
        progress * (FRACTION_ONE as nat) / duration
    }
}

/// The fraction that the effect is run with in a tick of `delta`, if it is run:
/// while the entry is not exhausted and its progress, before the tick, had not
/// gone past the active window.
pub open spec fn step_fraction(t: TweenView, delta: nat) -> Option<nat> {
    if t.exhausted() || t.progress + delta > t.duration + delta {
        None
    } else {
        Some(fraction(t.progress + delta, t.duration))
    }
}

/// The schedule after a tick of `delta`: the progress grows by `delta`; once it
/// reaches the end of the cooldown it starts again at zero, and a positive
/// repetition count goes down by one. An exhausted entry does not change.
pub open spec fn step_state(t: TweenView, delta: nat) -> TweenView {
    if t.exhausted() {
        t
    } else if t.progress + delta >= t.duration + t.cooldown {
        TweenView {
            progress: 0,
            repetitions: if t.repetitions > 0 { t.repetitions - 1 } else { t.repetitions },
            ..t
        }
    } else {
        TweenView { progress: t.progress + delta, ..t }
    }
}

/// The schedule after ticks of the given lengths, in order.
pub open spec fn run_steps(t: TweenView, deltas: Seq<nat>) -> TweenView
    decreases deltas.len(),
{
    if deltas.len() == 0 {
        t
    } else {
        run_steps(step_state(t, deltas[0]), deltas.drop_first())
    }
}

/// Whether the effect is run in any of the ticks of the given lengths.
pub open spec fn runs_in(t: TweenView, deltas: Seq<nat>) -> bool
    decreases deltas.len(),
{
    if deltas.len() == 0 {
        false
    } else {
        step_fraction(t, deltas[0]) is Some || runs_in(step_state(t, deltas[0]), deltas.drop_first())
    }
}

/// One run of a registered effect in a tick: which entry, with what fraction.
#[derive(Clone, Copy, PartialEq, Eq, Structural, Debug)]
pub struct TweenFiring {
    pub index: usize,
    pub fraction: u64,
}

/// The runs that a tick of `delta` causes among the first `n` entries, in
/// registration order.
pub open spec fn firings(ts: Seq<TweenView>, delta: nat, n: int) -> Seq<TweenFiring>
    decreases n,
{
    if n <= 0 {
        Seq::empty()
    } else {
        let earlier = firings(ts, delta, n - 1);
        match step_fraction(ts[n - 1], delta) {
            Some(f) => earlier.push(TweenFiring { index: (n - 1) as usize, fraction: f as u64 }),
            None => earlier,
        }
    }
}

/// The timing state of one registered effect.
#[derive(Clone, Copy)]
pub struct TweenInfo {
    its_duration: u64,
    its_progress: u64,
    its_cooldown: u64,
    its_repetitions: i32,
}

impl View for TweenInfo {
    type V = TweenView;

    closed spec fn view(&self) -> TweenView {
        TweenView {
            duration: self.its_duration as nat,
            progress: self.its_progress as nat,
            cooldown: self.its_cooldown as nat,
            repetitions: self.its_repetitions as int,
        }
    }
}

impl TweenInfo {
    /// A fresh schedule: an active window of `the_duration` microseconds
    /// followed by a cooldown of `the_cooldown` microseconds, repeated
    /// `the_repetitions` times (forever if negative).
    pub fn new(the_duration: u64, the_cooldown: u64, the_repetitions: i32) -> (r: TweenInfo)
        requires
            the_duration + the_cooldown <= u64::MAX,
        ensures
            r@ == (TweenView {
                duration: the_duration as nat,
                progress: 0,
                cooldown: the_cooldown as nat,
                repetitions: the_repetitions as int,
            }),
            r@.wf(),
    {
        TweenInfo {
            its_duration: the_duration,
            its_progress: 0,
            its_cooldown: the_cooldown,
            its_repetitions: the_repetitions,
        }
    }

    pub fn get_duration(&self) -> (r: u64)
        ensures
            r == self@.duration,
    {
        self.its_duration
    }

    pub fn get_progress(&self) -> (r: u64)
        ensures
            r == self@.progress,
    {
        self.its_progress
    }

    pub fn get_cooldown(&self) -> (r: u64)
        ensures
            r == self@.cooldown,
    {
        self.its_cooldown
    }

    pub fn get_repetitions(&self) -> (r: i32)
        ensures
            r == self@.repetitions,
    {
        self.its_repetitions
    }

    /// Advances the schedule by `the_delta` microseconds and returns the
    /// fraction to run the effect with, if it runs in this tick.
    pub fn step(&mut self, the_delta: u64) -> (r: Option<u64>)
        requires
            old(self)@.wf(),
        ensures
            final(self)@ == step_state(old(self)@, the_delta as nat),
            final(self)@.wf(),
            r matches Some(f) ==> step_fraction(old(self)@, the_delta as nat) == Some(f as nat),
            r is None ==> step_fraction(old(self)@, the_delta as nat) is None,
    {
        if self.its_repetitions == 0 {
            return None;
        }
        let p: u128 = self.its_progress as u128 + the_delta as u128;
        let r = if self.its_progress <= self.its_duration {
            let f: u64 = if p >= self.its_duration as u128 {
                FRACTION_ONE
            } else {
                assert((p as int) * (FRACTION_ONE as int) <= (u64::MAX as int) * (FRACTION_ONE as int))
                    by (nonlinear_arith)
                    requires
                        (p as int) < (self.its_duration as int),
                        (self.its_duration as int) <= u64::MAX as int,
                ;
                let q = p * (FRACTION_ONE as u128) / (self.its_duration as u128);
                proof {
                    lemma_fraction_monotone(p as nat, p as nat, self.its_duration as nat);
                }
                assert(q == fraction(p as nat, self.its_duration as nat));
                q as u64
            };
            Some(f)
        } else {
            None
        };
        if p >= self.its_duration as u128 + self.its_cooldown as u128 {
            self.its_progress = 0;
            if self.its_repetitions > 0 {
                self.its_repetitions = self.its_repetitions - 1;
            }
        } else {
            self.its_progress = p as u64;
        }
        r
    }
}

/// Marker for the effect that shows the frame rate in the window title.
pub struct FPSTween {}

impl FPSTween {
    pub fn new() -> (r: FPSTween) {
        FPSTween {  }
    }
}

/// Marker for the effect that pulses the zoom.
pub struct ZoomTween {}

impl ZoomTween {
    pub fn new() -> (r: ZoomTween) {
        ZoomTween {  }
    }
}

/// A fixed registry of timed, repeatable effects of type `E`, each with its
/// own schedule.
pub struct TweenEngine<E> {
    its_tweens: Vec<TweenInfo>,
    its_effects: Vec<E>,
}

impl<E> TweenEngine<E> {
    /// The schedules, in registration order.
    pub closed spec fn tweens(&self) -> Seq<TweenView> {
        self.its_tweens@.map_values(|t: TweenInfo| t@)
    }

    /// The effects, in registration order.
    pub closed spec fn effects(&self) -> Seq<E> {
        self.its_effects@
    }

    pub closed spec fn wf(&self) -> bool {
        &&& self.its_tweens@.len() == self.its_effects@.len()
        &&& forall|i: int| 0 <= i < self.its_tweens@.len() ==> (#[trigger] self.its_tweens@[i])@.wf()
    }

    pub fn new() -> (r: TweenEngine<E>)
        ensures
            r.wf(),
            r.tweens() == Seq::<TweenView>::empty(),
            r.effects() == Seq::<E>::empty(),
    {
        let r = TweenEngine { its_tweens: Vec::new(), its_effects: Vec::new() };
        assert(r.tweens() =~= Seq::<TweenView>::empty());
        r
    }

    /// Adds an effect with a fresh schedule after the ones already registered.
    pub fn register(&mut self, the_tween: E, the_duration: u64, the_cooldown: u64, the_repetitions: i32)
        requires
            old(self).wf(),
            the_duration + the_cooldown <= u64::MAX,
        ensures
            final(self).wf(),
            final(self).tweens() == old(self).tweens().push(
                TweenView {
                    duration: the_duration as nat,
                    progress: 0,
                    cooldown: the_cooldown as nat,
                    repetitions: the_repetitions as int,
                },
            ),
            final(self).effects() == old(self).effects().push(the_tween),
    {
        let a_state = TweenInfo::new(the_duration, the_cooldown, the_repetitions);
        self.its_tweens.push(a_state);
        self.its_effects.push(the_tween);
        assert(self.tweens() =~= old(self).tweens().push(a_state@));
    }

    pub fn len(&self) -> (r: usize)
        requires
            self.wf(),
        ensures
            r == self.tweens().len(),
            r == self.effects().len(),
    {
        self.its_tweens.len()
    }

    pub fn get_tween(&self, the_index: usize) -> (r: TweenInfo)
        requires
            self.wf(),
            the_index < self.tweens().len(),
        ensures
            r@ == self.tweens()[the_index as int],
    {
        self.its_tweens[the_index]
    }

    pub fn get_effect(&self, the_index: usize) -> (r: &E)
        requires
            self.wf(),
            the_index < self.effects().len(),
        ensures
            *r == self.effects()[the_index as int],
    {
        &self.its_effects[the_index]
    }

    /// Advances every schedule by `the_delta` microseconds and returns, in
    /// registration order, the effects to run in this tick and their
    /// fractions. Exhausted entries are skipped one by one.
    pub fn tick(&mut self, the_delta: u64) -> (r: Vec<TweenFiring>)
        requires
            old(self).wf(),
        ensures
            final(self).wf(),
            final(self).effects() == old(self).effects(),
            final(self).tweens().len() == old(self).tweens().len(),
            forall|i: int| 0 <= i < old(self).tweens().len() ==> #[trigger] final(self).tweens()[i]
                == step_state(old(self).tweens()[i], the_delta as nat),
            r@ == firings(old(self).tweens(), the_delta as nat, old(self).tweens().len() as int),
    {
        let ghost start = self.tweens();
        let mut out: Vec<TweenFiring> = Vec::new();
        let mut i: usize = 0;
        while i < self.its_tweens.len()
            invariant
                self.wf(),
                self.effects() == old(self).effects(),
                start == old(self).tweens(),
                self.tweens().len() == start.len(),
                i <= start.len(),
                forall|j: int| 0 <= j < i ==> #[trigger] self.tweens()[j] == step_state(start[j], the_delta as nat),
                forall|j: int| i <= j < start.len() ==> #[trigger] self.tweens()[j] == start[j],
                out@ == firings(start, the_delta as nat, i as int),
            decreases start.len() - i,
        {
            let mut a_state = self.its_tweens[i];
            assert(a_state@ == self.tweens()[i as int]);
            assert(a_state@ == start[i as int]);
            let fired = a_state.step(the_delta);
            let ghost prev = self.its_tweens@;
            let ghost prev_t = self.tweens();
            self.its_tweens.set(i, a_state);
            assert(self.its_tweens@ == prev.update(i as int, a_state));
            assert(self.tweens() =~= prev_t.update(i as int, a_state@));
            match fired {
                Some(f) => {
                    out.push(TweenFiring { index: i, fraction: f });
                },
                None => {},
            }
            assert(self.tweens()[i as int] == step_state(start[i as int], the_delta as nat));
            i += 1;
        }
        out
    }

    /// Nothing to release between ticks.
    pub fn cleanup(&mut self)
        ensures
            *final(self) == *old(self),
    {
    }
}

/// The fraction grows with the progress.
pub proof fn lemma_fraction_monotone(p1: nat, p2: nat, duration: nat)
    requires
        p1 <= p2,
    ensures
        fraction(p1, duration) <= fraction(p2, duration),
        fraction(p2, duration) <= FRACTION_ONE,
{
    let one = FRACTION_ONE as nat;
    if p2 < duration {
        assert(p1 * one <= p2 * one) by (nonlinear_arith)
            requires
                p1 <= p2,
        ;
        lemma_div_is_ordered((p1 * one) as int, (p2 * one) as int, duration as int);
        assert(p2 * one / duration <= one) by (nonlinear_arith)
            requires
                p2 < duration,
        ;
    } else if p1 < duration {
        assert(p1 * one / duration <= one) by (nonlinear_arith)
            requires
                p1 < duration,
        ;
    }
}

/// Within one cycle the fractions that an effect is run with never go
/// down: of two consecutive ticks with no reset between them, both of which
/// run the effect, the second runs it with a fraction at least as large.
pub proof fn lemma_fractions_non_decreasing(t: TweenView, d1: nat, d2: nat)
    requires
        t.wf(),
        t.progress + d1 < t.duration + t.cooldown,
        step_fraction(t, d1) is Some,
        step_fraction(step_state(t, d1), d2) is Some,
    ensures
        step_fraction(t, d1)->Some_0 <= step_fraction(step_state(t, d1), d2)->Some_0,
{
    lemma_fraction_monotone(t.progress + d1, t.progress + d1 + d2, t.duration);
}

/// A tick that carries the progress from within the active window to its end
/// or past it runs the effect with the fraction exactly one: every cycle
/// reaches the full fraction before its cooldown.
pub proof fn lemma_fraction_reaches_one(t: TweenView, delta: nat)
    requires
        !t.exhausted(),
        t.progress <= t.duration,
        t.progress + delta >= t.duration,
    ensures
        step_fraction(t, delta) == Some(FRACTION_ONE as nat),
{
}

/// An entry on its last repetition is exhausted by the tick that ends its
/// cycle.
pub proof fn lemma_last_cycle_exhausts(t: TweenView, delta: nat)
    requires
        t.repetitions == 1,
        t.progress + delta >= t.duration + t.cooldown,
    ensures
        step_state(t, delta).exhausted(),
{
}

/// An exhausted entry is never run again and its schedule never changes,
/// however many ticks follow.
pub proof fn lemma_exhausted_is_inert(t: TweenView, deltas: Seq<nat>)
    requires
        t.exhausted(),
    ensures
        run_steps(t, deltas) == t,
        !runs_in(t, deltas),
    decreases deltas.len(),
{
    if deltas.len() > 0 {
        lemma_exhausted_is_inert(t, deltas.drop_first());
    }
}

} // verus!
