//! Tick-driven progress counters and the three-phase splay sequence.
//!
//! Time runs in ticks, sixty to the second; a duration is given in
//! milliseconds.

use vstd::prelude::*;

verus! {

/// Ticks in one second.
pub const TICKS_PER_SECOND: u64 = 60;

/// Phase durations of the splay sequence, in milliseconds.
pub const SPLAY_RISE_TIME: u64 = 200;
pub const SPLAY_FLIP_TIME: u64 = 400;
pub const SPLAY_TRAVEL_TIME: u64 = 1500;

/// Number of ticks after which a progression of `duration_ms` milliseconds
/// is done: the least `n` with `n / 60` seconds at least the duration.
pub open spec fn ticks_for(duration_ms: nat) -> nat {
    ((duration_ms * 3 + 49) / 50) as nat
}

/// Progress of one timed transition of `duration_ms` milliseconds, `elapsed`
/// ticks in. Each tick adds `1 / (60 * duration)` to the progress, the
/// duration taken in seconds: the progress is `elapsed * 50 / (duration_ms * 3)`.
#[derive(Clone, Copy, Debug)]
pub struct Progression {
    elapsed: u64,
    duration_ms: u64,
}

impl Progression {
    pub closed spec fn elapsed(self) -> nat {
        self.elapsed as nat
    }

    pub closed spec fn duration(self) -> nat {
        self.duration_ms as nat
    }

    pub open spec fn wf(self) -> bool {
        self.duration() > 0
    }

    /// Numerator of the progress fraction: the elapsed ticks, in units of
    /// `1 / 50` tick.
    pub open spec fn progress_num(self) -> nat {
        self.elapsed() * 50
    }

    /// Denominator of the progress fraction: the duration in the same units,
    /// `60 * duration_ms / 1000` ticks.
    pub open spec fn progress_den(self) -> nat {
        self.duration() * 3
    }

    /// Progress is complete once it reaches one.
    pub open spec fn done(self) -> bool {
        self.progress_num() >= self.progress_den()
    }

    /// A fresh progression of `duration_ms` milliseconds.
    pub closed spec fn fresh(duration_ms: nat) -> Progression {
        Progression { elapsed: 0, duration_ms: duration_ms as u64 }
    }

    /// The progression one tick later; the tick count saturates.
    pub closed spec fn ticked(self) -> Progression {
        Progression {
            elapsed: if self.elapsed < u64::MAX { (self.elapsed + 1) as u64 } else { u64::MAX },
            duration_ms: self.duration_ms,
        }
    }

    /// The progression `n` ticks later.
    pub open spec fn after(self, n: nat) -> Progression
        decreases n,
    {
        if n == 0 {
            self
        } else {
            self.after((n - 1) as nat).ticked()
        }
    }

    pub fn new(duration_ms: u64) -> (r: Progression)
        requires
            duration_ms > 0,
        ensures
            r == Progression::fresh(duration_ms as nat),
            r.wf(),
            r.elapsed() == 0,
            r.duration() == duration_ms,
    {
        Progression { elapsed: 0, duration_ms }
    }

    /// How far along the transition is, as the fraction `r.0 / r.1`:
    /// `elapsed / (60 * duration)`, the duration taken in seconds.
    pub fn progress(&self) -> (r: (u128, u128))
        ensures
            r.0 == self.progress_num(),
            r.1 == self.progress_den(),
    {
        (self.elapsed as u128 * 50, self.duration_ms as u128 * 3)
    }

    /// Advances by one tick: the progress grows by `1 / (60 * duration)`.
    pub fn update(&mut self)
        ensures
            *final(self) == old(self).ticked(),
            final(self).duration() == old(self).duration(),
            old(self).elapsed() < u64::MAX ==> final(self).progress_num() == old(
                self,
            ).progress_num() + 50,
    {
        if self.elapsed < u64::MAX {
            self.elapsed = self.elapsed + 1;
        }
    }

    pub fn is_done(&self) -> (r: bool)
        ensures
            r == self.done(),
    {
        self.elapsed as u128 * 50 >= self.duration_ms as u128 * 3
    }

    /// A tick keeps the duration and advances the elapsed count, saturating.
    pub proof fn lemma_ticked(self)
        ensures
            self.ticked().duration() == self.duration(),
            self.ticked().elapsed() == if self.elapsed() < u64::MAX {
                self.elapsed() + 1
            } else {
                self.elapsed()
            },
    {
    }

    /// A fresh progression has ticked zero times.
    pub proof fn lemma_fresh(duration_ms: nat)
        requires
            duration_ms <= u64::MAX,
        ensures
            Progression::fresh(duration_ms).elapsed() == 0,
            Progression::fresh(duration_ms).duration() == duration_ms,
    {
    }

    /// After `n` ticks, `n` has been added to the elapsed count (saturating).
    pub proof fn lemma_after(self, n: nat)
        ensures
            self.after(n).duration() == self.duration(),
            self.after(n).elapsed() == if self.elapsed() + n <= u64::MAX {
                self.elapsed() + n
            } else {
                u64::MAX as nat
            },
        decreases n,
    {
        if n > 0 {
            self.lemma_after((n - 1) as nat);
            self.after((n - 1) as nat).lemma_ticked();
        }
    }
}

/// A fresh progression of `duration_ms` milliseconds is done after `n` ticks
/// exactly when `n` ticks last at least the duration, that is, when
/// `n / 60` seconds is at least `duration_ms / 1000` seconds; so exactly when
/// `n` is at least `ticks_for(duration_ms)`.
pub proof fn lemma_progression_done_after(duration_ms: nat, n: nat)
    requires
        0 < duration_ms <= u64::MAX,
    ensures
        Progression::fresh(duration_ms).after(n).done() <==> n * 1000 >= duration_ms * 60,
        Progression::fresh(duration_ms).after(n).done() <==> n >= ticks_for(duration_ms),
{
    let p = Progression::fresh(duration_ms);
    Progression::lemma_fresh(duration_ms);
    p.lemma_after(n);
    let t = ticks_for(duration_ms);
    assert(n >= t <==> n * 50 >= duration_ms * 3) by (nonlinear_arith)
        requires
            t == ((duration_ms * 3 + 49) / 50) as nat,
    ;
}

/// The three phases of a card's journey from the deck to the display row;
/// each phase owns its own progression.
#[derive(Clone, Copy, Debug)]
pub enum SplayProgression {
    Rise(Progression),
    Flip(Progression),
    Travel(Progression),
}

/// Ticks spent rising, and rising then flipping.
pub open spec fn splay_rise_ticks() -> nat {
    ticks_for(SPLAY_RISE_TIME as nat)
}

pub open spec fn splay_flip_end_ticks() -> nat {
    ticks_for(SPLAY_RISE_TIME as nat) + ticks_for(SPLAY_FLIP_TIME as nat)
}

/// Ticks the whole sequence takes.
pub open spec fn splay_total_ticks() -> nat {
    splay_flip_end_ticks() + ticks_for(SPLAY_TRAVEL_TIME as nat)
}

impl SplayProgression {
    pub open spec fn start() -> SplayProgression {
        SplayProgression::Rise(Progression::fresh(SPLAY_RISE_TIME as nat))
    }

    /// One tick: the active phase advances, and a phase that completes gives
    /// way to a fresh progression of the next phase.
    pub open spec fn ticked(self) -> SplayProgression {
        match self {
            SplayProgression::Rise(p) => if p.ticked().done() {
                SplayProgression::Flip(Progression::fresh(SPLAY_FLIP_TIME as nat))
            } else {
                SplayProgression::Rise(p.ticked())
            },
            SplayProgression::Flip(p) => if p.ticked().done() {
                SplayProgression::Travel(Progression::fresh(SPLAY_TRAVEL_TIME as nat))
            } else {
                SplayProgression::Flip(p.ticked())
            },
            SplayProgression::Travel(p) => SplayProgression::Travel(p.ticked()),
        }
    }

    /// Only the travel phase, once its progression is done, completes the sequence.
    pub open spec fn done(self) -> bool {
        match self {
            SplayProgression::Travel(p) => p.done(),
            _ => false,
        }
    }

    pub open spec fn after(self, n: nat) -> SplayProgression
        decreases n,
    {
        if n == 0 {
            self
        } else {
            self.after((n - 1) as nat).ticked()
        }
    }

    pub fn new() -> (r: SplayProgression)
        ensures
            r == SplayProgression::start(),
    {
        SplayProgression::Rise(Progression::new(SPLAY_RISE_TIME))
    }

    pub fn update(&mut self)
        ensures
            *final(self) == old(self).ticked(),
    {
        match self {
            SplayProgression::Rise(p) => {
                p.update();
                if p.is_done() {
                    *self = SplayProgression::Flip(Progression::new(SPLAY_FLIP_TIME));
                }
            },
            SplayProgression::Flip(p) => {
                p.update();
                if p.is_done() {
                    *self = SplayProgression::Travel(Progression::new(SPLAY_TRAVEL_TIME));
                }
            },
            SplayProgression::Travel(p) => {
                p.update();
            },
        }
    }

    pub fn is_done(&self) -> (r: bool)
        ensures
            r == self.done(),
    {
        match self {
            SplayProgression::Travel(p) => p.is_done(),
            _ => false,
        }
    }
}

/// The phase and progress of a fresh splay sequence after `n` ticks.
pub proof fn lemma_splay_after(n: nat)
    ensures
        n < splay_rise_ticks() ==> SplayProgression::start().after(n) == SplayProgression::Rise(
            Progression::fresh(SPLAY_RISE_TIME as nat).after(n),
        ),
        splay_rise_ticks() <= n < splay_flip_end_ticks() ==> SplayProgression::start().after(n)
            == SplayProgression::Flip(
            Progression::fresh(SPLAY_FLIP_TIME as nat).after((n - splay_rise_ticks()) as nat),
        ),
        splay_flip_end_ticks() <= n ==> SplayProgression::start().after(n)
            == SplayProgression::Travel(
            Progression::fresh(SPLAY_TRAVEL_TIME as nat).after(
                (n - splay_flip_end_ticks()) as nat,
            ),
        ),
    decreases n,
{
    let rise = Progression::fresh(SPLAY_RISE_TIME as nat);
    let flip = Progression::fresh(SPLAY_FLIP_TIME as nat);
    let travel = Progression::fresh(SPLAY_TRAVEL_TIME as nat);
    Progression::lemma_fresh(SPLAY_RISE_TIME as nat);
    Progression::lemma_fresh(SPLAY_FLIP_TIME as nat);
    Progression::lemma_fresh(SPLAY_TRAVEL_TIME as nat);
    assert(splay_rise_ticks() == 12);
    assert(splay_flip_end_ticks() == 36);
    if n > 0 {
        let m = (n - 1) as nat;
        lemma_splay_after(m);
        if m < 12 {
            rise.lemma_after(m);
            rise.after(m).lemma_ticked();
        } else if m < 36 {
            flip.lemma_after((m - 12) as nat);
            flip.after((m - 12) as nat).lemma_ticked();
        }
    }
}

/// A fresh splay sequence is done after `n` ticks exactly when `n` covers all
/// three phases, and it is in its travel phase exactly when `n` covers the
/// rise and the flip.
pub proof fn lemma_splay_done_after(n: nat)
    ensures
        SplayProgression::start().after(n).done() <==> n >= splay_total_ticks(),
        (SplayProgression::start().after(n) is Travel) <==> n >= splay_flip_end_ticks(),
        splay_flip_end_ticks() == 36,
        splay_total_ticks() == 126,
{
    lemma_splay_after(n);
    Progression::lemma_fresh(SPLAY_TRAVEL_TIME as nat);
    assert(splay_flip_end_ticks() == 36);
    assert(splay_total_ticks() == 126);
    if n >= 36 {
        Progression::fresh(SPLAY_TRAVEL_TIME as nat).lemma_after((n - 36) as nat);
    }
}

} // verus!
