use vstd::prelude::*;

verus! {

/// Whether a timer fires once or re-arms itself after firing.
#[derive(Clone, Copy, Debug, PartialEq, Eq, Structural)]
pub enum TimerMode {
    Once,
    Repeating,
}

/// A countdown advanced by elapsed time, in microseconds.
#[derive(Clone, Copy, Debug, PartialEq, Eq, Structural)]
pub struct Timer {
    pub duration: u64,
    pub elapsed: u64,
    pub mode: TimerMode,
}

impl Timer {
    pub open spec fn wf(self) -> bool {
        &&& self.duration > 0
        &&& match self.mode {
            TimerMode::Once => self.elapsed <= self.duration,
            TimerMode::Repeating => self.elapsed < self.duration,
        }
    }

    /// Whether advancing by `dt` crosses the end of the countdown on this tick.
    pub open spec fn fires(self, dt: int) -> bool {
        match self.mode {
            TimerMode::Once => self.elapsed < self.duration && self.elapsed + dt >= self.duration,
            TimerMode::Repeating => self.elapsed + dt >= self.duration,
        }
    }

    /// The timer after advancing by `dt`.
    pub open spec fn ticked(self, dt: int) -> Timer {
        let total = self.elapsed + dt;
        Timer {
            elapsed: match self.mode {
                TimerMode::Once => if total < self.duration { total as u64 } else { self.duration },
                TimerMode::Repeating => (total % (self.duration as int)) as u64,
            },
            ..self
        }
    }

    /// A fresh timer of the given length and mode.
    pub fn new(duration: u64, mode: TimerMode) -> (r: Timer)
        requires
            duration > 0,
        ensures
            r.wf(),
            r == (Timer { duration, elapsed: 0, mode }),
    {
        Timer { duration, elapsed: 0, mode }
    }

    /// Advances the timer by `dt` and reports whether it just finished.
    pub fn tick(&mut self, dt: u64) -> (just_finished: bool)
        requires
            old(self).wf(),
        ensures
            final(self).wf(),
            *final(self) == old(self).ticked(dt as int),
            just_finished == old(self).fires(dt as int),
    {
        let total: u128 = self.elapsed as u128 + dt as u128;
        match self.mode {
            TimerMode::Once => {
                let was_running = self.elapsed < self.duration;
                if total < self.duration as u128 {
                    self.elapsed = total as u64;
                } else {
                    self.elapsed = self.duration;
                }
                was_running && total >= self.duration as u128
            },
            TimerMode::Repeating => {
                self.elapsed = (total % (self.duration as u128)) as u64;
                total >= self.duration as u128
            },
        }
    }
}

/// Total time of a sequence of ticks.
pub open spec fn total(dts: Seq<u64>) -> int
    decreases dts.len(),
{
    if dts.len() == 0 {
        0
    } else {
        total(dts.drop_last()) + dts.last()
    }
}

/// The timer after advancing through every tick of `dts` in turn.
pub open spec fn run(t: Timer, dts: Seq<u64>) -> Timer
    decreases dts.len(),
{
    if dts.len() == 0 {
        t
    } else {
        run(t, dts.drop_last()).ticked(dts.last() as int)
    }
}

/// A one-shot timer of length `d`, started from zero, has run for the
/// elapsed time capped at `d`; it fires on exactly the tick during which
/// the accumulated time first reaches `d`.
pub proof fn lemma_once_fires_when_due(d: u64, dts: Seq<u64>)
    requires
        d > 0,
    ensures
        ({
            let t = Timer { duration: d, elapsed: 0, mode: TimerMode::Once };
            &&& run(t, dts).duration == d
            &&& run(t, dts).mode == TimerMode::Once
            &&& run(t, dts).elapsed == if total(dts) < d { total(dts) } else { d as int }
            &&& forall|k: int| 0 <= k < dts.len() ==> (#[trigger] run(t, dts.subrange(0, k)).fires(
                dts[k] as int) <==> total(dts.subrange(0, k)) < d <= total(dts.subrange(0, k)) + dts[k])
        }),
    decreases dts.len(),
{
    let t = Timer { duration: d, elapsed: 0, mode: TimerMode::Once };
    if dts.len() > 0 {
        let init = dts.drop_last();
        lemma_total_nonneg(init);
        lemma_once_fires_when_due(d, init);
        assert forall|k: int| 0 <= k < dts.len() implies (#[trigger] run(t, dts.subrange(0, k)).fires(
            dts[k] as int) <==> total(dts.subrange(0, k)) < d <= total(dts.subrange(0, k)) + dts[k]) by {
            if k < dts.len() - 1 {
                assert(dts.subrange(0, k) =~= init.subrange(0, k));
                assert(dts[k] == init[k]);
            } else {
                assert(dts.subrange(0, k) =~= init);
            }
        }
    }
}

proof fn lemma_total_nonneg(dts: Seq<u64>)
    ensures
        total(dts) >= 0,
    decreases dts.len(),
{
    if dts.len() > 0 {
        lemma_total_nonneg(dts.drop_last());
    }
}

} // verus!
