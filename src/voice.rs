//! Oscillator voices: a phase accumulator and a smoothed amplitude each.
//!
//! Frequencies are in millihertz and amplitudes in parts per million. A
//! phase is the numerator of a fraction of a cycle whose denominator is
//! `cycle_len(sample_rate)`, so that a phase step of `freq / sample_rate`
//! cycles is exact.
use vstd::prelude::*;

verus! {

/// Millihertz per hertz.
pub const MILLIHERTZ: u64 = 1000;

/// The amplitude written as one, in parts per million.
pub const AMP_ONE: u32 = 1_000_000;

/// The frequency a new voice starts at: 220 Hz.
pub const DEFAULT_FREQ: u64 = 220_000;

/// The denominator of a phase at `sample_rate` Hz.
pub open spec fn cycle_len(sample_rate: u32) -> nat {
    (sample_rate as nat) * (MILLIHERTZ as nat)
}

/// One sample's step of the one-pole smoother from `s` toward `t`: a
/// twentieth of the gap, rounded toward `t`, so that it always arrives.
pub open spec fn smooth_step(s: int, t: int) -> int {
    if s < t {
        s + (t - s + 19) / 20
    } else if s > t {
        s - (s - t + 19) / 20
    } else {
        s
    }
}

/// `n` steps of the smoother from `s` toward `t`.
pub open spec fn smooth_n(s: int, t: int, n: nat) -> int
    decreases n,
{
    if n == 0 {
        s
    } else {
        smooth_step(smooth_n(s, t, (n - 1) as nat), t)
    }
}

/// A target amplitude after one control tick of decay: nineteen twentieths,
/// rounded down.
pub open spec fn decayed(t: int) -> int {
    t * 19 / 20
}

/// `p` advanced by `freq` millihertz for one sample at `sample_rate` Hz.
pub open spec fn phase_step(p: nat, freq: nat, sample_rate: u32) -> nat {
    (p + freq) % cycle_len(sample_rate)
}

/// An oscillator voice.
#[derive(Clone, Copy, Debug, PartialEq, Eq, Structural)]
pub struct Sine {
    /// Fraction of a cycle; see `cycle_len`.
    pub phase: u64,
    /// Millihertz.
    pub target_freq: u64,
    /// Parts per million.
    pub target_amp: u32,
    /// Parts per million.
    pub smoothed_amp: u32,
}

impl Sine {
    pub open spec fn new_spec() -> Sine {
        Sine { phase: 0, target_freq: DEFAULT_FREQ, target_amp: 0, smoothed_amp: 0 }
    }

    /// A silent voice at 220 Hz with phase zero.
    pub fn new() -> (r: Sine)
        ensures
            r == Sine::new_spec(),
    {
        Sine { phase: 0, target_freq: DEFAULT_FREQ, target_amp: 0, smoothed_amp: 0 }
    }

    /// One sample of amplitude smoothing.
    pub fn smooth(&mut self)
        ensures
            final(self).smoothed_amp == smooth_step(
                old(self).smoothed_amp as int,
                old(self).target_amp as int,
            ),
            final(self).phase == old(self).phase,
            final(self).target_freq == old(self).target_freq,
            final(self).target_amp == old(self).target_amp,
    {
        let s = self.smoothed_amp;
        let t = self.target_amp;
        if s < t {
            let step = ((t - s) as u64 + 19) / 20;
            assert(step <= t - s);
            self.smoothed_amp = (s as u64 + step) as u32;
        } else if s > t {
            let step = ((s - t) as u64 + 19) / 20;
            assert(step <= s - t);
            self.smoothed_amp = (s as u64 - step) as u32;
        }
    }

    /// One sample of phase advance at `sample_rate` Hz.
    pub fn advance(&mut self, sample_rate: u32)
        requires
            sample_rate > 0,
            old(self).phase < cycle_len(sample_rate),
        ensures
            final(self).phase == phase_step(
                old(self).phase as nat,
                old(self).target_freq as nat,
                sample_rate,
            ),
            final(self).phase < cycle_len(sample_rate),
            final(self).target_freq == old(self).target_freq,
            final(self).target_amp == old(self).target_amp,
            final(self).smoothed_amp == old(self).smoothed_amp,
    {
        let cycle = sample_rate as u64 * MILLIHERTZ;
        let f = self.target_freq % cycle;
        let p = (self.phase + f) % cycle;
        proof {
            let c = cycle as int;
            let fr = self.target_freq as int;
            let ph = self.phase as int;
            vstd::arithmetic::div_mod::lemma_add_mod_noop_right(ph, fr, c);
        }
        self.phase = p;
    }

    /// One control tick of decay of the target amplitude.
    pub fn decay(&mut self)
        ensures
            final(self).target_amp == decayed(old(self).target_amp as int),
            final(self).phase == old(self).phase,
            final(self).target_freq == old(self).target_freq,
            final(self).smoothed_amp == old(self).smoothed_amp,
    {
        self.target_amp = (self.target_amp as u64 * 19 / 20) as u32;
    }
}

/// A smoothing step moves toward the target without passing it, by at least
/// one unit where it is not there yet.
pub proof fn lemma_smooth_step(s: int, t: int)
    ensures
        s <= t ==> s <= smooth_step(s, t) <= t,
        s >= t ==> t <= smooth_step(s, t) <= s,
        s != t ==> abs_diff(smooth_step(s, t), t) < abs_diff(s, t),
{
}

pub open spec fn abs_diff(a: int, b: int) -> int {
    if a < b {
        b - a
    } else {
        a - b
    }
}

/// Repeated smoothing toward a constant target approaches it monotonically,
/// never passes it, and reaches it after at most as many samples as the
/// starting gap in parts per million.
pub proof fn lemma_smoothing_converges(s: int, t: int, n: nat)
    ensures
        s <= t ==> s <= smooth_n(s, t, n) <= smooth_n(s, t, n + 1) <= t,
        s >= t ==> t <= smooth_n(s, t, n + 1) <= smooth_n(s, t, n) <= s,
        abs_diff(smooth_n(s, t, n), t) <= abs_diff(s, t) - n || smooth_n(s, t, n) == t,
        n >= abs_diff(s, t) ==> smooth_n(s, t, n) == t,
    decreases n,
{
    if n > 0 {
        lemma_smoothing_converges(s, t, (n - 1) as nat);
    }
    lemma_smooth_step(smooth_n(s, t, n), t);
}

} // verus!
