//! A phase-modulation voice: a carrier, a modulator and a slow LFO on the
//! modulation index, each a phase accumulator advanced once per sample.
//!
//! A phase here is the numerator of a fraction of a cycle whose denominator
//! is `fm_cycle(sample_rate)`. Frequencies are in millihertz and ratios in
//! parts per thousand, so every phase step is exact. The sine of each phase,
//! and the modulator's contribution to the carrier frequency, are floating
//! point and computed by the caller, which hands the carrier frequency back
//! in millihertz.
use vstd::prelude::*;

verus! {

/// The amplitude a trigger sets, in parts per million.
pub const ATTACK_AMP: u32 = 500_000;

/// Control ticks between two pulses of the free-running trigger.
pub const PULSE_INTERVAL: usize = 80;

/// Pulses in one turn of the free-running counter.
pub const PULSES_PER_TURN: usize = 16;

/// The largest frequency an FM voice takes, in millihertz.
pub const FM_FREQ_LIMIT: u64 = 0x100_0000_0000;

/// The largest ratio an FM voice takes, in parts per thousand.
pub const RATIO_LIMIT: u32 = 0x10_0000;

/// The denominator of an FM phase at `sample_rate` Hz.
pub open spec fn fm_cycle(sample_rate: u32) -> int {
    sample_rate as int * 1_000_000
}

/// `p` advanced by `step` units, wrapped to a cycle.
pub open spec fn fm_step(p: int, step: int, sample_rate: u32) -> int {
    (p + step) % fm_cycle(sample_rate)
}

/// The amplitude after one control tick of decay: forty-nine fiftieths,
/// rounded down.
pub open spec fn fm_decayed(a: int) -> int {
    a * 49 / 50
}

/// The state of an FM voice.
#[derive(Clone, Copy, Debug, PartialEq, Eq, Structural)]
pub struct FMSynth {
    pub sample_rate: u32,
    /// Millihertz.
    pub freq: u64,
    /// Parts per thousand.
    pub m_ratio: u32,
    /// Parts per thousand.
    pub c_ratio: u32,
    /// Millihertz.
    pub lfo_freq: u64,
    /// Parts per million.
    pub amp: u32,
    pub lfo_phase: u64,
    pub m_phase: u64,
    pub c_phase: u64,
}

impl FMSynth {
    pub open spec fn wf(&self) -> bool {
        &&& self.sample_rate > 0
        &&& self.freq <= FM_FREQ_LIMIT
        &&& self.lfo_freq <= FM_FREQ_LIMIT
        &&& self.m_ratio <= RATIO_LIMIT
        &&& self.c_ratio <= RATIO_LIMIT
        &&& self.lfo_phase < fm_cycle(self.sample_rate)
        &&& self.m_phase < fm_cycle(self.sample_rate)
        &&& self.c_phase < fm_cycle(self.sample_rate)
    }

    /// A voice at rest: phases zero, LFO at 3 Hz.
    pub fn new(sample_rate: u32, freq: u64, amp: u32, m_ratio: u32, c_ratio: u32) -> (r: FMSynth)
        requires
            sample_rate > 0,
            freq <= FM_FREQ_LIMIT,
            m_ratio <= RATIO_LIMIT,
            c_ratio <= RATIO_LIMIT,
        ensures
            r.wf(),
            r == (FMSynth {
                sample_rate,
                freq,
                m_ratio,
                c_ratio,
                lfo_freq: 3000,
                amp,
                lfo_phase: 0,
                m_phase: 0,
                c_phase: 0,
            }),
    {
        FMSynth {
            sample_rate,
            freq,
            m_ratio,
            c_ratio,
            lfo_freq: 3000,
            amp,
            lfo_phase: 0,
            m_phase: 0,
            c_phase: 0,
        }
    }

    pub fn set_freq(&mut self, freq: u64)
        requires
            old(self).wf(),
            freq <= FM_FREQ_LIMIT,
        ensures
            final(self).wf(),
            *final(self) == (FMSynth { freq, ..*old(self) }),
    {
        self.freq = freq;
    }

    pub fn set_ratios(&mut self, c_ratio: u32, m_ratio: u32)
        requires
            old(self).wf(),
            c_ratio <= RATIO_LIMIT,
            m_ratio <= RATIO_LIMIT,
        ensures
            final(self).wf(),
            *final(self) == (FMSynth { c_ratio, m_ratio, ..*old(self) }),
    {
        self.c_ratio = c_ratio;
        self.m_ratio = m_ratio;
    }

    pub fn set_lfo_freq(&mut self, lfo_freq: u64)
        requires
            old(self).wf(),
            lfo_freq <= FM_FREQ_LIMIT,
        ensures
            final(self).wf(),
            *final(self) == (FMSynth { lfo_freq, ..*old(self) }),
    {
        self.lfo_freq = lfo_freq;
    }

    /// Starts a note at `freq`: the attack amplitude, and carrier and
    /// modulator from phase zero; the LFO runs on.
    pub fn trigger(&mut self, freq: u64)
        requires
            old(self).wf(),
            freq <= FM_FREQ_LIMIT,
        ensures
            final(self).wf(),
            *final(self) == (FMSynth { freq, amp: ATTACK_AMP, m_phase: 0, c_phase: 0, ..*old(self) }),
    {
        self.freq = freq;
        self.amp = ATTACK_AMP;
        self.m_phase = 0;
        self.c_phase = 0;
    }

    /// One control tick of the release: the amplitude decays by a fiftieth.
    pub fn control_rate_update(&mut self)
        requires
            old(self).wf(),
        ensures
            final(self).wf(),
            *final(self) == (FMSynth { amp: fm_decayed(old(self).amp as int) as u32, ..*old(self) }),
    {
        self.amp = (self.amp as u64 * 49 / 50) as u32;
    }

    /// Advances the LFO by one sample.
    pub fn advance_lfo(&mut self)
        requires
            old(self).wf(),
        ensures
            final(self).wf(),
            *final(self) == (FMSynth {
                lfo_phase: fm_step(
                    old(self).lfo_phase as int,
                    old(self).lfo_freq * 1000,
                    old(self).sample_rate,
                ) as u64,
                ..*old(self)
            }),
    {
        let cycle = self.sample_rate as u128 * 1_000_000;
        let step = self.lfo_freq as u128 * 1000;
        self.lfo_phase = ((self.lfo_phase as u128 + step) % cycle) as u64;
    }

    /// Advances the modulator by one sample, at `freq` times `m_ratio`.
    pub fn advance_modulator(&mut self)
        requires
            old(self).wf(),
        ensures
            final(self).wf(),
            *final(self) == (FMSynth {
                m_phase: fm_step(
                    old(self).m_phase as int,
                    old(self).freq * old(self).m_ratio,
                    old(self).sample_rate,
                ) as u64,
                ..*old(self)
            }),
    {
        let cycle = self.sample_rate as u128 * 1_000_000;
        assert(self.freq * self.m_ratio <= 0x100_0000_0000 * 0x10_0000) by (nonlinear_arith)
            requires self.freq <= 0x100_0000_0000, self.m_ratio <= 0x10_0000;
        let step = self.freq as u128 * self.m_ratio as u128;
        self.m_phase = ((self.m_phase as u128 + step) % cycle) as u64;
    }

    /// Advances the carrier by one sample, at instantaneous frequency
    /// `c_freq` (millihertz, negative where modulation swings it below zero)
    /// times `c_ratio`.
    pub fn advance_carrier(&mut self, c_freq: i64)
        requires
            old(self).wf(),
        ensures
            final(self).wf(),
            *final(self) == (FMSynth {
                c_phase: fm_step(
                    old(self).c_phase as int,
                    c_freq * old(self).c_ratio,
                    old(self).sample_rate,
                ) as u64,
                ..*old(self)
            }),
    {
        let cycle = self.sample_rate as i128 * 1_000_000;
        assert(-0x8000_0000_0000_0000 * 0x10_0000 <= c_freq * self.c_ratio <= 0x8000_0000_0000_0000
            * 0x10_0000) by (nonlinear_arith)
            requires self.c_ratio <= 0x10_0000;
        let step = c_freq as i128 * self.c_ratio as i128;
        let t = self.c_phase as i128 + step;
        match t.checked_rem_euclid(cycle) {
            Some(p) => {
                self.c_phase = p as u64;
            },
            None => {},
        }
    }
}

/// A free-running counter that fires every `PULSE_INTERVAL` control ticks,
/// whatever else triggers the voice.
#[derive(Clone, Copy, Debug, PartialEq, Eq, Structural)]
pub struct Pulse {
    pub counter: usize,
}

impl Pulse {
    pub open spec fn wf(&self) -> bool {
        self.counter < PULSE_INTERVAL * PULSES_PER_TURN
    }

    pub fn new() -> (r: Pulse)
        ensures
            r.wf(),
            r.counter == 0,
    {
        Pulse { counter: 0 }
    }

    /// One control tick; returns whether the pulse fires on it.
    pub fn tick(&mut self) -> (fire: bool)
        requires
            old(self).wf(),
        ensures
            final(self).wf(),
            fire == (old(self).counter % PULSE_INTERVAL == 0),
            final(self).counter == (old(self).counter + 1) % (PULSE_INTERVAL * PULSES_PER_TURN) as int,
    {
        let fire = self.counter % PULSE_INTERVAL == 0;
        self.counter = (self.counter + 1) % (PULSE_INTERVAL * PULSES_PER_TURN);
        fire
    }
}

} // verus!
