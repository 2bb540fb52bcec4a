//! The audio engine: a pool of voices that the audio callback drives, and the
//! control-side interface that gathers per-voice requests into one batch per
//! tick and hands it over without blocking.
use vstd::prelude::*;
use crate::commands::{with_amp, with_freq, CommandBatch, VoiceCommand};
use crate::transport::{try_recv_item, try_send_item};
use crate::voice::{cycle_len, decayed, phase_step, smooth_step, Sine};

verus! {

/// The number of voices of a pool made with [`Audio::new`].
pub const NUM_SINES: usize = 1000;

/// Voice `s` after command `c`: each requested value replaces its target.
pub open spec fn apply_command(s: Sine, c: VoiceCommand) -> Sine {
    Sine {
        target_amp: match c.amp {
            Some(a) => a,
            None => s.target_amp,
        },
        target_freq: match c.freq {
            Some(f) => f,
            None => s.target_freq,
        },
        ..s
    }
}

/// The voices after a batch: each voice the batch addresses takes its
/// command; requests for voices beyond the pool are ignored.
pub open spec fn applied(v: Seq<Sine>, m: Map<usize, VoiceCommand>) -> Seq<Sine> {
    Seq::new(
        v.len(),
        |i: int|
            if m.contains_key(i as usize) {
                apply_command(v[i], m[i as usize])
            } else {
                v[i]
            },
    )
}

/// Of two frequency requests for one voice within a batch, only the later is
/// kept, and it is what the voice receives.
pub proof fn lemma_last_freq_wins(
    voices: Seq<Sine>,
    m: Map<usize, VoiceCommand>,
    voice: usize,
    first: u64,
    second: u64,
)
    requires
        voice < voices.len(),
    ensures
        with_freq(with_freq(m, voice, first), voice, second) == with_freq(m, voice, second),
        applied(voices, with_freq(with_freq(m, voice, first), voice, second))[voice as int].target_freq
            == second,
{
    assert(with_freq(with_freq(m, voice, first), voice, second) =~= with_freq(m, voice, second));
}

/// A batch leaves every voice it does not address as it was; an empty batch
/// leaves the whole pool as it was.
pub proof fn lemma_unaddressed_voices_kept(voices: Seq<Sine>, m: Map<usize, VoiceCommand>, voice: usize)
    requires
        voice < voices.len(),
        !m.contains_key(voice),
    ensures
        applied(voices, m)[voice as int] == voices[voice as int],
        applied(voices, Map::<usize, VoiceCommand>::empty()) == voices,
{
    assert(applied(voices, Map::<usize, VoiceCommand>::empty()) =~= voices);
}

/// Of two amplitude requests for one voice within a batch, only the later is
/// kept, and it is what the voice receives.
pub proof fn lemma_last_amp_wins(
    voices: Seq<Sine>,
    m: Map<usize, VoiceCommand>,
    voice: usize,
    first: u32,
    second: u32,
)
    requires
        voice < voices.len(),
    ensures
        with_amp(with_amp(m, voice, first), voice, second) == with_amp(m, voice, second),
        applied(voices, with_amp(with_amp(m, voice, first), voice, second))[voice as int].target_amp
            == second,
{
    assert(with_amp(with_amp(m, voice, first), voice, second) =~= with_amp(m, voice, second));
}

/// The state that lives on the audio thread: the voice pool.
#[derive(Debug)]
pub struct Audio {
    sines: Vec<Sine>,
    sample_rate: u32,
}

impl View for Audio {
    type V = Seq<Sine>;

    closed spec fn view(&self) -> Seq<Sine> {
        self.sines@
    }
}

impl Audio {
    /// The sample rate the phases are kept at.
    pub closed spec fn rate(&self) -> u32 {
        self.sample_rate
    }

    /// A positive sample rate, and every phase below a whole cycle.
    pub open spec fn wf(&self) -> bool {
        &&& self.rate() > 0
        &&& forall|i: int| 0 <= i < self@.len() ==> (#[trigger] self@[i]).phase < cycle_len(self.rate())
    }

    /// A pool of `NUM_SINES` silent voices at `sample_rate` Hz.
    pub fn new(sample_rate: u32) -> (r: Audio)
        requires
            sample_rate > 0,
        ensures
            r.wf(),
            r.rate() == sample_rate,
            r@ == Seq::new(NUM_SINES as nat, |i: int| Sine::new_spec()),
    {
        Audio::with_voices(NUM_SINES, sample_rate)
    }

    /// A pool of `n` silent voices at `sample_rate` Hz.
    pub fn with_voices(n: usize, sample_rate: u32) -> (r: Audio)
        requires
            sample_rate > 0,
        ensures
            r.wf(),
            r.rate() == sample_rate,
            r@ == Seq::new(n as nat, |i: int| Sine::new_spec()),
    {
        let mut sines: Vec<Sine> = Vec::new();
        let mut i: usize = 0;
        while i < n
            invariant
                i <= n,
                sines@ == Seq::new(i as nat, |k: int| Sine::new_spec()),
            decreases n - i,
        {
            sines.push(Sine::new());
            i += 1;
            assert(sines@ =~= Seq::new(i as nat, |k: int| Sine::new_spec()));
        }
        let r = Audio { sines, sample_rate };
        assert(r.wf()) by {
            assert(sample_rate as nat * 1000 > 0) by (nonlinear_arith)
                requires sample_rate > 0;
        }
        r
    }

    /// The number of voices.
    pub fn len(&self) -> (r: usize)
        ensures
            r == self@.len(),
    {
        self.sines.len()
    }

    /// The sample rate, in Hz.
    pub fn sample_rate(&self) -> (r: u32)
        ensures
            r == self.rate(),
    {
        self.sample_rate
    }

    /// The voice at index `i`.
    pub fn sine(&self, i: usize) -> (r: Sine)
        requires
            i < self@.len(),
        ensures
            r == self@[i as int],
    {
        self.sines[i]
    }

    /// Sets the target frequency (millihertz) of voice `index`.
    pub fn set_sine_freq(&mut self, index: usize, freq: u64)
        requires
            old(self).wf(),
            index < old(self)@.len(),
        ensures
            final(self).wf(),
            final(self).rate() == old(self).rate(),
            final(self)@ == old(self)@.update(
                index as int,
                Sine { target_freq: freq, ..old(self)@[index as int] },
            ),
    {
        self.sines[index].target_freq = freq;
        assert(self@ =~= old(self)@.update(index as int, Sine { target_freq: freq, ..old(self)@[index as int] }));
    }

    /// Sets the target amplitude (parts per million) of voice `index`.
    pub fn set_sine_amp(&mut self, index: usize, amp: u32)
        requires
            old(self).wf(),
            index < old(self)@.len(),
        ensures
            final(self).wf(),
            final(self).rate() == old(self).rate(),
            final(self)@ == old(self)@.update(
                index as int,
                Sine { target_amp: amp, ..old(self)@[index as int] },
            ),
    {
        self.sines[index].target_amp = amp;
        assert(self@ =~= old(self)@.update(index as int, Sine { target_amp: amp, ..old(self)@[index as int] }));
    }

    /// Applies every command of `batch` to the voice it addresses.
    pub fn apply(&mut self, batch: &CommandBatch)
        requires
            old(self).wf(),
        ensures
            final(self).wf(),
            final(self).rate() == old(self).rate(),
            final(self)@ == applied(old(self)@, batch@),
    {
        proof {
            use_type_invariant(batch);
            batch.lemma_entries();
        }
        let ghost e = batch.entries_view();
        let ghost v0 = self@;
        let n = batch.entry_count();
        let len = self.sines.len();
        let mut k: usize = 0;
        while k < n
            invariant
                k <= n,
                n == e.len(),
                len == v0.len(),
                e == batch.entries_view(),
                self.sines@.len() == len,
                self.sample_rate == old(self).sample_rate,
                forall|a: int, b: int|
                    0 <= a < e.len() && 0 <= b < e.len() && a != b ==> #[trigger] e[a].voice
                        != #[trigger] e[b].voice,
                forall|j: int|
                    0 <= j < k && e[j].voice < len ==> self.sines@[#[trigger] e[j].voice as int]
                        == apply_command(v0[e[j].voice as int], e[j]),
                forall|i: int|
                    0 <= i < len && (forall|j: int| 0 <= j < k ==> #[trigger] e[j].voice != i)
                        ==> #[trigger] self.sines@[i] == v0[i],
            decreases n - k,
        {
            let c = batch.entry(k);
            if c.voice < len {
                let s = self.sines[c.voice];
                let s2 = Sine {
                    target_amp: match c.amp {
                        Some(a) => a,
                        None => s.target_amp,
                    },
                    target_freq: match c.freq {
                        Some(f) => f,
                        None => s.target_freq,
                    },
                    ..s
                };
                proof {
                    assert(forall|j: int| 0 <= j < k ==> #[trigger] e[j].voice != c.voice);
                }
                self.sines.set(c.voice, s2);
                proof {
                    assert forall|i: int| 0 <= i < len && (forall|j: int| 0 <= j < k + 1 ==> #[trigger] e[j].voice != i)
                        implies #[trigger] self.sines@[i] == v0[i] by {
                        assert(e[k as int].voice != i);
                    }
                }
            }
            k += 1;
        }
        proof {
            assert forall|i: int| 0 <= i < len implies #[trigger] self.sines@[i] == applied(v0, batch@)[i] by {
                if batch@.contains_key(i as usize) {
                    let j = choose|j: int| 0 <= j < e.len() && #[trigger] e[j].voice == i as usize;
                    assert(e[j].voice == i);
                } else {
                    assert forall|j: int| 0 <= j < n implies #[trigger] e[j].voice != i by {
                        if e[j].voice == i {
                            assert(batch@.contains_key(e[j].voice));
                        }
                    }
                }
            }
            assert(self@ =~= applied(v0, batch@));
        }
    }

    /// Takes at most one pending batch from `rx` and applies it; returns
    /// whether there was one.
    pub fn drain(&mut self, rx: &crossbeam_channel::Receiver<CommandBatch>) -> (r: bool)
        requires
            old(self).wf(),
        ensures
            final(self).wf(),
            final(self).rate() == old(self).rate(),
            !r ==> final(self)@ == old(self)@,
            r ==> exists|m: Map<usize, VoiceCommand>| final(self)@ == applied(old(self)@, m),
    {
        match try_recv_item(rx) {
            Some(batch) => {
                self.apply(&batch);
                true
            },
            None => false,
        }
    }

    /// One sample of amplitude smoothing on every voice.
    pub fn smooth_amplitudes(&mut self)
        requires
            old(self).wf(),
        ensures
            final(self).wf(),
            final(self).rate() == old(self).rate(),
            final(self)@.len() == old(self)@.len(),
            forall|i: int|
                0 <= i < old(self)@.len() ==> #[trigger] final(self)@[i] == (Sine {
                    smoothed_amp: smooth_step(
                        old(self)@[i].smoothed_amp as int,
                        old(self)@[i].target_amp as int,
                    ) as u32,
                    ..old(self)@[i]
                }),
    {
        let n = self.sines.len();
        let mut i: usize = 0;
        while i < n
            invariant
                i <= n,
                n == old(self)@.len(),
                self.sines@.len() == n,
                self.sample_rate == old(self).sample_rate,
                forall|k: int| 0 <= k < i ==> #[trigger] self.sines@[k] == (Sine {
                    smoothed_amp: smooth_step(
                        old(self)@[k].smoothed_amp as int,
                        old(self)@[k].target_amp as int,
                    ) as u32,
                    ..old(self)@[k]
                }),
                forall|k: int| i <= k < n ==> #[trigger] self.sines@[k] == old(self)@[k],
            decreases n - i,
        {
            let mut s = self.sines[i];
            s.smooth();
            self.sines.set(i, s);
            i += 1;
        }
    }

    /// One sample of phase advance on every voice.
    pub fn advance_phases(&mut self)
        requires
            old(self).wf(),
        ensures
            final(self).wf(),
            final(self).rate() == old(self).rate(),
            final(self)@.len() == old(self)@.len(),
            forall|i: int|
                0 <= i < old(self)@.len() ==> #[trigger] final(self)@[i] == (Sine {
                    phase: phase_step(
                        old(self)@[i].phase as nat,
                        old(self)@[i].target_freq as nat,
                        old(self).rate(),
                    ) as u64,
                    ..old(self)@[i]
                }),
    {
        let n = self.sines.len();
        let rate = self.sample_rate;
        let mut i: usize = 0;
        while i < n
            invariant
                i <= n,
                n == old(self)@.len(),
                rate == old(self).rate(),
                rate > 0,
                self.sines@.len() == n,
                self.sample_rate == old(self).sample_rate,
                forall|k: int| 0 <= k < n ==> (#[trigger] old(self)@[k]).phase < cycle_len(rate),
                forall|k: int| 0 <= k < i ==> #[trigger] self.sines@[k] == (Sine {
                    phase: phase_step(
                        old(self)@[k].phase as nat,
                        old(self)@[k].target_freq as nat,
                        rate,
                    ) as u64,
                    ..old(self)@[k]
                }),
                forall|k: int| i <= k < n ==> #[trigger] self.sines@[k] == old(self)@[k],
            decreases n - i,
        {
            let mut s = self.sines[i];
            s.advance(rate);
            self.sines.set(i, s);
            i += 1;
        }
    }

    /// One control tick of decay of every voice's target amplitude.
    pub fn control_rate_update(&mut self)
        requires
            old(self).wf(),
        ensures
            final(self).wf(),
            final(self).rate() == old(self).rate(),
            final(self)@.len() == old(self)@.len(),
            forall|i: int|
                0 <= i < old(self)@.len() ==> #[trigger] final(self)@[i] == (Sine {
                    target_amp: decayed(old(self)@[i].target_amp as int) as u32,
                    ..old(self)@[i]
                }),
    {
        let n = self.sines.len();
        let mut i: usize = 0;
        while i < n
            invariant
                i <= n,
                n == old(self)@.len(),
                self.sines@.len() == n,
                self.sample_rate == old(self).sample_rate,
                forall|k: int| 0 <= k < i ==> #[trigger] self.sines@[k] == (Sine {
                    target_amp: decayed(old(self)@[k].target_amp as int) as u32,
                    ..old(self)@[k]
                }),
                forall|k: int| i <= k < n ==> #[trigger] self.sines@[k] == old(self)@[k],
            decreases n - i,
        {
            let mut s = self.sines[i];
            s.decay();
            self.sines.set(i, s);
            i += 1;
        }
    }
}

/// The control-side end of the audio bridge: hands out voices round-robin,
/// gathers the requests of one tick into a batch, and sends that batch to
/// the audio thread without blocking.
pub struct AudioInterface {
    sender: crossbeam_channel::Sender<CommandBatch>,
    next_free_sine: usize,
    num_sines: usize,
    pending: CommandBatch,
}

impl AudioInterface {
    /// The requests gathered since the last update.
    pub closed spec fn pending_view(&self) -> Map<usize, VoiceCommand> {
        self.pending@
    }

    /// The voice the next call of `get_new_sine` hands out.
    pub closed spec fn next_free(&self) -> usize {
        self.next_free_sine
    }

    /// The number of voices handed out in turn.
    pub closed spec fn pool_size(&self) -> usize {
        self.num_sines
    }

    pub open spec fn wf(&self) -> bool {
        0 <= self.next_free() < self.pool_size()
    }

    /// An interface that sends batches on `sender` and hands out voices
    /// `0..num_sines` in turn.
    pub fn new(sender: crossbeam_channel::Sender<CommandBatch>, num_sines: usize) -> (r: AudioInterface)
        requires
            num_sines > 0,
        ensures
            r.wf(),
            r.next_free() == 0,
            r.pool_size() == num_sines,
            r.pending_view() == Map::<usize, VoiceCommand>::empty(),
    {
        AudioInterface { sender, next_free_sine: 0, num_sines, pending: CommandBatch::new() }
    }

    /// Hands out the next voice index; after the last one it starts again at
    /// zero, reusing the oldest.
    pub fn get_new_sine(&mut self) -> (r: usize)
        requires
            old(self).wf(),
        ensures
            final(self).wf(),
            r == old(self).next_free(),
            final(self).next_free() == (old(self).next_free() + 1) % (old(self).pool_size() as int),
            final(self).pool_size() == old(self).pool_size(),
            final(self).pending_view() == old(self).pending_view(),
    {
        let index = self.next_free_sine;
        self.next_free_sine = (self.next_free_sine + 1) % self.num_sines;
        index
    }

    /// Asks frequency `freq` (millihertz) of voice `index` in this tick's batch.
    pub fn set_sine_freq(&mut self, index: usize, freq: u64)
        ensures
            final(self).pending_view() == with_freq(old(self).pending_view(), index, freq),
            final(self).next_free() == old(self).next_free(),
            final(self).pool_size() == old(self).pool_size(),
    {
        self.pending.set_freq(index, freq);
    }

    /// Asks amplitude `amp` (parts per million) of voice `index` in this
    /// tick's batch.
    pub fn set_sine_amp(&mut self, index: usize, amp: u32)
        ensures
            final(self).pending_view() == with_amp(old(self).pending_view(), index, amp),
            final(self).next_free() == old(self).next_free(),
            final(self).pool_size() == old(self).pool_size(),
    {
        self.pending.set_amp(index, amp);
    }

    /// What this tick's batch asks of `voice`.
    pub fn pending(&self, voice: usize) -> (r: Option<VoiceCommand>)
        ensures
            r == if self.pending_view().contains_key(voice) {
                Some(self.pending_view()[voice])
            } else {
                None::<VoiceCommand>
            },
    {
        self.pending.get(voice)
    }

    /// Hands over this tick's batch and starts a new, empty one.
    pub fn take_batch(&mut self) -> (b: CommandBatch)
        ensures
            b@ == old(self).pending_view(),
            final(self).pending_view() == Map::<usize, VoiceCommand>::empty(),
            final(self).next_free() == old(self).next_free(),
            final(self).pool_size() == old(self).pool_size(),
    {
        let mut batch = CommandBatch::new();
        std::mem::swap(&mut self.pending, &mut batch);
        batch
    }

    /// Sends this tick's batch, as `take_batch` hands it over, unless it is
    /// empty, and starts a new one. A batch the channel has no room for is
    /// dropped; returns whether it was sent.
    pub fn update(&mut self) -> (sent: bool)
        ensures
            final(self).pending_view() == Map::<usize, VoiceCommand>::empty(),
            old(self).pending_view() == Map::<usize, VoiceCommand>::empty() ==> !sent,
            final(self).next_free() == old(self).next_free(),
            final(self).pool_size() == old(self).pool_size(),
    {
        if self.pending.is_empty() {
            return false;
        }
        let batch = self.take_batch();
        try_send_item(&self.sender, batch)
    }
}

} // verus!
