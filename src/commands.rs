//! Per-voice parameter updates collected over one control tick.
use vstd::prelude::*;

verus! {

/// The latest amplitude and frequency asked of one voice; `None` where none
/// was asked.
#[derive(Clone, Copy, Debug, PartialEq, Eq, Structural)]
pub struct VoiceCommand {
    pub voice: usize,
    /// Parts per million.
    pub amp: Option<u32>,
    /// Millihertz.
    pub freq: Option<u64>,
}

/// `m` after a request of amplitude `amp` for `voice`.
pub open spec fn with_amp(m: Map<usize, VoiceCommand>, voice: usize, amp: u32) -> Map<
    usize,
    VoiceCommand,
> {
    m.insert(
        voice,
        VoiceCommand {
            voice,
            amp: Some(amp),
            freq: if m.contains_key(voice) {
                m[voice].freq
            } else {
                None
            },
        },
    )
}

/// `m` after a request of frequency `freq` for `voice`.
pub open spec fn with_freq(m: Map<usize, VoiceCommand>, voice: usize, freq: u64) -> Map<
    usize,
    VoiceCommand,
> {
    m.insert(
        voice,
        VoiceCommand {
            voice,
            amp: if m.contains_key(voice) {
                m[voice].amp
            } else {
                None
            },
            freq: Some(freq),
        },
    )
}

/// A mapping from voice index to the latest requested amplitude and
/// frequency; a later request for a voice replaces an earlier one.
#[derive(Debug)]
pub struct CommandBatch {
    entries: Vec<VoiceCommand>,
}

impl View for CommandBatch {
    type V = Map<usize, VoiceCommand>;

    closed spec fn view(&self) -> Map<usize, VoiceCommand> {
        Map::new(
            |v: usize| exists|k: int| 0 <= k < self.entries@.len() && self.entries@[k].voice == v,
            |v: usize|
                self.entries@[choose|k: int|
                    0 <= k < self.entries@.len() && self.entries@[k].voice == v],
        )
    }
}

impl CommandBatch {
    #[verifier::type_invariant]
    pub(crate) closed spec fn voices_distinct(&self) -> bool {
        forall|a: int, b: int|
            0 <= a < self.entries@.len() && 0 <= b < self.entries@.len() && a != b
                ==> #[trigger] self.entries@[a].voice != #[trigger] self.entries@[b].voice
    }

    pub(crate) closed spec fn entries_view(&self) -> Seq<VoiceCommand> {
        self.entries@
    }

    /// The view lists each entry under its voice, and holds nothing else.
    pub(crate) proof fn lemma_entries(&self)
        requires
            self.voices_distinct(),
        ensures
            forall|k: int|
                0 <= k < self.entries_view().len() ==> self@.contains_key(
                    #[trigger] self.entries_view()[k].voice,
                ) && self@[self.entries_view()[k].voice] == self.entries_view()[k],
            forall|v: usize|
                #[trigger] self@.contains_key(v) ==> exists|k: int|
                    0 <= k < self.entries_view().len() && #[trigger] self.entries_view()[k].voice == v,
            forall|a: int, b: int|
                0 <= a < self.entries_view().len() && 0 <= b < self.entries_view().len() && a != b
                    ==> #[trigger] self.entries_view()[a].voice != #[trigger] self.entries_view()[b].voice,
    {
        self.lemma_view();
    }

    proof fn lemma_view(&self)
        requires
            self.voices_distinct(),
        ensures
            forall|k: int|
                0 <= k < self.entries@.len() ==> self@.contains_key(#[trigger] self.entries@[k].voice)
                    && self@[self.entries@[k].voice] == self.entries@[k],
            forall|v: usize|
                #[trigger] self@.contains_key(v) ==> exists|k: int|
                    0 <= k < self.entries@.len() && #[trigger] self.entries@[k].voice == v,
    {
        assert forall|k: int| 0 <= k < self.entries@.len() implies self@.contains_key(
            #[trigger] self.entries@[k].voice,
        ) && self@[self.entries@[k].voice] == self.entries@[k] by {
            let v = self.entries@[k].voice;
            let c = choose|c: int| 0 <= c < self.entries@.len() && self.entries@[c].voice == v;
            assert(c == k);
        }
    }

    /// The number of entries.
    pub(crate) fn entry_count(&self) -> (r: usize)
        ensures
            r == self.entries_view().len(),
    {
        self.entries.len()
    }

    /// The entry at index `k`.
    pub(crate) fn entry(&self, k: usize) -> (r: VoiceCommand)
        requires
            k < self.entries_view().len(),
        ensures
            r == self.entries_view()[k as int],
    {
        self.entries[k]
    }

    /// An empty batch.
    pub fn new() -> (r: CommandBatch)
        ensures
            r@ == Map::<usize, VoiceCommand>::empty(),
    {
        let r = CommandBatch { entries: Vec::new() };
        assert(r@ =~= Map::<usize, VoiceCommand>::empty());
        r
    }

    /// Whether the batch addresses no voice.
    pub fn is_empty(&self) -> (r: bool)
        ensures
            r == (self@ == Map::<usize, VoiceCommand>::empty()),
    {
        proof {
            use_type_invariant(self);
            self.lemma_view();
            if self.entries@.len() > 0 {
                assert(self@.contains_key(self.entries@[0].voice));
            } else {
                assert(self@ =~= Map::<usize, VoiceCommand>::empty());
            }
        }
        self.entries.len() == 0
    }

    /// What the batch asks of `voice`.
    pub fn get(&self, voice: usize) -> (r: Option<VoiceCommand>)
        ensures
            r == if self@.contains_key(voice) {
                Some(self@[voice])
            } else {
                None::<VoiceCommand>
            },
    {
        proof {
            use_type_invariant(self);
            self.lemma_view();
        }
        let mut k: usize = 0;
        while k < self.entries.len()
            invariant
                k <= self.entries@.len(),
                forall|j: int| 0 <= j < k ==> self.entries@[j].voice != voice,
            decreases self.entries@.len() - k,
        {
            if self.entries[k].voice == voice {
                proof {
                    use_type_invariant(self);
                    self.lemma_view();
                    assert(self.entries@[k as int].voice == voice);
                }
                return Some(self.entries[k]);
            }
            k += 1;
        }
        None
    }

    fn find(&self, voice: usize) -> (r: Option<usize>)
        ensures
            r matches Some(k) ==> k < self.entries@.len() && self.entries@[k as int].voice == voice,
            r is None ==> forall|j: int| 0 <= j < self.entries@.len() ==> self.entries@[j].voice != voice,
    {
        let mut k: usize = 0;
        while k < self.entries.len()
            invariant
                k <= self.entries@.len(),
                forall|j: int| 0 <= j < k ==> self.entries@[j].voice != voice,
            decreases self.entries@.len() - k,
        {
            if self.entries[k].voice == voice {
                return Some(k);
            }
            k += 1;
        }
        None
    }

    fn put(&mut self, c: VoiceCommand)
        ensures
            final(self)@ == old(self)@.insert(c.voice, c),
    {
        proof {
            use_type_invariant(&*self);
            self.lemma_view();
        }
        let ghost before = self@;
        let found = self.find(c.voice);
        let mut entries: Vec<VoiceCommand> = Vec::new();
        let mut k: usize = 0;
        while k < self.entries.len()
            invariant
                k <= self.entries@.len(),
                entries@.len() == k,
                self.entries@ == old(self).entries@,
                found matches Some(f) ==> f < self.entries@.len() && self.entries@[f as int].voice == c.voice,
                forall|j: int| 0 <= j < k ==> #[trigger] entries@[j] == if found == Some(j as usize) {
                    c
                } else {
                    self.entries@[j]
                },
            decreases self.entries@.len() - k,
        {
            if found == Some(k) {
                entries.push(c);
            } else {
                entries.push(self.entries[k]);
            }
            k += 1;
        }
        if found.is_none() {
            entries.push(c);
        }
        proof {
            let e = entries@;
            let o = old(self).entries@;
            assert forall|a: int, b: int| 0 <= a < e.len() && 0 <= b < e.len() && a != b implies #[trigger] e[a].voice
                != #[trigger] e[b].voice by {
                if a < o.len() && b < o.len() {
                    assert(o[a].voice != o[b].voice);
                }
            }
        }
        self.entries = entries;
        proof {
            use_type_invariant(&*self);
            self.lemma_view();
            let o = old(self).entries@;
            let e = self.entries@;
            assert forall|v: usize| #[trigger] self@.contains_key(v) <==> before.insert(c.voice, c).contains_key(v) by {
                if before.contains_key(v) && v != c.voice {
                    let k = choose|k: int| 0 <= k < o.len() && #[trigger] o[k].voice == v;
                    assert(e[k].voice == v);
                }
                if v == c.voice {
                    match found {
                        Some(f) => {
                            assert(e[f as int].voice == v);
                        },
                        None => {
                            assert(e[o.len() as int].voice == v);
                        },
                    }
                }
                if self@.contains_key(v) && v != c.voice {
                    let k = choose|k: int| 0 <= k < e.len() && #[trigger] e[k].voice == v;
                    assert(o[k].voice == v);
                }
            }
            assert(self@ =~= before.insert(c.voice, c));
        }
    }

    /// Asks amplitude `amp` (parts per million) of `voice`.
    pub fn set_amp(&mut self, voice: usize, amp: u32)
        ensures
            final(self)@ == with_amp(old(self)@, voice, amp),
    {
        let prev = self.get(voice);
        let freq = match prev {
            Some(c) => c.freq,
            None => None,
        };
        self.put(VoiceCommand { voice, amp: Some(amp), freq });
    }

    /// Asks frequency `freq` (millihertz) of `voice`.
    pub fn set_freq(&mut self, voice: usize, freq: u64)
        ensures
            final(self)@ == with_freq(old(self)@, voice, freq),
    {
        let prev = self.get(voice);
        let amp = match prev {
            Some(c) => c.amp,
            None => None,
        };
        self.put(VoiceCommand { voice, amp, freq: Some(freq) });
    }
}

} // verus!
