//! From the kinetic state of the points to requests for their voices.
use vstd::prelude::*;
use crate::audio::AudioInterface;
use crate::commands::{with_amp, with_freq, VoiceCommand};
use crate::geometry::{within, Vec2, VELOCITY_LIMIT};
use crate::graph::PointGraph;
use crate::point::{has_id, index_of, lemma_index_of, PointView};
use crate::tick::{tick_linkers, tick_result, TickConfig};

verus! {

/// The largest frequency bound a mapping may have, in millihertz.
pub const FREQ_LIMIT: u64 = 0x100_0000_0000;

/// A linear map from squared speed to frequency: zero speed gives
/// `min_freq`, squared speed `max_speed2` gives `max_freq`, and faster
/// points extrapolate beyond it.
#[derive(Clone, Copy, Debug, PartialEq, Eq, Structural)]
pub struct FreqMapping {
    /// Squared speed, in squared velocity units.
    pub max_speed2: u128,
    /// Millihertz.
    pub min_freq: u64,
    /// Millihertz.
    pub max_freq: u64,
}

impl FreqMapping {
    pub open spec fn valid(&self) -> bool {
        &&& self.max_speed2 > 0
        &&& self.min_freq <= self.max_freq <= FREQ_LIMIT
    }
}

/// The squared length of `v`.
pub open spec fn speed2_spec(v: Vec2) -> int {
    v.x * v.x + v.y * v.y
}

/// The frequency for squared speed `s2`, rounded down, and held to what a
/// `u64` can hold.
pub open spec fn mapped_freq(m: FreqMapping, s2: int) -> int {
    let f = m.min_freq + (m.max_freq - m.min_freq) * s2 / (m.max_speed2 as int);
    if f > u64::MAX {
        u64::MAX as int
    } else {
        f
    }
}

/// The squared length of `v`.
pub fn speed2(v: Vec2) -> (r: u128)
    requires
        within(v, VELOCITY_LIMIT as int),
    ensures
        r == speed2_spec(v),
        r <= 0x8000_0000_0000_0000,
{
    let x = v.x as i128;
    let y = v.y as i128;
    assert(0 <= x * x <= 0x4000_0000_0000_0000) by (nonlinear_arith)
        requires -0x8000_0000 <= x <= 0x8000_0000;
    assert(0 <= y * y <= 0x4000_0000_0000_0000) by (nonlinear_arith)
        requires -0x8000_0000 <= y <= 0x8000_0000;
    (x * x + y * y) as u128
}

/// The frequency, in millihertz, for squared speed `s2`.
pub fn speed_to_freq(m: &FreqMapping, s2: u128) -> (r: u64)
    requires
        m.valid(),
        s2 <= 0x8000_0000_0000_0000,
    ensures
        r == mapped_freq(*m, s2 as int),
{
    let span = (m.max_freq - m.min_freq) as u128;
    assert(span * s2 <= 0x100_0000_0000 * 0x8000_0000_0000_0000) by (nonlinear_arith)
        requires span <= 0x100_0000_0000, s2 <= 0x8000_0000_0000_0000;
    let f = m.min_freq as u128 + span * s2 / m.max_speed2;
    if f > u64::MAX as u128 {
        u64::MAX
    } else {
        f as u64
    }
}

/// A faster point never gets a lower frequency.
pub proof fn lemma_freq_monotonic(m: FreqMapping, s1: int, s2: int)
    requires
        m.valid(),
        0 <= s1 < s2,
    ensures
        mapped_freq(m, s1) <= mapped_freq(m, s2),
{
    let span = m.max_freq - m.min_freq;
    let d = m.max_speed2 as int;
    assert(span * s1 <= span * s2) by (nonlinear_arith)
        requires span >= 0, s1 < s2;
    assert(span * s1 / d <= span * s2 / d) by (nonlinear_arith)
        requires span * s1 <= span * s2, d > 0;
}

/// The frequency requests for the voices of the first `n` points of `s`, in
/// order, on top of `m`.
pub open spec fn freq_requests(
    m: Map<usize, VoiceCommand>,
    s: Seq<PointView>,
    n: int,
    map: FreqMapping,
) -> Map<usize, VoiceCommand>
    decreases n,
{
    if n <= 0 {
        m
    } else {
        let prev = freq_requests(m, s, n - 1, map);
        match s[n - 1].voice {
            Some(v) => with_freq(prev, v, mapped_freq(map, speed2_spec(s[n - 1].velocity)) as u64),
            None => prev,
        }
    }
}

/// Amplitude `amp` requested, on top of `m`, for the voice of each point of
/// `s` whose id is among the first `n` of `ids`.
pub open spec fn amp_requests(
    m: Map<usize, VoiceCommand>,
    s: Seq<PointView>,
    ids: Seq<u64>,
    n: int,
    amp: u32,
) -> Map<usize, VoiceCommand>
    decreases n,
{
    if n <= 0 {
        m
    } else {
        let prev = amp_requests(m, s, ids, n - 1, amp);
        if has_id(s, ids[n - 1]) {
            match s[index_of(s, ids[n - 1])].voice {
                Some(v) => with_amp(prev, v, amp),
                None => prev,
            }
        } else {
            prev
        }
    }
}

/// Requests for every voice a point drives: the frequency its speed maps to
/// and, for the points that `ids` names, amplitude `amp`.
pub fn request_voice_updates(
    g: &PointGraph,
    ids: &Vec<u64>,
    map: &FreqMapping,
    amp: u32,
    iface: &mut AudioInterface,
)
    requires
        g.wf(),
        map.valid(),
    ensures
        final(iface).pending_view() == amp_requests(
            freq_requests(old(iface).pending_view(), g@, g@.len() as int, *map),
            g@,
            ids@,
            ids@.len() as int,
            amp,
        ),
        final(iface).next_free() == old(iface).next_free(),
        final(iface).pool_size() == old(iface).pool_size(),
{
    let n = g.len();
    let mut i: usize = 0;
    while i < n
        invariant
            g.wf(),
            map.valid(),
            n == g@.len(),
            i <= n,
            iface.pending_view() == freq_requests(old(iface).pending_view(), g@, i as int, *map),
            iface.next_free() == old(iface).next_free(),
            iface.pool_size() == old(iface).pool_size(),
        decreases n - i,
    {
        let p = g.point(i);
        match p.voice {
            Some(v) => {
                assert(within(g@[i as int].position, crate::geometry::COORD_LIMIT as int));
                assert(within(g@[i as int].velocity, VELOCITY_LIMIT as int));
                let s2 = speed2(p.velocity);
                let f = speed_to_freq(map, s2);
                iface.set_sine_freq(v, f);
            },
            None => {},
        }
        i += 1;
    }
    let ghost base = iface.pending_view();
    let mut k: usize = 0;
    while k < ids.len()
        invariant
            g.wf(),
            k <= ids@.len(),
            iface.pending_view() == amp_requests(base, g@, ids@, k as int, amp),
            iface.next_free() == old(iface).next_free(),
            iface.pool_size() == old(iface).pool_size(),
        decreases ids@.len() - k,
    {
        match g.find(ids[k]) {
            Some(j) => {
                proof {
                    lemma_index_of(g@, ids@[k as int]);
                }
                match g.point(j).voice {
                    Some(v) => {
                        iface.set_sine_amp(v, amp);
                    },
                    None => {},
                }
            },
            None => {},
        }
        k += 1;
    }
}

/// One control tick: the graph ticks, then every voice a point drives is
/// asked the frequency of the point's speed, and the voices of the points
/// that linked are asked amplitude `amp`. The requests wait in the
/// interface's batch for its next update.
pub fn control_tick(
    g: &mut PointGraph,
    c: &TickConfig,
    map: &FreqMapping,
    amp: u32,
    iface: &mut AudioInterface,
)
    requires
        old(g).wf(),
        c.valid(),
        map.valid(),
    ensures
        final(g).wf(),
        final(g)@ == tick_result(old(g)@, *c),
        final(iface).pending_view() == amp_requests(
            freq_requests(old(iface).pending_view(), final(g)@, final(g)@.len() as int, *map),
            final(g)@,
            tick_linkers(old(g)@, *c),
            tick_linkers(old(g)@, *c).len() as int,
            amp,
        ),
        final(iface).next_free() == old(iface).next_free(),
        final(iface).pool_size() == old(iface).pool_size(),
{
    let linkers = g.tick(c);
    request_voice_updates(g, &linkers, map, amp, iface);
}

} // verus!
