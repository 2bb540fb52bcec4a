//! One control-rate tick of the point graph.
use vstd::prelude::*;
use crate::dynamics::{aged, forced, integrated, with_max_degree, Bounds, PER_MILLE};
use crate::graph::{expired_id, without, PointGraph};
use crate::linking::{link_upto, linkers_upto};
use crate::point::{degree_bounded, graph_wf, symmetric, PointView};
use crate::pruning::{pruned, trimmed};

verus! {

/// The largest degree bound the tunables allow.
pub const MAX_DEGREE_LIMIT: usize = 20;

/// The largest squared link length.
pub const MAX_DIST2_LIMIT: i128 = 0x1_0000_0000_0000_0000;

/// The parameters of one tick, read once at its start.
#[derive(Clone, Copy, Debug, PartialEq, Eq, Structural)]
pub struct TickConfig {
    /// Squared length below which points link, and beyond which links break.
    pub max_dist2: i128,
    /// Fraction of the velocity kept each tick, in parts per thousand.
    pub friction: i128,
    /// Largest magnitude of the spring force, in parts per thousand.
    pub strength: i128,
    /// The degree bound every point gets.
    pub max_degree: usize,
    /// The rectangle positions are held to.
    pub bounds: Bounds,
    /// Only active points seek neighbours, and a new neighbour becomes active.
    pub gated: bool,
}

impl TickConfig {
    pub open spec fn valid(&self) -> bool {
        &&& 0 < self.max_dist2 <= MAX_DIST2_LIMIT
        &&& 0 <= self.friction <= PER_MILLE
        &&& 0 <= self.strength <= PER_MILLE
        &&& self.bounds.valid()
    }

    /// Sets the friction, held to `[0, 1000]`.
    pub fn set_friction(&mut self, friction: i128)
        ensures
            final(self).friction == if friction < 0 {
                0
            } else if friction > PER_MILLE {
                PER_MILLE
            } else {
                friction
            },
            final(self).strength == old(self).strength,
            final(self).max_degree == old(self).max_degree,
            final(self).max_dist2 == old(self).max_dist2,
            final(self).bounds == old(self).bounds,
            final(self).gated == old(self).gated,
    {
        self.friction = if friction < 0 {
            0
        } else if friction > PER_MILLE {
            PER_MILLE
        } else {
            friction
        };
    }

    /// Sets the force strength, held to `[0, 1000]`.
    pub fn set_force_strength(&mut self, strength: i128)
        ensures
            final(self).strength == if strength < 0 {
                0
            } else if strength > PER_MILLE {
                PER_MILLE
            } else {
                strength
            },
            final(self).friction == old(self).friction,
            final(self).max_degree == old(self).max_degree,
            final(self).max_dist2 == old(self).max_dist2,
            final(self).bounds == old(self).bounds,
            final(self).gated == old(self).gated,
    {
        self.strength = if strength < 0 {
            0
        } else if strength > PER_MILLE {
            PER_MILLE
        } else {
            strength
        };
    }

    /// Sets the degree bound, held to `[0, MAX_DEGREE_LIMIT]`.
    pub fn set_max_degree(&mut self, max_degree: usize)
        ensures
            final(self).max_degree == if max_degree > MAX_DEGREE_LIMIT {
                MAX_DEGREE_LIMIT
            } else {
                max_degree
            },
            final(self).friction == old(self).friction,
            final(self).strength == old(self).strength,
            final(self).max_dist2 == old(self).max_dist2,
            final(self).bounds == old(self).bounds,
            final(self).gated == old(self).gated,
    {
        self.max_degree = if max_degree > MAX_DEGREE_LIMIT {
            MAX_DEGREE_LIMIT
        } else {
            max_degree
        };
    }
}

/// The graph before the removal of expired points, after linking, ageing,
/// trimming, pruning, forces and integration.
pub open spec fn tick_moved(s: Seq<PointView>, c: TickConfig) -> Seq<PointView> {
    let s1 = with_max_degree(s, c.max_degree);
    let s2 = link_upto(s1, s1.len() as int, c.max_dist2 as int, c.gated);
    let s3 = trimmed(aged(s2));
    let s4 = pruned(s3, c.max_dist2 as int);
    integrated(forced(s4, c.friction as int, c.strength as int, c.max_dist2 as int), c.bounds)
}

/// The graph after one tick.
pub open spec fn tick_result(s: Seq<PointView>, c: TickConfig) -> Seq<PointView> {
    let m = tick_moved(s, c);
    without(m, |e: u64| expired_id(m, e))
}

/// The ids of the points that gained an edge by seeking one during a tick.
pub open spec fn tick_linkers(s: Seq<PointView>, c: TickConfig) -> Seq<u64> {
    let s1 = with_max_degree(s, c.max_degree);
    linkers_upto(s1, s1.len() as int, c.max_dist2 as int, c.gated)
}

impl PointGraph {
    /// One tick: every point gets the degree bound of `c`; idle points link
    /// to their nearest candidates; active points age; edges beyond the degree
    /// bounds and links reaching too far break; friction and spring forces act;
    /// points move; expired points go, with every edge to them. Returns the ids
    /// of the points that gained an edge by seeking one.
    pub fn tick(&mut self, c: &TickConfig) -> (r: Vec<u64>)
        requires
            old(self).wf(),
            c.valid(),
        ensures
            final(self).wf(),
            final(self)@ == tick_result(old(self)@, *c),
            r@ == tick_linkers(old(self)@, *c),
            degree_bounded(final(self)@),
            forall|k: int| 0 <= k < final(self)@.len() ==> (#[trigger] final(self)@[k]).lifetime > 0,
            forall|k: int|
                0 <= k < final(self)@.len() ==> (#[trigger] final(self)@[k]).max_degree
                    == c.max_degree,
    {
        let m = c.max_degree;
        self.set_max_degree(m);
        let ghost s1 = self@;
        let linkers = self.link_idle_points(c.max_dist2, c.gated);
        proof {
            crate::linking::lemma_link_upto(s1, s1.len() as int, c.max_dist2 as int, c.gated);
            assert(forall|k: int| 0 <= k < self@.len() ==> (#[trigger] self@[k]).max_degree == m);
        }
        self.age();
        assert(forall|k: int| 0 <= k < self@.len() ==> (#[trigger] self@[k]).max_degree == m);
        self.trim_degree();
        assert(forall|k: int| 0 <= k < self@.len() ==> (#[trigger] self@[k]).max_degree == m);
        self.prune_far_edges(c.max_dist2);
        assert(forall|k: int| 0 <= k < self@.len() ==> (#[trigger] self@[k]).max_degree == m);
        self.apply_forces(c.friction, c.strength, c.max_dist2);
        assert(forall|k: int| 0 <= k < self@.len() ==> (#[trigger] self@[k]).max_degree == m);
        self.integrate(c.bounds);
        assert(forall|k: int| 0 <= k < self@.len() ==> (#[trigger] self@[k]).max_degree == m);
        let ghost s7 = self@;
        self.remove_expired();
        proof {
            crate::graph::lemma_without_wf(s7, |e: u64| expired_id(s7, e));
            assert forall|k: int| 0 <= k < self@.len() implies (#[trigger] self@[k]).max_degree == m by {
                crate::point::lemma_index_of(s7, self@[k].id);
            }
        }
        linkers
    }
}

/// After any tick the edges are symmetric and within every degree bound.
pub proof fn lemma_tick_invariants(g: PointGraph, c: TickConfig)
    requires
        g.wf(),
        c.valid(),
    ensures
        graph_wf(tick_result(g@, c)),
        symmetric(tick_result(g@, c)),
        degree_bounded(tick_result(g@, c)),
{
    let s = g@;
    let s1 = with_max_degree(s, c.max_degree);
    assert(graph_wf(s1)) by {
        crate::dynamics::lemma_same_edges_wf(s, s1);
    }
    crate::linking::lemma_link_upto(s1, s1.len() as int, c.max_dist2 as int, c.gated);
    let s2 = link_upto(s1, s1.len() as int, c.max_dist2 as int, c.gated);
    let a = aged(s2);
    assert(graph_wf(a)) by {
        assert forall|k: int| 0 <= k < s2.len() implies crate::geometry::within((#[trigger] a[k]).position, crate::geometry::COORD_LIMIT as int)
            && crate::geometry::within(a[k].velocity, crate::geometry::VELOCITY_LIMIT as int) by {
            assert(crate::geometry::within(s2[k].position, crate::geometry::COORD_LIMIT as int));
        }
        crate::dynamics::lemma_same_edges_wf(s2, a);
    }
    crate::pruning::lemma_trimmed(a);
    let s3 = trimmed(a);
    crate::pruning::lemma_pruned(s3, c.max_dist2 as int);
    let s4 = pruned(s3, c.max_dist2 as int);
    let f = forced(s4, c.friction as int, c.strength as int, c.max_dist2 as int);
    assert(graph_wf(f) && degree_bounded(f)) by {
        assert forall|k: int| 0 <= k < s4.len() implies crate::geometry::within((#[trigger] f[k]).position, crate::geometry::COORD_LIMIT as int)
            && crate::geometry::within(f[k].velocity, crate::geometry::VELOCITY_LIMIT as int) by {
            assert(crate::geometry::within(s4[k].position, crate::geometry::COORD_LIMIT as int));
        }
        crate::dynamics::lemma_same_edges_wf(s4, f);
    }
    let m = integrated(f, c.bounds);
    assert(graph_wf(m) && degree_bounded(m)) by {
        assert forall|k: int| 0 <= k < f.len() implies crate::geometry::within((#[trigger] m[k]).position, crate::geometry::COORD_LIMIT as int)
            && crate::geometry::within(m[k].velocity, crate::geometry::VELOCITY_LIMIT as int) by {
            assert(crate::geometry::within(f[k].position, crate::geometry::COORD_LIMIT as int));
        }
        crate::dynamics::lemma_same_edges_wf(f, m);
    }
    crate::graph::lemma_without_wf(m, |e: u64| expired_id(m, e));
}

} // verus!
