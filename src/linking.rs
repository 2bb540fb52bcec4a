//! Nearest-neighbour linking: each point that has room for another edge links
//! to the closest point within reach that has room too.
use vstd::prelude::*;
use crate::geometry::{dist2_spec, within, COORD_LIMIT};
use crate::graph::PointGraph;
use crate::ids::contains_id;
use crate::point::{degree_bounded, graph_wf, has_id, linked, PointView};

verus! {

/// Point `p` looks for a new neighbour: it has room for an edge and, where
/// linking is gated by activation, it is active.
pub open spec fn seeks(p: PointView, gated: bool) -> bool {
    p.edges.len() < p.max_degree && (!gated || p.active)
}

/// Point `j` may become a neighbour of point `i`.
pub open spec fn candidate(s: Seq<PointView>, i: int, j: int, max_dist2: int) -> bool {
    &&& 0 <= j < s.len()
    &&& s[j].edges.len() < s[j].max_degree
    &&& !linked(s, i, j)
    &&& !linked(s, j, i)
    &&& 0 < dist2_spec(s[i].position, s[j].position) < max_dist2
}

/// Point `j` is the candidate closest to point `i`, the first such in order.
pub open spec fn nearest(s: Seq<PointView>, i: int, j: int, max_dist2: int) -> bool {
    &&& candidate(s, i, j, max_dist2)
    &&& forall|k: int|
        #[trigger] candidate(s, i, k, max_dist2) ==> dist2_spec(s[i].position, s[j].position)
            <= dist2_spec(s[i].position, s[k].position)
    &&& forall|k: int|
        0 <= k < j && #[trigger] candidate(s, i, k, max_dist2) ==> dist2_spec(
            s[i].position,
            s[k].position,
        ) > dist2_spec(s[i].position, s[j].position)
}

/// Point `i` gains an edge in its linking step.
pub open spec fn link_fires(s: Seq<PointView>, i: int, max_dist2: int, gated: bool) -> bool {
    seeks(s[i], gated) && exists|j: int| nearest(s, i, j, max_dist2)
}

/// The neighbour point `i` links to.
pub open spec fn chosen(s: Seq<PointView>, i: int, max_dist2: int) -> int {
    choose|j: int| nearest(s, i, j, max_dist2)
}

/// The linking step of point `i`: an edge in both directions to its nearest
/// candidate, which becomes active where linking is gated by activation.
pub open spec fn link_step(s: Seq<PointView>, i: int, max_dist2: int, gated: bool) -> Seq<PointView> {
    if link_fires(s, i, max_dist2, gated) {
        let j = chosen(s, i, max_dist2);
        s.update(i, PointView { edges: s[i].edges.push(s[j].id), ..s[i] }).update(
            j,
            PointView { edges: s[j].edges.push(s[i].id), active: gated || s[j].active, ..s[j] },
        )
    } else {
        s
    }
}

/// The linking steps of the first `n` points, in order.
pub open spec fn link_upto(s: Seq<PointView>, n: int, max_dist2: int, gated: bool) -> Seq<PointView>
    decreases n,
{
    if n <= 0 {
        s
    } else {
        link_step(link_upto(s, n - 1, max_dist2, gated), n - 1, max_dist2, gated)
    }
}

/// The ids of the points among the first `n` whose linking step added an edge.
pub open spec fn linkers_upto(s: Seq<PointView>, n: int, max_dist2: int, gated: bool) -> Seq<u64>
    decreases n,
{
    if n <= 0 {
        Seq::empty()
    } else {
        let t = link_upto(s, n - 1, max_dist2, gated);
        if link_fires(t, n - 1, max_dist2, gated) {
            linkers_upto(s, n - 1, max_dist2, gated).push(t[n - 1].id)
        } else {
            linkers_upto(s, n - 1, max_dist2, gated)
        }
    }
}

proof fn lemma_nearest_unique(s: Seq<PointView>, i: int, a: int, b: int, max_dist2: int)
    requires
        nearest(s, i, a, max_dist2),
        nearest(s, i, b, max_dist2),
    ensures
        a == b,
{
    if a < b {
        assert(candidate(s, i, a, max_dist2));
    } else if b < a {
        assert(candidate(s, i, b, max_dist2));
    }
}

/// A linking step keeps the graph well formed and within its degree bounds,
/// and changes no id, position, velocity, voice, bound or lifetime.
pub proof fn lemma_link_step(s: Seq<PointView>, i: int, max_dist2: int, gated: bool)
    requires
        graph_wf(s),
        0 <= i < s.len(),
    ensures
        graph_wf(link_step(s, i, max_dist2, gated)),
        degree_bounded(s) ==> degree_bounded(link_step(s, i, max_dist2, gated)),
        link_step(s, i, max_dist2, gated).len() == s.len(),
        forall|k: int|
            0 <= k < s.len() ==> {
                let t = #[trigger] link_step(s, i, max_dist2, gated)[k];
                &&& t.id == s[k].id
                &&& t.position == s[k].position
                &&& t.velocity == s[k].velocity
                &&& t.voice == s[k].voice
                &&& t.max_degree == s[k].max_degree
                &&& t.lifetime == s[k].lifetime
                &&& (s[k].active ==> t.active)
                &&& s[k].edges.len() <= t.edges.len()
            },
{
    let t = link_step(s, i, max_dist2, gated);
    if link_fires(s, i, max_dist2, gated) {
        let j = chosen(s, i, max_dist2);
        assert(nearest(s, i, j, max_dist2));
        assert(dist2_spec(s[i].position, s[i].position) == 0);
        assert(j != i);
        let ei = s[i].edges.push(s[j].id);
        let ej = s[j].edges.push(s[i].id);
        assert(t[i].edges == ei);
        assert(t[j].edges == ej);
        assert forall|k: int| 0 <= k < t.len() && k != i && k != j implies #[trigger] t[k] == s[k] by {}
        assert forall|e: u64| #[trigger] ei.contains(e) <==> s[i].edges.contains(e) || e == s[j].id by {
            if ei.contains(e) && e != s[j].id {
                let x = choose|x: int| 0 <= x < ei.len() && ei[x] == e;
                assert(s[i].edges[x] == e);
            }
            if s[i].edges.contains(e) {
                let x = choose|x: int| 0 <= x < s[i].edges.len() && s[i].edges[x] == e;
                assert(ei[x] == e);
            }
            assert(ei[ei.len() - 1] == s[j].id);
        }
        assert forall|e: u64| #[trigger] ej.contains(e) <==> s[j].edges.contains(e) || e == s[i].id by {
            if ej.contains(e) && e != s[i].id {
                let x = choose|x: int| 0 <= x < ej.len() && ej[x] == e;
                assert(s[j].edges[x] == e);
            }
            if s[j].edges.contains(e) {
                let x = choose|x: int| 0 <= x < s[j].edges.len() && s[j].edges[x] == e;
                assert(ej[x] == e);
            }
            assert(ej[ej.len() - 1] == s[i].id);
        }
        assert forall|a: int, b: int| 0 <= a < t.len() && 0 <= b < t.len() && #[trigger] linked(t, a, b) implies linked(
            t,
            b,
            a,
        ) by {
            if !((a == i && b == j) || (a == j && b == i)) {
                assert(linked(s, a, b));
            }
        }
        assert forall|k: int, e: u64| 0 <= k < t.len() && #[trigger] t[k].edges.contains(e) implies has_id(
            t,
            e,
        ) by {
            if e == s[i].id {
                assert(t[i].id == e);
            } else if e == s[j].id {
                assert(t[j].id == e);
            } else {
                assert(s[k].edges.contains(e));
                let x = choose|x: int| 0 <= x < s.len() && #[trigger] s[x].id == e;
                assert(t[x].id == e);
            }
        }
        assert(ei.no_duplicates()) by {
            assert forall|x: int, y: int| 0 <= x < ei.len() && 0 <= y < ei.len() && x != y implies ei[x]
                != ei[y] by {
                if y == ei.len() - 1 {
                    assert(s[i].edges.contains(ei[x]));
                } else if x == ei.len() - 1 {
                    assert(s[i].edges.contains(ei[y]));
                }
            }
        }
        assert(ej.no_duplicates()) by {
            assert forall|x: int, y: int| 0 <= x < ej.len() && 0 <= y < ej.len() && x != y implies ej[x]
                != ej[y] by {
                if y == ej.len() - 1 {
                    assert(s[j].edges.contains(ej[x]));
                } else if x == ej.len() - 1 {
                    assert(s[j].edges.contains(ej[y]));
                }
            }
        }
    }
}

/// The linking steps keep the graph well formed and within its degree bounds.
pub proof fn lemma_link_upto(s: Seq<PointView>, n: int, max_dist2: int, gated: bool)
    requires
        graph_wf(s),
        0 <= n <= s.len(),
    ensures
        graph_wf(link_upto(s, n, max_dist2, gated)),
        degree_bounded(s) ==> degree_bounded(link_upto(s, n, max_dist2, gated)),
        link_upto(s, n, max_dist2, gated).len() == s.len(),
        forall|k: int|
            0 <= k < s.len() ==> {
                let t = #[trigger] link_upto(s, n, max_dist2, gated)[k];
                &&& t.id == s[k].id
                &&& t.position == s[k].position
                &&& t.velocity == s[k].velocity
                &&& t.voice == s[k].voice
                &&& t.max_degree == s[k].max_degree
                &&& t.lifetime == s[k].lifetime
                &&& (s[k].active ==> t.active)
            },
    decreases n,
{
    if n > 0 {
        lemma_link_upto(s, n - 1, max_dist2, gated);
        let t = link_upto(s, n - 1, max_dist2, gated);
        lemma_link_step(t, n - 1, max_dist2, gated);
        assert forall|k: int| 0 <= k < s.len() implies {
            let u = #[trigger] link_upto(s, n, max_dist2, gated)[k];
            &&& u.id == s[k].id
            &&& u.position == s[k].position
            &&& u.velocity == s[k].velocity
            &&& u.voice == s[k].voice
            &&& u.max_degree == s[k].max_degree
            &&& u.lifetime == s[k].lifetime
            &&& (s[k].active ==> u.active)
        } by {
            assert(t[k].id == s[k].id);
        }
    }
}

impl PointGraph {
    /// The linking step of the point at index `i`; returns whether it added an
    /// edge.
    fn link_point(&mut self, i: usize, max_dist2: i128, gated: bool) -> (r: bool)
        requires
            old(self).wf(),
            i < old(self)@.len(),
        ensures
            final(self).wf(),
            final(self)@ == link_step(old(self)@, i as int, max_dist2 as int, gated),
            r == link_fires(old(self)@, i as int, max_dist2 as int, gated),
            final(self).next_id_spec() == old(self).next_id_spec(),
    {
        let ghost s = self@;
        proof {
            self.lemma_view_at();
            lemma_link_step(s, i as int, max_dist2 as int, gated);
        }
        let pid = self.points[i].id;
        let pos = self.points[i].position;
        if !(self.points[i].edges.len() < self.points[i].max_degree && (!gated
            || self.points[i].active)) {
            return false;
        }
        let mut best: Option<(usize, i128)> = None;
        let mut j: usize = 0;
        while j < self.points.len()
            invariant
                self@ == s,
                graph_wf(s),
                j <= s.len(),
                i < s.len(),
                pid == s[i as int].id,
                pos == s[i as int].position,
                match best {
                    Some((b, bd)) => {
                        &&& b < j
                        &&& candidate(s, i as int, b as int, max_dist2 as int)
                        &&& bd == dist2_spec(pos, s[b as int].position)
                        &&& forall|k: int|
                            0 <= k < j && #[trigger] candidate(s, i as int, k, max_dist2 as int)
                                ==> bd <= dist2_spec(pos, s[k].position)
                        &&& forall|k: int|
                            0 <= k < b && #[trigger] candidate(s, i as int, k, max_dist2 as int)
                                ==> dist2_spec(pos, s[k].position) > bd
                    },
                    None => forall|k: int|
                        0 <= k < j ==> !#[trigger] candidate(s, i as int, k, max_dist2 as int),
                },
            decreases s.len() - j,
        {
            proof {
                self.lemma_view_at();
            }
            let q = &self.points[j];
            if q.edges.len() < q.max_degree && !contains_id(&q.edges, pid) && !contains_id(
                &self.points[i].edges,
                q.id,
            ) {
                assert(within(s[j as int].position, COORD_LIMIT as int));
                assert(within(s[i as int].position, COORD_LIMIT as int));
                let d = pos.distance2(&q.position);
                if 0 < d && d < max_dist2 {
                    assert(candidate(s, i as int, j as int, max_dist2 as int));
                    match best {
                        None => {
                            best = Some((j, d));
                        },
                        Some((_, bd)) => {
                            if d < bd {
                                best = Some((j, d));
                            }
                        },
                    }
                } else {
                    assert(!candidate(s, i as int, j as int, max_dist2 as int));
                }
            } else {
                assert(!candidate(s, i as int, j as int, max_dist2 as int));
            }
            j += 1;
        }
        match best {
            None => {
                assert(!exists|k: int| nearest(s, i as int, k, max_dist2 as int));
                false
            },
            Some((b, _)) => {
                proof {
                    assert(nearest(s, i as int, b as int, max_dist2 as int));
                    let c = chosen(s, i as int, max_dist2 as int);
                    lemma_nearest_unique(s, i as int, b as int, c, max_dist2 as int);
                    assert(dist2_spec(s[i as int].position, s[i as int].position) == 0);
                    assert(b != i);
                }
                let bid = self.points[b].id;
                self.points[i].edges.push(bid);
                self.points[b].edges.push(pid);
                if gated {
                    self.points[b].active = true;
                }
                proof {
                    self.lemma_view_at();
                    assert(link_fires(s, i as int, max_dist2 as int, gated));
                    assert(chosen(s, i as int, max_dist2 as int) == b);
                    assert(self@.len() == s.len());
                    assert(self@[i as int].edges == s[i as int].edges.push(s[b as int].id));
                    assert(self@[b as int].edges == s[b as int].edges.push(s[i as int].id));
                    assert(self@ =~= link_step(s, i as int, max_dist2 as int, gated));
                    let t = self@;
                    assert forall|k: int| 0 <= k < t.len() implies (#[trigger] t[k]).id < self.next_id by {
                        assert(t[k].id == s[k].id);
                    }
                }
                true
            },
        }
    }

    /// Runs the linking step of every point, in order, and returns the ids of
    /// the points whose step added an edge.
    pub fn link_idle_points(&mut self, max_dist2: i128, gated: bool) -> (r: Vec<u64>)
        requires
            old(self).wf(),
        ensures
            final(self).wf(),
            final(self)@ == link_upto(old(self)@, old(self)@.len() as int, max_dist2 as int, gated),
            r@ == linkers_upto(old(self)@, old(self)@.len() as int, max_dist2 as int, gated),
            final(self).next_id_spec() == old(self).next_id_spec(),
            degree_bounded(old(self)@) ==> degree_bounded(final(self)@),
    {
        let ghost s = self@;
        let mut out: Vec<u64> = Vec::new();
        let mut i: usize = 0;
        let n = self.len();
        while i < n
            invariant
                self.wf(),
                n == s.len(),
                i <= n,
                self@ == link_upto(s, i as int, max_dist2 as int, gated),
                out@ == linkers_upto(s, i as int, max_dist2 as int, gated),
                self.next_id_spec() == old(self).next_id_spec(),
                graph_wf(s),
            decreases n - i,
        {
            proof {
                lemma_link_upto(s, i as int, max_dist2 as int, gated);
            }
            proof {
                self.lemma_view_at();
            }
            let id = self.points[i].id;
            if self.link_point(i, max_dist2, gated) {
                out.push(id);
            }
            i += 1;
        }
        proof {
            lemma_link_upto(s, n as int, max_dist2 as int, gated);
        }
        out
    }
}

} // verus!
