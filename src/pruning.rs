//! Edge pruning: degree trimming and distance pruning. Both keep an edge only
//! where a test that is the same from either end holds, so symmetry is kept.
use vstd::prelude::*;
use crate::geometry::{dist2_spec, within, COORD_LIMIT};
use crate::graph::PointGraph;
use crate::ids::position_of;
use crate::point::{
    degree_bounded, graph_wf, has_id, index_of, lemma_filter_contains,
    lemma_filter_no_duplicates, lemma_index_of, linked, symmetric, Point, PointView,
};

verus! {

/// The newest `max_degree` edges of `p`, or all of them where there are fewer.
pub open spec fn recent(p: PointView) -> Seq<u64> {
    if p.edges.len() > p.max_degree {
        p.edges.subrange(p.edges.len() - p.max_degree, p.edges.len() as int)
    } else {
        p.edges
    }
}

/// The point at index `i` keeps its edge to `e`: each end counts the other
/// among its newest `max_degree` edges.
pub open spec fn keeps_recent(s: Seq<PointView>, i: int, e: u64) -> bool {
    has_id(s, e) && recent(s[index_of(s, e)]).contains(s[i].id)
}

/// Every point with its edge list cut down to its degree bound, the oldest
/// edges going first; an edge goes from both ends where either end drops it.
pub open spec fn trimmed(s: Seq<PointView>) -> Seq<PointView> {
    Seq::new(
        s.len(),
        |i: int| PointView { edges: recent(s[i]).filter(|e: u64| keeps_recent(s, i, e)), ..s[i] },
    )
}

/// The position of the point with id `e`.
pub open spec fn position_of_id(s: Seq<PointView>, e: u64) -> crate::geometry::Vec2 {
    s[index_of(s, e)].position
}

/// Every point with the edges that reach at least `max_dist2` (squared) taken
/// out.
pub open spec fn pruned(s: Seq<PointView>, max_dist2: int) -> Seq<PointView> {
    Seq::new(
        s.len(),
        |i: int|
            PointView {
                edges: s[i].edges.filter(
                    |e: u64| dist2_spec(s[i].position, position_of_id(s, e)) < max_dist2,
                ),
                ..s[i]
            },
    )
}

/// Every edge spans less than `max_dist2` (squared).
pub open spec fn edges_within(s: Seq<PointView>, max_dist2: int) -> bool {
    forall|i: int, j: int|
        0 <= i < s.len() && 0 <= j < s.len() && #[trigger] linked(s, i, j) ==> dist2_spec(
            s[i].position,
            s[j].position,
        ) < max_dist2
}

/// Taking edges out of a well formed graph, symmetrically, leaves it well
/// formed.
proof fn lemma_fewer_edges_wf(s: Seq<PointView>, t: Seq<PointView>)
    requires
        graph_wf(s),
        symmetric(t),
        t.len() == s.len(),
        forall|i: int|
            0 <= i < s.len() ==> {
                let p = #[trigger] t[i];
                &&& p.id == s[i].id
                &&& p.position == s[i].position
                &&& p.velocity == s[i].velocity
                &&& p.edges.no_duplicates()
            },
        forall|i: int, e: u64| 0 <= i < s.len() && #[trigger] t[i].edges.contains(e) ==> s[i].edges.contains(e),
    ensures
        graph_wf(t),
{
    assert forall|i: int, e: u64| 0 <= i < t.len() && #[trigger] t[i].edges.contains(e) implies has_id(t, e) by {
        assert(s[i].edges.contains(e));
        let j = choose|j: int| 0 <= j < s.len() && #[trigger] s[j].id == e;
        assert(t[j].id == e);
    }
    assert forall|i: int| 0 <= i < t.len() implies !(#[trigger] t[i].edges).contains(t[i].id) by {
        if t[i].edges.contains(t[i].id) {
            assert(s[i].edges.contains(s[i].id));
        }
    }
    assert forall|i: int, j: int| 0 <= i < t.len() && 0 <= j < t.len() && i != j implies #[trigger] t[i].id
        != #[trigger] t[j].id by {
        assert(s[i].id != s[j].id);
    }
    assert forall|i: int| 0 <= i < t.len() implies within(#[trigger] t[i].position, COORD_LIMIT as int)
        && within(t[i].velocity, crate::geometry::VELOCITY_LIMIT as int) by {
        assert(within(s[i].position, COORD_LIMIT as int));
    }
}

proof fn lemma_subrange_contains(s: Seq<u64>, lo: int, e: u64)
    requires
        0 <= lo <= s.len(),
        s.no_duplicates(),
    ensures
        s.subrange(lo, s.len() as int).contains(e) <==> exists|k: int| lo <= k < s.len() && s[k] == e,
        s.subrange(lo, s.len() as int).no_duplicates(),
{
    let r = s.subrange(lo, s.len() as int);
    if r.contains(e) {
        let x = choose|x: int| 0 <= x < r.len() && r[x] == e;
        assert(s[lo + x] == e);
    }
    if exists|k: int| lo <= k < s.len() && s[k] == e {
        let k = choose|k: int| lo <= k < s.len() && s[k] == e;
        assert(r[k - lo] == e);
    }
    assert forall|x: int, y: int| 0 <= x < r.len() && 0 <= y < r.len() && x != y implies r[x] != r[y] by {
        assert(r[x] == s[lo + x] && r[y] == s[lo + y]);
    }
}

proof fn lemma_recent(p: PointView)
    requires
        p.edges.no_duplicates(),
    ensures
        recent(p).no_duplicates(),
        recent(p).len() <= p.max_degree || recent(p) == p.edges,
        recent(p).len() <= p.edges.len(),
        forall|e: u64| #[trigger] recent(p).contains(e) ==> p.edges.contains(e),
{
    if p.edges.len() > p.max_degree {
        let lo = p.edges.len() - p.max_degree;
        assert forall|e: u64| #[trigger] recent(p).contains(e) implies p.edges.contains(e) by {
            lemma_subrange_contains(p.edges, lo, e);
        }
        lemma_subrange_contains(p.edges, lo, 0);
    }
}

/// Degree trimming keeps a graph well formed and bounds every degree.
pub proof fn lemma_trimmed(s: Seq<PointView>)
    requires
        graph_wf(s),
    ensures
        graph_wf(trimmed(s)),
        degree_bounded(trimmed(s)),
{
    let t = trimmed(s);
    assert forall|i: int| 0 <= i < s.len() implies {
        let p = #[trigger] t[i];
        &&& p.id == s[i].id
        &&& p.position == s[i].position
        &&& p.velocity == s[i].velocity
        &&& p.edges.no_duplicates()
        &&& p.edges.len() <= p.max_degree
        &&& forall|e: u64| #[trigger] p.edges.contains(e) <==> recent(s[i]).contains(e) && keeps_recent(s, i, e)
    } by {
        lemma_recent(s[i]);
        let pred = |e: u64| keeps_recent(s, i, e);
        lemma_filter_no_duplicates(recent(s[i]), pred);
        recent(s[i]).lemma_filter_len(pred);
        assert forall|e: u64| #[trigger] t[i].edges.contains(e) <==> recent(s[i]).contains(e) && keeps_recent(s, i, e) by {
            lemma_filter_contains(recent(s[i]), pred, e);
        }
        if recent(s[i]) == s[i].edges {
            assert(s[i].edges.len() <= s[i].max_degree);
        }
    }
    assert forall|i: int, e: u64| 0 <= i < s.len() && #[trigger] t[i].edges.contains(e) implies s[i].edges.contains(e) by {
        lemma_recent(s[i]);
    }
    assert forall|a: int, b: int| 0 <= a < t.len() && 0 <= b < t.len() && #[trigger] linked(t, a, b) implies linked(
        t,
        b,
        a,
    ) by {
        lemma_index_of(s, s[b].id);
        lemma_recent(s[a]);
        assert(s[a].edges.contains(s[b].id));
        assert(linked(s, b, a));
        lemma_index_of(s, s[a].id);
        assert(has_id(s, s[a].id));
    }
    lemma_fewer_edges_wf(s, t);
}

/// Distance pruning keeps a graph well formed and within its degree bounds,
/// and leaves only edges that span less than `max_dist2`.
pub proof fn lemma_pruned(s: Seq<PointView>, max_dist2: int)
    requires
        graph_wf(s),
    ensures
        graph_wf(pruned(s, max_dist2)),
        degree_bounded(s) ==> degree_bounded(pruned(s, max_dist2)),
        edges_within(pruned(s, max_dist2), max_dist2),
{
    let t = pruned(s, max_dist2);
    assert forall|i: int| 0 <= i < s.len() implies {
        let p = #[trigger] t[i];
        &&& p.id == s[i].id
        &&& p.position == s[i].position
        &&& p.velocity == s[i].velocity
        &&& p.max_degree == s[i].max_degree
        &&& p.edges.no_duplicates()
        &&& p.edges.len() <= s[i].edges.len()
        &&& forall|e: u64| #[trigger] p.edges.contains(e) <==> s[i].edges.contains(e) && dist2_spec(
            s[i].position,
            position_of_id(s, e),
        ) < max_dist2
    } by {
        let pred = |e: u64| dist2_spec(s[i].position, position_of_id(s, e)) < max_dist2;
        lemma_filter_no_duplicates(s[i].edges, pred);
        s[i].edges.lemma_filter_len(pred);
        assert forall|e: u64| #[trigger] t[i].edges.contains(e) <==> s[i].edges.contains(e) && pred(e) by {
            lemma_filter_contains(s[i].edges, pred, e);
        }
    }
    assert forall|a: int, b: int| 0 <= a < t.len() && 0 <= b < t.len() && #[trigger] linked(t, a, b) implies linked(
        t,
        b,
        a,
    ) && dist2_spec(t[a].position, t[b].position) < max_dist2 by {
        lemma_index_of(s, s[b].id);
        lemma_index_of(s, s[a].id);
        assert(linked(s, a, b));
        assert(linked(s, b, a));
        assert(dist2_spec(s[a].position, s[b].position) == dist2_spec(s[b].position, s[a].position)) by (nonlinear_arith);
    }
    lemma_fewer_edges_wf(s, t);
}

impl PointGraph {
    /// The edges the point at index `i` keeps under degree trimming.
    fn trimmed_edges(&self, i: usize) -> (r: Vec<u64>)
        requires
            self.wf(),
            i < self@.len(),
        ensures
            r@ == trimmed(self@)[i as int].edges,
    {
        let ghost s = self@;
        proof {
            self.lemma_view_at();
        }
        let p = &self.points[i];
        let pid = p.id;
        let len = p.edges.len();
        let start = if len > p.max_degree {
            len - p.max_degree
        } else {
            0
        };
        let ghost pred = |e: u64| keeps_recent(s, i as int, e);
        let ghost rec = s[i as int].edges.subrange(start as int, len as int);
        assert(rec == recent(s[i as int]));
        let mut kept: Vec<u64> = Vec::new();
        let mut k: usize = start;
        while k < len
            invariant
                self.wf(),
                s == self@,
                i < s.len(),
                self.points@.len() == s.len(),
                p == self.points@[i as int],
                s[i as int] == p@,
                pid == s[i as int].id,
                len == p.edges@.len(),
                start <= k <= len,
                rec == s[i as int].edges.subrange(start as int, len as int),
                pred == (|e: u64| keeps_recent(s, i as int, e)),
                kept@ == rec.subrange(0, k - start).filter(pred),
            decreases len - k,
        {
            proof {
                self.lemma_view_at();
            }
            let e = p.edges[k];
            let ghost before = kept@;
            let mut keep = false;
            match self.find(e) {
                Some(j) => {
                    let q = &self.points[j];
                    let qlen = q.edges.len();
                    let qstart = if qlen > q.max_degree {
                        qlen - q.max_degree
                    } else {
                        0
                    };
                    proof {
                        let qv = s[j as int];
                        lemma_subrange_contains(qv.edges, qstart as int, pid);
                        assert(qv.edges.subrange(qstart as int, qv.edges.len() as int) == recent(qv));
                    }
                    match position_of(&q.edges, pid) {
                        Some(x) => {
                            keep = x >= qstart;
                        },
                        None => {},
                    }
                },
                None => {},
            }
            assert(keep == pred(e)) by {
                assert(s[i as int].edges[k as int] == e);
                assert(s[i as int].edges.contains(e));
                lemma_index_of(s, e);
            };
            if keep {
                kept.push(e);
            }
            assert(rec.subrange(0, k + 1 - start).filter(pred) == kept@) by {
                reveal(Seq::filter);
                assert(rec.subrange(0, k + 1 - start).drop_last() == rec.subrange(0, k - start));
                assert(rec.subrange(0, k + 1 - start).last() == e);
            }
            k += 1;
        }
        assert(rec.subrange(0, len - start) == rec);
        kept
    }

    /// The edges the point at index `i` keeps under distance pruning.
    fn pruned_edges(&self, i: usize, max_dist2: i128) -> (r: Vec<u64>)
        requires
            self.wf(),
            i < self@.len(),
        ensures
            r@ == pruned(self@, max_dist2 as int)[i as int].edges,
    {
        let ghost s = self@;
        proof {
            self.lemma_view_at();
        }
        let p = &self.points[i];
        let len = p.edges.len();
        let ghost pred = |e: u64| dist2_spec(s[i as int].position, position_of_id(s, e)) < max_dist2;
        let mut kept: Vec<u64> = Vec::new();
        let mut k: usize = 0;
        while k < len
            invariant
                self.wf(),
                s == self@,
                i < s.len(),
                self.points@.len() == s.len(),
                p == self.points@[i as int],
                s[i as int] == p@,
                len == p.edges@.len(),
                k <= len,
                pred == (|e: u64| dist2_spec(s[i as int].position, position_of_id(s, e)) < max_dist2),
                kept@ == s[i as int].edges.subrange(0, k as int).filter(pred),
            decreases len - k,
        {
            proof {
                self.lemma_view_at();
            }
            let e = p.edges[k];
            proof {
                assert(s[i as int].edges[k as int] == e);
                assert(s[i as int].edges.contains(e));
                lemma_index_of(s, e);
            }
            match self.find(e) {
                Some(j) => {
                    assert(within(s[j as int].position, COORD_LIMIT as int));
                    assert(within(s[i as int].position, COORD_LIMIT as int));
                    let d = p.position.distance2(&self.points[j].position);
                    if d < max_dist2 {
                        kept.push(e);
                    }
                },
                None => {},
            }
            assert(s[i as int].edges.subrange(0, k + 1).filter(pred) == kept@) by {
                reveal(Seq::filter);
                assert(s[i as int].edges.subrange(0, k + 1).drop_last() == s[i as int].edges.subrange(0, k as int));
            }
            k += 1;
        }
        assert(s[i as int].edges.subrange(0, len as int) == s[i as int].edges);
        kept
    }

    /// Cuts every point's edges down to its degree bound, the oldest edges
    /// going first, from both ends.
    pub fn trim_degree(&mut self)
        requires
            old(self).wf(),
        ensures
            final(self).wf(),
            final(self)@ == trimmed(old(self)@),
            degree_bounded(final(self)@),
            final(self).next_id_spec() == old(self).next_id_spec(),
    {
        let ghost s = self@;
        let mut out: Vec<Point> = Vec::new();
        let mut i: usize = 0;
        let n = self.points.len();
        proof {
            self.lemma_view_at();
        }
        while i < n
            invariant
                self.wf(),
                s == self@,
                n == s.len(),
                i <= n,
                out@.len() == i,
                forall|k: int| 0 <= k < i ==> (#[trigger] out@[k])@ == trimmed(s)[k],
            decreases n - i,
        {
            proof {
                self.lemma_view_at();
            }
            let edges = self.trimmed_edges(i);
            let p = &self.points[i];
            out.push(
                Point {
                    id: p.id,
                    position: p.position,
                    velocity: p.velocity,
                    voice: p.voice,
                    max_degree: p.max_degree,
                    edges,
                    lifetime: p.lifetime,
                    active: p.active,
                },
            );
            i += 1;
        }
        self.points = out;
        proof {
            self.lemma_view_at();
            assert(self@ =~= trimmed(s));
            lemma_trimmed(s);
            assert forall|k: int| 0 <= k < self@.len() implies (#[trigger] self@[k]).id < self.next_id_spec() by {
                assert(self@[k].id == s[k].id);
            }
        }
    }

    /// Takes out every edge that spans `max_dist2` (squared) or more, from both
    /// ends.
    pub fn prune_far_edges(&mut self, max_dist2: i128)
        requires
            old(self).wf(),
        ensures
            final(self).wf(),
            final(self)@ == pruned(old(self)@, max_dist2 as int),
            edges_within(final(self)@, max_dist2 as int),
            degree_bounded(old(self)@) ==> degree_bounded(final(self)@),
            final(self).next_id_spec() == old(self).next_id_spec(),
    {
        let ghost s = self@;
        let mut out: Vec<Point> = Vec::new();
        let mut i: usize = 0;
        let n = self.points.len();
        proof {
            self.lemma_view_at();
        }
        while i < n
            invariant
                self.wf(),
                s == self@,
                n == s.len(),
                i <= n,
                out@.len() == i,
                forall|k: int| 0 <= k < i ==> (#[trigger] out@[k])@ == pruned(s, max_dist2 as int)[k],
            decreases n - i,
        {
            proof {
                self.lemma_view_at();
            }
            let edges = self.pruned_edges(i, max_dist2);
            let p = &self.points[i];
            out.push(
                Point {
                    id: p.id,
                    position: p.position,
                    velocity: p.velocity,
                    voice: p.voice,
                    max_degree: p.max_degree,
                    edges,
                    lifetime: p.lifetime,
                    active: p.active,
                },
            );
            i += 1;
        }
        self.points = out;
        proof {
            self.lemma_view_at();
            assert(self@ =~= pruned(s, max_dist2 as int));
            lemma_pruned(s, max_dist2 as int);
            assert forall|k: int| 0 <= k < self@.len() implies (#[trigger] self@[k]).id < self.next_id_spec() by {
                assert(self@[k].id == s[k].id);
            }
        }
    }
}

} // verus!