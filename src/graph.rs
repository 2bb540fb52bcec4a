//! The point graph: an arena of points addressed by stable ids, with symmetric
//! edges between them.
use vstd::prelude::*;
use crate::geometry::{within, Vec2, COORD_LIMIT};
use crate::ids::{contains_id, without_ids};
use crate::point::{
    degree_bounded, graph_wf, has_id, index_of, lemma_filter_contains, lemma_filter_no_duplicates,
    lemma_index_of, linked, symmetric, Point, PointView,
};

verus! {

/// A set of points and the symmetric edges between them.
pub struct PointGraph {
    pub(crate) points: Vec<Point>,
    pub(crate) next_id: u64,
}

/// A point with its edges to the ids that `gone` names taken out.
pub open spec fn strip(p: PointView, gone: spec_fn(u64) -> bool) -> PointView {
    PointView { edges: p.edges.filter(|e: u64| !gone(e)), ..p }
}

/// The points of `s` whose ids `gone` does not name, in order, with every edge
/// to a named id taken out.
pub open spec fn without(s: Seq<PointView>, gone: spec_fn(u64) -> bool) -> Seq<PointView> {
    s.filter(|p: PointView| !gone(p.id)).map_values(|p: PointView| strip(p, gone))
}

/// Some point of `s` with id `e` has no lifetime left.
pub open spec fn expired_id(s: Seq<PointView>, e: u64) -> bool {
    exists|j: int| 0 <= j < s.len() && #[trigger] s[j].id == e && s[j].lifetime <= 0
}

/// A fresh point with no edges.
pub open spec fn fresh_point(
    id: u64,
    position: Vec2,
    voice: Option<usize>,
    max_degree: usize,
    lifetime: i32,
    active: bool,
) -> PointView {
    PointView {
        id,
        position,
        velocity: Vec2 { x: 0, y: 0 },
        voice,
        max_degree,
        edges: Seq::empty(),
        lifetime,
        active,
    }
}

/// Removing points, and every edge to them, keeps a graph well formed, and
/// keeps each point within its degree bound.
pub proof fn lemma_without_wf(s: Seq<PointView>, gone: spec_fn(u64) -> bool)
    requires
        graph_wf(s),
    ensures
        graph_wf(without(s, gone)),
        degree_bounded(s) ==> degree_bounded(without(s, gone)),
        forall|k: int| 0 <= k < without(s, gone).len() ==> !gone(#[trigger] without(s, gone)[k].id),
        forall|k: int, e: u64|
            0 <= k < without(s, gone).len() && gone(e) ==> !#[trigger] without(s, gone)[k].edges.contains(e),
        forall|i: int| 0 <= i < s.len() && !gone(s[i].id) ==> has_id(without(s, gone), #[trigger] s[i].id),
        forall|k: int|
            0 <= k < without(s, gone).len() ==> has_id(s, #[trigger] without(s, gone)[k].id) && without(
                s,
                gone,
            )[k] == strip(s[index_of(s, without(s, gone)[k].id)], gone),
{
    let keep = |p: PointView| !gone(p.id);
    let kept = |e: u64| !gone(e);
    let f = s.filter(keep);
    let r = without(s, gone);
    assert(s.no_duplicates()) by {
        assert forall|i: int, j: int| 0 <= i < s.len() && 0 <= j < s.len() && i != j implies s[i]
            != s[j] by {
            assert(s[i].id != s[j].id);
        }
    }
    lemma_filter_no_duplicates(s, keep);
    // each point of the result comes from a kept point of `s`
    assert forall|k: int| 0 <= k < r.len() implies exists|i: int|
        0 <= i < s.len() && #[trigger] s[i] == #[trigger] f[k] && !gone(s[i].id) by {
        lemma_filter_contains(s, keep, f[k]);
        assert(f.contains(f[k]));
    }
    assert forall|i: int| 0 <= i < s.len() && !gone(s[i].id) implies has_id(r, #[trigger] s[i].id) by {
        lemma_filter_contains(s, keep, s[i]);
        assert(s.contains(s[i]));
        let k = choose|k: int| 0 <= k < f.len() && f[k] == s[i];
        assert(r[k].id == s[i].id);
    }
    assert forall|k: int, e: u64| 0 <= k < r.len() implies #[trigger] r[k].edges.contains(e) <==> (
    f[k].edges.contains(e) && !gone(e)) by {
        lemma_filter_contains(f[k].edges, kept, e);
    }
    // ids stay unique
    assert forall|a: int, b: int| 0 <= a < r.len() && 0 <= b < r.len() && a != b implies #[trigger] r[a].id
        != #[trigger] r[b].id by {
        let ia = choose|i: int| 0 <= i < s.len() && #[trigger] s[i] == f[a] && !gone(s[i].id);
        let ib = choose|i: int| 0 <= i < s.len() && #[trigger] s[i] == f[b] && !gone(s[i].id);
        assert(f[a] != f[b]);
    }
    assert forall|a: int, b: int| 0 <= a < r.len() && 0 <= b < r.len() && #[trigger] linked(r, a, b) implies linked(
        r,
        b,
        a,
    ) by {
        let ia = choose|i: int| 0 <= i < s.len() && #[trigger] s[i] == f[a] && !gone(s[i].id);
        let ib = choose|i: int| 0 <= i < s.len() && #[trigger] s[i] == f[b] && !gone(s[i].id);
        assert(r[a].edges.contains(r[b].id));
        assert(linked(s, ia, ib));
        assert(r[b].edges.contains(r[a].id));
    }
    assert forall|k: int| 0 <= k < r.len() implies !(#[trigger] r[k].edges).contains(r[k].id) by {
        let i = choose|i: int| 0 <= i < s.len() && #[trigger] s[i] == f[k] && !gone(s[i].id);
    }
    assert forall|k: int, e: u64| 0 <= k < r.len() && #[trigger] r[k].edges.contains(e) implies has_id(r, e) by {
        let i = choose|i: int| 0 <= i < s.len() && #[trigger] s[i] == f[k] && !gone(s[i].id);
        assert(s[i].edges.contains(e));
        let j = choose|j: int| 0 <= j < s.len() && #[trigger] s[j].id == e;
        assert(has_id(r, s[j].id));
    }
    assert forall|k: int| 0 <= k < r.len() implies (#[trigger] r[k].edges).no_duplicates() by {
        let i = choose|i: int| 0 <= i < s.len() && #[trigger] s[i] == f[k] && !gone(s[i].id);
        lemma_filter_no_duplicates(f[k].edges, kept);
    }
    assert forall|k: int| 0 <= k < r.len() implies within(#[trigger] r[k].position, COORD_LIMIT as int)
        && within(r[k].velocity, crate::geometry::VELOCITY_LIMIT as int) by {
        let i = choose|i: int| 0 <= i < s.len() && #[trigger] s[i] == f[k] && !gone(s[i].id);
    }
    if degree_bounded(s) {
        assert forall|k: int| 0 <= k < r.len() implies (#[trigger] r[k].edges).len() <= r[k].max_degree by {
            let i = choose|i: int| 0 <= i < s.len() && #[trigger] s[i] == f[k] && !gone(s[i].id);
            f[k].edges.lemma_filter_len(kept);
        }
    }
    assert forall|k: int| 0 <= k < r.len() implies !gone(#[trigger] r[k].id) by {
        let i = choose|i: int| 0 <= i < s.len() && #[trigger] s[i] == f[k] && !gone(s[i].id);
    }
    assert forall|k: int| 0 <= k < r.len() implies has_id(s, #[trigger] r[k].id) && r[k] == strip(
        s[index_of(s, r[k].id)],
        gone,
    ) by {
        let i = choose|i: int| 0 <= i < s.len() && #[trigger] s[i] == f[k] && !gone(s[i].id);
        assert(s[i].id == r[k].id);
        lemma_index_of(s, r[k].id);
    }
}

/// In a well formed graph, every point links to a point exactly where that
/// point links back; every operation on a graph keeps it well formed.
pub proof fn lemma_edges_mutual(g: PointGraph, i: int, j: int)
    requires
        g.wf(),
        0 <= i < g@.len(),
        0 <= j < g@.len(),
    ensures
        linked(g@, i, j) <==> linked(g@, j, i),
{
}

impl View for PointGraph {
    type V = Seq<PointView>;

    closed spec fn view(&self) -> Seq<PointView> {
        self.points@.map_values(|p: Point| p@)
    }
}

impl PointGraph {
    /// The graph holds no two points with one id, its edges are symmetric, no
    /// point links to itself, every edge names a point of the graph, and every
    /// id handed out so far is below the next one.
    pub open spec fn wf(&self) -> bool {
        &&& graph_wf(self@)
        &&& forall|i: int| 0 <= i < self@.len() ==> (#[trigger] self@[i]).id < self.next_id_spec()
    }

    /// The id the next added point receives.
    pub closed spec fn next_id_spec(&self) -> u64 {
        self.next_id
    }

    pub(crate) proof fn lemma_view_at(&self)
        ensures
            self.next_id_spec() == self.next_id,
            self@.len() == self.points@.len(),
            forall|i: int| 0 <= i < self@.len() ==> #[trigger] self@[i] == self.points@[i]@,
    {
    }

    /// An empty graph.
    pub fn new() -> (r: PointGraph)
        ensures
            r.wf(),
            r@ == Seq::<PointView>::empty(),
            r.next_id_spec() == 0,
            degree_bounded(r@),
    {
        let r = PointGraph { points: Vec::new(), next_id: 0 };
        assert(r@ =~= Seq::<PointView>::empty());
        r
    }

    /// The number of points.
    pub fn len(&self) -> (r: usize)
        ensures
            r == self@.len(),
    {
        self.points.len()
    }

    /// The point at index `i`, in the order of insertion.
    pub fn point(&self, i: usize) -> (r: &Point)
        requires
            i < self@.len(),
        ensures
            r@ == self@[i as int],
    {
        &self.points[i]
    }

    /// The index of the point with id `id`, if there is one.
    pub fn find(&self, id: u64) -> (r: Option<usize>)
        requires
            self.wf(),
        ensures
            r matches Some(k) ==> k < self@.len() && self@[k as int].id == id && k == index_of(
                self@,
                id,
            ),
            r is None <==> !has_id(self@, id),
    {
        let mut i: usize = 0;
        while i < self.points.len()
            invariant
                i <= self@.len(),
                self.wf(),
                forall|k: int| 0 <= k < i ==> self@[k].id != id,
            decreases self@.len() - i,
        {
            proof {
                self.lemma_view_at();
            }
            if self.points[i].id == id {
                proof {
                    assert(self@[i as int].id == id);
                    lemma_index_of(self@, id);
                }
                return Some(i);
            }
            i += 1;
        }
        None
    }

    /// Adds a point with no edges and returns its id; `None` once every id has
    /// been handed out.
    pub fn add_point(
        &mut self,
        position: Vec2,
        voice: Option<usize>,
        max_degree: usize,
        lifetime: i32,
        active: bool,
    ) -> (r: Option<u64>)
        requires
            old(self).wf(),
            within(position, COORD_LIMIT as int),
        ensures
            final(self).wf(),
            r is None <==> old(self).next_id_spec() == u64::MAX,
            r is None ==> final(self)@ == old(self)@,
            r matches Some(id) ==> id == old(self).next_id_spec() && !has_id(old(self)@, id)
                && final(self)@ == old(self)@.push(
                fresh_point(id, position, voice, max_degree, lifetime, active),
            ),
            degree_bounded(old(self)@) ==> degree_bounded(final(self)@),
    {
        if self.next_id == u64::MAX {
            return None;
        }
        let id = self.next_id;
        let ghost before = self@;
        self.points.push(
            Point {
                id,
                position,
                velocity: Vec2 { x: 0, y: 0 },
                voice,
                max_degree,
                edges: Vec::new(),
                lifetime,
                active,
            },
        );
        self.next_id = id + 1;
        let ghost p = fresh_point(id, position, voice, max_degree, lifetime, active);
        assert(self@ =~= before.push(p));
        proof {
            let s = self@;
            assert(!has_id(before, id));
            assert forall|i: int, e: u64| 0 <= i < s.len() && #[trigger] s[i].edges.contains(e) implies has_id(s, e) by {
                assert(i < before.len());
                assert(before[i].edges.contains(e));
                let j = choose|j: int| 0 <= j < before.len() && #[trigger] before[j].id == e;
                assert(s[j].id == e);
            }
            assert forall|i: int, j: int| 0 <= i < s.len() && 0 <= j < s.len() && #[trigger] linked(s, i, j) implies linked(s, j, i) by {
                assert(i < before.len());
                if j == before.len() {
                    assert(before[i].edges.contains(id));
                    let k = choose|k: int| 0 <= k < before.len() && #[trigger] before[k].id == id;
                } else {
                    assert(linked(before, i, j));
                }
            }
        }
        Some(id)
    }

    /// Removes every point whose id `gone` holds, with every edge to it.
    fn retain_absent(&mut self, gone: &Vec<u64>)
        requires
            old(self).wf(),
        ensures
            final(self).wf(),
            final(self)@ == without(old(self)@, |e: u64| gone@.contains(e)),
            final(self).next_id_spec() == old(self).next_id_spec(),
    {
        let ghost g = |e: u64| gone@.contains(e);
        let ghost keep = |p: PointView| !g(p.id);
        let ghost st = |p: PointView| strip(p, g);
        let ghost old_view = self@;
        let mut out: Vec<Point> = Vec::new();
        let mut i: usize = 0;
        while i < self.points.len()
            invariant
                i <= self@.len(),
                self@ == old_view,
                g == (|e: u64| gone@.contains(e)),
                keep == (|p: PointView| !g(p.id)),
                st == (|p: PointView| strip(p, g)),
                out@.map_values(|p: Point| p@) == old_view.subrange(0, i as int).filter(keep).map_values(st),
            decreases self@.len() - i,
        {
            proof {
                self.lemma_view_at();
            }
            let ghost before = out@.map_values(|p: Point| p@);
            let ghost pre = old_view.subrange(0, i as int).filter(keep);
            let p = &self.points[i];
            if !contains_id(gone, p.id) {
                let edges = without_ids(&p.edges, gone);
                out.push(
                    Point {
                        id: p.id,
                        position: p.position,
                        velocity: p.velocity,
                        voice: p.voice,
                        max_degree: p.max_degree,
                        edges,
                        lifetime: p.lifetime,
                        active: p.active,
                    },
                );
                assert(old_view.subrange(0, i + 1).filter(keep) == pre.push(old_view[i as int])) by {
                    reveal(Seq::filter);
                    assert(old_view.subrange(0, i + 1).drop_last() == old_view.subrange(0, i as int));
                }
                proof {
                    let q = old_view[i as int];
                    assert((|e: u64| !g(e)) =~= (|e: u64| !gone@.contains(e)));
                    assert(out@[out@.len() - 1]@ == st(q));
                    assert(before == pre.map_values(st));
                    assert(out@.map_values(|p: Point| p@) =~= before.push(st(q)));
                    assert(pre.push(q).map_values(st) =~= pre.map_values(st).push(st(q)));
                }
            } else {
                assert(old_view.subrange(0, i + 1).filter(keep) == pre) by {
                    reveal(Seq::filter);
                    assert(old_view.subrange(0, i + 1).drop_last() == old_view.subrange(0, i as int));
                }
            }
            i += 1;
        }
        assert(old_view.subrange(0, old_view.len() as int) == old_view);
        self.points = out;
        proof {
            assert(self@ == without(old_view, g));
            lemma_without_wf(old_view, g);
            assert forall|i: int| 0 <= i < self@.len() implies (#[trigger] self@[i]).id < self.next_id by {
                assert(has_id(old_view, self@[i].id)) by {
                    assert(graph_wf(self@));
                    let keepf = old_view.filter(keep);
                    lemma_filter_contains(old_view, keep, keepf[i]);
                    assert(keepf.contains(keepf[i]));
                    let j = choose|j: int| 0 <= j < old_view.len() && old_view[j] == keepf[i];
                    assert(old_view[j].id == self@[i].id);
                }
                let j = choose|j: int| 0 <= j < old_view.len() && #[trigger] old_view[j].id == self@[i].id;
            }
        }
    }

    /// Removes the point with id `id`, and every edge to it; returns whether
    /// there was one.
    pub fn remove_point(&mut self, id: u64) -> (r: bool)
        requires
            old(self).wf(),
        ensures
            final(self).wf(),
            r == has_id(old(self)@, id),
            final(self)@ == without(old(self)@, |e: u64| e == id),
            !has_id(final(self)@, id),
            forall|k: int| 0 <= k < final(self)@.len() ==> !#[trigger] final(self)@[k].edges.contains(id),
            degree_bounded(old(self)@) ==> degree_bounded(final(self)@),
    {
        let found = self.find(id).is_some();
        let gone = vec![id];
        let ghost old_view = self@;
        self.retain_absent(&gone);
        proof {
            let g1 = |e: u64| gone@.contains(e);
            let g2 = |e: u64| e == id;
            assert forall|e: u64| #[trigger] g1(e) == g2(e) by {
                if e == id {
                    assert(gone@[0] == e);
                }
            }
            assert(g1 =~= g2);
            lemma_without_wf(old_view, g2);
        }
        found
    }

    /// Removes every point whose lifetime has run out, with every edge to it.
    pub fn remove_expired(&mut self)
        requires
            old(self).wf(),
        ensures
            final(self).wf(),
            final(self)@ == without(old(self)@, |e: u64| expired_id(old(self)@, e)),
            forall|k: int| 0 <= k < final(self)@.len() ==> (#[trigger] final(self)@[k]).lifetime > 0,
            forall|i: int|
                0 <= i < old(self)@.len() && old(self)@[i].lifetime > 0 ==> has_id(
                    final(self)@,
                    #[trigger] old(self)@[i].id,
                ),
            forall|k: int, e: u64|
                0 <= k < final(self)@.len() && expired_id(old(self)@, e)
                    ==> !#[trigger] final(self)@[k].edges.contains(e),
            degree_bounded(old(self)@) ==> degree_bounded(final(self)@),
    {
        let ghost old_view = self@;
        let mut gone: Vec<u64> = Vec::new();
        let mut i: usize = 0;
        while i < self.points.len()
            invariant
                i <= self@.len(),
                self@ == old_view,
                forall|e: u64|
                    #[trigger] gone@.contains(e) <==> exists|j: int|
                        0 <= j < i && #[trigger] old_view[j].id == e && old_view[j].lifetime <= 0,
            decreases self@.len() - i,
        {
            proof {
                self.lemma_view_at();
            }
            if self.points[i].lifetime <= 0 {
                let ghost prev = gone@;
                gone.push(self.points[i].id);
                proof {
                    assert forall|e: u64| #[trigger] gone@.contains(e) <==> exists|j: int|
                        0 <= j < i + 1 && #[trigger] old_view[j].id == e && old_view[j].lifetime <= 0 by {
                        if gone@.contains(e) && e != old_view[i as int].id {
                            let k = choose|k: int| 0 <= k < gone@.len() && gone@[k] == e;
                            assert(prev[k] == e);
                            assert(prev.contains(e));
                        }
                        if exists|j: int| 0 <= j < i && #[trigger] old_view[j].id == e && old_view[j].lifetime <= 0 {
                            assert(prev.contains(e));
                            let k = choose|k: int| 0 <= k < prev.len() && prev[k] == e;
                            assert(gone@[k] == e);
                        }
                        if e == old_view[i as int].id {
                            assert(gone@[prev.len() as int] == e);
                        }
                    }
                }
            }
            i += 1;
        }
        self.retain_absent(&gone);
        proof {
            let g1 = |e: u64| gone@.contains(e);
            let g2 = |e: u64| expired_id(old_view, e);
            assert forall|e: u64| #[trigger] g1(e) == g2(e) by {
                if g2(e) {
                    let j = choose|j: int| 0 <= j < old_view.len() && #[trigger] old_view[j].id == e && old_view[j].lifetime <= 0;
                    assert(gone@.contains(e));
                }
            }
            assert(g1 =~= g2);
            lemma_without_wf(old_view, g2);
            let r = self@;
            assert forall|k: int| 0 <= k < r.len() implies (#[trigger] r[k]).lifetime > 0 by {
                let j = index_of(old_view, r[k].id);
                lemma_index_of(old_view, r[k].id);
                if old_view[j].lifetime <= 0 {
                    assert(g2(r[k].id));
                }
            }
            assert forall|i: int| 0 <= i < old_view.len() && old_view[i].lifetime > 0 implies has_id(
                r,
                #[trigger] old_view[i].id,
            ) by {
                if g2(old_view[i].id) {
                    let j = choose|j: int| 0 <= j < old_view.len() && #[trigger] old_view[j].id == old_view[i].id && old_view[j].lifetime <= 0;
                }
            }
        }
    }
}

} // verus!
