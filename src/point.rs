//! Points of the spring graph, their mathematical view, and the invariants that
//! a set of points linked by edges keeps.
use vstd::prelude::*;
use crate::geometry::{within, Vec2, COORD_LIMIT, VELOCITY_LIMIT};

verus! {

/// A particle of the simulation. Edges name other points by id, oldest first.
#[derive(Debug)]
pub struct Point {
    pub id: u64,
    pub position: Vec2,
    pub velocity: Vec2,
    pub voice: Option<usize>,
    pub max_degree: usize,
    pub edges: Vec<u64>,
    pub lifetime: i32,
    pub active: bool,
}

/// What a [`Point`] holds, with its edge list as a sequence.
pub struct PointView {
    pub id: u64,
    pub position: Vec2,
    pub velocity: Vec2,
    pub voice: Option<usize>,
    pub max_degree: usize,
    pub edges: Seq<u64>,
    pub lifetime: i32,
    pub active: bool,
}

impl View for Point {
    type V = PointView;

    open spec fn view(&self) -> PointView {
        PointView {
            id: self.id,
            position: self.position,
            velocity: self.velocity,
            voice: self.voice,
            max_degree: self.max_degree,
            edges: self.edges@,
            lifetime: self.lifetime,
            active: self.active,
        }
    }
}

/// Some point of `s` has id `id`.
pub open spec fn has_id(s: Seq<PointView>, id: u64) -> bool {
    exists|j: int| 0 <= j < s.len() && #[trigger] s[j].id == id
}

/// The index of the point with id `id` (meaningful where `has_id(s, id)`).
pub open spec fn index_of(s: Seq<PointView>, id: u64) -> int {
    choose|j: int| 0 <= j < s.len() && #[trigger] s[j].id == id
}

/// The point at index `i` has an edge to the point at index `j`.
pub open spec fn linked(s: Seq<PointView>, i: int, j: int) -> bool {
    s[i].edges.contains(s[j].id)
}

pub open spec fn ids_unique(s: Seq<PointView>) -> bool {
    forall|i: int, j: int|
        0 <= i < s.len() && 0 <= j < s.len() && i != j ==> #[trigger] s[i].id != #[trigger] s[j].id
}

/// Every edge is mirrored by an edge in the other direction.
pub open spec fn symmetric(s: Seq<PointView>) -> bool {
    forall|i: int, j: int|
        0 <= i < s.len() && 0 <= j < s.len() && #[trigger] linked(s, i, j) ==> linked(s, j, i)
}

pub open spec fn no_self_edges(s: Seq<PointView>) -> bool {
    forall|i: int| 0 <= i < s.len() ==> !(#[trigger] s[i].edges).contains(s[i].id)
}

/// Every id in an edge list belongs to a point of `s`.
pub open spec fn no_dangling(s: Seq<PointView>) -> bool {
    forall|i: int, e: u64| 0 <= i < s.len() && #[trigger] s[i].edges.contains(e) ==> has_id(s, e)
}

pub open spec fn edges_distinct(s: Seq<PointView>) -> bool {
    forall|i: int| 0 <= i < s.len() ==> (#[trigger] s[i].edges).no_duplicates()
}

/// Positions and velocities are within the integer ranges the simulation works in.
pub open spec fn in_world(s: Seq<PointView>) -> bool {
    forall|i: int|
        0 <= i < s.len() ==> within(#[trigger] s[i].position, COORD_LIMIT as int) && within(
            s[i].velocity,
            VELOCITY_LIMIT as int,
        )
}

/// The invariant of a graph of points.
pub open spec fn graph_wf(s: Seq<PointView>) -> bool {
    &&& ids_unique(s)
    &&& symmetric(s)
    &&& no_self_edges(s)
    &&& no_dangling(s)
    &&& edges_distinct(s)
    &&& in_world(s)
}

/// No point has more edges than its `max_degree`.
pub open spec fn degree_bounded(s: Seq<PointView>) -> bool {
    forall|i: int| 0 <= i < s.len() ==> (#[trigger] s[i].edges).len() <= s[i].max_degree
}

pub proof fn lemma_index_of(s: Seq<PointView>, id: u64)
    requires
        has_id(s, id),
        ids_unique(s),
    ensures
        0 <= index_of(s, id) < s.len(),
        s[index_of(s, id)].id == id,
        forall|j: int| 0 <= j < s.len() && #[trigger] s[j].id == id ==> j == index_of(s, id),
{
}

/// Keeping the elements of a sequence that satisfy `pred` keeps exactly those.
pub proof fn lemma_filter_contains<A>(s: Seq<A>, pred: spec_fn(A) -> bool, x: A)
    ensures
        s.filter(pred).contains(x) <==> s.contains(x) && pred(x),
    decreases s.len(),
{
    reveal(Seq::filter);
    if s.len() > 0 {
        let d = s.drop_last();
        lemma_filter_contains(d, pred, x);
        assert(s == d.push(s.last()));
        assert(s.contains(x) <==> d.contains(x) || x == s.last()) by {
            if s.contains(x) && x != s.last() {
                let k = choose|k: int| 0 <= k < s.len() && s[k] == x;
                assert(d[k] == x);
            }
            if d.contains(x) {
                let k = choose|k: int| 0 <= k < d.len() && d[k] == x;
                assert(s[k] == x);
            }
            if x == s.last() {
                assert(s[s.len() - 1] == x);
            }
        }
        let f = d.filter(pred);
        if pred(s.last()) {
            assert(s.filter(pred) == f.push(s.last()));
            assert(f.push(s.last()).contains(x) <==> f.contains(x) || x == s.last()) by {
                if f.push(s.last()).contains(x) && x != s.last() {
                    let k = choose|k: int| 0 <= k < f.len() + 1 && f.push(s.last())[k] == x;
                    assert(f[k] == x);
                }
                if f.contains(x) {
                    let k = choose|k: int| 0 <= k < f.len() && f[k] == x;
                    assert(f.push(s.last())[k] == x);
                }
                if x == s.last() {
                    assert(f.push(s.last())[f.len() as int] == x);
                }
            }
        } else {
            assert(s.filter(pred) == f);
        }
    }
}

/// Filtering a sequence without duplicates gives one without duplicates.
pub proof fn lemma_filter_no_duplicates<A>(s: Seq<A>, pred: spec_fn(A) -> bool)
    requires
        s.no_duplicates(),
    ensures
        s.filter(pred).no_duplicates(),
    decreases s.len(),
{
    reveal(Seq::filter);
    if s.len() > 0 {
        let d = s.drop_last();
        assert(d.no_duplicates()) by {
            assert forall|i: int, j: int| 0 <= i < d.len() && 0 <= j < d.len() && i != j implies d[i]
                != d[j] by {
                assert(d[i] == s[i] && d[j] == s[j]);
            }
        }
        lemma_filter_no_duplicates(d, pred);
        if pred(s.last()) {
            let f = d.filter(pred);
            lemma_filter_contains(d, pred, s.last());
            assert(!d.contains(s.last())) by {
                if d.contains(s.last()) {
                    let k = choose|k: int| 0 <= k < d.len() && d[k] == s.last();
                    assert(s[k] == s[s.len() - 1]);
                }
            }
            assert(s.filter(pred) == f.push(s.last()));
            assert forall|i: int, j: int|
                0 <= i < f.len() + 1 && 0 <= j < f.len() + 1 && i != j implies f.push(s.last())[i]
                != f.push(s.last())[j] by {
                if i == f.len() {
                    assert(f.contains(f.push(s.last())[j]) || j == f.len());
                } else if j == f.len() {
                    assert(f.contains(f.push(s.last())[i]));
                }
            }
        } else {
            assert(s.filter(pred) == d.filter(pred));
        }
    }
}

} // verus!
