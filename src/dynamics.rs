//! Spring forces, integration and ageing of the points.
//!
//! Fractions in `[0, 1]` (friction, force strength) are given in parts per
//! thousand. Damping rounds toward zero, so that friction brings a point to
//! rest; a spring's pull rounds away from zero, so that no link's force
//! vanishes. Either way a force and its mirror image have equal magnitude.
use vstd::prelude::*;
use crate::geometry::{clamp, clamp_spec, dist2_spec, within, Vec2, COORD_LIMIT, VELOCITY_LIMIT};
use crate::graph::PointGraph;
use crate::point::{degree_bounded, graph_wf, has_id, lemma_index_of, linked, PointView};
use crate::pruning::{edges_within, position_of_id};

verus! {

/// The denominator of fractions given in parts per thousand.
pub const PER_MILLE: i128 = 1000;

/// The rectangle positions are held to.
#[derive(Clone, Copy, Debug, PartialEq, Eq, Structural)]
pub struct Bounds {
    pub left: i64,
    pub right: i64,
    pub bottom: i64,
    pub top: i64,
}

impl Bounds {
    pub open spec fn valid(&self) -> bool {
        -COORD_LIMIT <= self.left <= self.right <= COORD_LIMIT && -COORD_LIMIT <= self.bottom
            <= self.top <= COORD_LIMIT
    }
}

/// `a / b` rounded toward zero.
pub open spec fn toward_zero(a: int, b: int) -> int {
    if a >= 0 {
        a / b
    } else {
        -((-a) / b)
    }
}

/// `a / b` rounded away from zero.
pub open spec fn away_from_zero(a: int, b: int) -> int {
    if a >= 0 {
        (a + b - 1) / b
    } else {
        -((-a + b - 1) / b)
    }
}

/// A velocity component scaled by `friction` (parts per thousand).
pub open spec fn damped(v: int, friction: int) -> int {
    toward_zero(v * friction, PER_MILLE as int)
}

/// The velocity change along one axis that an edge of squared length `d2`
/// and extent `delta` along that axis gives: `delta` times the force, which
/// runs linearly from `-strength` at length zero to `+strength` at
/// `max_dist2`.
pub open spec fn pull(delta: int, d2: int, max_dist2: int, strength: int) -> int {
    away_from_zero(delta * strength * (2 * d2 - max_dist2), PER_MILLE * max_dist2)
}

/// The sum of the pulls of the first `n` edges of the point at index `i`
/// along the x axis (`x_axis`) or the y axis.
pub open spec fn pull_sum(
    s: Seq<PointView>,
    i: int,
    n: int,
    max_dist2: int,
    strength: int,
    x_axis: bool,
) -> int
    decreases n,
{
    if n <= 0 {
        0
    } else {
        let p = s[i].position;
        let q = position_of_id(s, s[i].edges[n - 1]);
        let delta = if x_axis {
            q.x - p.x
        } else {
            q.y - p.y
        };
        pull_sum(s, i, n - 1, max_dist2, strength, x_axis) + pull(
            delta,
            dist2_spec(p, q),
            max_dist2,
            strength,
        )
    }
}

/// The velocity of the point at index `i` after friction and the pull of
/// its edges, each component held to `VELOCITY_LIMIT`.
pub open spec fn new_velocity(
    s: Seq<PointView>,
    i: int,
    friction: int,
    strength: int,
    max_dist2: int,
) -> Vec2 {
    let v = s[i].velocity;
    let n = s[i].edges.len() as int;
    Vec2 {
        x: clamp_spec(
            damped(v.x as int, friction) + pull_sum(s, i, n, max_dist2, strength, true),
            -VELOCITY_LIMIT as int,
            VELOCITY_LIMIT as int,
        ) as i64,
        y: clamp_spec(
            damped(v.y as int, friction) + pull_sum(s, i, n, max_dist2, strength, false),
            -VELOCITY_LIMIT as int,
            VELOCITY_LIMIT as int,
        ) as i64,
    }
}

/// Every point with its velocity after friction and spring forces.
pub open spec fn forced(s: Seq<PointView>, friction: int, strength: int, max_dist2: int) -> Seq<
    PointView,
> {
    Seq::new(
        s.len(),
        |i: int| PointView { velocity: new_velocity(s, i, friction, strength, max_dist2), ..s[i] },
    )
}

/// The position of `p` moved by its velocity and held to `b`.
pub open spec fn moved(p: PointView, b: Bounds) -> Vec2 {
    Vec2 {
        x: clamp_spec(p.position.x + p.velocity.x, b.left as int, b.right as int) as i64,
        y: clamp_spec(p.position.y + p.velocity.y, b.bottom as int, b.top as int) as i64,
    }
}

/// Every point moved by its velocity.
pub open spec fn integrated(s: Seq<PointView>, b: Bounds) -> Seq<PointView> {
    Seq::new(s.len(), |i: int| PointView { position: moved(s[i], b), ..s[i] })
}

/// The lifetime of `p` after one tick: one less where `p` is active.
pub open spec fn aged_lifetime(p: PointView) -> i32 {
    if p.active && p.lifetime > i32::MIN {
        (p.lifetime - 1) as i32
    } else {
        p.lifetime
    }
}

/// Every point one tick older.
pub open spec fn aged(s: Seq<PointView>) -> Seq<PointView> {
    Seq::new(s.len(), |i: int| PointView { lifetime: aged_lifetime(s[i]), ..s[i] })
}

/// Every point with degree bound `m`.
pub open spec fn with_max_degree(s: Seq<PointView>, m: usize) -> Seq<PointView> {
    Seq::new(s.len(), |i: int| PointView { max_degree: m, ..s[i] })
}

/// `a / b` rounded toward zero.
pub fn div_toward_zero(a: i128, b: i128) -> (r: i128)
    requires
        b > 0,
        a > i128::MIN,
    ensures
        r == toward_zero(a as int, b as int),
{
    if a >= 0 {
        a / b
    } else {
        let m = -a;
        let q = m / b;
        -q
    }
}

/// `a / b` rounded away from zero.
pub fn div_away_from_zero(a: i128, b: i128) -> (r: i128)
    requires
        0 < b <= 0x1_0000_0000_0000_0000_0000_0000,
        -0x1_0000_0000_0000_0000_0000_0000_0000 <= a <= 0x1_0000_0000_0000_0000_0000_0000_0000,
    ensures
        r == away_from_zero(a as int, b as int),
{
    if a >= 0 {
        (a + b - 1) / b
    } else {
        let m = -a;
        let q = (m + b - 1) / b;
        -q
    }
}

proof fn lemma_away_from_zero_bound(a: int, b: int, m: int)
    requires
        b > 0,
        m >= 0,
        -(m * b) <= a <= m * b,
    ensures
        -m <= away_from_zero(a, b) <= m,
        a > 0 ==> away_from_zero(a, b) > 0,
        a < 0 ==> away_from_zero(a, b) < 0,
        a == 0 ==> away_from_zero(a, b) == 0,
{
    if a >= 0 {
        assert((a + b - 1) / b <= m) by (nonlinear_arith)
            requires
                a <= m * b,
                b > 0,
                a >= 0,
        ;
        assert((a + b - 1) / b >= 0) by (nonlinear_arith)
            requires
                b > 0,
                a >= 0,
        ;
        assert(a > 0 ==> (a + b - 1) / b >= 1) by (nonlinear_arith)
            requires
                b > 0,
        ;
        assert(a == 0 ==> (a + b - 1) / b == 0) by (nonlinear_arith)
            requires
                b > 0,
        ;
    } else {
        assert((-a + b - 1) / b <= m) by (nonlinear_arith)
            requires
                -a <= m * b,
                b > 0,
                -a >= 0,
        ;
        assert((-a + b - 1) / b >= 1) by (nonlinear_arith)
            requires
                b > 0,
                -a > 0,
        ;
    }
}

proof fn lemma_toward_zero_bound(a: int, b: int, m: int)
    requires
        b > 0,
        m >= 0,
        -(m * b) <= a <= m * b,
    ensures
        -m <= toward_zero(a, b) <= m,
{
    if a >= 0 {
        assert(a / b <= m) by (nonlinear_arith)
            requires
                a <= m * b,
                b > 0,
                a >= 0,
        ;
        assert(a / b >= 0) by (nonlinear_arith)
            requires
                b > 0,
                a >= 0,
        ;
    } else {
        assert((-a) / b <= m) by (nonlinear_arith)
            requires
                -a <= m * b,
                b > 0,
                -a >= 0,
        ;
        assert((-a) / b >= 0) by (nonlinear_arith)
            requires
                b > 0,
                -a >= 0,
        ;
    }
}

/// A pull is no larger than the extent it acts along.
proof fn lemma_pull_bound(delta: int, d2: int, max_dist2: int, strength: int)
    requires
        0 <= d2 < max_dist2,
        0 <= strength <= PER_MILLE,
        delta >= 0 || delta < 0,
    ensures
        -abs(delta) <= pull(delta, d2, max_dist2, strength) <= abs(delta),
{
    let f = 2 * d2 - max_dist2;
    assert(-max_dist2 <= f <= max_dist2);
    let a = delta * strength * f;
    let m = abs(delta);
    let b = PER_MILLE * max_dist2;
    assert(-(m * b) <= a <= m * b) by (nonlinear_arith)
        requires
            a == delta * strength * f,
            m == abs(delta),
            b == 1000 * max_dist2,
            -max_dist2 <= f <= max_dist2,
            0 <= strength <= 1000,
            max_dist2 > 0,
    ;
    lemma_away_from_zero_bound(a, b, m);
}

/// A link nearer than half its reach pushes the point away from its
/// neighbour, one farther than that pulls it closer, and one at exactly half
/// exerts no force; no non-zero force rounds away.
pub proof fn lemma_pull_sign(delta: int, d2: int, max_dist2: int, strength: int)
    requires
        0 <= d2 < max_dist2,
        0 < strength <= PER_MILLE,
    ensures
        2 * d2 < max_dist2 && delta > 0 ==> pull(delta, d2, max_dist2, strength) < 0,
        2 * d2 < max_dist2 && delta < 0 ==> pull(delta, d2, max_dist2, strength) > 0,
        2 * d2 > max_dist2 && delta > 0 ==> pull(delta, d2, max_dist2, strength) > 0,
        2 * d2 > max_dist2 && delta < 0 ==> pull(delta, d2, max_dist2, strength) < 0,
        2 * d2 == max_dist2 || delta == 0 ==> pull(delta, d2, max_dist2, strength) == 0,
{
    let f = 2 * d2 - max_dist2;
    let a = delta * strength * f;
    let b = PER_MILLE * max_dist2;
    lemma_pull_bound(delta, d2, max_dist2, strength);
    let m = abs(delta);
    assert(-(m * b) <= a <= m * b) by (nonlinear_arith)
        requires
            a == delta * strength * f,
            m == abs(delta),
            b == 1000 * max_dist2,
            -max_dist2 <= f <= max_dist2,
            0 <= strength <= 1000,
            max_dist2 > 0,
    ;
    assert(delta > 0 && f < 0 ==> a < 0) by (nonlinear_arith)
        requires a == delta * strength * f, strength > 0;
    assert(delta < 0 && f < 0 ==> a > 0) by (nonlinear_arith)
        requires a == delta * strength * f, strength > 0;
    assert(delta > 0 && f > 0 ==> a > 0) by (nonlinear_arith)
        requires a == delta * strength * f, strength > 0;
    assert(delta < 0 && f > 0 ==> a < 0) by (nonlinear_arith)
        requires a == delta * strength * f, strength > 0;
    assert(delta == 0 || f == 0 ==> a == 0) by (nonlinear_arith)
        requires a == delta * strength * f;
    lemma_away_from_zero_bound(a, b, m);
}

pub open spec fn abs(x: int) -> int {
    if x < 0 {
        -x
    } else {
        x
    }
}

/// The change of velocity along one axis that an edge gives.
fn pull_exec(delta: i128, d2: i128, max_dist2: i128, strength: i128) -> (r: i128)
    requires
        -0x1_0000_0000 <= delta <= 0x1_0000_0000,
        0 <= d2 < max_dist2,
        max_dist2 <= 0x1_0000_0000_0000_0000,
        0 <= strength <= PER_MILLE,
    ensures
        r == pull(delta as int, d2 as int, max_dist2 as int, strength as int),
        -abs(delta as int) <= r <= abs(delta as int),
{
    let f = 2 * d2 - max_dist2;
    assert(-0x1_0000_0000 * 1000 <= delta * strength <= 0x1_0000_0000 * 1000) by (nonlinear_arith)
        requires
            -0x1_0000_0000 <= delta <= 0x1_0000_0000,
            0 <= strength <= 1000,
    ;
    let ds = delta * strength;
    assert(-0x1_0000_0000 * 1000 * 0x1_0000_0000_0000_0000 <= ds * f <= 0x1_0000_0000 * 1000
        * 0x1_0000_0000_0000_0000) by (nonlinear_arith)
        requires
            -0x1_0000_0000 * 1000 <= ds <= 0x1_0000_0000 * 1000,
            -0x1_0000_0000_0000_0000 <= f <= 0x1_0000_0000_0000_0000,
    ;
    let a = ds * f;
    proof {
        lemma_pull_bound(delta as int, d2 as int, max_dist2 as int, strength as int);
        assert(delta * strength * f == ds * f);
    }
    div_away_from_zero(a, PER_MILLE * max_dist2)
}

/// Changing only positions, velocities, lifetimes, activity or degree bounds,
/// within the world's ranges, keeps a graph well formed.
pub proof fn lemma_same_edges_wf(s: Seq<PointView>, t: Seq<PointView>)
    requires
        graph_wf(s),
        t.len() == s.len(),
        forall|i: int|
            0 <= i < s.len() ==> {
                let p = #[trigger] t[i];
                &&& p.id == s[i].id
                &&& p.edges == s[i].edges
                &&& within(p.position, COORD_LIMIT as int)
                &&& within(p.velocity, VELOCITY_LIMIT as int)
            },
    ensures
        graph_wf(t),
        (forall|i: int| 0 <= i < s.len() ==> #[trigger] t[i].max_degree == s[i].max_degree)
            ==> (degree_bounded(s) ==> degree_bounded(t)),
{
    assert forall|a: int, b: int| 0 <= a < t.len() && 0 <= b < t.len() && #[trigger] linked(t, a, b) implies linked(
        t,
        b,
        a,
    ) by {
        assert(linked(s, a, b));
    }
    assert forall|i: int, e: u64| 0 <= i < t.len() && #[trigger] t[i].edges.contains(e) implies has_id(t, e) by {
        assert(s[i].edges.contains(e));
        let j = choose|j: int| 0 <= j < s.len() && #[trigger] s[j].id == e;
        assert(t[j].id == e);
    }
    assert forall|i: int, j: int| 0 <= i < t.len() && 0 <= j < t.len() && i != j implies #[trigger] t[i].id
        != #[trigger] t[j].id by {
        assert(s[i].id != s[j].id);
    }
    assert forall|i: int| 0 <= i < t.len() implies !(#[trigger] t[i].edges).contains(t[i].id) by {
        assert(!s[i].edges.contains(s[i].id));
    }
    assert forall|i: int| 0 <= i < t.len() implies (#[trigger] t[i].edges).no_duplicates() by {
        assert(s[i].edges.no_duplicates());
    }
    if forall|i: int| 0 <= i < s.len() ==> #[trigger] t[i].max_degree == s[i].max_degree {
        if degree_bounded(s) {
            assert forall|i: int| 0 <= i < t.len() implies (#[trigger] t[i].edges).len() <= t[i].max_degree by {
                assert(s[i].edges.len() <= s[i].max_degree);
            }
        }
    }
}

impl PointGraph {
    /// The velocity of the point at index `i` after friction and the pull of
    /// its edges.
    fn velocity_after_forces(&self, i: usize, friction: i128, strength: i128, max_dist2: i128) -> (r: Vec2)
        requires
            self.wf(),
            i < self@.len(),
            edges_within(self@, max_dist2 as int),
            0 < max_dist2 <= 0x1_0000_0000_0000_0000,
            0 <= friction <= PER_MILLE,
            0 <= strength <= PER_MILLE,
        ensures
            r == new_velocity(self@, i as int, friction as int, strength as int, max_dist2 as int),
    {
        let ghost s = self@;
        proof {
            self.lemma_view_at();
            assert(within(s[i as int].position, COORD_LIMIT as int));
            assert(within(s[i as int].velocity, VELOCITY_LIMIT as int));
        }
        let p = &self.points[i];
        let vx = p.velocity.x as i128;
        let vy = p.velocity.y as i128;
        assert(-0x8000_0000 * 1000 <= vx * friction <= 0x8000_0000 * 1000) by (nonlinear_arith)
            requires -0x8000_0000 <= vx <= 0x8000_0000, 0 <= friction <= 1000;
        assert(-0x8000_0000 * 1000 <= vy * friction <= 0x8000_0000 * 1000) by (nonlinear_arith)
            requires -0x8000_0000 <= vy <= 0x8000_0000, 0 <= friction <= 1000;
        let mut ax = div_toward_zero(vx * friction, PER_MILLE);
        let mut ay = div_toward_zero(vy * friction, PER_MILLE);
        proof {
            lemma_toward_zero_bound(vx * friction, 1000, 0x8000_0000);
            lemma_toward_zero_bound(vy * friction, 1000, 0x8000_0000);
        }
        let len = p.edges.len();
        let mut k: usize = 0;
        while k < len
            invariant
                self.wf(),
                s == self@,
                i < s.len(),
                self.points@.len() == s.len(),
                p == self.points@[i as int],
                s[i as int] == p@,
                len == s[i as int].edges.len(),
                k <= len,
                edges_within(s, max_dist2 as int),
                0 < max_dist2 <= 0x1_0000_0000_0000_0000,
                0 <= strength <= PER_MILLE,
                within(s[i as int].position, COORD_LIMIT as int),
                ax == damped(vx as int, friction as int) + pull_sum(s, i as int, k as int, max_dist2 as int, strength as int, true),
                ay == damped(vy as int, friction as int) + pull_sum(s, i as int, k as int, max_dist2 as int, strength as int, false),
                -0x8000_0000 - k * 0x1_0000_0000 <= ax <= 0x8000_0000 + k * 0x1_0000_0000,
                -0x8000_0000 - k * 0x1_0000_0000 <= ay <= 0x8000_0000 + k * 0x1_0000_0000,
            decreases len - k,
        {
            proof {
                self.lemma_view_at();
            }
            let e = p.edges[k];
            proof {
                assert(s[i as int].edges[k as int] == e);
                assert(s[i as int].edges.contains(e));
                lemma_index_of(s, e);
            }
            match self.find(e) {
                Some(j) => {
                    let q = self.points[j].position;
                    proof {
                        assert(within(s[j as int].position, COORD_LIMIT as int));
                        assert(linked(s, i as int, j as int));
                        assert(dist2_spec(s[i as int].position, s[j as int].position) >= 0) by (nonlinear_arith);
                    }
                    let d2 = p.position.distance2(&q);
                    let dx = q.x as i128 - p.position.x as i128;
                    let dy = q.y as i128 - p.position.y as i128;
                    let px = pull_exec(dx, d2, max_dist2, strength);
                    let py = pull_exec(dy, d2, max_dist2, strength);
                    ax = ax + px;
                    ay = ay + py;
                },
                None => {},
            }
            k += 1;
        }
        let nx = clamp(ax, -(VELOCITY_LIMIT as i128), VELOCITY_LIMIT as i128) as i64;
        let ny = clamp(ay, -(VELOCITY_LIMIT as i128), VELOCITY_LIMIT as i128) as i64;
        Vec2 { x: nx, y: ny }
    }

    /// Applies friction and the spring force of every edge to every point's
    /// velocity; forces are computed from the positions before the call.
    pub fn apply_forces(&mut self, friction: i128, strength: i128, max_dist2: i128)
        requires
            old(self).wf(),
            edges_within(old(self)@, max_dist2 as int),
            0 < max_dist2 <= 0x1_0000_0000_0000_0000,
            0 <= friction <= PER_MILLE,
            0 <= strength <= PER_MILLE,
        ensures
            final(self).wf(),
            final(self)@ == forced(old(self)@, friction as int, strength as int, max_dist2 as int),
            degree_bounded(old(self)@) ==> degree_bounded(final(self)@),
            final(self).next_id_spec() == old(self).next_id_spec(),
    {
        let ghost s = self@;
        let n = self.points.len();
        let mut vels: Vec<Vec2> = Vec::new();
        let mut i: usize = 0;
        proof {
            self.lemma_view_at();
        }
        while i < n
            invariant
                self.wf(),
                s == self@,
                n == s.len(),
                i <= n,
                vels@.len() == i,
                edges_within(s, max_dist2 as int),
                0 < max_dist2 <= 0x1_0000_0000_0000_0000,
                0 <= friction <= PER_MILLE,
                0 <= strength <= PER_MILLE,
                forall|k: int| 0 <= k < i ==> #[trigger] vels@[k] == new_velocity(s, k, friction as int, strength as int, max_dist2 as int),
            decreases n - i,
        {
            let v = self.velocity_after_forces(i, friction, strength, max_dist2);
            vels.push(v);
            i += 1;
        }
        let mut i: usize = 0;
        while i < n
            invariant
                n == s.len(),
                n == self.points@.len(),
                i <= n,
                vels@.len() == n,
                self.next_id_spec() == old(self).next_id_spec(),
                forall|k: int| 0 <= k < n ==> #[trigger] vels@[k] == new_velocity(s, k, friction as int, strength as int, max_dist2 as int),
                forall|k: int| 0 <= k < i ==> (#[trigger] self.points@[k])@ == forced(s, friction as int, strength as int, max_dist2 as int)[k],
                forall|k: int| i <= k < n ==> (#[trigger] self.points@[k])@ == s[k],
            decreases n - i,
        {
            proof {
                self.lemma_view_at();
            }
            self.points[i].velocity = vels[i];
            proof {
                self.lemma_view_at();
            }
            i += 1;
        }
        proof {
            self.lemma_view_at();
            let t = forced(s, friction as int, strength as int, max_dist2 as int);
            assert(self@ =~= t);
            assert forall|k: int| 0 <= k < s.len() implies within((#[trigger] t[k]).velocity, VELOCITY_LIMIT as int) by {}
            lemma_same_edges_wf(s, t);
            assert forall|k: int| 0 <= k < self@.len() implies (#[trigger] self@[k]).id < self.next_id_spec() by {
                assert(self@[k].id == s[k].id);
            }
        }
    }
}

impl PointGraph {
    /// Moves every point by its velocity, each axis held to `b`.
    pub fn integrate(&mut self, b: Bounds)
        requires
            old(self).wf(),
            b.valid(),
        ensures
            final(self).wf(),
            final(self)@ == integrated(old(self)@, b),
            degree_bounded(old(self)@) ==> degree_bounded(final(self)@),
            final(self).next_id_spec() == old(self).next_id_spec(),
    {
        let ghost s = self@;
        let n = self.points.len();
        let mut i: usize = 0;
        proof {
            self.lemma_view_at();
        }
        while i < n
            invariant
                graph_wf(s),
                b.valid(),
                n == s.len(),
                n == self.points@.len(),
                i <= n,
                self.next_id_spec() == old(self).next_id_spec(),
                forall|k: int| 0 <= k < i ==> (#[trigger] self.points@[k])@ == integrated(s, b)[k],
                forall|k: int| i <= k < n ==> (#[trigger] self.points@[k])@ == s[k],
            decreases n - i,
        {
            proof {
                self.lemma_view_at();
                assert(self.points@[i as int]@ == s[i as int]);
                assert(within(s[i as int].position, COORD_LIMIT as int));
                assert(within(s[i as int].velocity, VELOCITY_LIMIT as int));
            }
            let p = self.points[i].position;
            let v = self.points[i].velocity;
            let x = clamp(p.x as i128 + v.x as i128, b.left as i128, b.right as i128) as i64;
            let y = clamp(p.y as i128 + v.y as i128, b.bottom as i128, b.top as i128) as i64;
            self.points[i].position = Vec2 { x, y };
            proof {
                self.lemma_view_at();
            }
            i += 1;
        }
        proof {
            self.lemma_view_at();
            let t = integrated(s, b);
            assert(self@ =~= t);
            assert forall|k: int| 0 <= k < s.len() implies within((#[trigger] t[k]).position, COORD_LIMIT as int)
                && within(t[k].velocity, VELOCITY_LIMIT as int) by {
                assert(within(s[k].position, COORD_LIMIT as int));
            }
            lemma_same_edges_wf(s, t);
            assert forall|k: int| 0 <= k < self@.len() implies (#[trigger] self@[k]).id < self.next_id_spec() by {
                assert(self@[k].id == s[k].id);
            }
        }
    }

    /// Counts down the lifetime of every active point by one tick.
    pub fn age(&mut self)
        requires
            old(self).wf(),
        ensures
            final(self).wf(),
            final(self)@ == aged(old(self)@),
            degree_bounded(old(self)@) ==> degree_bounded(final(self)@),
            final(self).next_id_spec() == old(self).next_id_spec(),
    {
        let ghost s = self@;
        let n = self.points.len();
        let mut i: usize = 0;
        proof {
            self.lemma_view_at();
        }
        while i < n
            invariant
                n == s.len(),
                n == self.points@.len(),
                i <= n,
                self.next_id_spec() == old(self).next_id_spec(),
                forall|k: int| 0 <= k < i ==> (#[trigger] self.points@[k])@ == aged(s)[k],
                forall|k: int| i <= k < n ==> (#[trigger] self.points@[k])@ == s[k],
            decreases n - i,
        {
            proof {
                self.lemma_view_at();
                assert(self.points@[i as int]@ == s[i as int]);
            }
            if self.points[i].active && self.points[i].lifetime > i32::MIN {
                self.points[i].lifetime = self.points[i].lifetime - 1;
            }
            proof {
                self.lemma_view_at();
            }
            i += 1;
        }
        proof {
            self.lemma_view_at();
            let t = aged(s);
            assert(self@ =~= t);
            assert forall|k: int| 0 <= k < s.len() implies within((#[trigger] t[k]).position, COORD_LIMIT as int)
                && within(t[k].velocity, VELOCITY_LIMIT as int) by {
                assert(within(s[k].position, COORD_LIMIT as int));
            }
            lemma_same_edges_wf(s, t);
            assert forall|k: int| 0 <= k < self@.len() implies (#[trigger] self@[k]).id < self.next_id_spec() by {
                assert(self@[k].id == s[k].id);
            }
        }
    }

    /// Gives every point the degree bound `m`.
    pub fn set_max_degree(&mut self, m: usize)
        requires
            old(self).wf(),
        ensures
            final(self).wf(),
            final(self)@ == with_max_degree(old(self)@, m),
            final(self).next_id_spec() == old(self).next_id_spec(),
    {
        let ghost s = self@;
        let n = self.points.len();
        let mut i: usize = 0;
        proof {
            self.lemma_view_at();
        }
        while i < n
            invariant
                n == s.len(),
                n == self.points@.len(),
                i <= n,
                self.next_id_spec() == old(self).next_id_spec(),
                forall|k: int| 0 <= k < i ==> (#[trigger] self.points@[k])@ == with_max_degree(s, m)[k],
                forall|k: int| i <= k < n ==> (#[trigger] self.points@[k])@ == s[k],
            decreases n - i,
        {
            proof {
                self.lemma_view_at();
            }
            self.points[i].max_degree = m;
            proof {
                self.lemma_view_at();
            }
            i += 1;
        }
        proof {
            self.lemma_view_at();
            let t = with_max_degree(s, m);
            assert(self@ =~= t);
            assert forall|k: int| 0 <= k < s.len() implies within((#[trigger] t[k]).position, COORD_LIMIT as int)
                && within(t[k].velocity, VELOCITY_LIMIT as int) by {
                assert(within(s[k].position, COORD_LIMIT as int));
            }
            lemma_same_edges_wf(s, t);
            assert forall|k: int| 0 <= k < self@.len() implies (#[trigger] self@[k]).id < self.next_id_spec() by {
                assert(self@[k].id == s[k].id);
            }
        }
    }
}

} // verus!
