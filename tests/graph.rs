use springgraph::dynamics::Bounds;
use springgraph::geometry::Vec2;
use springgraph::graph::PointGraph;
use springgraph::tick::TickConfig;

fn config(max_dist2: i128, friction: i128, strength: i128, max_degree: usize, gated: bool) -> TickConfig {
    TickConfig {
        max_dist2,
        friction,
        strength,
        max_degree,
        bounds: Bounds { left: -512, right: 512, bottom: -512, top: 512 },
        gated,
    }
}

fn edges_of(g: &PointGraph, i: usize) -> Vec<u64> {
    g.point(i).edges.clone()
}

fn assert_symmetric(g: &PointGraph) {
    for i in 0..g.len() {
        let p = g.point(i);
        for e in &p.edges {
            let j = g.find(*e).expect("edge names a point of the graph");
            assert!(g.point(j).edges.contains(&p.id));
            assert_ne!(*e, p.id);
        }
    }
}

#[test]
fn scenario_half_reach_gives_no_force() {
    let mut g = PointGraph::new();
    let a = g.add_point(Vec2::new(0, 0), None, 5, 20, true).unwrap();
    let b = g.add_point(Vec2::new(25, 25), None, 5, 20, true).unwrap();
    let c = config(2500, 1000, 100, 5, false);
    g.tick(&c);
    assert_eq!(g.len(), 2);
    assert_eq!(edges_of(&g, 0), vec![b]);
    assert_eq!(edges_of(&g, 1), vec![a]);
    assert_eq!(g.point(0).velocity, Vec2::new(0, 0));
    assert_eq!(g.point(1).velocity, Vec2::new(0, 0));
    assert_eq!(g.point(0).position, Vec2::new(0, 0));
    assert_eq!(g.point(1).position, Vec2::new(25, 25));
}

#[test]
fn close_points_repel_and_far_points_attract() {
    // distance² 100 of 2500: force = 0.5 * (200 - 2500) / 2500 = -0.46
    let mut g = PointGraph::new();
    g.add_point(Vec2::new(0, 0), None, 5, 20, false).unwrap();
    g.add_point(Vec2::new(10, 0), None, 5, 20, false).unwrap();
    g.tick(&config(2500, 1000, 500, 5, false));
    assert_eq!(g.point(0).velocity, Vec2::new(-5, 0));
    assert_eq!(g.point(1).velocity, Vec2::new(5, 0));
    assert_eq!(g.point(0).position, Vec2::new(-5, 0));
    assert_eq!(g.point(1).position, Vec2::new(15, 0));

    // distance² 2025 of 2500: force = 0.5 * (4050 - 2500) / 2500 = 0.31
    let mut h = PointGraph::new();
    h.add_point(Vec2::new(0, 0), None, 5, 20, false).unwrap();
    h.add_point(Vec2::new(45, 0), None, 5, 20, false).unwrap();
    h.tick(&config(2500, 1000, 500, 5, false));
    assert_eq!(h.point(0).velocity, Vec2::new(14, 0));
    assert_eq!(h.point(1).velocity, Vec2::new(-14, 0));
}

#[test]
fn friction_scales_velocity() {
    let mut g = PointGraph::new();
    g.add_point(Vec2::new(0, 0), None, 5, 20, false).unwrap();
    g.add_point(Vec2::new(10, 0), None, 5, 20, false).unwrap();
    g.tick(&config(2500, 1000, 500, 5, false));
    assert_eq!(g.point(0).velocity, Vec2::new(-5, 0));
    // no edge any more once they are out of reach; -3.5 rounds toward zero
    g.tick(&config(1, 700, 500, 5, false));
    assert_eq!(g.point(0).velocity, Vec2::new(-3, 0));
    assert!(edges_of(&g, 0).is_empty());
}

#[test]
fn scenario_expired_point_is_removed_with_its_edges() {
    let mut g = PointGraph::new();
    let a = g.add_point(Vec2::new(0, 0), None, 5, 1, true).unwrap();
    let b = g.add_point(Vec2::new(10, 0), None, 5, 20, false).unwrap();
    let c = g.add_point(Vec2::new(0, 10), None, 5, 20, false).unwrap();
    g.tick(&config(2500, 1000, 0, 5, true));
    assert_eq!(g.len(), 2);
    assert!(g.find(a).is_none());
    for i in 0..g.len() {
        assert!(!g.point(i).edges.contains(&a));
    }
    assert!(g.find(b).is_some());
    assert!(g.find(c).is_some());
}

#[test]
fn gated_linking_spreads_activation() {
    let mut g = PointGraph::new();
    g.add_point(Vec2::new(0, 0), None, 5, 20, true).unwrap();
    g.add_point(Vec2::new(10, 0), None, 5, 20, false).unwrap();
    g.add_point(Vec2::new(400, 400), None, 5, 20, false).unwrap();
    let linkers = g.link_idle_points(2500, true);
    assert_eq!(linkers, vec![0]);
    assert!(g.point(1).active);
    assert!(!g.point(2).active);
    assert_symmetric(&g);
}

#[test]
fn linking_picks_nearest_and_first_on_ties() {
    let mut g = PointGraph::new();
    let a = g.add_point(Vec2::new(0, 0), None, 1, 20, false).unwrap();
    let b = g.add_point(Vec2::new(20, 0), None, 1, 20, false).unwrap();
    let c = g.add_point(Vec2::new(0, 20), None, 1, 20, false).unwrap();
    let d = g.add_point(Vec2::new(5, 0), None, 1, 20, false).unwrap();
    let linkers = g.link_idle_points(2500, false);
    // a takes d (nearest); b then takes c, the only one left with room
    assert_eq!(edges_of(&g, 0), vec![d]);
    assert_eq!(edges_of(&g, 3), vec![a]);
    assert_eq!(edges_of(&g, 1), vec![c]);
    assert_eq!(edges_of(&g, 2), vec![b]);
    assert_eq!(linkers, vec![a, b]);

    let mut h = PointGraph::new();
    h.add_point(Vec2::new(0, 0), None, 1, 20, false).unwrap();
    let left = h.add_point(Vec2::new(-10, 0), None, 1, 20, false).unwrap();
    h.add_point(Vec2::new(10, 0), None, 1, 20, false).unwrap();
    h.link_idle_points(2500, false);
    assert_eq!(edges_of(&h, 0), vec![left]);
}

#[test]
fn coincident_and_distant_points_do_not_link() {
    let mut g = PointGraph::new();
    g.add_point(Vec2::new(3, 3), None, 5, 20, false).unwrap();
    g.add_point(Vec2::new(3, 3), None, 5, 20, false).unwrap();
    g.add_point(Vec2::new(53, 3), None, 5, 20, false).unwrap();
    let linkers = g.link_idle_points(2500, false);
    assert!(linkers.is_empty());
    for i in 0..3 {
        assert!(edges_of(&g, i).is_empty());
    }
}

#[test]
fn degree_bound_holds_after_tick() {
    let mut g = PointGraph::new();
    for k in 0..6 {
        g.add_point(Vec2::new(k * 5, 0), None, 20, 20, false).unwrap();
    }
    g.tick(&config(2500, 0, 0, 20, false));
    g.tick(&config(2500, 0, 0, 2, false));
    for i in 0..g.len() {
        assert!(g.point(i).edges.len() <= 2);
        assert_eq!(g.point(i).max_degree, 2);
    }
    assert_symmetric(&g);
}

#[test]
fn trimming_drops_oldest_edges_from_both_ends() {
    let mut g = PointGraph::new();
    let a = g.add_point(Vec2::new(0, 0), None, 3, 20, false).unwrap();
    let b = g.add_point(Vec2::new(5, 0), None, 3, 20, false).unwrap();
    let c = g.add_point(Vec2::new(0, 7), None, 3, 20, false).unwrap();
    g.link_idle_points(2500, false);
    g.link_idle_points(2500, false);
    assert_eq!(edges_of(&g, 0), vec![b, c]);
    g.set_max_degree(1);
    g.trim_degree();
    assert_eq!(edges_of(&g, 0), vec![c]);
    assert!(!g.point(1).edges.contains(&a));
    assert!(edges_of(&g, 0).len() <= 1 && edges_of(&g, 1).len() <= 1 && edges_of(&g, 2).len() <= 1);
    assert_symmetric(&g);
}

#[test]
fn pruning_breaks_links_beyond_reach() {
    let mut g = PointGraph::new();
    g.add_point(Vec2::new(0, 0), None, 5, 20, false).unwrap();
    g.add_point(Vec2::new(30, 0), None, 5, 20, false).unwrap();
    g.add_point(Vec2::new(0, 10), None, 5, 20, false).unwrap();
    g.link_idle_points(2500, false);
    g.prune_far_edges(400);
    for i in 0..g.len() {
        let p = g.point(i);
        for e in &p.edges {
            let q = g.point(g.find(*e).unwrap());
            assert!(p.position.distance2(&q.position) < 400);
        }
    }
    assert!(edges_of(&g, 1).is_empty());
    assert_symmetric(&g);
}

#[test]
fn removing_a_point_leaves_no_dangling_edges() {
    let mut g = PointGraph::new();
    let a = g.add_point(Vec2::new(0, 0), None, 5, 20, false).unwrap();
    g.add_point(Vec2::new(5, 0), None, 5, 20, false).unwrap();
    g.add_point(Vec2::new(0, 5), None, 5, 20, false).unwrap();
    g.link_idle_points(2500, false);
    assert!(g.remove_point(a));
    assert!(!g.remove_point(a));
    assert_eq!(g.len(), 2);
    for i in 0..g.len() {
        assert!(!g.point(i).edges.contains(&a));
    }
    assert_symmetric(&g);
}

#[test]
fn positions_are_clamped_to_bounds() {
    let mut g = PointGraph::new();
    g.add_point(Vec2::new(510, 0), None, 5, 20, false).unwrap();
    g.add_point(Vec2::new(500, 0), None, 5, 20, false).unwrap();
    g.tick(&config(2500, 1000, 1000, 5, false));
    // force -0.92: velocities of -9.2 and 9.2, rounded away from zero
    assert_eq!(g.point(1).velocity, Vec2::new(-10, 0));
    assert_eq!(g.point(0).velocity, Vec2::new(10, 0));
    assert_eq!(g.point(0).position, Vec2::new(512, 0));
    assert_eq!(g.point(1).position, Vec2::new(490, 0));
}

#[test]
fn inactive_points_do_not_age() {
    let mut g = PointGraph::new();
    g.add_point(Vec2::new(0, 0), None, 5, 3, false).unwrap();
    g.add_point(Vec2::new(100, 100), None, 5, 3, true).unwrap();
    g.age();
    assert_eq!(g.point(0).lifetime, 3);
    assert_eq!(g.point(1).lifetime, 2);
}

#[test]
fn ids_are_fresh() {
    let mut g = PointGraph::new();
    let a = g.add_point(Vec2::new(0, 0), Some(1), 5, 3, false).unwrap();
    let b = g.add_point(Vec2::new(1, 0), Some(2), 5, 3, false).unwrap();
    g.remove_point(a);
    let c = g.add_point(Vec2::new(2, 0), None, 5, 3, false).unwrap();
    assert!(a != b && b != c && a != c);
    assert_eq!(g.point(0).voice, Some(2));
}

#[test]
fn velocity_saturates_at_its_limit() {
    let lim: i64 = 1 << 31;
    let mut g = PointGraph::new();
    g.add_point(Vec2::new(-lim, 0), None, 5, 20, false).unwrap();
    g.add_point(Vec2::new(lim - 1, 0), None, 5, 20, false).unwrap();
    let c = TickConfig {
        max_dist2: 1i128 << 64,
        friction: 1000,
        strength: 1000,
        max_degree: 5,
        bounds: Bounds { left: -lim, right: lim, bottom: -lim, top: lim },
        gated: false,
    };
    g.tick(&c);
    assert_eq!(g.point(0).velocity, Vec2::new(lim, 0));
    assert_eq!(g.point(1).velocity, Vec2::new(-lim, 0));
    assert_eq!(g.point(0).position, Vec2::new(0, 0));
    assert_eq!(g.point(1).position, Vec2::new(-1, 0));
}

#[test]
fn tunables_are_held_to_their_ranges() {
    let mut c = config(2500, 500, 500, 5, false);
    c.set_friction(1500);
    assert_eq!(c.friction, 1000);
    c.set_friction(-3);
    assert_eq!(c.friction, 0);
    c.set_force_strength(250);
    assert_eq!(c.strength, 250);
    c.set_max_degree(50);
    assert_eq!(c.max_degree, 20);
    c.set_max_degree(3);
    assert_eq!(c.max_degree, 3);
}

#[test]
fn weak_forces_keep_their_sign() {
    // strength 1 per mille, distance² 1 of 2500: a pull of -0.0009998
    let mut g = PointGraph::new();
    g.add_point(Vec2::new(0, 0), None, 5, 20, false).unwrap();
    g.add_point(Vec2::new(1, 0), None, 5, 20, false).unwrap();
    g.tick(&config(2500, 1000, 1, 5, false));
    assert_eq!(g.point(0).velocity, Vec2::new(-1, 0));
    assert_eq!(g.point(1).velocity, Vec2::new(1, 0));

    // distance² 2401 of 2500: a weak attraction
    let mut h = PointGraph::new();
    h.add_point(Vec2::new(0, 0), None, 5, 20, false).unwrap();
    h.add_point(Vec2::new(49, 0), None, 5, 20, false).unwrap();
    h.tick(&config(2500, 1000, 1, 5, false));
    assert_eq!(h.point(0).velocity, Vec2::new(1, 0));
    assert_eq!(h.point(1).velocity, Vec2::new(-1, 0));
}
