use springgraph::audio::AudioInterface;
use springgraph::geometry::Vec2;
use springgraph::graph::PointGraph;
use springgraph::sound::{control_tick, speed2, speed_to_freq, FreqMapping};
use springgraph::tick::TickConfig;
use springgraph::dynamics::Bounds;

fn mapping() -> FreqMapping {
    FreqMapping { max_speed2: 100, min_freq: 100_000, max_freq: 1_000_000 }
}

#[test]
fn frequency_maps_linearly_and_extrapolates() {
    let m = mapping();
    assert_eq!(speed_to_freq(&m, 0), 100_000);
    assert_eq!(speed_to_freq(&m, 50), 550_000);
    assert_eq!(speed_to_freq(&m, 100), 1_000_000);
    assert_eq!(speed_to_freq(&m, 200), 1_900_000);
    assert_eq!(speed2(Vec2::new(3, -4)), 25);
}

#[test]
fn frequency_is_monotonic_in_speed() {
    let m = mapping();
    let mut prev = 0;
    for s in 0..1000u128 {
        let f = speed_to_freq(&m, s);
        assert!(f >= prev);
        prev = f;
    }
}

#[test]
fn control_tick_requests_voices() {
    let (tx, _rx) = crossbeam_channel::bounded(1);
    let mut iface = AudioInterface::new(tx, 8);
    let mut g = PointGraph::new();
    g.add_point(Vec2::new(0, 0), Some(2), 5, 20, false).unwrap();
    g.add_point(Vec2::new(10, 0), Some(5), 5, 20, false).unwrap();
    let c = TickConfig {
        max_dist2: 2500,
        friction: 1000,
        strength: 500,
        max_degree: 5,
        bounds: Bounds { left: -512, right: 512, bottom: -512, top: 512 },
        gated: false,
    };
    control_tick(&mut g, &c, &mapping(), 50_000, &mut iface);
    // speed² 25 maps to 100 + 900 * 25 / 100 = 325 Hz
    let a = iface.pending(2).unwrap();
    assert_eq!(a.freq, Some(325_000));
    assert_eq!(a.amp, Some(50_000));
    let b = iface.pending(5).unwrap();
    assert_eq!(b.freq, Some(325_000));
    assert_eq!(b.amp, None);
    assert!(iface.pending(0).is_none());
}
