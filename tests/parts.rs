use prometheus::{IntCounter, IntGauge, Registry};

use raidsrewritten_server::affects::add_affect;
use raidsrewritten_server::components::Position;
use raidsrewritten_server::geometry::{squared_distance, within_radius};
use raidsrewritten_server::metrics::{init_metrics, MetricHandle, MetricsError};
use raidsrewritten_server::notify::Outbound;

#[test]
fn squared_distance_uses_the_horizontal_plane() {
    let a = Position { x: 3000, y: 99_999, z: 4000 };
    let b = Position { x: 0, y: -5, z: 0 };
    assert_eq!(squared_distance(&a, &b), 25_000_000);
    assert_eq!(squared_distance(&b, &a), 25_000_000);
    let far = Position { x: i32::MIN, y: 0, z: i32::MIN };
    let other = Position { x: i32::MAX, y: 0, z: i32::MAX };
    let d: i128 = (i32::MAX as i128 - i32::MIN as i128).pow(2);
    assert_eq!(squared_distance(&far, &other), 2 * d);
}

#[test]
fn within_radius_includes_the_boundary() {
    let a = Position { x: 0, y: 0, z: 0 };
    let on = Position { x: 6000, y: 0, z: 0 };
    let off = Position { x: 6000, y: 0, z: 1 };
    assert!(within_radius(&a, &on, 36_000_000));
    assert!(!within_radius(&a, &off, 36_000_000));
}

#[test]
fn add_affect_counts_per_entity() {
    let mut affects: Vec<(u64, u64)> = Vec::new();
    add_affect(&mut affects, 5, 1);
    add_affect(&mut affects, 9, 1);
    add_affect(&mut affects, 5, 2);
    assert_eq!(affects, vec![(5, 3), (9, 1)]);
}

#[test]
fn duplicate_copies_a_message() {
    let m = Outbound::PlayActorVfxOnTarget { vfx_path: "path".to_string(), content_id_targets: vec![3, 1] };
    match m.duplicate() {
        Outbound::PlayActorVfxOnTarget { vfx_path, content_id_targets } => {
            assert_eq!(vfx_path, "path");
            assert_eq!(content_id_targets, vec![3, 1]);
        }
        _ => panic!("wrong variant"),
    }
}

#[test]
fn metrics_register_until_the_first_refusal() {
    let registry = Registry::new();
    let gauge = IntGauge::new("connected_players", "Connected Players").unwrap();
    let total = IntCounter::new("connected_players_total", "Total Connected Players").unwrap();
    let again = IntGauge::new("connected_players", "Connected Players").unwrap();
    let handles = vec![
        MetricHandle { collector: Box::new(gauge) },
        MetricHandle { collector: Box::new(total) },
        MetricHandle { collector: Box::new(again) },
    ];
    assert_eq!(init_metrics(&registry, handles), Err(MetricsError { index: 2 }));
    assert_eq!(registry.gather().len(), 2);
    assert_eq!(init_metrics(&registry, Vec::new()), Ok(()));
}
