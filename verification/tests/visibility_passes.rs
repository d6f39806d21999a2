use orbital_core::metrics::MetricsState;
use orbital_core::validate::{batch_counts, timestamp_is_stale, tle_lines_sized};
use orbital_core::visibility::{find_passes, GroundStation, LookSample};

const DEG: i64 = 1_000_000;

fn sample(t: i64, elevation_deg: i64, azimuth_deg: i64) -> LookSample {
    LookSample {
        timestamp: t,
        elevation_udeg: elevation_deg * DEG,
        azimuth_udeg: azimuth_deg * DEG,
    }
}

#[test]
fn test_single_pass() {
    let samples = vec![
        sample(0, -10, 100),
        sample(30, 7, 110),
        sample(60, 20, 150),
        sample(90, 12, 200),
        sample(120, -3, 250),
        sample(150, -8, 260),
    ];
    let passes = find_passes(&samples, 5 * DEG, 150);
    assert_eq!(passes.len(), 1);
    let p = &passes[0];
    assert_eq!(p.aos_timestamp, 30);
    assert_eq!(p.tca_timestamp, 60);
    assert_eq!(p.los_timestamp, 120);
    assert_eq!(p.max_elevation_udeg, 20 * DEG);
    assert_eq!(p.aos_azimuth_udeg, 110 * DEG);
    assert_eq!(p.los_azimuth_udeg, 250 * DEG);
    assert_eq!(p.duration_seconds, 90);
}

#[test]
fn test_no_pass_below_threshold() {
    let samples = vec![sample(0, 1, 10), sample(30, 4, 20), sample(60, 2, 30)];
    let passes = find_passes(&samples, 5 * DEG, 60);
    assert!(passes.is_empty());
}

#[test]
fn test_pass_open_at_window_end() {
    let samples = vec![sample(0, -1, 10), sample(30, 8, 20), sample(60, 9, 30)];
    let passes = find_passes(&samples, 5 * DEG, 75);
    assert_eq!(passes.len(), 1);
    let p = &passes[0];
    assert_eq!(p.aos_timestamp, 30);
    assert_eq!(p.los_timestamp, 75);
    assert_eq!(p.tca_timestamp, 60);
    assert_eq!(p.los_azimuth_udeg, 0);
    assert_eq!(p.duration_seconds, 45);
}

#[test]
fn test_two_passes_ordered_and_disjoint() {
    let samples = vec![
        sample(0, 6, 10),
        sample(30, -1, 20),
        sample(60, 7, 30),
        sample(90, 8, 40),
        sample(120, -2, 50),
    ];
    let passes = find_passes(&samples, 5 * DEG, 120);
    assert_eq!(passes.len(), 2);
    assert_eq!(passes[0].aos_timestamp, 0);
    assert_eq!(passes[0].los_timestamp, 30);
    assert_eq!(passes[1].aos_timestamp, 60);
    assert_eq!(passes[1].los_timestamp, 120);
    assert!(passes[0].los_timestamp < passes[1].aos_timestamp);
}

#[test]
fn test_tca_stays_at_first_maximum() {
    let samples = vec![
        sample(0, 10, 10),
        sample(30, 10, 20),
        sample(60, 3, 30),
    ];
    let passes = find_passes(&samples, 5 * DEG, 60);
    assert_eq!(passes.len(), 1);
    // an equal elevation later does not move the time of closest approach
    assert_eq!(passes[0].tca_timestamp, 0);
    assert_eq!(passes[0].aos_timestamp, 0);
}

#[test]
fn test_threshold_is_inclusive() {
    let samples = vec![sample(0, 5, 10), sample(30, 4, 20)];
    let passes = find_passes(&samples, 5 * DEG, 30);
    assert_eq!(passes.len(), 1);
    assert_eq!(passes[0].aos_timestamp, 0);
    assert_eq!(passes[0].los_timestamp, 30);
}

#[test]
fn test_empty_samples() {
    let samples: Vec<LookSample> = Vec::new();
    let passes = find_passes(&samples, 5 * DEG, 100);
    assert!(passes.is_empty());
}

#[test]
fn test_ground_station_validation() {
    let mut gs = GroundStation {
        id: "GS1".to_string(),
        name: "Test Station".to_string(),
        latitude_udeg: 40_712_800,
        longitude_udeg: -74_006_000,
        altitude_mm: 10_000,
        min_elevation_udeg: 5 * DEG,
    };
    assert!(gs.location_valid());
    gs.latitude_udeg = 91 * DEG;
    assert!(!gs.location_valid());
    gs.latitude_udeg = 40_712_800;
    gs.longitude_udeg = -180 * DEG;
    assert!(!gs.location_valid());
    gs.longitude_udeg = 180 * DEG;
    assert!(gs.location_valid());
}

#[test]
fn test_batch_counts() {
    let counts = batch_counts(&vec![true, false, true]);
    assert_eq!(counts.total_count, 3);
    assert_eq!(counts.success_count, 2);
    assert_eq!(counts.error_count, 1);
    let empty = batch_counts(&Vec::new());
    assert_eq!(empty.total_count, 0);
    assert_eq!(empty.success_count, 0);
    assert_eq!(empty.error_count, 0);
}

#[test]
fn test_timestamp_staleness() {
    let now = 1_704_067_200i64;
    assert!(timestamp_is_stale(now - 31_536_001, now));
    assert!(!timestamp_is_stale(now - 31_536_000, now));
    assert!(!timestamp_is_stale(now, now));
    assert!(!timestamp_is_stale(now + 1000, now));
}

#[test]
fn test_tle_lines_sized() {
    let l69 = "1".repeat(69);
    assert!(tle_lines_sized(&l69, &l69));
    assert!(!tle_lines_sized(&l69[..68], &l69));
}

#[test]
fn test_metrics_counters() {
    let mut m = MetricsState::new();
    assert_eq!(m.propagation_success, 0);
    m.record_propagation(1500, true);
    m.record_propagation(500, false);
    assert_eq!(m.propagation_success, 1);
    assert_eq!(m.propagation_error, 1);
    assert_eq!(m.propagation_micros, 2000);
    m.record_visibility(100, true);
    assert_eq!(m.visibility_success, 1);
    assert_eq!(m.visibility_error, 0);
    m.record_trajectory(250, 61, true);
    assert_eq!(m.trajectory_success, 1);
    assert_eq!(m.trajectory_points, 61);
    m.record_trajectory(50, 0, false);
    assert_eq!(m.trajectory_error, 1);
    assert_eq!(m.trajectory_points, 61);
    assert_eq!(m.trajectory_micros, 300);
}

#[test]
fn test_metrics_default_is_zeroed() {
    let m = MetricsState::default();
    assert_eq!(m.propagation_success, 0);
    assert_eq!(m.trajectory_points, 0);
}
