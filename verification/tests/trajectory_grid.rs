use orbital_core::error::PropagationError;
use orbital_core::trajectory::trajectory_times;

#[test]
fn test_grid_one_hour_minute_step() {
    let start = 1_704_067_200i64;
    let times = trajectory_times(start, start + 3600, 60).expect("valid window");
    assert_eq!(times.len(), 61, "Should have 61 trajectory points");
    for (i, t) in times.iter().enumerate() {
        assert_eq!(*t, start + 60 * i as i64);
    }
    for i in 1..times.len() {
        assert!(times[i] > times[i - 1], "Timestamps should be increasing");
        assert_eq!(times[i] - times[i - 1], 60, "Step should be consistent");
    }
}

#[test]
fn test_grid_custom_step() {
    let start = 1_704_067_200i64;
    let times = trajectory_times(start, start + 600, 120).expect("valid window");
    // 0, 120, 240, 360, 480, 600 = 6 points
    assert_eq!(times.len(), 6, "Should have 6 points with 2-minute steps");
    assert_eq!(*times.last().unwrap(), start + 600);
}

#[test]
fn test_grid_end_included_only_on_exact_multiple() {
    let times = trajectory_times(0, 10, 3).unwrap();
    assert_eq!(times, vec![0, 3, 6, 9]);
    let times = trajectory_times(0, 9, 3).unwrap();
    assert_eq!(times, vec![0, 3, 6, 9]);
}

#[test]
fn test_grid_rejects_empty_window() {
    let r = trajectory_times(100, 100, 60);
    assert!(matches!(r, Err(PropagationError::InvalidTimestamp(_))));
    let r = trajectory_times(100, 50, 60);
    assert!(matches!(r, Err(PropagationError::InvalidTimestamp(_))));
}

#[test]
fn test_grid_rejects_bad_step() {
    let r = trajectory_times(0, 100, 0);
    assert!(matches!(r, Err(PropagationError::InvalidTimestamp(_))));
    let r = trajectory_times(0, 100, -5);
    assert!(matches!(r, Err(PropagationError::InvalidTimestamp(_))));
}

#[test]
fn test_grid_sample_cap() {
    // 10 000 points exactly is allowed, one more is not.
    let ok = trajectory_times(0, 9999, 1).unwrap();
    assert_eq!(ok.len(), 10_000);
    let r = trajectory_times(0, 10_000, 1);
    assert!(matches!(r, Err(PropagationError::InvalidTimestamp(_))));
}

#[test]
fn test_grid_negative_timestamps() {
    let times = trajectory_times(-120, 120, 60).unwrap();
    assert_eq!(times, vec![-120, -60, 0, 60, 120]);
}
