use standby::detector::ThresholdConfig;
use standby::monitor::Monitor;
use standby::state::{AppState, SharedLevelState};

const FLOOR: i32 = -60_000;

fn monitor(threshold_db: i32) -> Monitor {
    Monitor::new(ThresholdConfig::new(threshold_db).unwrap(), FLOOR, 3, 10)
}

#[test]
fn scenario_threshold_crossing_sequence() {
    // threshold -20 dB, floor -60 dB, alpha 0.3; peak amplitudes
    // [0.01, 0.01, 0.2, 0.2, 0.01] in micro-units give raw levels close to
    // [-40, -40, -13.98, -13.98, -40] dB and exactly one crossing report,
    // on the first buffer at or above the threshold.
    let mut m = monitor(-20);
    let mut shared = SharedLevelState::new(FLOOR);
    let peaks: [u32; 5] = [10_000, 10_000, 200_000, 200_000, 10_000];
    let expected_raw: [i32; 5] = [-40_000, -40_000, -13_980, -13_980, -40_000];
    let expected_crossed: [bool; 5] = [false, false, true, false, false];
    for k in 0..5 {
        let buffer: Vec<u32> = vec![peaks[k] / 2, peaks[k], 0];
        let crossed = m.process_buffer(&buffer, &mut shared);
        assert_eq!(crossed, expected_crossed[k]);
        assert_eq!(shared.current_mdb, expected_raw[k]);
    }
    assert!(shared.threshold_crossed);
}

#[test]
fn scenario_snapshot_keeps_the_crossed_flag() {
    // Once the callback has written a crossing, every later snapshot
    // reports it, however many quiet buffers follow.
    let mut m = monitor(-20);
    let mut shared = SharedLevelState::new(FLOOR);
    m.process_buffer(&vec![200_000], &mut shared);
    assert_eq!(shared.current_mdb, -13_980);
    assert!(shared.threshold_crossed);

    let mut app = AppState::new("mic".to_string(), -20, FLOOR, "watching".to_string());
    app.update_from_shared(&shared);
    assert!(app.threshold_reached);
    assert_eq!(app.current_mdb, -13_980);

    for _ in 0..10 {
        m.process_buffer(&vec![10], &mut shared);
        app.update_from_shared(&shared);
        assert!(shared.threshold_crossed);
        assert!(app.threshold_reached);
    }
    assert_eq!(app.display_mdb, shared.display_mdb);
    assert_eq!(app.device_name, "mic".to_string());
    assert_eq!(app.status, "watching".to_string());
}

#[test]
fn smoothed_display_level_trails_the_raw_level() {
    let mut m = monitor(-20);
    let mut shared = SharedLevelState::new(FLOOR);
    m.process_buffer(&vec![100_000], &mut shared);
    // raw -20 dB from a -60 dB start, alpha 0.3: display -48 dB.
    assert_eq!(shared.current_mdb, -20_000);
    assert_eq!(shared.smoothed_mdb, -48_000);
    assert_eq!(shared.display_mdb, -48_000);
}
