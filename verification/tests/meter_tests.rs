use standby::level::{peak_amplitude, LevelMeter};

const FLOOR: i32 = -60000;

#[test]
fn silence_reports_exactly_the_floor() {
    let meter = LevelMeter::new(FLOOR);
    assert_eq!(meter.measure(&Vec::new()), FLOOR);
    assert_eq!(meter.measure(&vec![0]), FLOOR);
    assert_eq!(meter.measure(&vec![0, 0, 0, 0, 0, 0, 0]), FLOOR);
}

#[test]
fn decade_peaks_give_exact_decibels() {
    let meter = LevelMeter::new(FLOOR);
    // Full scale: 0 dB.
    assert_eq!(meter.measure(&vec![1_000_000]), 0);
    // A tenth of full scale: -20 dB.
    assert_eq!(meter.measure(&vec![100_000]), -20_000);
    // A hundredth: -40 dB.
    assert_eq!(meter.measure(&vec![3, 10_000, 7]), -40_000);
}

#[test]
fn tiny_peak_is_clamped_to_the_floor() {
    // One micro-unit is -120 dB, far below the floor: the floor is reported.
    let meter = LevelMeter::new(FLOOR);
    assert_eq!(meter.measure(&vec![1]), FLOOR);
    // With the floor lowered all the way, the same peak reads -120 dB.
    let deep = LevelMeter::new(-120_000);
    assert_eq!(deep.measure(&vec![1]), -120_000);
}

#[test]
fn peak_scan_finds_the_maximum() {
    assert_eq!(peak_amplitude(&Vec::new()), 0);
    assert_eq!(peak_amplitude(&vec![5, 17, 3]), 17);
    assert_eq!(peak_amplitude(&vec![900_000, 900_001, 12]), 900_001);
}

#[test]
fn louder_buffer_never_reads_lower() {
    let meter = LevelMeter::new(FLOOR);
    let quiet = vec![100, 5_000, 9_999];
    let loud = vec![200, 700_000, 9_999];
    assert!(meter.measure(&quiet) <= meter.measure(&loud));
    // And a pointwise-equal buffer reads the same.
    assert_eq!(meter.measure(&quiet), meter.measure(&vec![100, 5_000, 9_999]));
}

#[test]
fn fifth_of_full_scale_is_near_minus_fourteen_decibels() {
    // 20 * log10(0.2) is -13.9794 dB; the sixteen-bit meter reads -13.980.
    let meter = LevelMeter::new(FLOOR);
    assert_eq!(meter.measure(&vec![200_000]), -13_980);
}
