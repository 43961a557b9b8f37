use standby::detector::{ThresholdConfig, ThresholdDetector};

fn config(threshold_db: i32) -> ThresholdConfig {
    ThresholdConfig::new(threshold_db).unwrap()
}

#[test]
fn config_carries_both_forms_of_the_threshold() {
    let c = config(-20);
    assert_eq!(c.threshold_db, -20);
    assert_eq!(c.threshold_mdb, -20_000);
    assert_eq!(c.linear_threshold_micro, 100_000);
}

#[test]
fn config_rejects_thresholds_out_of_range() {
    assert!(ThresholdConfig::new(1).is_none());
    assert!(ThresholdConfig::new(-121).is_none());
    assert!(ThresholdConfig::new(-120).is_some());
    assert!(ThresholdConfig::new(0).is_some());
}

#[test]
fn sustained_excursion_reports_exactly_once() {
    let c = config(-20);
    let mut d = ThresholdDetector::new();
    assert!(!d.evaluate(-40_000, &c));
    let mut reports: u32 = 0;
    for _ in 0..50 {
        if d.evaluate(-10_000, &c) {
            reports += 1;
        }
    }
    assert_eq!(reports, 1);
}

#[test]
fn detector_re_arms_after_a_fall() {
    let c = config(-20);
    let mut d = ThresholdDetector::new();
    assert!(d.evaluate(-5_000, &c));
    assert!(!d.evaluate(-5_000, &c));
    assert!(!d.evaluate(-30_000, &c));
    assert!(!d.evaluate(-25_000, &c));
    assert!(d.evaluate(-15_000, &c));
    assert!(!d.evaluate(-15_000, &c));
}

#[test]
fn level_equal_to_threshold_counts_as_crossed() {
    let c = config(-20);
    let mut d = ThresholdDetector::new();
    assert!(d.evaluate(-20_000, &c));
    // Staying exactly at the threshold does not re-report.
    assert!(!d.evaluate(-20_000, &c));
}
