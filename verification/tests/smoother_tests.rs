use standby::smoothing::{db_to_amplitude, Smoother};

#[test]
fn smoother_moves_three_tenths_of_the_gap() {
    // floor -60 dB, alpha 0.3, raw level -40 dB, in milli-dB.
    let mut s = Smoother::new(3, 10, -60_000);
    assert_eq!(s.step(-40_000), -54_000);
    assert_eq!(s.step(-40_000), -49_800);
    assert_eq!(s.step(-40_000), -46_860);
}

#[test]
fn smoother_converges_to_a_steady_input() {
    // From any start, feeding the same level settles within den/num
    // milli-dB of it — for alpha 3/10, within 3 milli-dB (0.003 dB).
    let mut s = Smoother::new(3, 10, -60_000);
    let mut last: i32 = 0;
    for _ in 0..20_000 {
        last = s.step(-40_000);
    }
    assert!((-40_000 - last).abs() <= 3);
    // Once converged it stays put.
    let settled = s.step(-40_000);
    assert_eq!(settled, last);
}

#[test]
fn smoother_never_overshoots() {
    let mut s = Smoother::new(3, 10, -60_000);
    let first = s.step(0);
    assert!(-60_000 <= first && first <= 0);
    let second = s.step(-60_000);
    assert!(-60_000 <= second && second <= first);
}

#[test]
fn db_to_amplitude_matches_the_table() {
    // -20 dB is a tenth of full scale.
    assert_eq!(db_to_amplitude(-20), 100_000);
    // 0 dB is full scale.
    assert_eq!(db_to_amplitude(0), 1_000_000);
    // -13 dB: 10^(-0.65) of full scale.
    assert_eq!(db_to_amplitude(-13), 223_872);
    // -120 dB: one micro-unit.
    assert_eq!(db_to_amplitude(-120), 1);
    // -60 dB: a thousandth of full scale.
    assert_eq!(db_to_amplitude(-60), 1_000);
}
