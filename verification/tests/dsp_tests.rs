//! The decibel/linear converter and the peak scanner on concrete values.

use earpeace::dsp::{db_to_linear, linear_to_db, max_peak, DB_MAX, DB_MIN, SCALE};

#[test]
fn test_db_to_linear_anchor_values() {
    // 0 dB is unity gain, exactly.
    assert_eq!(db_to_linear(0), SCALE);
    // -20 dB is a factor of 10 down, up to fixed-point quantization.
    assert_eq!(db_to_linear(-2000), 99_999_504);
    // +20 dB is a factor of 10 up, up to fixed-point quantization.
    assert_eq!(db_to_linear(2000), 10_000_005_319);
    // -6.02 dB is close to one half.
    let half = db_to_linear(-602);
    assert!((half - SCALE / 2).abs() < SCALE / 1000);
    // deep attenuation quantizes to silence
    assert_eq!(db_to_linear(DB_MIN), 0);
}

#[test]
fn test_db_to_linear_monotone_on_a_grid() {
    let mut prev = db_to_linear(-6000);
    let mut db: i64 = -5990;
    while db <= 2000 {
        let v = db_to_linear(db);
        assert!(v > prev, "conversion must rise strictly with the decibel value");
        prev = v;
        db += 10;
    }
}

#[test]
fn test_linear_to_db_inverts_the_conversion() {
    // Round trip on the decibel grid (the gain calculator round trip).
    for d in [-1400i64, -900, -602, -100, -10, 0, 300, 1999] {
        let g = db_to_linear(d);
        assert_eq!(linear_to_db(g), d, "round trip failed at {} hundredths of a dB", d);
    }
    // Unity maps to 0 dB.
    assert_eq!(linear_to_db(SCALE), 0);
    // Anything at or above the top of the domain clamps to DB_MAX.
    assert_eq!(linear_to_db(i64::MAX), DB_MAX);
}

#[test]
fn test_max_peak_of_empty_buffer_is_zero() {
    let empty: Vec<i64> = Vec::new();
    assert_eq!(max_peak(&empty), 0);
}

#[test]
fn test_max_peak_is_nonnegative_and_exact() {
    let buf: Vec<i64> = vec![0, -300_000_000, 200_000_000, -100];
    let p = max_peak(&buf);
    assert!(p >= 0);
    assert_eq!(p, 300_000_000);

    let silent: Vec<i64> = vec![0, 0, 0];
    assert_eq!(max_peak(&silent), 0);

    let single: Vec<i64> = vec![-SCALE];
    assert_eq!(max_peak(&single), SCALE);
}
