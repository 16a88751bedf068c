use adsb_capture::demod::MagnitudeTable;

#[test]
fn test_magnitude_table() {
    let table = MagnitudeTable::new();

    let mag_center = table.magnitude(127, 127);
    assert!(mag_center < 10, "Center should be near zero");

    let mag_high_i = table.magnitude(255, 127);
    assert!(mag_high_i > 100, "High I should give high magnitude");

    let mag_high_q = table.magnitude(127, 255);
    assert!(mag_high_q > 100, "High Q should give high magnitude");
}

#[test]
fn magnitude_has_exact_values() {
    let table = MagnitudeTable::default();
    assert_eq!(table.magnitude(127, 127), 0);
    assert_eq!(table.magnitude(255, 127), 128);
    assert_eq!(table.magnitude(127, 255), 128);
    assert_eq!(table.magnitude(0, 127), 127);
    // max 128, min 128: 128 + 128 * 102 / 256 = 179
    assert_eq!(table.magnitude(255, 255), 179);
    // max 100, min 50: (100 * 256 + 50 * 102) / 256 = 119
    assert_eq!(table.magnitude(227, 77), 119);
    assert_eq!(table.magnitude(77, 227), 119);
    assert_eq!(table.magnitude(157, 127), 30);
}

#[test]
fn magnitude_is_monotone_in_both_samples() {
    let table = MagnitudeTable::new();
    let dist = |raw: u8| if raw >= 127 { raw - 127 } else { 127 - raw };
    for i1 in (0u16..256).step_by(5) {
        for q1 in (0u16..256).step_by(7) {
            for i2 in (0u16..256).step_by(11) {
                for q2 in (0u16..256).step_by(13) {
                    let (i1, q1, i2, q2) = (i1 as u8, q1 as u8, i2 as u8, q2 as u8);
                    if dist(i1) <= dist(i2) && dist(q1) <= dist(q2) {
                        assert!(table.magnitude(i1, q1) <= table.magnitude(i2, q2));
                    }
                }
            }
        }
    }
}

#[test]
fn compute_magnitudes_fills_as_far_as_there_is_room() {
    let table = MagnitudeTable::new();
    let iq = [255u8, 127, 127, 127, 157, 127, 0];
    let mut out = [7u16; 5];
    table.compute_magnitudes(&iq, &mut out);
    assert_eq!(out, [128, 0, 30, 7, 7]);
    let mut small = [9u16; 2];
    table.compute_magnitudes(&iq, &mut small);
    assert_eq!(small, [128, 0]);
}
