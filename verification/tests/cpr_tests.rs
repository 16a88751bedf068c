use adsb_capture::cpr::{cpr_nl, decode_global, CprContext, CprState};

#[test]
fn test_cpr_nl() {
    assert_eq!(cpr_nl(0), 59);
    assert_eq!(cpr_nl(4_500_000_000), 42);
    assert_eq!(cpr_nl(8_700_000_000), 2);
}

#[test]
fn nl_at_the_limits_of_the_table() {
    assert_eq!(cpr_nl(1_047_047_129), 59);
    assert_eq!(cpr_nl(1_047_047_130), 58);
    assert_eq!(cpr_nl(-1_047_047_129), 59);
    assert_eq!(cpr_nl(-1_047_047_130), 58);
    assert_eq!(cpr_nl(8_653_536_997), 3);
    assert_eq!(cpr_nl(8_653_536_998), 2);
    assert_eq!(cpr_nl(8_700_000_001), 1);
    assert_eq!(cpr_nl(9_000_000_000), 1);
    assert_eq!(cpr_nl(-9_000_000_000), 1);
    assert_eq!(cpr_nl(i64::MIN), 1);
    assert_eq!(cpr_nl(i64::MAX), 1);
}

#[test]
fn nl_does_not_grow_with_the_latitude() {
    let mut last = 59;
    let mut lat: i64 = 0;
    while lat <= 9_000_000_000 {
        let nl = cpr_nl(lat);
        assert!(1 <= nl && nl <= 59);
        assert!(nl <= last);
        assert_eq!(cpr_nl(-lat), nl);
        last = nl;
        lat += 1_234_567;
    }
}

// The pair of the messages 8D40621D58C382D690C8AC2863A7 (even) and
// 8D40621D58C386435CC412692AD6 (odd).
const EVEN: (i32, i32) = (93000, 51372);
const ODD: (i32, i32) = (74158, 50194);

#[test]
fn pair_decodes_to_the_position_of_the_newer_message() {
    let mut ctx = CprContext::new(256);
    assert_eq!(ctx.update(0x40621D, ODD.0, ODD.1, true, 1_000), None);
    let position = ctx.update(0x40621D, EVEN.0, EVEN.1, false, 2_000);
    // 52.2572021484375 and 3.91937255859375 degrees
    assert_eq!(position, Some((5_225_720_214, 391_937_255)));
    assert_eq!(ctx.get(0x40621D).unwrap().last_position, position);
    let position = ctx.update(0x40621D, ODD.0, ODD.1, true, 3_000);
    // 52.26578017412606 and 3.938912527901786 degrees
    assert_eq!(position, Some((5_226_578_017, 393_891_252)));
    assert_eq!(ctx.len(), 1);
}

#[test]
fn pair_is_in_range_or_none() {
    let mut ctx = CprContext::new(4);
    let mut seed: u32 = 12345;
    let mut next = || {
        seed = seed.wrapping_mul(1_103_515_245).wrapping_add(12345);
        ((seed >> 8) & 0x1FFFF) as i32
    };
    let mut some = 0;
    for round in 0..2000u64 {
        let odd = round % 2 == 1;
        if let Some((lat, lon)) = ctx.update(7, next(), next(), odd, round) {
            some += 1;
            assert!(-9_000_000_000 <= lat && lat <= 9_000_000_000);
            assert!(-18_000_000_000 <= lon && lon <= 18_000_000_000);
        }
    }
    assert!(some > 0);
}

#[test]
fn pair_needs_both_messages_in_time() {
    let mut ctx = CprContext::new(256);
    assert_eq!(ctx.update(1, EVEN.0, EVEN.1, false, 0), None);
    // the odd message comes 10 001 ms after the even one
    assert_eq!(ctx.update(1, ODD.0, ODD.1, true, 10_001), None);
    // and the even one again 10 000 ms after the odd one
    assert!(ctx.update(1, EVEN.0, EVEN.1, false, 20_001).is_some());
    // another aircraft does not complete the pair
    assert_eq!(ctx.update(2, ODD.0, ODD.1, true, 20_002), None);
}

#[test]
fn latitudes_of_different_zones_give_no_position() {
    let mut state = CprState::default();
    // even latitude 10.47042 degrees, just below the first limit of the
    // table, odd latitude 10.47053 degrees, just above it
    state.even_cpr = Some((97_658, 0, 0));
    state.odd_cpr = Some((93_848, 0, 0));
    let before = state.last_position;
    assert_eq!(decode_global(&mut state, true, 0), None);
    assert_eq!(decode_global(&mut state, false, 0), None);
    assert_eq!(state.last_position, before);
    // one step of the odd latitude to the south, and the zones agree
    state.odd_cpr = Some((93_845, 0, 0));
    assert!(decode_global(&mut state, true, 0).is_some());
}

#[test]
fn southern_latitudes_are_negative() {
    let mut state = CprState::default();
    // 30 degrees south is 330 degrees: zone 55 of 60, zone 54 of 59
    state.even_cpr = Some((0, 0, 0));
    state.odd_cpr = Some((10_923, 0, 0));
    let position = decode_global(&mut state, false, 5).unwrap();
    assert_eq!(position.0, -3_000_000_000);
    assert_eq!(state.last_position, Some(position));
}

#[test]
fn full_context_drops_one_aircraft_for_a_new_one() {
    let mut ctx = CprContext::new(2);
    ctx.update(1, EVEN.0, EVEN.1, false, 0);
    ctx.update(2, EVEN.0, EVEN.1, false, 0);
    assert_eq!(ctx.len(), 2);
    ctx.update(2, ODD.0, ODD.1, true, 1);
    assert_eq!(ctx.len(), 2);
    ctx.update(3, EVEN.0, EVEN.1, false, 2);
    assert_eq!(ctx.len(), 2);
    assert!(ctx.get(3).is_some());
    assert!(ctx.get(1).is_some() != ctx.get(2).is_some());
    let state = ctx.get_or_create(3);
    assert_eq!(state.even_cpr, Some((EVEN.0, EVEN.1, 2)));
    assert_eq!(state.odd_cpr, None);
}
