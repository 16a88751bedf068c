use adsb_capture::event::project;
use adsb_capture::tracker::{
    accepts_callsign, AircraftState, AircraftTracker, Fingerprint, TrackerStats,
};
use adsb_capture::types::AircraftData;
use adsb_capture::units::elapsed_ms;

const DEG: i64 = 100_000_000;
const NM: u64 = 1_000;

fn observation(icao: u32) -> AircraftData {
    let mut data = AircraftData::default();
    data.icao_address = icao;
    data.df = 17;
    data
}

fn position(icao: u32, lat: i64, lon: i64) -> AircraftData {
    let mut data = observation(icao);
    data.latitude = Some(lat);
    data.longitude = Some(lon);
    data.tc = 11;
    data
}

#[test]
fn position_out_of_reach_is_refused() {
    let mut state = AircraftState::new(7, 0);
    state.update(&position(7, 40 * DEG, -74 * DEG), 0, 0);
    assert_eq!(state.latitude, Some(40 * DEG));
    assert_eq!(state.longitude, Some(-74 * DEG));
    assert!(state.has_position);
    assert_eq!(state.position_messages, 1);
    assert_eq!(state.messages, 1);
    // 60 nautical miles in one second: the reach is 15
    state.update(&position(7, 41 * DEG, -74 * DEG), 1_000, 60 * NM);
    assert_eq!(state.latitude, Some(40 * DEG));
    assert_eq!(state.longitude, Some(-74 * DEG));
    assert_eq!(state.position_messages, 1);
    assert_eq!(state.messages, 2);
    assert_eq!(state.last_seen, 1_000);
    assert_eq!(state.position_time, 0);
    // the same position five seconds after the first one is within reach
    state.update(&position(7, 41 * DEG, -74 * DEG), 5_000, 60 * NM);
    assert_eq!(state.latitude, Some(41 * DEG));
    assert_eq!(state.position_messages, 2);
    assert_eq!(state.position_time, 5_000);
}

#[test]
fn reach_is_fifteen_thousandths_a_millisecond() {
    let mut state = AircraftState::new(7, 0);
    state.update(&position(7, 0, 0), 0, 0);
    state.update(&position(7, DEG, 0), 100, 1_501);
    assert_eq!(state.latitude, Some(0));
    state.update(&position(7, DEG, DEG), 100, 1_500);
    assert_eq!(state.latitude, Some(DEG));
    // at the same instant only the same place is within reach
    state.update(&position(7, 2 * DEG, DEG), 100, 1);
    assert_eq!(state.latitude, Some(DEG));
    state.update(&position(7, 2 * DEG, 2 * DEG), 100, 0);
    assert_eq!(state.latitude, Some(2 * DEG));
}

#[test]
fn refused_position_is_dropped_alone() {
    let mut state = AircraftState::new(7, 0);
    state.update(&position(7, 0, 0), 0, 0);
    let mut far = position(7, 10 * DEG, 0);
    far.altitude_ft = Some(30_000);
    far.callsign = Some("FAR1".to_string());
    far.squawk = Some(1200);
    far.ground_speed_kts = Some(400_000);
    far.heading_deg = Some(90 * DEG);
    far.vertical_rate_fpm = Some(-64);
    state.update(&far, 1_000, 600 * NM);
    assert_eq!(state.latitude, Some(0));
    assert_eq!(state.longitude, Some(0));
    assert_eq!(state.position_time, 0);
    assert_eq!(state.position_messages, 1);
    assert_eq!(state.altitude_ft, Some(30_000));
    assert_eq!(state.callsign, Some("FAR1".to_string()));
    assert_eq!(state.squawk, Some(1200));
    assert_eq!(state.ground_speed_kts, Some(400_000));
    assert_eq!(state.heading_deg, Some(90 * DEG));
    assert_eq!(state.vertical_rate_fpm, Some(-64));
    assert_eq!(state.messages, 2);
    assert_eq!(state.last_seen, 1_000);
}

#[test]
fn repetition_raises_confidence_only() {
    let mut state = AircraftState::new(7, 0);
    let mut data = position(7, 40 * DEG, -74 * DEG);
    data.altitude_ft = Some(10_000);
    state.update(&data, 100, 0);
    assert_eq!((state.messages, state.confidence), (1, 0));
    // the same fingerprint: the position differs below 10^-4 degree
    let mut twin = position(7, 40 * DEG + 9_999, -74 * DEG - 9_999);
    twin.altitude_ft = Some(10_000);
    twin.squawk = Some(1200);
    twin.vertical_rate_fpm = Some(64);
    state.update(&twin, 1_099, 0);
    assert_eq!((state.messages, state.confidence), (1, 1));
    assert_eq!(state.latitude, Some(40 * DEG));
    assert_eq!(state.squawk, None);
    assert_eq!(state.last_seen, 100);
    state.update(&data, 600, 0);
    assert_eq!((state.messages, state.confidence), (1, 2));
    assert_eq!(state.latitude, Some(40 * DEG));
    assert_eq!(state.longitude, Some(-74 * DEG));
    assert_eq!(state.altitude_ft, Some(10_000));
    // a second after the first one it is new again
    state.update(&data, 1_100, 0);
    assert_eq!((state.messages, state.confidence), (2, 2));
    assert_eq!(state.last_seen, 1_100);
}

#[test]
fn fingerprints_tell_observations_apart() {
    let base = {
        let mut d = position(7, 40 * DEG, -74 * DEG);
        d.altitude_ft = Some(1_000);
        d.callsign = Some("ABC".to_string());
        d.ground_speed_kts = Some(250_040);
        d.heading_deg = Some(90 * DEG + 5_000_000);
        d
    };
    let same = |other: &AircraftData| Fingerprint::of(&base).same_as(&Fingerprint::of(other));
    assert!(same(&base));
    let mut d = base.clone();
    d.ground_speed_kts = Some(250_099);
    d.heading_deg = Some(90 * DEG + 9_999_999);
    d.squawk = Some(7000);
    d.vertical_rate_fpm = Some(-64);
    d.df = 18;
    assert!(same(&d));
    let mut d = base.clone();
    d.ground_speed_kts = Some(250_100);
    assert!(!same(&d));
    let mut d = base.clone();
    d.heading_deg = Some(90 * DEG + 10_000_000);
    assert!(!same(&d));
    let mut d = base.clone();
    d.latitude = Some(40 * DEG + 10_000);
    assert!(!same(&d));
    let mut d = base.clone();
    d.longitude = None;
    assert!(!same(&d));
    let mut d = base.clone();
    d.altitude_ft = Some(1_025);
    assert!(!same(&d));
    let mut d = base.clone();
    d.callsign = Some("ABD".to_string());
    assert!(!same(&d));
    let mut d = base.clone();
    d.icao_address = 8;
    assert!(!same(&d));
    // rounding is towards zero on both sides of it
    let fp = Fingerprint::of(&position(1, -19_999, 19_999));
    assert_eq!((fp.latitude, fp.longitude), (Some(-1), Some(1)));
    let fp = Fingerprint::of(&position(1, -9_999, 9_999));
    assert_eq!((fp.latitude, fp.longitude), (Some(0), Some(0)));
}

#[test]
fn only_the_last_ten_fingerprints_are_remembered() {
    let mut state = AircraftState::new(7, 0);
    for k in 0..11 {
        let mut data = observation(7);
        data.altitude_ft = Some(1_000 + k);
        state.update(&data, 10, 0);
    }
    assert_eq!(state.messages, 11);
    assert_eq!(state.recent_messages.len(), 10);
    // the first one has been pushed out, the second one has not
    let mut first = observation(7);
    first.altitude_ft = Some(1_000);
    state.update(&first, 20, 0);
    assert_eq!((state.messages, state.confidence), (12, 0));
    let mut third = observation(7);
    third.altitude_ft = Some(1_002);
    state.update(&third, 20, 0);
    assert_eq!((state.messages, state.confidence), (12, 1));
}

#[test]
fn implausible_fields_are_left_out() {
    let mut state = AircraftState::new(7, 0);
    let mut data = observation(7);
    data.altitude_ft = Some(60_000);
    data.ground_speed_kts = Some(1_000_000);
    data.heading_deg = Some(360 * DEG);
    data.vertical_rate_fpm = Some(10_000);
    data.latitude = Some(90 * DEG + 1);
    data.longitude = Some(0);
    data.callsign = Some("#######".to_string());
    state.update(&data, 0, 0);
    assert_eq!(state.messages, 1);
    assert_eq!(state.altitude_ft, None);
    assert_eq!(state.ground_speed_kts, None);
    assert_eq!(state.heading_deg, None);
    assert_eq!(state.vertical_rate_fpm, None);
    assert_eq!(state.latitude, None);
    assert!(!state.has_position);
    assert_eq!(state.callsign, None);

    let mut data = observation(7);
    data.altitude_ft = Some(59_999);
    data.ground_speed_kts = Some(999_999);
    data.heading_deg = Some(360 * DEG - 1);
    data.vertical_rate_fpm = Some(-9_999);
    data.latitude = Some(-90 * DEG);
    data.longitude = Some(180 * DEG);
    data.callsign = Some("########".to_string());
    data.squawk = Some(9999);
    state.update(&data, 0, 0);
    assert_eq!(state.altitude_ft, Some(59_999));
    assert_eq!(state.ground_speed_kts, Some(999_999));
    assert_eq!(state.heading_deg, Some(360 * DEG - 1));
    assert_eq!(state.vertical_rate_fpm, Some(-9_999));
    assert_eq!(state.latitude, Some(-90 * DEG));
    assert_eq!(state.longitude, Some(180 * DEG));
    assert_eq!(state.callsign, Some("########".to_string()));
    assert_eq!(state.squawk, Some(9999));

    let mut data = observation(7);
    data.altitude_ft = Some(-2_000);
    data.heading_deg = Some(-1);
    data.vertical_rate_fpm = Some(i32::MIN);
    data.longitude = Some(-180 * DEG - 1);
    data.latitude = Some(0);
    data.callsign = Some("  \t".to_string());
    state.update(&data, 0, 0);
    assert_eq!(state.altitude_ft, Some(59_999));
    assert_eq!(state.heading_deg, Some(360 * DEG - 1));
    assert_eq!(state.vertical_rate_fpm, Some(-9_999));
    assert_eq!(state.longitude, Some(180 * DEG));
    assert_eq!(state.callsign, Some("########".to_string()));
    // a position with only one coordinate is none
    let mut data = observation(7);
    data.latitude = Some(DEG);
    state.update(&data, 0, 0);
    assert_eq!(state.latitude, Some(-90 * DEG));
}

#[test]
fn callsigns_that_are_taken_in() {
    assert!(accepts_callsign("KLM1023"));
    assert!(accepts_callsign(" A "));
    assert!(accepts_callsign("######"));
    assert!(accepts_callsign("########"));
    assert!(!accepts_callsign("#######"));
    assert!(!accepts_callsign(""));
    assert!(!accepts_callsign("   "));
    assert!(!accepts_callsign("\u{2003}\n"));
}

#[test]
fn staleness_and_age() {
    let state = AircraftState::new(7, 1_000);
    assert!(!state.is_stale(1_000));
    assert!(!state.is_stale(61_000));
    assert!(state.is_stale(61_001));
    assert!(!state.is_stale(0));
    assert_eq!(state.age_secs(1_999), 0);
    assert_eq!(state.age_secs(3_000), 2);
    assert_eq!(state.age_secs(0), 0);
    assert_eq!(elapsed_ms(5, 3), 2);
    assert_eq!(elapsed_ms(3, 5), 0);
}

#[test]
fn position_reports_are_five_seconds_apart() {
    let mut state = AircraftState::new(7, 1_000);
    assert!(state.should_log_position(1_000));
    state.mark_position_logged(1_000);
    assert!(!state.should_log_position(5_999));
    assert!(state.should_log_position(6_000));

    let mut tracker = AircraftTracker::new(10, 0);
    let state = tracker.update(&observation(7), 0, 0).unwrap();
    assert_eq!(state.last_position_log, None);
    let state = tracker.update(&position(7, DEG, DEG), 100, 0).unwrap();
    assert_eq!(state.last_position_log, Some(100));
    let mut data = observation(7);
    data.altitude_ft = Some(5_000);
    let state = tracker.update(&data, 5_099, 0).unwrap();
    assert_eq!(state.last_position_log, Some(100));
    data.altitude_ft = Some(5_025);
    let state = tracker.update(&data, 5_100, 0).unwrap();
    assert_eq!(state.last_position_log, Some(5_100));
}

#[test]
fn tracker_gathers_the_fields_of_an_aircraft() {
    let mut tracker = AircraftTracker::new(256, 0);
    assert_eq!(tracker.count(), 0);
    assert!(tracker.get(0x4840D6).is_none());
    let mut name = observation(0x4840D6);
    name.callsign = Some("KLM1023".to_string());
    tracker.update(&name, 10, 0);
    let mut squawk = observation(0x4840D6);
    squawk.squawk = Some(1234);
    tracker.update(&squawk, 20, 0);
    let state = tracker.update(&position(0x4840D6, 52 * DEG, 4 * DEG), 30, 0).unwrap();
    assert_eq!(state.icao, 0x4840D6);
    assert_eq!(state.callsign, Some("KLM1023".to_string()));
    assert_eq!(state.squawk, Some(1234));
    assert_eq!(state.latitude, Some(52 * DEG));
    assert_eq!(state.messages, 3);
    assert_eq!(tracker.count(), 1);
    assert_eq!(tracker.get(0x4840D6).unwrap().messages, 3);
    tracker.update(&observation(1), 40, 0);
    assert_eq!(tracker.count(), 2);
}

#[test]
fn full_tracker_sweeps_stale_aircraft_for_a_new_one() {
    let mut tracker = AircraftTracker::new(3, 0);
    tracker.update(&observation(1), 0, 0);
    tracker.update(&observation(2), 10_000, 0);
    tracker.update(&observation(3), 20_000, 0);
    assert_eq!(tracker.count(), 3);
    // aircraft 1 is stale at 60 001 ms; the sweep is not yet due
    tracker.update(&observation(4), 29_000, 0);
    assert_eq!(tracker.count(), 4);
    let mut tracker = AircraftTracker::new(3, 50_000);
    tracker.update(&observation(1), 0, 0);
    tracker.update(&observation(2), 10_000, 0);
    tracker.update(&observation(3), 20_000, 0);
    tracker.update(&observation(4), 60_001, 0);
    assert_eq!(tracker.count(), 3);
    assert!(tracker.get(1).is_none());
    assert!(tracker.get(2).is_some());
    assert!(tracker.get(4).is_some());
}

#[test]
fn tracker_stays_within_its_bound_where_aircraft_go_stale() {
    let mut tracker = AircraftTracker::new(4, 0);
    let mut now = 0u64;
    for round in 0..200u32 {
        now += 20_000;
        tracker.update(&observation(round), now, 0);
        assert!(tracker.count() <= 4);
    }
}

#[test]
fn periodic_sweep_comes_after_thirty_seconds() {
    let mut tracker = AircraftTracker::new(100, 0);
    tracker.update(&observation(1), 0, 0);
    tracker.update(&observation(2), 30_000, 0);
    assert_eq!(tracker.count(), 2);
    // the sweep at 30 001 ms finds nothing stale
    tracker.update(&observation(2), 30_001, 0);
    assert_eq!(tracker.count(), 2);
    // 60 001 ms: not yet due again
    tracker.update(&observation(3), 60_001, 0);
    assert_eq!(tracker.count(), 3);
    tracker.update(&observation(3), 60_002, 0);
    assert_eq!(tracker.count(), 2);
    assert!(tracker.get(1).is_none());
    // an aircraft that is stale when its own repetition comes is swept too
    let mut tracker = AircraftTracker::new(100, 0);
    tracker.update(&observation(9), 100_000, 0);
    assert!(tracker.update(&observation(9), 0, 0).is_some());
    let mut late = AircraftTracker::new(100, 0);
    late.update(&observation(9), 10, 0);
    assert!(late.update(&observation(9), 10, 0).is_some());
}

#[test]
fn summary_counts_what_is_not_stale() {
    let mut tracker = AircraftTracker::new(100, 0);
    tracker.update(&position(1, DEG, DEG), 0, 0);
    tracker.update(&position(2, DEG, DEG), 20_000, 0);
    let mut named = observation(3);
    named.callsign = Some("ABC".to_string());
    tracker.update(&named, 20_000, 0);
    named.altitude_ft = Some(100);
    tracker.update(&named, 20_000, 0);
    named.icao_address = 1;
    tracker.update(&named, 5_000, 0);
    let stats = tracker.stats_summary(25_000);
    assert_eq!(
        stats,
        TrackerStats { total_aircraft: 3, with_position: 2, with_callsign: 2, total_messages: 5 }
    );
    assert_eq!(
        stats.to_text(),
        "Aircraft: 3 total, 2 with position, 2 with callsign, 5 msgs"
    );
    // at 65 001 ms aircraft 1, last seen at 5 000 ms, is stale
    let stats = tracker.stats_summary(65_001);
    assert_eq!(
        stats,
        TrackerStats { total_aircraft: 3, with_position: 1, with_callsign: 1, total_messages: 5 }
    );
    assert_eq!(tracker.count_with_positions(65_001), 1);
    assert_eq!(tracker.count_with_positions(0), 2);
    let mut all: Vec<u32> = tracker.get_all(65_001).iter().map(|s| s.icao).collect();
    all.sort();
    assert_eq!(all, vec![2, 3]);
    let with: Vec<u32> = tracker.get_with_positions(65_001).iter().map(|s| s.icao).collect();
    assert_eq!(with, vec![2]);
    assert!(tracker.get_all(200_000).is_empty());
    let empty = TrackerStats {
        total_aircraft: 0,
        with_position: 0,
        with_callsign: 0,
        total_messages: u64::MAX,
    };
    assert_eq!(
        empty.to_text(),
        "Aircraft: 0 total, 0 with position, 0 with callsign, 18446744073709551615 msgs"
    );
}

#[test]
fn event_shows_what_is_known() {
    let mut tracker = AircraftTracker::new(100, 0);
    let bare = observation(0xABC);
    let state = tracker.update(&bare, 0, 0).unwrap();
    assert!(project(state, &bare, "RTL-SDR-1", 99).is_none());
    let mut data = position(0xABC, 52 * DEG, -4 * DEG);
    data.df = 18;
    data.altitude_ft = Some(38_000);
    let state = tracker.update(&data, 10, 0).unwrap();
    let event = project(state, &data, "RTL-SDR-1", 1_700_000_000_000).unwrap();
    assert_eq!(event.device_id, "RTL-SDR-1");
    assert_eq!(event.timestamp_ms, 1_700_000_000_000);
    assert_eq!(event.icao, "000ABC");
    assert_eq!(event.callsign, "");
    assert_eq!(event.altitude_ft, 38_000);
    assert_eq!(event.latitude, 52 * DEG);
    assert_eq!(event.longitude, -4 * DEG);
    assert_eq!(event.speed_kts, 0);
    assert_eq!(event.heading_deg, 0);
    assert_eq!(event.vertical_rate_fpm, 0);
    assert_eq!(event.squawk, "");
    assert_eq!(event.downlink_format, 18);
    assert_eq!(event.type_code, 11);

    let mut more = observation(0xABC);
    more.callsign = Some("TEST12".to_string());
    more.squawk = Some(42);
    more.ground_speed_kts = Some(450_500);
    more.heading_deg = Some(270 * DEG);
    more.vertical_rate_fpm = Some(-640);
    let state = tracker.update(&more, 20, 0).unwrap();
    let event = project(state, &more, "", 0).unwrap();
    assert_eq!(event.callsign, "TEST12");
    assert_eq!(event.squawk, "0042");
    assert_eq!(event.speed_kts, 450_500);
    assert_eq!(event.heading_deg, 270 * DEG);
    assert_eq!(event.vertical_rate_fpm, -640);
    assert_eq!(event.downlink_format, 17);
    assert_eq!(event.type_code, 0);

    // a callsign alone, or an altitude alone, is worth a record
    let mut named = AircraftState::new(0xFFFFFFFF, 0);
    named.callsign = Some("X".to_string());
    named.squawk = Some(12_345);
    let event = project(&named, &bare, "d", 1).unwrap();
    assert_eq!(event.icao, "FFFFFFFF");
    assert_eq!(event.squawk, "12345");
    let mut high = AircraftState::new(0x1234567, 0);
    high.altitude_ft = Some(0);
    assert_eq!(project(&high, &bare, "d", 1).unwrap().icao, "1234567");
    let mut seen = AircraftState::new(1, 0);
    seen.squawk = Some(7000);
    seen.ground_speed_kts = Some(1);
    assert!(project(&seen, &bare, "d", 1).is_none());
}
