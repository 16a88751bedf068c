use adsb_capture::cpr::CprContext;
use adsb_capture::parser::{
    callsign_code_of, decode_ac12_altitude, decode_ac13_altitude, decode_airborne_position,
    decode_airborne_velocity, decode_callsign, decode_payload, decode_squawk, isqrt,
    parse_message, ParseError,
};
use adsb_capture::types::{AircraftData, DownlinkFormat};

#[test]
fn test_decode_callsign() {
    let msg = hex::decode("8D4840D6202CC371C32CE0576098").unwrap();
    let callsign = decode_callsign(&msg);
    assert!(!callsign.is_empty() || callsign.is_empty());
}

#[test]
fn test_parse_df17() {
    let msg = hex::decode("8D4840D6202CC371C32CE0576098").unwrap();
    let mut cpr_ctx = CprContext::new(256);
    let result = parse_message(&msg, &mut cpr_ctx, 0);
    assert!(result.is_ok());

    let aircraft = result.unwrap();
    assert_eq!(aircraft.df, 17);
    assert_eq!(aircraft.icao_address, 0x4840D6);
}

#[test]
fn identification_message_gives_the_callsign() {
    let msg = hex::decode("8D4840D6202CC371C32CE0576098").unwrap();
    assert_eq!(decode_callsign(&msg), "KLM1023");
    let mut ctx = CprContext::new(256);
    let aircraft = parse_message(&msg, &mut ctx, 5).unwrap();
    assert_eq!(aircraft.tc, 4);
    assert_eq!(aircraft.callsign, Some("KLM1023".to_string()));
    assert_eq!(aircraft.latitude, None);
    assert_eq!(aircraft.altitude_ft, None);
    assert_eq!(aircraft.squawk, None);
    assert_eq!(ctx.len(), 0);
}

#[test]
fn callsign_keeps_inner_spaces_and_marks_unused_codes() {
    // codes 1 32 2 0 32 32 32 32: "A B#" and four spaces
    let mut msg = vec![0u8; 14];
    let codes: [u64; 8] = [1, 32, 2, 0, 32, 32, 32, 32];
    let mut bits: u64 = 0;
    for c in codes {
        bits = (bits << 6) | c;
    }
    for k in 0..6 {
        msg[5 + k] = (bits >> (40 - 8 * k)) as u8;
    }
    assert_eq!(decode_callsign(&msg), "A B#");
    // all spaces trim to nothing
    let mut blank = vec![0u8; 14];
    let mut bits: u64 = 0;
    for _ in 0..8 {
        bits = (bits << 6) | 32;
    }
    for k in 0..6 {
        blank[5 + k] = (bits >> (40 - 8 * k)) as u8;
    }
    assert_eq!(decode_callsign(&blank), "");
}

#[test]
fn callsign_codes_come_back_from_the_text() {
    let msg = hex::decode("8D4840D6202CC371C32CE0576098").unwrap();
    let codes = [11u8, 12, 13, 49, 48, 50, 51, 32];
    let text = decode_callsign(&msg);
    let mut padded: Vec<char> = text.chars().collect();
    while padded.len() < 8 {
        padded.push(' ');
    }
    let again: Vec<u8> = padded.into_iter().map(callsign_code_of).collect();
    assert_eq!(again, codes);
    assert_eq!(callsign_code_of('A'), 1);
    assert_eq!(callsign_code_of('Z'), 26);
    assert_eq!(callsign_code_of('0'), 48);
    assert_eq!(callsign_code_of('9'), 57);
    assert_eq!(callsign_code_of(' '), 32);
    assert_eq!(callsign_code_of('#'), 0);
    assert_eq!(callsign_code_of('a'), 0);
}

#[test]
fn errors_say_why() {
    let mut ctx = CprContext::new(256);
    assert_eq!(parse_message(&[], &mut ctx, 0).err(), Some(ParseError::InvalidLength));
    assert_eq!(parse_message(&[0x8D; 13], &mut ctx, 0).err(), Some(ParseError::InvalidLength));
    assert_eq!(parse_message(&[0x8D; 15], &mut ctx, 0).err(), Some(ParseError::InvalidLength));
    // a short frame never passes the strict policy
    let short = hex::decode("02E197B2F3F9A1").unwrap();
    assert_eq!(parse_message(&short, &mut ctx, 0).err(), Some(ParseError::CrcError));
    let mut broken = hex::decode("8D4840D6202CC371C32CE0576098").unwrap();
    broken[7] ^= 0x40;
    assert_eq!(parse_message(&broken, &mut ctx, 0).err(), Some(ParseError::CrcError));
    // a long frame of another format, whatever its residue
    let other = hex::decode("A8001EBCFFFB23286004A73F6A5B").unwrap();
    assert_eq!(parse_message(&other, &mut ctx, 0).err(), Some(ParseError::CrcError));
    assert_ne!(ParseError::CrcError, ParseError::UnsupportedFormat);
    assert_eq!(ctx.len(), 0);
}

#[test]
fn position_messages_give_altitude_and_position() {
    let even = hex::decode("8D40621D58C382D690C8AC2863A7").unwrap();
    let odd = hex::decode("8D40621D58C386435CC412692AD6").unwrap();
    let mut ctx = CprContext::new(256);
    let first = parse_message(&odd, &mut ctx, 1_000).unwrap();
    assert_eq!(first.icao_address, 0x40621D);
    assert_eq!(first.tc, 11);
    assert_eq!(first.altitude_ft, Some(38_000));
    assert!(!first.altitude_gnss);
    assert_eq!(first.latitude, None);
    assert_eq!(first.longitude, None);
    let second = parse_message(&even, &mut ctx, 2_000).unwrap();
    assert_eq!(second.altitude_ft, Some(38_000));
    assert_eq!(second.latitude, Some(5_225_720_214));
    assert_eq!(second.longitude, Some(391_937_255));
    let state = ctx.get(0x40621D).unwrap();
    assert_eq!(state.even_cpr, Some((93_000, 51_372, 2_000)));
    assert_eq!(state.odd_cpr, Some((74_158, 50_194, 1_000)));
    assert_eq!(state.last_position, Some((5_225_720_214, 391_937_255)));
}

#[test]
fn gnss_position_is_marked() {
    let mut msg = hex::decode("8D40621D58C382D690C8AC2863A7").unwrap();
    msg[4] = (20 << 3) | (msg[4] & 7);
    let mut ctx = CprContext::new(256);
    let aircraft = decode_payload(&msg, &mut ctx, 0);
    assert_eq!(aircraft.tc, 20);
    assert!(aircraft.altitude_gnss);
    assert_eq!(aircraft.altitude_ft, Some(38_000));
    assert_eq!(ctx.len(), 1);
}

#[test]
fn velocity_message_as_the_subtype_in_the_upper_bits_reads_it() {
    // type code 19 puts 4 into the upper three bits of byte 4
    let msg = hex::decode("8D485020994409940838175B284F").unwrap();
    let mut ctx = CprContext::new(256);
    let aircraft = parse_message(&msg, &mut ctx, 0).unwrap();
    assert_eq!(aircraft.tc, 19);
    // heading 9 / 1024 of a turn, airspeed (160 - 1) * 4 knots
    assert_eq!(aircraft.heading_deg, Some(316_406_250));
    assert_eq!(aircraft.ground_speed_kts, Some(636_000));
    assert_eq!(aircraft.vertical_rate_fpm, Some(-832));
    assert_eq!(aircraft.velocity_kts, None);
}

#[test]
fn ground_speed_subtypes_give_velocity_and_speed() {
    let mut msg = hex::decode("8D485020994409940838175B284F").unwrap();
    msg[4] = 0x20;
    let mut aircraft = AircraftData::default();
    decode_airborne_velocity(&msg, &mut aircraft);
    // 9 - 1 knots westwards, 160 - 1 knots southwards
    assert_eq!(aircraft.velocity_kts, Some((-8, -159)));
    assert_eq!(aircraft.ground_speed_kts, Some(159_201));
    assert_eq!(aircraft.heading_deg, None);
    assert_eq!(aircraft.vertical_rate_fpm, Some(-832));

    msg[4] = 0x40;
    let mut fast = AircraftData::default();
    decode_airborne_velocity(&msg, &mut fast);
    assert_eq!(fast.velocity_kts, Some((-32, -636)));
    assert_eq!(fast.ground_speed_kts, Some(636_804));

    // no east-west speed: no velocity, but the vertical rate
    msg[5] &= 0xFC;
    msg[6] = 0;
    let mut still = AircraftData::default();
    decode_airborne_velocity(&msg, &mut still);
    assert_eq!(still.velocity_kts, None);
    assert_eq!(still.ground_speed_kts, None);
    assert_eq!(still.vertical_rate_fpm, Some(-832));

    // subtype 0 and subtypes above 4 say nothing
    for subtype in [0u8, 5, 6, 7] {
        msg[4] = subtype << 5;
        let mut none = AircraftData::default();
        decode_airborne_velocity(&msg, &mut none);
        assert_eq!(none.vertical_rate_fpm, None);
        assert_eq!(none.ground_speed_kts, None);
    }
}

#[test]
fn airspeed_subtype_three_counts_single_knots() {
    let mut msg = hex::decode("8DA05F219B06B6AF189400CBC33F").unwrap();
    msg[4] = 0x60;
    let mut aircraft = AircraftData::default();
    decode_airborne_velocity(&msg, &mut aircraft);
    // heading 694 / 1024 of a turn is 243.984375 degrees
    assert_eq!(aircraft.heading_deg, Some(24_398_437_500));
    assert_eq!(aircraft.ground_speed_kts, Some(375_000));
    assert_eq!(aircraft.vertical_rate_fpm, Some(-2_304));
}

#[test]
fn altitude_codes() {
    // Q bit set: 25-foot steps above -1000 feet
    assert_eq!(decode_ac12_altitude(0xC38), 38_000);
    assert_eq!(decode_ac12_altitude(0x010), -1_000);
    assert_eq!(decode_ac12_altitude(0x011), -975);
    assert_eq!(decode_ac12_altitude(0xFFF), 2047 * 25 - 1000);
    // without the Q bit the code is not decoded
    assert_eq!(decode_ac12_altitude(0xC28), 0);
    assert_eq!(decode_ac13_altitude(0x0197), 199 * 25 - 1000);
    assert_eq!(decode_ac13_altitude(0x0187), 0);
    // bits 5 and 6 belong to the number
    assert_eq!(decode_ac13_altitude(0x0070), (3 * 16) * 25 - 1000);
    assert_eq!(decode_ac13_altitude(0x1FFF), 4095 * 25 - 1000);
    // bits above the code are ignored
    assert_eq!(decode_ac13_altitude(0xE197), 199 * 25 - 1000);
    assert_eq!(decode_ac12_altitude(0xFC38), 38_000);
}

#[test]
fn surveillance_replies_give_altitude_or_squawk() {
    let mut ctx = CprContext::new(256);
    let altitude = hex::decode("02E197B2F3F9A1").unwrap();
    let aircraft = decode_payload(&altitude, &mut ctx, 0);
    assert_eq!(aircraft.df, 0);
    assert_eq!(aircraft.icao_address, 0xE197B2);
    // the code 0x17B2 has the Q bit; without it the number is 189 * 16 + 2
    assert_eq!(aircraft.altitude_ft, Some(3_026 * 25 - 1_000));
    assert_eq!(aircraft.squawk, None);
    assert_eq!(aircraft.tc, 0);

    let identity = hex::decode("2A00516D492B80").unwrap();
    assert_eq!(decode_squawk(&identity), 5306);
    let aircraft = decode_payload(&identity, &mut ctx, 0);
    assert_eq!(aircraft.df, 5);
    assert_eq!(aircraft.squawk, Some(5306));
    assert_eq!(aircraft.altitude_ft, None);

    assert_eq!(decode_squawk(&hex::decode("28001FFF000000").unwrap()), 7777);
    assert_eq!(decode_squawk(&hex::decode("28000000000000").unwrap()), 0);

    let comm_b = hex::decode("A8001EBCFFFB23286004A73F6A5B").unwrap();
    let aircraft = decode_payload(&comm_b, &mut ctx, 0);
    assert_eq!(aircraft.df, 21);
    assert_eq!(aircraft.squawk, Some(6576));

    // an all-call reply and an unknown format give the address only
    let mut all_call = altitude.clone();
    all_call[0] = 11 << 3;
    let aircraft = decode_payload(&all_call, &mut ctx, 0);
    assert_eq!(aircraft.df, 11);
    assert_eq!(aircraft.altitude_ft, None);
    let mut unknown = altitude.clone();
    unknown[0] = 24 << 3;
    let aircraft = decode_payload(&unknown, &mut ctx, 0);
    assert_eq!(aircraft.df, 24);
    assert_eq!(aircraft.altitude_ft, None);
    assert_eq!(aircraft.squawk, None);
    // a short frame that claims to be an extended squitter says no more
    let mut short_squitter = altitude.clone();
    short_squitter[0] = 17 << 3;
    let aircraft = decode_payload(&short_squitter, &mut ctx, 0);
    assert_eq!(aircraft.df, 17);
    assert_eq!(aircraft.tc, 0);
    assert_eq!(aircraft.callsign, None);
    assert_eq!(ctx.len(), 0);
}

#[test]
fn formats_have_names() {
    assert_eq!(DownlinkFormat::from(0), DownlinkFormat::ShortAirSurveillance);
    assert_eq!(DownlinkFormat::from(4), DownlinkFormat::AltitudeReply);
    assert_eq!(DownlinkFormat::from(5), DownlinkFormat::IdentityReply);
    assert_eq!(DownlinkFormat::from(11), DownlinkFormat::AllCallReply);
    assert_eq!(DownlinkFormat::from(16), DownlinkFormat::LongAirSurveillance);
    assert_eq!(DownlinkFormat::from(17), DownlinkFormat::ExtendedSquitter);
    assert_eq!(DownlinkFormat::from(18), DownlinkFormat::ExtendedSquitterNonTransponder);
    assert_eq!(DownlinkFormat::from(19), DownlinkFormat::MilitaryExtendedSquitter);
    assert_eq!(DownlinkFormat::from(20), DownlinkFormat::CommBAltitude);
    assert_eq!(DownlinkFormat::from(21), DownlinkFormat::CommBIdentity);
    assert_eq!(DownlinkFormat::from(1), DownlinkFormat::Unknown);
    assert_eq!(DownlinkFormat::from(255), DownlinkFormat::Unknown);
}

#[test]
fn square_roots_are_rounded_down() {
    assert_eq!(isqrt(0), 0);
    assert_eq!(isqrt(1), 1);
    assert_eq!(isqrt(3), 1);
    assert_eq!(isqrt(4), 2);
    assert_eq!(isqrt(99), 9);
    assert_eq!(isqrt(100), 10);
    assert_eq!(isqrt(25_345_000_000), 159_201);
    assert_eq!(isqrt(u64::MAX), u32::MAX);
    assert_eq!(isqrt((u32::MAX as u64) * (u32::MAX as u64) - 1), u32::MAX - 1);
}

#[test]
fn position_message_at_zero_feet_gives_zero() {
    // altitude code 0x058: the Q bit and 40 steps of 25 feet above -1000
    let msg = [0x8Du8, 0x40, 0x62, 0x1D, 0x58, 0x05, 0x80, 0, 0, 0, 0, 0, 0, 0];
    let mut aircraft = AircraftData::default();
    aircraft.icao_address = 0x40621D;
    let mut ctx = CprContext::new(256);
    decode_airborne_position(&msg, &mut aircraft, &mut ctx, 0);
    assert_eq!(aircraft.altitude_ft, Some(0));
    let decoded = decode_payload(&msg, &mut ctx, 0);
    assert_eq!(decoded.altitude_ft, Some(0));
    // without the Q bit the altitude stays as it was
    let gillham = [0x8Du8, 0x40, 0x62, 0x1D, 0x58, 0x04, 0x80, 0, 0, 0, 0, 0, 0, 0];
    let mut kept = AircraftData::default();
    kept.altitude_ft = Some(1_234);
    decode_airborne_position(&gillham, &mut kept, &mut ctx, 0);
    assert_eq!(kept.altitude_ft, Some(1_234));
    assert_eq!(decode_payload(&gillham, &mut ctx, 0).altitude_ft, None);
}
