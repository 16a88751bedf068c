use adsb_capture::crc::{check_crc, compute_crc24, get_df, get_icao, verify_crc};

#[test]
fn test_crc24() {
    let msg = hex::decode("8D4840D6202CC371C32CE0576098").unwrap();
    let crc = compute_crc24(&msg, 112);
    assert_eq!(crc, 0);
}

#[test]
fn test_get_icao() {
    let msg = hex::decode("8D4840D6202CC371C32CE0576098").unwrap();
    assert_eq!(get_icao(&msg), 0x4840D6);
}

#[test]
fn test_get_df() {
    let msg = hex::decode("8D4840D6202CC371C32CE0576098").unwrap();
    assert_eq!(get_df(&msg), 17);
}

#[test]
fn check_crc_accepts_only_long_checkable_frames() {
    let msg = hex::decode("8D4840D6202CC371C32CE0576098").unwrap();
    assert_eq!(check_crc(&msg), Ok(()));
    assert!(verify_crc(&msg));
    let mut broken = msg.clone();
    broken[13] ^= 1;
    assert_eq!(check_crc(&broken), Err(()));
    assert!(!verify_crc(&broken));
    let short = hex::decode("02E197B2F3F9A1").unwrap();
    assert!(!verify_crc(&short));
    assert!(!verify_crc(&[]));
    assert!(!verify_crc(&msg[..13]));
}
