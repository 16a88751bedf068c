use adsb_capture::hexline::parse_hex_line;

#[test]
fn test_parse_hex_line_short() {
    let line = "*8D4840D6202CC371C32CE0576098;";
    let result = parse_hex_line(line);
    assert!(result.is_some());
    assert_eq!(result.unwrap().len(), 14);
}

#[test]
fn test_parse_hex_line_with_crlf() {
    let line = "*8D4840D6202CC371C32CE0576098;\r\n";
    let result = parse_hex_line(line);
    assert!(result.is_some());
}

#[test]
fn test_parse_hex_line_short_msg() {
    let line = "*02E197B2F3F9A1;";
    let result = parse_hex_line(line);
    assert!(result.is_some());
    assert_eq!(result.unwrap().len(), 7);
}

#[test]
fn test_parse_hex_line_invalid() {
    assert!(parse_hex_line("not a message").is_none());
    assert!(parse_hex_line("*invalid;").is_none());
    assert!(parse_hex_line("*12345;").is_none());
}

#[test]
fn hex_line_gives_the_bytes() {
    assert_eq!(
        parse_hex_line("  *02e197B2f3F9a1;  trailing"),
        Some(vec![0x02, 0xE1, 0x97, 0xB2, 0xF3, 0xF9, 0xA1])
    );
    assert_eq!(
        parse_hex_line("\u{3000}*8D4840D6202CC371C32CE0576098;;\u{a0}"),
        Some(hex::decode("8D4840D6202CC371C32CE0576098").unwrap())
    );
}

#[test]
fn hex_line_refuses_what_is_no_frame() {
    assert_eq!(parse_hex_line(""), None);
    assert_eq!(parse_hex_line("   "), None);
    assert_eq!(parse_hex_line("*"), None);
    assert_eq!(parse_hex_line("*;"), None);
    assert_eq!(parse_hex_line("*02E197B2F3F9A1"), None);
    assert_eq!(parse_hex_line("02E197B2F3F9A1;"), None);
    assert_eq!(parse_hex_line(";*02E197B2F3F9A1;"), None);
    assert_eq!(parse_hex_line("x*02E197B2F3F9A1;"), None);
    assert_eq!(parse_hex_line("*02E197B2F3F9A;"), None);
    assert_eq!(parse_hex_line("*02E197B2F3F9A1A;"), None);
    assert_eq!(parse_hex_line("*02E197B2F3F9G1;"), None);
    assert_eq!(parse_hex_line("*02E197 B2F3F9A;"), None);
    assert_eq!(parse_hex_line("*02E197B2F3F9\u{e9}1;"), None);
    assert_eq!(parse_hex_line("* 02E197B2F3F9A1;"), None);
}
