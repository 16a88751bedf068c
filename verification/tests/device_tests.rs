use adsb_capture::device::{generate_device_hash, sanitize_string, serial_in_line, DeviceInfo};
use adsb_capture::schedule::{Due, Periodic, Schedule};
use std::collections::hash_map::DefaultHasher;
use std::hash::{Hash, Hasher};

fn hashed_by_std(manufacturer: &str, product: &str, device_index: u32) -> String {
    let mut hasher = DefaultHasher::new();
    manufacturer.hash(&mut hasher);
    product.hash(&mut hasher);
    device_index.hash(&mut hasher);
    format!("{:08X}", hasher.finish() as u32)
}

#[test]
fn sanitizing_keeps_printable_characters() {
    assert_eq!(sanitize_string("  Realtek  "), "Realtek");
    assert_eq!(sanitize_string("\u{1}Gen\u{7f}eric \u{e9}RTL\t2832U\n"), "Generic RTL2832U");
    assert_eq!(sanitize_string(" \u{3000} "), "");
    assert_eq!(sanitize_string(""), "");
    assert_eq!(sanitize_string("a  b"), "a  b");
    assert_eq!(sanitize_string("~ !"), "~ !");
}

#[test]
fn made_up_serial_is_the_hash_of_the_standard_library() {
    // the standard library hashes a number in the byte order of the
    // machine, the library lowest byte first; the number 0 reads the same
    assert_eq!(
        generate_device_hash(&Some("Realtek".to_string()), &Some("RTL2838UHIDIR".to_string()), 0),
        hashed_by_std("Realtek", "RTL2838UHIDIR", 0)
    );
    assert_eq!(generate_device_hash(&None, &None, 0), hashed_by_std("Unknown", "RTL-SDR", 0));
    assert_eq!(
        generate_device_hash(&Some("".to_string()), &None, 0x01020304),
        hashed_by_std("", "RTL-SDR", u32::from_le(0x01020304))
    );
    let id = generate_device_hash(&None, &Some("x".to_string()), 1);
    assert_eq!(id.len(), 8);
    assert!(id.chars().all(|c| c.is_ascii_digit() || ('A'..='F').contains(&c)));
    assert_ne!(id, generate_device_hash(&None, &Some("x".to_string()), 2));
}

#[test]
fn listing_gives_maker_product_and_serial() {
    let mut info = DeviceInfo::new();
    info.read_line("Found 1 device(s):", 0);
    assert_eq!((&info.manufacturer, &info.product, &info.raw_serial), (&None, &None, &None));
    assert_eq!(info.serial(0), None);
    info.read_line("  0:  Realtek, RTL2838UHIDIR, SN: 00000001", 0);
    assert_eq!(info.manufacturer, Some("Realtek".to_string()));
    assert_eq!(info.product, Some("RTL2838UHIDIR".to_string()));
    assert_eq!(info.raw_serial, Some("00000001".to_string()));
    info.read_line("Using device 0: Generic RTL2832U OEM", 0);
    assert_eq!(info.product, Some("RTL2838UHIDIR".to_string()));
    // a serial number that says nothing is made up from the rest
    let serial = info.serial(0).unwrap();
    assert_eq!(serial, generate_device_hash(&info.manufacturer, &info.product, 0));
    assert_ne!(serial, "00000001");
}

#[test]
fn listing_of_another_device_is_passed_over() {
    let mut info = DeviceInfo::new();
    info.read_line("  0:  Realtek, RTL2838UHIDIR, SN: 00000001", 1);
    info.read_line("  10:  Realtek, RTL2838UHIDIR, SN: 00000001", 1);
    assert_eq!((&info.manufacturer, &info.product, &info.raw_serial), (&None, &None, &None));
    info.read_line("1: Foo\u{7f}Bar , \u{1} , \tSN:  AB 12\u{2}3 , more", 1);
    assert_eq!(info.manufacturer, Some("FooBar".to_string()));
    assert_eq!(info.product, None);
    assert_eq!(info.raw_serial, Some("AB 12\u{2}3".to_string()));
    assert_eq!(info.serial(1), Some("AB 123".to_string()));
    info.read_line("Using device 1:  Generic\u{7} RTL2832U ", 1);
    assert_eq!(info.product, Some("Generic RTL2832U".to_string()));
    info.read_line("Using device 1: Other", 1);
    assert_eq!(info.product, Some("Generic RTL2832U".to_string()));
}

#[test]
fn entries_with_fewer_fields() {
    let mut info = DeviceInfo::new();
    info.read_line("3:", 3);
    assert_eq!((&info.manufacturer, &info.product, &info.raw_serial), (&None, &None, &None));
    info.read_line("3: Maker", 3);
    assert_eq!(info.manufacturer, Some("Maker".to_string()));
    assert_eq!(info.product, None);
    info.read_line("3: , Thing", 3);
    assert_eq!(info.manufacturer, Some("Maker".to_string()));
    assert_eq!(info.product, Some("Thing".to_string()));
    info.read_line("3: Other, , serial", 3);
    assert_eq!(info.manufacturer, Some("Other".to_string()));
    assert_eq!(info.product, Some("Thing".to_string()));
    assert_eq!(info.raw_serial, None);
    info.read_line("3: a, b, SN:", 3);
    assert_eq!(info.raw_serial, Some("".to_string()));
    assert_eq!(info.serial(3), Some(generate_device_hash(&info.manufacturer, &info.product, 3)));
    info.read_line("3: a, b, sn: 77", 3);
    assert_eq!(info.raw_serial, Some("".to_string()));
    info.read_line("3: a, b, SN: 0000000100", 3);
    assert_eq!(info.serial(3), Some("0000000100".to_string()));
    // the line that names the device needs its colon and a name
    let mut bare = DeviceInfo::new();
    bare.read_line("Using device 0", 0);
    bare.read_line("Using device 0:   ", 0);
    assert_eq!(bare.product, None);
    bare.read_line("Using device: \u{7f}", 0);
    assert_eq!(bare.product, Some("".to_string()));
}

#[test]
fn serial_number_in_a_line() {
    assert_eq!(
        serial_in_line("  0:  Realtek, RTL2838UHIDIR, SN: 00000001"),
        Some("00000001".to_string())
    );
    assert_eq!(serial_in_line("xxSN:abc def"), Some("abc".to_string()));
    assert_eq!(serial_in_line("SN: \u{e9}t\u{e9}1 "), Some("\u{e9}t\u{e9}1".to_string()));
    assert_eq!(serial_in_line("SN: ab-c"), None);
    assert_eq!(serial_in_line("SN:"), None);
    assert_eq!(serial_in_line("SN:   "), None);
    assert_eq!(serial_in_line("S N: 12"), None);
    assert_eq!(serial_in_line("sn: 12"), None);
    assert_eq!(serial_in_line(""), None);
    assert_eq!(serial_in_line("SN"), None);
    // the first marker decides
    assert_eq!(serial_in_line("SN: a,b SN: 12"), None);
}

#[test]
fn periodic_is_due_when_its_interval_has_passed() {
    let mut p = Periodic::new(500, 1_000);
    assert!(!p.poll(1_000));
    assert!(!p.poll(1_499));
    assert_eq!(p.last, 1_000);
    assert!(p.poll(1_500));
    assert_eq!(p.last, 1_500);
    assert!(!p.poll(1_999));
    assert!(p.poll(5_000));
    // a clock that steps back does not make it due
    assert!(!p.poll(0));
    assert_eq!(p.last, 5_000);
    let mut always = Periodic::new(0, 10);
    assert!(always.poll(10));
    assert!(always.poll(3));
}

#[test]
fn schedule_of_the_three_heartbeats() {
    let mut schedule = Schedule::new(0);
    assert_eq!(schedule.poll(499), Due { status: false, signal: false, summary: false });
    assert_eq!(schedule.poll(500), Due { status: false, signal: true, summary: false });
    assert_eq!(schedule.poll(900), Due { status: false, signal: false, summary: false });
    assert_eq!(schedule.poll(5_000), Due { status: true, signal: true, summary: false });
    assert_eq!(schedule.poll(9_999), Due { status: false, signal: true, summary: false });
    assert_eq!(schedule.poll(10_000), Due { status: true, signal: false, summary: true });
    assert_eq!(schedule.poll(20_000), Due { status: true, signal: true, summary: true });
    assert_eq!(schedule.status.last, 20_000);
}
