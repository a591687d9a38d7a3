use focus_send::device::{
    detect_device, is_supported, locate, Locate, PortEntry, PortKind, UsbId,
};

fn usb(name: &str, vid: u16, pid: u16) -> PortEntry {
    PortEntry { name: String::from(name), kind: PortKind::Usb(UsbId { vid, pid }) }
}

fn other(name: &str) -> PortEntry {
    PortEntry { name: String::from(name), kind: PortKind::Other }
}

#[test]
fn named_device_is_used_without_a_list() {
    match locate(Some(String::from("/dev/ttyACM7"))) {
        Locate::Use(device) => assert_eq!(device, "/dev/ttyACM7"),
        Locate::Enumerate => panic!("a named device needs no list of ports"),
    }
}

#[test]
fn named_device_is_not_checked() {
    match locate(Some(String::new())) {
        Locate::Use(device) => assert_eq!(device, ""),
        Locate::Enumerate => panic!("a named device needs no list of ports"),
    }
}

#[test]
fn without_a_name_the_ports_are_listed() {
    assert!(matches!(locate(None), Locate::Enumerate));
}

#[test]
fn detection_finds_the_one_supported_keyboard() {
    let ports = vec![
        other("/dev/ttyS0"),
        usb("/dev/ttyUSB0", 0x0403, 0x6001),
        usb("/dev/ttyACM0", 0x1209, 0x2301),
        other("/dev/ttyS1"),
    ];
    assert_eq!(detect_device(Some(ports)), Some(String::from("/dev/ttyACM0")));
}

#[test]
fn detection_without_a_match_finds_nothing() {
    let ports = vec![other("/dev/ttyS0"), usb("/dev/ttyUSB0", 0x0403, 0x6001)];
    assert_eq!(detect_device(Some(ports)), None);
}

#[test]
fn detection_in_an_empty_list_finds_nothing() {
    assert_eq!(detect_device(Some(Vec::new())), None);
}

#[test]
fn detection_after_a_failed_listing_finds_nothing() {
    assert_eq!(detect_device(None), None);
}

#[test]
fn detection_takes_the_first_of_several() {
    let ports = vec![
        usb("/dev/ttyACM1", 0x1209, 0x2303),
        usb("/dev/ttyACM0", 0x3496, 0x0006),
    ];
    assert_eq!(detect_device(Some(ports)), Some(String::from("/dev/ttyACM1")));
}

#[test]
fn detection_needs_both_numbers_to_match() {
    let ports = vec![
        usb("a", 0x3496, 0x2301),
        usb("b", 0x1209, 0x0006),
        usb("c", 0x2301, 0x1209),
    ];
    assert_eq!(detect_device(Some(ports)), None);
}

#[test]
fn supported_keyboards() {
    assert!(is_supported(UsbId { vid: 0x3496, pid: 0x0006 }));
    assert!(is_supported(UsbId { vid: 0x1209, pid: 0x2303 }));
    assert!(is_supported(UsbId { vid: 0x1209, pid: 0x2301 }));
    assert!(!is_supported(UsbId { vid: 0x1209, pid: 0x2302 }));
    assert!(!is_supported(UsbId { vid: 0, pid: 0 }));
}
