use fete::ports::{dial_in, offered_ports, text_at_most};

fn names(v: &[&str]) -> Vec<String> {
    v.iter().map(|s| s.to_string()).collect()
}

#[test]
fn macos_offers_only_the_call_out_halves_sorted() {
    let ports = names(&["/dev/tty.usbmodem1", "/dev/cu.usbmodem2", "/dev/cu.usbmodem1", "/dev/tty.Bluetooth"]);
    assert_eq!(
        offered_ports(ports, true),
        names(&["/dev/cu.usbmodem1", "/dev/cu.usbmodem2"])
    );
}

#[test]
fn elsewhere_every_port_is_offered_sorted_as_strings_sort() {
    let ports = names(&["/dev/ttyUSB1", "/dev/ttyACM0", "/dev/tty.x", "/dev/ttyACM", "/dev/ttyé", "/dev/ttyACM0"]);
    let mut expected = ports.clone();
    expected.sort();
    assert_eq!(offered_ports(ports, false), expected);
}

#[test]
fn dial_in_and_text_order() {
    assert!(dial_in("/dev/tty.usbmodem1"));
    assert!(!dial_in("/dev/ttyUSB0"));
    assert!(!dial_in("/dev/tty"));
    assert!(text_at_most("abc", "abd"));
    assert!(text_at_most("ab", "abc"));
    assert!(!text_at_most("abc", "ab"));
    assert!(text_at_most("same", "same"));
    assert!(text_at_most("Z", "a"));
}
