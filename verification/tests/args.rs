use port_sniffer::args::{end_port_guard, start_port_guard, Arguments, FIRST, MAX};

#[test]
fn start_guard_refuses_zero_only() {
    assert!(!start_port_guard(&0));
    assert!(start_port_guard(&1));
    assert!(start_port_guard(&8000));
    assert!(start_port_guard(&65535));
}

#[test]
fn end_guard_accepts_every_port() {
    assert!(end_port_guard(&0));
    assert!(end_port_guard(&1));
    assert!(end_port_guard(&65534));
    assert!(end_port_guard(&65535));
}

#[test]
fn bounds_are_the_first_and_the_last_port() {
    assert_eq!(FIRST, 1);
    assert_eq!(MAX, 65535);
    assert_eq!(MAX, u16::MAX);
}

#[test]
fn default_arguments_sweep_loopback() {
    let d = Arguments::default();
    assert_eq!(d.address, "127.0.0.1");
    assert_eq!(d.start_port, 1);
    assert_eq!(d.end_port, 65535);
    assert!(d.is_accepted());
}

#[test]
fn arguments_with_start_zero_are_not_accepted() {
    let a = Arguments { address: String::from("10.0.0.7"), start_port: 0, end_port: 100 };
    assert!(!a.is_accepted());
    let b = Arguments { address: String::from("10.0.0.7"), start_port: 1, end_port: 100 };
    assert!(b.is_accepted());
}

#[test]
fn arguments_can_be_cloned() {
    let a = Arguments { address: String::from("::1"), start_port: 20, end_port: 30 };
    let b = a.clone();
    assert_eq!(b.address, "::1");
    assert_eq!(b.start_port, 20);
    assert_eq!(b.end_port, 30);
}
