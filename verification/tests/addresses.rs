use rengarde::interfaces::{address_text, dotted, get_address_by_interface, is_usable, Interface};
use rengarde::net::{IpAddress, Ipv4Address, SocketAddress};

fn v4(a: u8, b: u8, c: u8, d: u8) -> Ipv4Address {
    Ipv4Address(a, b, c, d)
}

#[test]
fn global_addresses() {
    assert!(v4(8, 8, 8, 8).is_global());
    assert!(v4(1, 1, 1, 1).is_global());
    assert!(v4(172, 32, 0, 1).is_global());
    assert!(v4(192, 0, 0, 9).is_global());
    assert!(v4(192, 0, 0, 10).is_global());
    assert!(v4(100, 128, 0, 1).is_global());
    assert!(v4(198, 20, 0, 1).is_global());
}

#[test]
fn special_addresses_are_not_global() {
    assert!(!v4(0, 1, 2, 3).is_global());
    assert!(!v4(10, 0, 0, 1).is_global());
    assert!(!v4(172, 16, 0, 1).is_global());
    assert!(!v4(172, 31, 255, 255).is_global());
    assert!(!v4(192, 168, 1, 1).is_global());
    assert!(!v4(100, 64, 0, 1).is_global());
    assert!(!v4(127, 0, 0, 1).is_global());
    assert!(!v4(169, 254, 10, 10).is_global());
    assert!(!v4(192, 0, 0, 8).is_global());
    assert!(!v4(192, 0, 2, 1).is_global());
    assert!(!v4(198, 51, 100, 7).is_global());
    assert!(!v4(203, 0, 113, 5).is_global());
    assert!(!v4(198, 18, 0, 1).is_global());
    assert!(!v4(198, 19, 255, 1).is_global());
    assert!(!v4(240, 0, 0, 1).is_global());
    assert!(!v4(255, 255, 255, 255).is_global());
}

#[test]
fn address_classes() {
    assert!(v4(100, 64, 0, 0).is_shared());
    assert!(v4(100, 127, 255, 255).is_shared());
    assert!(!v4(100, 63, 0, 0).is_shared());
    assert!(!v4(100, 128, 0, 0).is_shared());
    assert!(v4(240, 0, 0, 1).is_reserved());
    assert!(!v4(255, 255, 255, 255).is_reserved());
    assert!(v4(255, 255, 255, 255).is_broadcast());
    assert!(v4(198, 19, 0, 0).is_benchmarking());
    assert!(v4(192, 0, 2, 200).is_documentation());
    assert!(v4(127, 9, 9, 9).is_loopback());
    assert!(v4(169, 254, 0, 1).is_link_local());
    assert!(v4(10, 1, 1, 1).is_private());
}

#[test]
fn usable_addresses() {
    assert!(is_usable(&IpAddress::V4(v4(100, 64, 3, 4))));
    assert!(is_usable(&IpAddress::V4(v4(9, 9, 9, 9))));
    assert!(!is_usable(&IpAddress::V4(v4(192, 168, 0, 2))));
    assert!(!is_usable(&IpAddress::V6(1)));
}

#[test]
fn first_usable_address_of_interface() {
    let iface = Interface {
        name: String::from("wlan0"),
        addrs: vec![
            IpAddress::V6(0xfe80_0000_0000_0000_0000_0000_0000_0001),
            IpAddress::V4(v4(10, 0, 0, 2)),
            IpAddress::V4(v4(100, 64, 1, 2)),
            IpAddress::V4(v4(8, 8, 4, 4)),
        ],
    };
    assert_eq!(get_address_by_interface(&iface), Some(IpAddress::V4(v4(100, 64, 1, 2))));
    assert_eq!(address_text(&iface), "100.64.1.2");
}

#[test]
fn interface_without_usable_address() {
    let iface = Interface {
        name: String::from("lo"),
        addrs: vec![IpAddress::V4(v4(127, 0, 0, 1)), IpAddress::V6(1)],
    };
    assert_eq!(get_address_by_interface(&iface), None);
    assert_eq!(address_text(&iface), "");
    let empty = Interface { name: String::from("dummy0"), addrs: vec![] };
    assert_eq!(get_address_by_interface(&empty), None);
}

#[test]
fn dotted_decimal() {
    assert_eq!(dotted(&v4(1, 22, 255, 0)), "1.22.255.0");
    assert_eq!(dotted(&v4(0, 0, 0, 0)), "0.0.0.0");
    assert_eq!(dotted(&v4(203, 0, 113, 99)), "203.0.113.99");
    assert_eq!(dotted(&v4(100, 10, 9, 109)), "100.10.9.109");
}

#[test]
fn socket_address_parts() {
    let a = SocketAddress::new(IpAddress::V4(v4(192, 0, 2, 1)), 0);
    assert_eq!(a, SocketAddress::V4 { ip: v4(192, 0, 2, 1), port: 0 });
    assert_eq!(a.ip(), IpAddress::V4(v4(192, 0, 2, 1)));
    let b = SocketAddress::new(IpAddress::V6(7), 51820);
    assert_eq!(b, SocketAddress::V6 { ip: 7, port: 51820, flowinfo: 0, scope_id: 0 });
    assert_eq!(Ipv4Address::unspecified(), v4(0, 0, 0, 0));
}
