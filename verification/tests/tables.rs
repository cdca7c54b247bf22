use rengarde::client::routines::{RoutineError, RoutineState, Routines, WriteBack};
use rengarde::client::service::{
    binds_to_device, closing_key, contains_name, drop_reason, pick_destination, Service,
};
use rengarde::client::routines::DropReason;
use rengarde::client::settings::ClientSettings;
use rengarde::interfaces::Interface;
use rengarde::net::{IpAddress, Ipv4Address, SocketAddress};
use rengarde::server::clients::{contains_address, elapsed_secs, ClientRecord, ClientTable};

fn sock(a: u8, port: u16) -> SocketAddress {
    SocketAddress::V4 { ip: Ipv4Address(203, 0, 113, a), port }
}

fn ip(a: u8, b: u8, c: u8, d: u8) -> IpAddress {
    IpAddress::V4(Ipv4Address(a, b, c, d))
}

fn iface(name: &str, addrs: Vec<IpAddress>) -> Interface {
    Interface { name: String::from(name), addrs }
}

fn settings(excluded: Vec<&str>) -> ClientSettings {
    ClientSettings {
        description: None,
        listen_addr: String::from("127.0.0.1:59401"),
        dst_addr: String::from("198.51.100.1:59402"),
        write_timeout: Some(0),
        excluded_interfaces: excluded.into_iter().map(String::from).collect(),
        web_manager: None,
    }
}

#[test]
fn elapsed_seconds() {
    const S: u64 = 1_000_000_000;
    assert_eq!(elapsed_secs(31 * S - 1, S), 29);
    assert_eq!(elapsed_secs(31 * S, S), 30);
    assert_eq!(elapsed_secs(32 * S, S), 31);
    assert_eq!(elapsed_secs(S / 2, S), 0);
}

#[test]
fn record_new_and_known_clients() {
    let mut t = ClientTable::new();
    assert_eq!(t.len(), 0);
    assert!(t.record_packet(sock(1, 4000), 1_000, 100));
    assert!(!t.record_packet(sock(1, 4000), 2_500, 50));
    assert!(t.record_packet(sock(1, 4001), 3_000, 7));
    assert_eq!(t.len(), 2);
    assert_eq!(
        t.get(&sock(1, 4000)),
        Some(ClientRecord { last_received_at: 2_500, total_received_bytes: 150 })
    );
    assert_eq!(
        t.get(&sock(1, 4001)),
        Some(ClientRecord { last_received_at: 3_000, total_received_bytes: 7 })
    );
    assert_eq!(t.get(&sock(2, 4000)), None);
}

#[test]
fn partition_by_timeout() {
    const S: u64 = 1_000_000_000;
    let mut t = ClientTable::new();
    t.record_packet(sock(1, 1), 0, 10);
    t.record_packet(sock(2, 2), 10 * S, 10);
    t.record_packet(sock(3, 3), 40 * S, 10);
    // one nanosecond before 41 s, with a 30 s timeout: client 1 is 40 s
    // silent, client 2 not yet 31 s
    let (dropped, kept) = t.partition(41 * S - 1, 30);
    assert_eq!(dropped, vec![sock(1, 1)]);
    assert_eq!(kept, vec![sock(2, 2), sock(3, 3)]);
    let (dropped, kept) = t.partition(41 * S, 30);
    assert_eq!(dropped, vec![sock(1, 1), sock(2, 2)]);
    assert_eq!(kept, vec![sock(3, 3)]);
}

#[test]
fn round_drops_timed_out_and_failed() {
    const S: u64 = 1_000_000_000;
    let mut t = ClientTable::new();
    t.record_packet(sock(1, 1), 0, 10);
    t.record_packet(sock(2, 2), 50 * S, 10);
    t.record_packet(sock(3, 3), 50 * S, 10);
    let (dropped, kept) = t.partition(60 * S, 30);
    assert_eq!(kept.len(), 2);
    t.end_round(dropped, vec![sock(3, 3)]);
    assert_eq!(t.len(), 1);
    assert!(t.get(&sock(2, 2)).is_some());
    assert!(t.get(&sock(1, 1)).is_none());
    assert!(t.get(&sock(3, 3)).is_none());
}

#[test]
fn remove_some_clients() {
    let mut t = ClientTable::new();
    t.record_packet(sock(1, 1), 0, 1);
    t.record_packet(sock(2, 2), 0, 2);
    t.remove_clients(&vec![sock(2, 2), sock(9, 9)]);
    assert_eq!(t.len(), 1);
    assert!(t.get(&sock(1, 1)).is_some());
    t.end_round(vec![], vec![]);
    assert_eq!(t.len(), 1);
    assert!(contains_address(&vec![sock(1, 1)], &sock(1, 1)));
    assert!(!contains_address(&vec![sock(1, 1)], &sock(1, 2)));
}

#[test]
fn routine_table_basics() {
    let mut r = Routines::new();
    let name = String::from("eth0");
    assert!(!r.contains(&name));
    let st = RoutineState::new(ip(100, 64, 0, 5), sock(1, 59402), 1_000);
    assert_eq!(st.src_addr, SocketAddress::V4 { ip: Ipv4Address(100, 64, 0, 5), port: 0 });
    assert_eq!(st.total_received_bytes, 0);
    assert!(!st.is_closing);
    r.add(name.clone(), st);
    assert!(r.contains(&name));
    assert_eq!(r.get(&name), Some(st));
    assert_eq!(r.names(), vec![name.clone()]);
    assert_eq!(r.remove(&name), Some(st));
    assert_eq!(r.get(&name), None);
    assert_eq!(r.remove(&name), None);
}

#[test]
fn write_back_lifecycle() {
    let mut r = Routines::new();
    let name = String::from("wwan0");
    assert_eq!(r.write_back_step(&name), Err(RoutineError::NotFound));
    assert_eq!(r.record_received(&name, 5, 5), Err(RoutineError::NotFound));
    assert_eq!(r.mark_closing(&name), Err(RoutineError::NotFound));
    r.add(name.clone(), RoutineState::new(ip(8, 8, 8, 8), sock(1, 1), 0));
    assert_eq!(r.write_back_step(&name), Ok(WriteBack::Listen));
    assert_eq!(r.record_received(&name, 2_000, 300), Ok(()));
    assert_eq!(r.record_received(&name, 3_000, 200), Ok(()));
    let st = r.get(&name).unwrap();
    assert_eq!(st.last_received_at, 3_000);
    assert_eq!(st.total_received_bytes, 500);
    assert_eq!(r.mark_closing(&name), Ok(()));
    assert_eq!(r.write_back_step(&name), Ok(WriteBack::Stop));
    assert_eq!(r.get(&name).unwrap().total_received_bytes, 500);
}

#[test]
fn remove_all_routines() {
    let mut r = Routines::new();
    for n in ["a", "b", "c"] {
        r.add(String::from(n), RoutineState::new(ip(8, 8, 8, 8), sock(1, 1), 0));
    }
    r.remove_all(&vec![String::from("a"), String::from("c"), String::from("z")]);
    assert_eq!(r.names(), vec![String::from("b")]);
}

#[test]
fn drop_reasons() {
    let ifaces = vec![
        iface("eth0", vec![ip(8, 8, 8, 8)]),
        iface("wlan0", vec![ip(192, 168, 1, 4)]),
        iface("wwan0", vec![ip(100, 64, 9, 9)]),
        iface("eth0", vec![ip(9, 9, 9, 9)]),
    ];
    let excluded = vec![String::from("docker0")];
    let at = |a: IpAddress| RoutineState::new(a, sock(1, 1), 0);
    let name = |s: &str| String::from(s);
    assert_eq!(drop_reason(&name("eth0"), &at(ip(8, 8, 8, 8)), &ifaces, &excluded), None);
    assert_eq!(
        drop_reason(&name("eth0"), &at(ip(9, 9, 9, 9)), &ifaces, &excluded),
        Some(DropReason::AddressChanged)
    );
    assert_eq!(
        drop_reason(&name("wlan0"), &at(ip(192, 168, 1, 4)), &ifaces, &excluded),
        Some(DropReason::NoAddress)
    );
    assert_eq!(
        drop_reason(&name("ppp0"), &at(ip(8, 8, 8, 8)), &ifaces, &excluded),
        Some(DropReason::Gone)
    );
    assert_eq!(
        drop_reason(&name("docker0"), &at(ip(8, 8, 8, 8)), &ifaces, &excluded),
        Some(DropReason::Excluded)
    );
    assert!(contains_name(&excluded, &name("docker0")));
    assert!(!contains_name(&excluded, &name("docker")));
}

#[test]
fn interface_update_pass() {
    let mut svc = Service::new(settings(vec!["eth1"]));
    assert_eq!(svc.source_addr, SocketAddress::V4 { ip: Ipv4Address(0, 0, 0, 0), port: 0 });
    let dst = sock(1, 59402);
    svc.routines.add(String::from("eth0"), RoutineState::new(ip(8, 8, 8, 8), dst, 0));
    svc.routines.add(String::from("eth1"), RoutineState::new(ip(9, 9, 9, 9), dst, 0));
    svc.routines.add(String::from("wwan0"), RoutineState::new(ip(100, 64, 0, 1), dst, 0));
    svc.routines.add(String::from("usb0"), RoutineState::new(ip(1, 1, 1, 1), dst, 0));
    let ifaces = vec![
        iface("eth0", vec![ip(8, 8, 8, 8)]),
        iface("eth1", vec![ip(9, 9, 9, 9)]),
        iface("wwan0", vec![ip(100, 64, 0, 2)]),
        iface("wlan0", vec![IpAddress::V6(5), ip(4, 4, 4, 4)]),
        iface("lo", vec![ip(127, 0, 0, 1)]),
    ];
    let mut stale = svc.stale_routines(&ifaces);
    stale.sort_by(|a, b| a.0.cmp(&b.0));
    assert_eq!(
        stale,
        vec![
            (String::from("eth1"), DropReason::Excluded),
            (String::from("usb0"), DropReason::Gone),
            (String::from("wwan0"), DropReason::AddressChanged),
        ]
    );
    svc.drop_routines(&stale);
    assert_eq!(svc.routines.names(), vec![String::from("eth0")]);
    let candidates: Vec<Option<IpAddress>> =
        ifaces.iter().map(|i| svc.creation_candidate(i)).collect();
    assert_eq!(
        candidates,
        vec![None, None, Some(ip(100, 64, 0, 2)), Some(ip(4, 4, 4, 4)), None]
    );
    // routines created from the candidates are current at the next check
    svc.routines.add(String::from("wwan0"), RoutineState::new(ip(100, 64, 0, 2), dst, 5));
    svc.routines.add(String::from("wlan0"), RoutineState::new(ip(4, 4, 4, 4), dst, 5));
    assert!(svc.stale_routines(&ifaces).is_empty());
    assert_eq!(svc.creation_candidate(&ifaces[2]), None);
    svc.set_source_addr(sock(7, 51820));
    assert_eq!(svc.source_addr, sock(7, 51820));
}

#[test]
fn destination_and_device() {
    assert_eq!(pick_destination(&vec![]), None);
    assert_eq!(pick_destination(&vec![sock(1, 1), sock(2, 2)]), Some(sock(1, 1)));
    assert!(binds_to_device(&String::from("eth0")));
    assert!(!binds_to_device(&String::new()));
    assert_eq!(closing_key(&String::from("eth0"), true), None);
    assert_eq!(closing_key(&String::from("eth0"), false), Some(String::from("eth0")));
}

#[test]
fn record_counts_packets_since_entry() {
    let mut t = ClientTable::new();
    let a = sock(1, 1);
    t.record_packet(a, 100, 10);
    t.record_packet(sock(2, 2), 150, 99);
    t.record_packet(a, 200, 20);
    t.remove_clients(&vec![sock(2, 2)]);
    t.record_packet(a, 300, 30);
    assert_eq!(t.get(&a), Some(ClientRecord { last_received_at: 300, total_received_bytes: 60 }));
    t.remove_clients(&vec![a]);
    t.record_packet(a, 400, 5);
    assert_eq!(t.get(&a), Some(ClientRecord { last_received_at: 400, total_received_bytes: 5 }));
}

#[test]
fn excluded_interfaces_never_get_routines() {
    let mut svc = Service::new(settings(vec!["eth1"]));
    let ifaces = vec![iface("eth1", vec![ip(8, 8, 8, 8)]), iface("eth0", vec![ip(9, 9, 9, 9)])];
    assert_eq!(svc.creation_candidate(&ifaces[0]), None);
    assert_eq!(svc.creation_candidate(&ifaces[1]), Some(ip(9, 9, 9, 9)));
    svc.routines.add(String::from("eth0"), RoutineState::new(ip(9, 9, 9, 9), sock(1, 1), 0));
    assert!(svc.stale_routines(&ifaces).is_empty());
    assert_eq!(svc.creation_candidate(&ifaces[1]), None);
}

#[test]
fn routine_records_move_forward() {
    let mut r = Routines::new();
    let name = String::from("eth0");
    r.add(name.clone(), RoutineState::new(ip(8, 8, 8, 8), sock(1, 1), 10));
    r.record_received(&name, 20, 100).unwrap();
    r.mark_closing(&name).unwrap();
    r.record_received(&name, 30, 1).unwrap();
    let st = r.get(&name).unwrap();
    assert!(st.is_closing);
    assert_eq!(st.total_received_bytes, 101);
    assert_eq!(st.last_received_at, 30);
}
