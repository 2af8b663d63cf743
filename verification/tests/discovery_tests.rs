use controll::discovery::Discovery;
use controll::protocol::{DiscEvent, MapMode, Message};

fn disc(id: &str, name: &str, port: u16) -> Discovery {
    Discovery::new(id.to_string(), name.to_string(), port)
}

fn beacon(id: &str, name: &str, ip: &str, port: u16) -> Message {
    Message::Beacon {
        instance_id: id.to_string(),
        name: name.to_string(),
        ip: ip.to_string(),
        ws_port: port,
        version: 1,
    }
}

#[test]
fn foreign_beacon_enters_registry_and_reports() {
    let mut b = disc("B", "host-b", 8765);
    let events = b.handle_message(2050, beacon("A", "host-a", "10.0.0.2", 9000), "10.0.0.2".to_string());
    assert_eq!(b.devices.len(), 1);
    assert_eq!(b.devices[0].0, "A");
    assert_eq!(b.devices[0].1.name, "host-a");
    assert_eq!(b.devices[0].1.ws_port, 9000);
    assert_eq!(b.devices[0].1.last_seen, 2050);
    assert_eq!(events.len(), 1);
    match &events[0] {
        DiscEvent::DevicesChanged(list) => assert_eq!(list.len(), 1),
        _ => panic!("expected a snapshot event"),
    }
}

#[test]
fn own_beacon_never_enters_registry() {
    let mut b = disc("B", "host-b", 8765);
    let events = b.handle_message(100, beacon("B", "elsewhere", "10.9.9.9", 1), "10.9.9.9".to_string());
    assert_eq!(b.devices.len(), 0);
    assert_eq!(events.len(), 0);
}

#[test]
fn renaming_beacon_overwrites_whole_record() {
    let mut b = disc("B", "host-b", 8765);
    b.handle_message(100, beacon("A", "old-name", "10.0.0.2", 9000), "s".to_string());
    b.handle_message(200, beacon("A", "new-name", "10.0.0.3", 9001), "s".to_string());
    assert_eq!(b.devices.len(), 1);
    assert_eq!(b.devices[0].1.name, "new-name");
    assert_eq!(b.devices[0].1.ip, "10.0.0.3");
    assert_eq!(b.devices[0].1.ws_port, 9001);
    assert_eq!(b.devices[0].1.last_seen, 200);
}

#[test]
fn foreign_request_is_ignored() {
    let mut b = disc("B", "host-b", 8765);
    let m = Message::RequestControl {
        from: "A".to_string(),
        to: Some("C".to_string()),
        name: "host-a".to_string(),
        ws_host: "10.0.0.2".to_string(),
        ws_port: 9000,
        options: MapMode::Relative,
    };
    let events = b.handle_message(0, m, "10.0.0.2".to_string());
    assert_eq!(events.len(), 0);
    assert_eq!(b.devices.len(), 0);
}

#[test]
fn addressed_and_broadcast_requests_are_reported() {
    let mut b = disc("B", "host-b", 8765);
    for to in [Some("B".to_string()), None] {
        let m = Message::RequestControl {
            from: "A".to_string(),
            to,
            name: "host-a".to_string(),
            ws_host: "10.0.0.2".to_string(),
            ws_port: 9000,
            options: MapMode::Relative,
        };
        let events = b.handle_message(0, m, "10.0.0.2".to_string());
        assert_eq!(events.len(), 1);
        match &events[0] {
            DiscEvent::RequestReceived { from_inst, from_name, ws_host, ws_port } => {
                assert_eq!(from_inst, "A");
                assert_eq!(from_name, "host-a");
                assert_eq!(ws_host, "10.0.0.2");
                assert_eq!(*ws_port, 9000);
            }
            _ => panic!("expected a request event"),
        }
    }
}

#[test]
fn acceptance_carries_source_address_and_advertised_port() {
    let mut a = disc("A", "host-a", 8765);
    a.handle_message(0, beacon("B", "host-b", "10.0.0.3", 9100), "10.0.0.3".to_string());
    let m = Message::ResponseControl { from: "B".to_string(), accepted: true };
    // the response arrives from an address other than the one B advertised
    let events = a.handle_message(10, m, "192.168.1.9".to_string());
    assert_eq!(events.len(), 1);
    match &events[0] {
        DiscEvent::ResponseAccepted { host, port } => {
            assert_eq!(host, "192.168.1.9");
            assert_eq!(*port, 9100);
        }
        _ => panic!("expected an acceptance event"),
    }
}

#[test]
fn acceptance_from_unknown_peer_falls_back_to_own_port() {
    let mut a = disc("A", "host-a", 8765);
    let m = Message::ResponseControl { from: "stranger".to_string(), accepted: true };
    let events = a.handle_message(10, m, "10.0.0.8".to_string());
    assert_eq!(events.len(), 1);
    match &events[0] {
        DiscEvent::ResponseAccepted { host, port } => {
            assert_eq!(host, "10.0.0.8");
            assert_eq!(*port, 8765);
        }
        _ => panic!("expected an acceptance event"),
    }
}

#[test]
fn beacon_listen_prune_timeline() {
    // peer A broadcasts every 2 s; B starts listening at t = 0
    let mut a = disc("A", "host-a", 9000);
    let mut b = disc("B", "host-b", 8765);
    let mut last_beacon_a: u64 = 0;
    let mut last_beacon_b: u64 = 0;

    // at t = 2.0 s a beacon of A is due and goes out
    let out_a = a.tick(2000, &mut last_beacon_a, "10.0.0.2".to_string(), None);
    let beacon_text = out_a.beacon.expect("a beacon is due at 2.0 s");

    // B receives it shortly after; by t = 2.1 s the registry holds A
    let out_b = b.tick(
        2050,
        &mut last_beacon_b,
        "10.0.0.3".to_string(),
        Some((beacon_text, "10.0.0.2".to_string())),
    );
    assert!(out_b.events.len() >= 1);
    assert_eq!(b.devices.len(), 1);
    assert_eq!(b.devices[0].0, "A");
    assert!(b.devices[0].1.last_seen >= 2000 && b.devices[0].1.last_seen <= 2100);

    // A stops broadcasting; at t = 10.1 s its record has expired
    let out_b2 = b.tick(10100, &mut last_beacon_b, "10.0.0.3".to_string(), None);
    assert_eq!(b.devices.len(), 0);
    let saw_empty_snapshot = out_b2.events.iter().any(|e| match e {
        DiscEvent::DevicesChanged(list) => list.is_empty(),
        _ => false,
    });
    assert!(saw_empty_snapshot);
}

#[test]
fn peer_fresh_within_ttl_is_retained() {
    // a peer that missed beacons but is within the TTL stays
    let mut b = disc("B", "host-b", 8765);
    b.handle_message(1000, beacon("A", "host-a", "10.0.0.2", 9000), "s".to_string());
    let mut lb: u64 = u64::MAX - 10000;
    // 8 s after the last beacon: exactly at the TTL, still present
    b.tick(9000, &mut lb, "ip".to_string(), None);
    assert_eq!(b.devices.len(), 1);
    // one millisecond later it is evicted
    b.tick(9001, &mut lb, "ip".to_string(), None);
    assert_eq!(b.devices.len(), 0);
}

#[test]
fn decline_round_trip_yields_no_acceptance() {
    // A asks B for control; B declines; A sees a decline and no acceptance
    let a = disc("A", "host-a", 9000);
    let mut b = disc("B", "host-b", 8765);
    let mut a2 = disc("A", "host-a", 9000);

    let request_text = a.request_datagram("10.0.0.2".to_string(), Some("B".to_string()), MapMode::Relative);
    let mut lb_b: u64 = 5000;
    let out_b = b.tick(100, &mut lb_b, "10.0.0.3".to_string(), Some((request_text, "10.0.0.2".to_string())));
    let got_request = out_b.events.iter().any(|e| matches!(e, DiscEvent::RequestReceived { .. }));
    assert!(got_request);

    // B's policy layer declines
    let response_text = b.response_datagram(false);
    let mut lb_a: u64 = 5000;
    let out_a = a2.tick(200, &mut lb_a, "10.0.0.2".to_string(), Some((response_text, "10.0.0.3".to_string())));
    let any_accepted = out_a.events.iter().any(|e| matches!(e, DiscEvent::ResponseAccepted { .. }));
    let any_declined = out_a.events.iter().any(|e| matches!(e, DiscEvent::ResponseDeclined { .. }));
    assert!(!any_accepted);
    assert!(any_declined);
}

#[test]
fn emitted_beacon_advertises_this_host() {
    let mut a = disc("A", "host-a", 9000);
    let mut lb: u64 = 0;
    let out = a.tick(2000, &mut lb, "10.0.0.2".to_string(), None);
    let text = out.beacon.expect("a beacon is due");
    match controll::codec::parse_message(&text) {
        Some(Message::Beacon { instance_id, name, ip, ws_port, version }) => {
            assert_eq!(instance_id, "A");
            assert_eq!(name, "host-a");
            assert_eq!(ip, "10.0.0.2");
            assert_eq!(ws_port, 9000);
            assert_eq!(version, 1);
        }
        _ => panic!("the emitted beacon did not parse back"),
    }
}

#[test]
fn beacon_not_due_before_interval() {
    let mut a = disc("A", "host-a", 9000);
    let mut lb: u64 = 1000;
    let out = a.tick(2999, &mut lb, "10.0.0.2".to_string(), None);
    assert!(out.beacon.is_none());
    assert_eq!(lb, 1000);
    let out2 = a.tick(3000, &mut lb, "10.0.0.2".to_string(), None);
    assert!(out2.beacon.is_some());
    assert_eq!(lb, 3000);
}
