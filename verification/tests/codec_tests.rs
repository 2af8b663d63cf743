use controll::codec::{encode_message, encode_pointer_event, parse_message, parse_pointer_event};
use controll::protocol::{MapMode, Message, PointerEvent};

fn beacon(id: &str, name: &str, ip: &str, port: u16) -> Message {
    Message::Beacon {
        instance_id: id.to_string(),
        name: name.to_string(),
        ip: ip.to_string(),
        ws_port: port,
        version: 1,
    }
}

#[test]
fn pointer_event_exact_text() {
    let e = PointerEvent { x: 100, y: 240 };
    assert_eq!(
        encode_pointer_event(e),
        "{\"type\":\"mouse_move\",\"x\":100,\"y\":240}"
    );
}

#[test]
fn pointer_event_round_trip() {
    let e = PointerEvent { x: 100, y: 240 };
    assert_eq!(parse_pointer_event(&encode_pointer_event(e)), Some(e));
}

#[test]
fn pointer_event_round_trip_negative_and_extreme() {
    for e in [
        PointerEvent { x: -5, y: 0 },
        PointerEvent { x: 0, y: -2147483648 },
        PointerEvent { x: 2147483647, y: -1 },
        PointerEvent { x: -2147483648, y: 2147483647 },
    ] {
        assert_eq!(parse_pointer_event(&encode_pointer_event(e)), Some(e));
    }
}

#[test]
fn pointer_event_rejects_malformed() {
    assert_eq!(parse_pointer_event(""), None);
    assert_eq!(parse_pointer_event("{\"type\":\"mouse_move\",\"x\":1,\"y\":}"), None);
    assert_eq!(parse_pointer_event("{\"type\":\"mouse_move\",\"x\":1,\"y\":2}x"), None);
    assert_eq!(parse_pointer_event("{\"type\":\"key\",\"x\":1,\"y\":2}"), None);
    // a coordinate outside 32-bit range is malformed
    assert_eq!(
        parse_pointer_event("{\"type\":\"mouse_move\",\"x\":2147483648,\"y\":0}"),
        None
    );
    // an overlong digit run is malformed
    assert_eq!(
        parse_pointer_event("{\"type\":\"mouse_move\",\"x\":111111111111,\"y\":0}"),
        None
    );
}

#[test]
fn beacon_round_trip() {
    let m = beacon("0a1b-2c3d", "my-host", "192.168.1.7", 8765);
    let text = encode_message(&m);
    match parse_message(&text) {
        Some(Message::Beacon { instance_id, name, ip, ws_port, version }) => {
            assert_eq!(instance_id, "0a1b-2c3d");
            assert_eq!(name, "my-host");
            assert_eq!(ip, "192.168.1.7");
            assert_eq!(ws_port, 8765);
            assert_eq!(version, 1);
        }
        other => panic!("beacon did not parse back: {:?}", other.is_some()),
    }
}

#[test]
fn beacon_escaping_round_trip() {
    let m = beacon("id-1", "host \"with\" \\slashes\\", "10.0.0.1", 1);
    let text = encode_message(&m);
    match parse_message(&text) {
        Some(Message::Beacon { name, .. }) => {
            assert_eq!(name, "host \"with\" \\slashes\\");
        }
        _ => panic!("escaped beacon did not parse back"),
    }
}

#[test]
fn request_round_trip_targeted() {
    let m = Message::RequestControl {
        from: "a".to_string(),
        to: Some("b".to_string()),
        name: "alpha".to_string(),
        ws_host: "10.1.2.3".to_string(),
        ws_port: 9000,
        options: MapMode::Relative,
    };
    let text = encode_message(&m);
    match parse_message(&text) {
        Some(Message::RequestControl { from, to, name, ws_host, ws_port, options }) => {
            assert_eq!(from, "a");
            assert_eq!(to.as_deref(), Some("b"));
            assert_eq!(name, "alpha");
            assert_eq!(ws_host, "10.1.2.3");
            assert_eq!(ws_port, 9000);
            assert_eq!(options, MapMode::Relative);
        }
        _ => panic!("targeted request did not parse back"),
    }
}

#[test]
fn request_round_trip_broadcast() {
    let m = Message::RequestControl {
        from: "a".to_string(),
        to: None,
        name: "alpha".to_string(),
        ws_host: "10.1.2.3".to_string(),
        ws_port: 9000,
        options: MapMode::Absolute,
    };
    let text = encode_message(&m);
    match parse_message(&text) {
        Some(Message::RequestControl { to, options, .. }) => {
            assert_eq!(to, None);
            assert_eq!(options, MapMode::Absolute);
        }
        _ => panic!("broadcast request did not parse back"),
    }
}

#[test]
fn response_round_trip() {
    for accepted in [true, false] {
        let m = Message::ResponseControl { from: "resp".to_string(), accepted };
        let text = encode_message(&m);
        match parse_message(&text) {
            Some(Message::ResponseControl { from, accepted: a }) => {
                assert_eq!(from, "resp");
                assert_eq!(a, accepted);
            }
            _ => panic!("response did not parse back"),
        }
    }
}

#[test]
fn discovery_messages_reject_malformed() {
    assert!(parse_message("").is_none());
    assert!(parse_message("not json at all").is_none());
    assert!(parse_message("{\"type\":\"unknown\",\"x\":1}").is_none());
    // trailing garbage is malformed
    let text = encode_message(&Message::ResponseControl { from: "r".to_string(), accepted: true });
    let mut with_tail = text.clone();
    with_tail.push(' ');
    assert!(parse_message(&text).is_some());
    assert!(parse_message(&with_tail).is_none());
    // a port outside 16-bit range is malformed
    assert!(parse_message(
        "{\"type\":\"beacon\",\"instance_id\":\"a\",\"name\":\"n\",\"ip\":\"i\",\"ws_port\":65536,\"version\":1}"
    )
    .is_none());
}

#[test]
fn encoded_messages_are_json() {
    let texts = [
        encode_message(&beacon("id", "host", "1.2.3.4", 8765)),
        encode_message(&Message::RequestControl {
            from: "a".to_string(),
            to: None,
            name: "n \"q\"".to_string(),
            ws_host: "h".to_string(),
            ws_port: 1,
            options: MapMode::Relative,
        }),
        encode_message(&Message::ResponseControl { from: "r".to_string(), accepted: false }),
        encode_pointer_event(PointerEvent { x: -7, y: 42 }),
    ];
    for text in &texts {
        let v: serde_json::Value = serde_json::from_str(text).expect("valid JSON");
        assert!(v.get("type").and_then(|t| t.as_str()).is_some());
    }
    let v: serde_json::Value = serde_json::from_str(&texts[3]).unwrap();
    assert_eq!(v.get("type").and_then(|t| t.as_str()), Some("mouse_move"));
    assert_eq!(v.get("x").and_then(|n| n.as_i64()), Some(-7));
    assert_eq!(v.get("y").and_then(|n| n.as_i64()), Some(42));
}
