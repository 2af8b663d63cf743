use controll::codec::parse_message;
use controll::protocol::{DeviceInfo, DiscEvent, MapMode, Message};
use controll::ui::UiApp;

fn app() -> UiApp {
    UiApp::new(8765, "me".to_string(), "my-host".to_string())
}

fn info(name: &str, ip: &str, port: u16) -> DeviceInfo {
    DeviceInfo { name: name.to_string(), ip: ip.to_string(), ws_port: port, last_seen: 0 }
}

#[test]
fn snapshot_replaces_device_list() {
    let mut u = app();
    u.poll_events(vec![
        DiscEvent::DevicesChanged(vec![info("a", "10.0.0.1", 1)]),
        DiscEvent::DevicesChanged(vec![info("b", "10.0.0.2", 2), info("c", "10.0.0.3", 3)]),
    ]);
    assert_eq!(u.devices.len(), 2);
    assert_eq!(u.devices[0].name, "b");
    assert_eq!(u.devices[1].name, "c");
}

#[test]
fn latest_incoming_request_wins() {
    let mut u = app();
    u.poll_events(vec![
        DiscEvent::RequestReceived {
            from_inst: "x".to_string(),
            from_name: "first".to_string(),
            ws_host: "10.0.0.1".to_string(),
            ws_port: 1,
        },
        DiscEvent::RequestReceived {
            from_inst: "y".to_string(),
            from_name: "second".to_string(),
            ws_host: "10.0.0.2".to_string(),
            ws_port: 2,
        },
    ]);
    let (name, host, port) = u.incoming.expect("a request is pending");
    assert_eq!(name, "second");
    assert_eq!(host, "10.0.0.2");
    assert_eq!(port, 2);
}

#[test]
fn answers_set_the_status_line() {
    let mut u = app();
    u.poll_events(vec![DiscEvent::ResponseAccepted { host: "h".to_string(), port: 1 }]);
    assert_eq!(u.status, "Response accepted");
    u.poll_events(vec![DiscEvent::ResponseDeclined { from: "x".to_string() }]);
    assert_eq!(u.status, "Response declined");
}

#[test]
fn front_end_datagrams_parse_back() {
    let u = app();
    let req = u.make_request_datagram("10.0.0.5".to_string());
    match parse_message(&req) {
        Some(Message::RequestControl { from, to, name, ws_host, ws_port, options }) => {
            assert_eq!(from, "me");
            assert_eq!(to, None);
            assert_eq!(name, "my-host");
            assert_eq!(ws_host, "10.0.0.5");
            assert_eq!(ws_port, 8765);
            assert_eq!(options, MapMode::Relative);
        }
        _ => panic!("the request datagram did not parse back"),
    }
    let resp = u.make_response_datagram(false);
    match parse_message(&resp) {
        Some(Message::ResponseControl { from, accepted }) => {
            assert_eq!(from, "me");
            assert!(!accepted);
        }
        _ => panic!("the response datagram did not parse back"),
    }
}

#[test]
fn empty_batch_changes_nothing() {
    let mut u = app();
    u.poll_events(vec![]);
    assert_eq!(u.devices.len(), 0);
    assert!(u.incoming.is_none());
    assert_eq!(u.status, "");
}
