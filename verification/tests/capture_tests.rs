use controll::capture::{is_capture_on, set_capture, CaptureSource, InputEvent};
use controll::codec::parse_pointer_event;
use controll::protocol::PointerEvent;

#[test]
fn capture_toggle_scenario() {
    // capture toggled on, pointer moves to (100, 240): exactly one event is
    // queued; toggled off, further moves queue nothing
    let mut src = CaptureSource::new();
    assert!(!is_capture_on(&src));

    let suppressed = src.handle_event(InputEvent::Key { toggle: true });
    assert!(!suppressed, "the hotkey must always reach the local system");
    assert!(is_capture_on(&src));

    let suppressed = src.handle_event(InputEvent::PointerMove { x: 100, y: 240 });
    assert!(suppressed);
    assert_eq!(src.queue.len(), 1);
    assert_eq!(src.queue[0], PointerEvent { x: 100, y: 240 });

    let suppressed = src.handle_event(InputEvent::Key { toggle: true });
    assert!(!suppressed);
    assert!(!is_capture_on(&src));

    src.handle_event(InputEvent::PointerMove { x: 7, y: 8 });
    src.handle_event(InputEvent::PointerMove { x: 9, y: 10 });
    assert_eq!(src.queue.len(), 1, "no event queued while capture is off");
}

#[test]
fn while_off_everything_passes_and_nothing_queues() {
    let mut src = CaptureSource::new();
    assert!(!src.handle_event(InputEvent::PointerMove { x: 1, y: 2 }));
    assert!(!src.handle_event(InputEvent::Key { toggle: false }));
    assert!(!src.handle_event(InputEvent::Other));
    assert_eq!(src.queue.len(), 0);
}

#[test]
fn while_on_everything_else_is_suppressed_without_queueing() {
    let mut src = CaptureSource::new();
    set_capture(&mut src, true);
    assert!(src.handle_event(InputEvent::Key { toggle: false }));
    assert!(src.handle_event(InputEvent::Other));
    assert_eq!(src.queue.len(), 0);
}

#[test]
fn outbound_queue_is_first_in_first_out() {
    let mut src = CaptureSource::new();
    set_capture(&mut src, true);
    src.handle_event(InputEvent::PointerMove { x: 1, y: 1 });
    src.handle_event(InputEvent::PointerMove { x: 2, y: 2 });
    src.handle_event(InputEvent::PointerMove { x: 3, y: 3 });
    assert_eq!(src.next_outbound(), Some(PointerEvent { x: 1, y: 1 }));
    assert_eq!(src.next_outbound(), Some(PointerEvent { x: 2, y: 2 }));
    assert_eq!(src.next_outbound(), Some(PointerEvent { x: 3, y: 3 }));
    assert_eq!(src.next_outbound(), None);
    assert!(is_capture_on(&src));
}

#[test]
fn captured_move_reaches_injection_unchanged() {
    // sender side: capture a move; wire: the serialized text; receiver
    // side: parse it back for injection — coordinates exact
    let mut src = CaptureSource::new();
    set_capture(&mut src, true);
    src.handle_event(InputEvent::PointerMove { x: 100, y: 240 });
    let wire = src.next_outbound_text().expect("one event is queued");
    assert_eq!(wire, "{\"type\":\"mouse_move\",\"x\":100,\"y\":240}");
    assert_eq!(parse_pointer_event(&wire), Some(PointerEvent { x: 100, y: 240 }));
    assert_eq!(src.next_outbound_text(), None);
}

#[test]
fn set_capture_controls_the_flag() {
    let mut src = CaptureSource::new();
    set_capture(&mut src, true);
    assert!(is_capture_on(&src));
    set_capture(&mut src, false);
    assert!(!is_capture_on(&src));
}
