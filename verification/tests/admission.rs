use flax::admission::{keep_draining, on_accept, AcceptStep, Accepted, Slots};

#[test]
fn slots_run_out_and_come_back() {
    let mut slots = Slots::new(2);
    assert_eq!(slots.active(), 0);
    assert!(slots.enter());
    assert!(slots.enter());
    assert!(!slots.enter());
    assert_eq!(slots.active(), 2);
    slots.leave();
    assert_eq!(slots.active(), 1);
    assert!(slots.enter());
    assert!(!slots.enter());
}

#[test]
fn no_slots_at_all() {
    let mut slots = Slots::new(0);
    assert!(!slots.enter());
    assert_eq!(slots.active(), 0);
}

#[test]
fn the_accept_loop() {
    let mut slots = Slots::new(1);
    assert!(matches!(on_accept(&mut slots, Accepted::WouldBlock, 5), AcceptStep::Pause(50)));
    assert!(matches!(on_accept(&mut slots, Accepted::Failed, 5), AcceptStep::ReportAndPause(100)));
    assert_eq!(slots.active(), 0);
    assert!(matches!(on_accept(&mut slots, Accepted::Connection, 5), AcceptStep::Serve));
    assert_eq!(slots.active(), 1);
    match on_accept(&mut slots, Accepted::Connection, 5) {
        AcceptStep::Refuse(bytes) => {
            let text = String::from_utf8(bytes).unwrap();
            assert!(text.starts_with("HTTP/1.1 413 Payload Too Large\r\n"));
            assert!(text.contains("max-age=5\r\nConnection: close\r\n"));
            assert!(text.ends_with("\r\n\r\n413 Payload Too Large"));
        }
        _ => panic!("expected a refusal"),
    }
    assert_eq!(slots.active(), 1);
}

#[test]
fn the_grace_period() {
    assert!(keep_draining(1, 0));
    assert!(keep_draining(3, 4999));
    assert!(!keep_draining(3, 5000));
    assert!(!keep_draining(0, 0));
}
