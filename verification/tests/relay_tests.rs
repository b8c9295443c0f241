use copy_sync::content::WireMessage;
use copy_sync::registry::{should_broadcast, Registry, RelayEvent};

fn msg(tag: u8) -> WireMessage {
    WireMessage::Binary { data: vec![tag, tag, tag] }
}

#[test]
fn broadcast_fans_out_in_order_and_never_to_sender() {
    let mut reg = Registry::new();
    assert!(reg.register(1)); // A
    assert!(reg.register(2)); // B
    assert!(reg.register(3)); // C

    reg.broadcast_except(1, &msg(10));
    reg.broadcast_except(1, &msg(20));

    // B and C both see A's messages, in A's order.
    assert_eq!(reg.drain(2), vec![msg(10), msg(20)]);
    assert_eq!(reg.drain(3), vec![msg(10), msg(20)]);
    // A never sees its own messages back.
    assert_eq!(reg.drain(1), Vec::<WireMessage>::new());
}

#[test]
fn register_rejects_duplicate_identity() {
    let mut reg = Registry::new();
    assert!(reg.register(7));
    assert!(!reg.register(7));
    assert_eq!(reg.len(), 1);
}

#[test]
fn disconnect_cleanup_and_idempotent_removal() {
    let mut reg = Registry::new();
    assert!(reg.register(1)); // A
    assert!(reg.register(2)); // B

    reg.unregister(1);
    assert!(!reg.contains(1));
    assert!(reg.contains(2));

    // A concurrently-observed second removal is a no-op, not a fault.
    reg.unregister(1);
    assert!(!reg.contains(1));
    assert_eq!(reg.len(), 1);

    // Later broadcasts no longer deliver to the removed connection.
    reg.broadcast_except(2, &msg(5));
    assert_eq!(reg.drain(1), Vec::<WireMessage>::new());
    assert_eq!(reg.drain(2), Vec::<WireMessage>::new());
}

#[test]
fn drain_empties_the_queue() {
    let mut reg = Registry::new();
    assert!(reg.register(1));
    assert!(reg.register(2));
    reg.broadcast_except(1, &msg(9));
    assert_eq!(reg.drain(2), vec![msg(9)]);
    assert_eq!(reg.drain(2), Vec::<WireMessage>::new());
}

#[test]
fn close_events_are_not_broadcast() {
    assert!(should_broadcast(&RelayEvent::Data(msg(1))));
    assert!(!should_broadcast(&RelayEvent::Closed));
}
