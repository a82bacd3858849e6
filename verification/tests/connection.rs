use netsync::connection::Acknowledgement;
use netsync::connection::Connection;
use netsync::connection::ConnectionStatus;
use netsync::connection::Transmission;
use netsync::message::Message;

const MILLI: u128 = 1_000_000;

fn greeting(id: u16) -> Message {
    Message::Greeting { id }
}

/// Sends a reliable message at `now` and returns the identifier it got.
fn send_reliable(connection: &mut Connection, data: Vec<u8>, now: u128) -> u16 {
    let mut message = greeting(0);
    let transmission = connection.send(&mut message);
    let id = match transmission {
        Transmission::Reliable(id) => id,
        other => panic!("expected a reliable transmission, got {:?}", other),
    };
    assert_eq!(message.get_id(), Some(id));
    let length = data.len();
    connection.complete_send(transmission, data, Ok(length), now);
    id
}

/// Hands a message in and returns what is to be dispatched, in order.
fn deliver(connection: &mut Connection, message: Message) -> Vec<Message> {
    let mut dispatched = Vec::new();
    if let Some(message) = connection.filter_message(message) {
        dispatched.push(message);
        dispatched.extend(connection.take_next_held_messages());
    }
    dispatched
}

#[test]
fn test_new_connection() {
    let connection = Connection::new();
    assert!(connection.is_connected());
    assert!(matches!(connection.get_status(), ConnectionStatus::Connected));
    assert_eq!(connection.get_average_ping(), 0);
    assert_eq!(connection.attached_external_id(), None);
}

#[test]
fn test_attach_external_id() {
    let mut connection = Connection::new();
    connection.attach_external_id(Some(12));
    assert_eq!(connection.attached_external_id(), Some(12));
    connection.attach_external_id(None);
    assert_eq!(connection.attached_external_id(), None);
}

#[test]
fn test_send_assigns_consecutive_ids() {
    let mut connection = Connection::new();
    for expected in 0..5u16 {
        let mut message = Message::ActorGrant { id: 999, public_id: 3 };
        assert_eq!(connection.send(&mut message), Transmission::Reliable(expected));
        assert_eq!(message, Message::ActorGrant { id: expected, public_id: 3 });
    }
}

#[test]
fn test_send_response_takes_no_id() {
    let mut connection = Connection::new();
    let mut response = Message::Response { message_id: 5 };
    assert_eq!(connection.send(&mut response), Transmission::Once);
    assert_eq!(response, Message::Response { message_id: 5 });
    let mut message = greeting(77);
    assert_eq!(connection.send(&mut message), Transmission::Reliable(0));
}

#[test]
fn test_outgoing_ids_wrap() {
    let mut connection = Connection::new();
    for expected in 0..=u16::MAX {
        let mut message = greeting(0);
        assert_eq!(connection.send(&mut message), Transmission::Reliable(expected));
    }
    let mut message = greeting(9);
    assert_eq!(connection.send(&mut message), Transmission::Reliable(0));
    assert_eq!(message, greeting(0));
}

#[test]
fn test_failed_send_disconnects() {
    let mut connection = Connection::new();
    let mut message = greeting(0);
    let transmission = connection.send(&mut message);
    connection.complete_send(transmission, vec![1, 2, 3], Err("unreachable".to_string()), 0);
    assert!(!connection.is_connected());
    match connection.get_status() {
        ConnectionStatus::Disconnected(reason) => assert_eq!(reason, "unreachable"),
        ConnectionStatus::Connected => panic!("still connected"),
    }
    // Nothing is left to acknowledge or to send again.
    assert_eq!(connection.acknowledge_message(0, 10 * MILLI), Acknowledgement::Unknown);
    assert!(connection.resend_unacknowledged_messages(10_000 * MILLI).is_empty());
}

#[test]
fn test_unreliable_send_is_not_tracked() {
    let mut connection = Connection::new();
    let mut response = Message::Response { message_id: 5 };
    let transmission = connection.send(&mut response);
    connection.complete_send(transmission, vec![9], Ok(1), 0);
    assert!(connection.resend_unacknowledged_messages(10_000 * MILLI).is_empty());
    assert!(connection.is_connected());
}

#[test]
fn test_send_after_disconnect_does_nothing() {
    let mut connection = Connection::new();
    let first = send_reliable(&mut connection, vec![1], 0);
    assert_eq!(first, 0);
    connection.disconnect("gone".to_string());

    let mut message = greeting(42);
    assert_eq!(connection.send(&mut message), Transmission::Withheld);
    assert_eq!(message, greeting(42));
    connection.complete_send(Transmission::Withheld, vec![7], Ok(1), 5);
    connection.complete_send(Transmission::Reliable(1), vec![7], Ok(1), 5);
    assert!(connection.resend_unacknowledged_messages(10_000 * MILLI).is_empty());
    assert_eq!(connection.acknowledge_message(1, 10 * MILLI), Acknowledgement::Unknown);
    match connection.get_status() {
        ConnectionStatus::Disconnected(reason) => assert_eq!(reason, "gone"),
        ConnectionStatus::Connected => panic!("still connected"),
    }
}

#[test]
fn test_disconnect_keeps_the_first_reason() {
    let mut connection = Connection::new();
    connection.disconnect("first".to_string());
    connection.disconnect("second".to_string());
    match connection.get_status() {
        ConnectionStatus::Disconnected(reason) => assert_eq!(reason, "first"),
        ConnectionStatus::Connected => panic!("still connected"),
    }
}

#[test]
fn test_disconnect_forgets_held_messages() {
    let mut connection = Connection::new();
    assert_eq!(connection.filter_message(greeting(1)), None);
    connection.disconnect("gone".to_string());
    assert_eq!(deliver(&mut connection, greeting(0)), vec![greeting(0)]);
}

#[test]
fn test_messages_out_of_order_are_dispatched_in_order() {
    let mut connection = Connection::new();
    let mut dispatched = Vec::new();
    for id in [0u16, 2, 1] {
        dispatched.extend(deliver(&mut connection, greeting(id)));
    }
    assert_eq!(dispatched, vec![greeting(0), greeting(1), greeting(2)]);
}

#[test]
fn test_held_messages_wait_for_their_turn() {
    let mut connection = Connection::new();
    assert_eq!(deliver(&mut connection, greeting(3)), vec![]);
    assert_eq!(deliver(&mut connection, greeting(1)), vec![]);
    assert_eq!(deliver(&mut connection, greeting(4)), vec![]);
    assert_eq!(connection.take_next_held_messages(), vec![]);
    assert_eq!(deliver(&mut connection, greeting(0)), vec![greeting(0), greeting(1)]);
    assert_eq!(deliver(&mut connection, greeting(2)), vec![greeting(2), greeting(3), greeting(4)]);
    assert_eq!(connection.take_next_held_messages(), vec![]);
}

#[test]
fn test_same_id_twice_is_dispatched_once() {
    let mut connection = Connection::new();
    let mut dispatched = Vec::new();
    for id in [0u16, 0, 2, 2, 1, 1, 2, 0] {
        dispatched.extend(deliver(&mut connection, greeting(id)));
    }
    assert_eq!(dispatched, vec![greeting(0), greeting(1), greeting(2)]);
}

#[test]
fn test_held_duplicate_replaces_the_held_message() {
    let mut connection = Connection::new();
    let early = Message::ActorGrant { id: 1, public_id: 10 };
    let late = Message::ActorGrant { id: 1, public_id: 20 };
    assert_eq!(connection.filter_message(early), None);
    assert_eq!(connection.filter_message(late), None);
    assert_eq!(deliver(&mut connection, greeting(0)), vec![greeting(0), late]);
}

#[test]
fn test_response_bypasses_ordering() {
    let mut connection = Connection::new();
    let response = Message::Response { message_id: 40 };
    assert_eq!(connection.filter_message(response), Some(response));
    assert_eq!(connection.take_next_held_messages(), vec![]);
    assert_eq!(deliver(&mut connection, greeting(0)), vec![greeting(0)]);
}

#[test]
fn test_ordering_is_aware_of_wrapping() {
    let mut connection = Connection::new();
    for id in 0..u16::MAX {
        assert_eq!(deliver(&mut connection, greeting(id)), vec![greeting(id)]);
    }
    // The turn is at 65535: 0 and 1 come after it, not before.
    assert_eq!(deliver(&mut connection, greeting(1)), vec![]);
    assert_eq!(deliver(&mut connection, greeting(0)), vec![]);
    // 65534 was handed on before.
    assert_eq!(deliver(&mut connection, greeting(65534)), vec![]);
    assert_eq!(
        deliver(&mut connection, greeting(65535)),
        vec![greeting(65535), greeting(0), greeting(1)],
    );
    assert_eq!(deliver(&mut connection, greeting(2)), vec![greeting(2)]);
}

#[test]
fn test_half_the_circle_ahead_is_behind() {
    let mut connection = Connection::new();
    // 0x7FFF places ahead is held, 0x8000 places ahead counts as behind.
    assert_eq!(connection.filter_message(greeting(0x8000)), None);
    assert_eq!(connection.filter_message(greeting(0x7FFF)), None);
    for id in 0..0x7FFFu16 {
        assert_eq!(deliver(&mut connection, greeting(id)).first(), Some(&greeting(id)));
    }
    // 0x7FFF was released together with 0x7FFE; 0x8000 was never held.
    assert_eq!(deliver(&mut connection, greeting(0x7FFF)), vec![]);
    assert_eq!(deliver(&mut connection, greeting(0x8000)), vec![greeting(0x8000)]);
}

#[test]
fn test_acknowledge_unknown_id() {
    let mut connection = Connection::new();
    assert_eq!(connection.acknowledge_message(3, 0), Acknowledgement::Unknown);
    assert_eq!(connection.get_average_ping(), 0);
}

#[test]
fn test_acknowledge_measures_whole_milliseconds() {
    let mut connection = Connection::new();
    let id = send_reliable(&mut connection, vec![1], 1_000);
    let outcome = connection.acknowledge_message(id, 1_000 + 12 * MILLI + 999_999);
    assert_eq!(outcome, Acknowledgement::Measured(12 * MILLI));
    assert_eq!(connection.get_average_ping(), 12 * MILLI);
    // The message is no longer waiting.
    assert_eq!(connection.acknowledge_message(id, 50 * MILLI), Acknowledgement::Unknown);
    assert_eq!(connection.get_average_ping(), 12 * MILLI);
}

#[test]
fn test_acknowledge_before_send_time_measures_nothing() {
    let mut connection = Connection::new();
    let id = send_reliable(&mut connection, vec![1], 100 * MILLI);
    assert_eq!(connection.acknowledge_message(id, 50 * MILLI), Acknowledgement::Measured(0));
    assert_eq!(connection.get_average_ping(), 0);
}

#[test]
fn test_average_ping_is_a_capped_moving_average() {
    let mut connection = Connection::new();
    let mut now = 0u128;
    let mut fold = |connection: &mut Connection, round_trip: u128| {
        let id = send_reliable(connection, vec![0], now);
        now += round_trip;
        assert_eq!(
            connection.acknowledge_message(id, now),
            Acknowledgement::Measured(round_trip),
        );
        connection.get_average_ping()
    };
    assert_eq!(fold(&mut connection, 10 * MILLI), 10 * MILLI);
    assert_eq!(fold(&mut connection, 20 * MILLI), 15 * MILLI);
    assert_eq!(fold(&mut connection, 30 * MILLI), 20 * MILLI);
    assert_eq!(fold(&mut connection, 0), 15 * MILLI);
    for _ in 0..6 {
        fold(&mut connection, 15 * MILLI);
    }
    assert_eq!(connection.get_average_ping(), 15 * MILLI);
    // Ten samples weigh in from here on: each new one counts for one eleventh.
    assert_eq!(fold(&mut connection, 26 * MILLI), 16 * MILLI);
    assert_eq!(fold(&mut connection, 27 * MILLI), 17 * MILLI);
    assert_eq!(fold(&mut connection, 6 * MILLI), 16 * MILLI);
    // A share that does not divide evenly is rounded up: 4 ms / 11 = 363636.36.. ns.
    assert_eq!(fold(&mut connection, 20 * MILLI), 16 * MILLI + 363_637);
    assert_eq!(fold(&mut connection, 0), 16 * MILLI + 363_637 - 1_487_604);
}

/// Sends a message at `*now`, acknowledges it `round_trip` later, and returns the average.
fn fold_round_trip(connection: &mut Connection, now: &mut u128, round_trip: u128) -> u128 {
    let id = send_reliable(connection, vec![0], *now);
    *now += round_trip;
    assert_eq!(connection.acknowledge_message(id, *now), Acknowledgement::Measured(round_trip));
    connection.get_average_ping()
}

#[test]
fn test_fresh_acknowledgement_always_moves_the_average() {
    let mut connection = Connection::new();
    let mut now = 0u128;
    assert_eq!(fold_round_trip(&mut connection, &mut now, 0), 0);
    assert_eq!(fold_round_trip(&mut connection, &mut now, MILLI), 500_000);
    assert_eq!(fold_round_trip(&mut connection, &mut now, MILLI), 666_667);
    assert_eq!(fold_round_trip(&mut connection, &mut now, 2 * MILLI), 1_000_001);
    // One nanosecond off the average is enough to move it.
    assert_eq!(fold_round_trip(&mut connection, &mut now, MILLI), MILLI);
    // A round trip that is the average leaves it.
    assert_eq!(fold_round_trip(&mut connection, &mut now, MILLI), MILLI);
}

#[test]
fn test_average_reaches_a_steady_round_trip() {
    let mut connection = Connection::new();
    let mut now = 0u128;
    for _ in 0..10 {
        fold_round_trip(&mut connection, &mut now, 3 * MILLI);
    }
    assert_eq!(connection.get_average_ping(), 3 * MILLI);

    let mut average = connection.get_average_ping();
    let mut steps = 0;
    while average != 4 * MILLI {
        let next = fold_round_trip(&mut connection, &mut now, 4 * MILLI);
        assert!(average < next && next <= 4 * MILLI);
        average = next;
        steps += 1;
        assert!(steps < 1_000);
    }
    assert_eq!(fold_round_trip(&mut connection, &mut now, 4 * MILLI), 4 * MILLI);

    // And from above, down to the last nanosecond.
    while average != MILLI {
        let next = fold_round_trip(&mut connection, &mut now, MILLI);
        assert!(MILLI <= next && next < average);
        average = next;
        steps += 1;
        assert!(steps < 2_000);
    }
}

#[test]
fn test_resend_picks_messages_older_than_the_interval() {
    let mut connection = Connection::new();
    let first = send_reliable(&mut connection, vec![1, 1], 0);
    let second = send_reliable(&mut connection, vec![2, 2], 100 * MILLI);

    assert!(connection.resend_unacknowledged_messages(400 * MILLI).is_empty());

    let due = connection.resend_unacknowledged_messages(400 * MILLI + 1);
    assert_eq!(due.len(), 1);
    assert_eq!(due[0].id, first);
    assert_eq!(due[0].data, vec![1, 1]);

    // The first went out again just now; the second is due a little later.
    assert!(connection.resend_unacknowledged_messages(500 * MILLI).is_empty());
    let due = connection.resend_unacknowledged_messages(500 * MILLI + 1);
    assert_eq!(due.len(), 1);
    assert_eq!(due[0].id, second);
    assert_eq!(due[0].data, vec![2, 2]);

    let mut due = connection.resend_unacknowledged_messages(2_000 * MILLI);
    due.sort_by_key(|resend| resend.id);
    assert_eq!(due.len(), 2);
    assert_eq!((due[0].id, due[0].data.clone()), (first, vec![1, 1]));
    assert_eq!((due[1].id, due[1].data.clone()), (second, vec![2, 2]));
}

#[test]
fn test_resend_skips_acknowledged_messages() {
    let mut connection = Connection::new();
    let first = send_reliable(&mut connection, vec![1], 0);
    let second = send_reliable(&mut connection, vec![2], 0);
    assert_eq!(connection.acknowledge_message(first, 5 * MILLI), Acknowledgement::Measured(5 * MILLI));
    let due = connection.resend_unacknowledged_messages(1_000 * MILLI);
    assert_eq!(due.len(), 1);
    assert_eq!(due[0].id, second);
}

#[test]
fn test_resent_message_does_not_alter_average_ping() {
    let mut connection = Connection::new();
    let fresh = send_reliable(&mut connection, vec![1], 0);
    assert_eq!(connection.acknowledge_message(fresh, 30 * MILLI), Acknowledgement::Measured(30 * MILLI));
    assert_eq!(connection.get_average_ping(), 30 * MILLI);

    let resent = send_reliable(&mut connection, vec![2], 100 * MILLI);
    assert_eq!(connection.resend_unacknowledged_messages(600 * MILLI).len(), 1);
    assert_eq!(connection.acknowledge_message(resent, 610 * MILLI), Acknowledgement::Retransmitted);
    assert_eq!(connection.get_average_ping(), 30 * MILLI);

    let fresh = send_reliable(&mut connection, vec![3], 700 * MILLI);
    assert_eq!(connection.acknowledge_message(fresh, 710 * MILLI), Acknowledgement::Measured(10 * MILLI));
    assert_eq!(connection.get_average_ping(), 20 * MILLI);
}

#[test]
fn test_resend_on_disconnected_connection_is_empty() {
    let mut connection = Connection::new();
    send_reliable(&mut connection, vec![1], 0);
    connection.disconnect("gone".to_string());
    assert!(connection.resend_unacknowledged_messages(1_000 * MILLI).is_empty());
}
