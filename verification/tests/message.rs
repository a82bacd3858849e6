use netsync::message::Message;

fn reliable_messages() -> Vec<Message> {
    vec![
        Message::Greeting { id: 1 },
        Message::ClientInput { id: 1, actions: 5, direction: 0x3F80_0000 },
        Message::ClientInputDirection { id: 1, direction: 0x4000_0000 },
        Message::ActorSpawn { id: 1, public_id: 9, x: 1, y: 2, direction: 3 },
        Message::ActorGrant { id: 1, public_id: 9 },
        Message::TransformSync { id: 1, public_id: 9, x: 1, y: 2, direction: 3 },
    ]
}

#[test]
fn test_response_has_no_id() {
    let mut message = Message::Response { message_id: 7 };
    assert!(!message.has_id());
    assert_eq!(message.get_id(), None);
    message.set_id(3);
    assert_eq!(message, Message::Response { message_id: 7 });
}

#[test]
fn test_every_other_kind_has_an_id() {
    for message in reliable_messages() {
        assert!(message.has_id());
        assert_eq!(message.get_id(), Some(1));
    }
}

#[test]
fn test_set_id_changes_only_the_id() {
    let mut message = Message::ActorSpawn { id: 1, public_id: 9, x: 10, y: 20, direction: 30 };
    message.set_id(0xFFFF);
    assert_eq!(
        message,
        Message::ActorSpawn { id: 0xFFFF, public_id: 9, x: 10, y: 20, direction: 30 },
    );

    let mut message = Message::ClientInput { id: 4, actions: 0b101, direction: 77 };
    message.set_id(5);
    assert_eq!(message, Message::ClientInput { id: 5, actions: 0b101, direction: 77 });

    for mut message in reliable_messages() {
        let before = message;
        message.set_id(321);
        assert_eq!(message.get_id(), Some(321));
        message.set_id(1);
        assert_eq!(message, before);
    }
}

#[test]
fn test_position_new() {
    let position = netsync::position::Position::new(1, 2, 3);
    assert_eq!(position, netsync::position::Position { x: 1, y: 2, direction: 3 });
    assert_eq!(netsync::position::Position::default(), netsync::position::Position::new(0, 0, 0));
}
