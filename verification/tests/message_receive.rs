use netsync::address::Address;
use netsync::connection::Acknowledgement;
use netsync::connection::Connection;
use netsync::connection::Transmission;
use netsync::message::Message;
use netsync::message_receive::GameTask;
use netsync::message_receive::MessageReceiveSystem;
use netsync::position::Position;
use netsync::message_receive::Reception;
use std::collections::HashMap;

const MILLI: u128 = 1_000_000;
const PEER: Address = Address::V4 { ip: 0x7F00_0001, port: 4000 };

struct Peer {
    system: MessageReceiveSystem,
    connection: Connection,
    tasks: Vec<GameTask>,
    positions: HashMap<u16, Position>,
}

impl Peer {
    fn new(is_server: bool) -> Self {
        Peer {
            system: MessageReceiveSystem::new(is_server),
            connection: Connection::new(),
            tasks: Vec::new(),
            positions: HashMap::new(),
        }
    }

    fn receive(&mut self, message: Message, now: u128) -> Reception {
        self.system.receive(
            &PEER,
            &mut self.connection,
            message,
            now,
            &mut self.tasks,
            &mut self.positions,
        )
    }
}

fn spawn(id: u16, public_id: u16) -> Message {
    Message::ActorSpawn { id, public_id, x: 1, y: 2, direction: 3 }
}

fn spawned(public_id: u16) -> GameTask {
    GameTask::ActorSpawn { external_id: public_id, x: 1, y: 2, direction: 3 }
}

#[test]
fn test_reliable_message_is_answered() {
    let mut client = Peer::new(false);
    let reception = client.receive(spawn(0, 5), 0);
    assert_eq!(
        reception,
        Reception { response: Some(Message::Response { message_id: 0 }), acknowledgement: None },
    );
    assert_eq!(client.tasks, vec![spawned(5)]);
}

#[test]
fn test_message_behind_or_ahead_is_answered_too() {
    let mut client = Peer::new(false);
    assert_eq!(client.receive(spawn(3, 5), 0).response, Some(Message::Response { message_id: 3 }));
    assert_eq!(client.receive(spawn(0, 6), 0).response, Some(Message::Response { message_id: 0 }));
    assert_eq!(client.receive(spawn(0, 6), 0).response, Some(Message::Response { message_id: 0 }));
    assert_eq!(client.tasks, vec![spawned(6)]);
}

#[test]
fn test_client_dispatches_in_order() {
    let mut client = Peer::new(false);
    client.receive(spawn(0, 10), 0);
    client.receive(spawn(2, 12), 0);
    assert_eq!(client.tasks, vec![spawned(10)]);
    client.receive(spawn(1, 11), 0);
    assert_eq!(client.tasks, vec![spawned(10), spawned(11), spawned(12)]);
}

#[test]
fn test_client_dispatches_each_id_once() {
    let mut client = Peer::new(false);
    client.receive(spawn(0, 10), 0);
    client.receive(spawn(0, 10), 0);
    client.receive(spawn(1, 11), 0);
    client.receive(spawn(0, 10), 0);
    client.receive(spawn(1, 11), 0);
    assert_eq!(client.tasks, vec![spawned(10), spawned(11)]);
}

#[test]
fn test_client_tasks() {
    let mut client = Peer::new(false);
    client.receive(Message::ActorGrant { id: 0, public_id: 4 }, 0);
    client.receive(Message::Greeting { id: 1 }, 0);
    client.receive(Message::ClientInput { id: 2, actions: 1, direction: 9 }, 0);
    client.receive(Message::ClientInputDirection { id: 3, direction: 9 }, 0);
    client.receive(spawn(4, 8), 0);
    assert_eq!(client.tasks, vec![GameTask::ActorGrant { external_id: 4 }, spawned(8)]);
    assert!(client.positions.is_empty());
}

#[test]
fn test_client_keeps_the_latest_position() {
    let mut client = Peer::new(false);
    client.receive(Message::TransformSync { id: 1, public_id: 4, x: 30, y: 31, direction: 32 }, 0);
    client.receive(Message::TransformSync { id: 0, public_id: 4, x: 10, y: 11, direction: 12 }, 0);
    client.receive(Message::TransformSync { id: 2, public_id: 5, x: 50, y: 51, direction: 52 }, 0);
    assert!(client.tasks.is_empty());
    assert_eq!(client.positions.len(), 2);
    assert_eq!(client.positions[&4], Position { x: 30, y: 31, direction: 32 });
    assert_eq!(client.positions[&5], Position { x: 50, y: 51, direction: 52 });
}

#[test]
fn test_server_tasks() {
    let mut server = Peer::new(true);
    server.receive(Message::Greeting { id: 0 }, 0);
    // No actor is attached yet: input is dropped.
    server.receive(Message::ClientInput { id: 1, actions: 3, direction: 40 }, 0);
    server.receive(Message::ClientInputDirection { id: 2, direction: 41 }, 0);
    assert_eq!(server.tasks, vec![GameTask::ClientGreet(PEER)]);

    server.connection.attach_external_id(Some(21));
    server.receive(Message::ClientInput { id: 3, actions: 3, direction: 40 }, 0);
    server.receive(Message::ClientInputDirection { id: 4, direction: 41 }, 0);
    server.receive(spawn(5, 8), 0);
    server.receive(Message::ActorGrant { id: 6, public_id: 8 }, 0);
    server.receive(Message::TransformSync { id: 7, public_id: 8, x: 1, y: 2, direction: 3 }, 0);
    assert_eq!(
        server.tasks,
        vec![
            GameTask::ClientGreet(PEER),
            GameTask::ActorAction { external_id: 21, actions: 3, direction: 40 },
            GameTask::ActorTurn { external_id: 21, direction: 41 },
        ],
    );
    assert!(server.positions.is_empty());
}

#[test]
fn test_response_acknowledges() {
    let mut server = Peer::new(true);
    let mut message = spawn(0, 1);
    let transmission = server.connection.send(&mut message);
    assert_eq!(transmission, Transmission::Reliable(0));
    server.connection.complete_send(transmission, vec![1, 2], Ok(2), 10 * MILLI);

    let reception = server.receive(Message::Response { message_id: 0 }, 35 * MILLI);
    assert_eq!(
        reception,
        Reception {
            response: None,
            acknowledgement: Some(Acknowledgement::Measured(25 * MILLI)),
        },
    );
    assert_eq!(server.connection.get_average_ping(), 25 * MILLI);
    assert!(server.tasks.is_empty());

    let reception = server.receive(Message::Response { message_id: 0 }, 40 * MILLI);
    assert_eq!(reception.acknowledgement, Some(Acknowledgement::Unknown));
    assert_eq!(reception.response, None);
}

#[test]
fn test_on_message_as_server_and_as_client() {
    let peer = Address::V6 { ip: 1, port: 9, flowinfo: 0, scope_id: 0 };
    let mut tasks: Vec<GameTask> = Vec::new();
    let mut positions = HashMap::new();
    let message = Message::Greeting { id: 0 };
    MessageReceiveSystem::new(true).on_message(&peer, &message, None, &mut tasks, &mut positions);
    MessageReceiveSystem::new(false).on_message(&peer, &message, None, &mut tasks, &mut positions);
    assert_eq!(tasks, vec![GameTask::ClientGreet(peer)]);

    let sync = Message::TransformSync { id: 0, public_id: 2, x: 5, y: 6, direction: 7 };
    MessageReceiveSystem::new(true).on_message(&peer, &sync, None, &mut tasks, &mut positions);
    assert!(positions.is_empty());
    MessageReceiveSystem::new(false).on_message(&peer, &sync, None, &mut tasks, &mut positions);
    assert_eq!(positions[&2], Position { x: 5, y: 6, direction: 7 });
    assert_eq!(tasks.len(), 1);
}
