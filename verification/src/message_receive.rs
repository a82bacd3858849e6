//! What to do with a message that came in from a peer: acknowledge, put in
//! order, and turn into work for the game.

use crate::address::Address;
use crate::connection::Acknowledgement;
use crate::connection::Connection;
use crate::message::Message;
use crate::position::Position;
use std::collections::HashMap;
use vstd::prelude::*;

verus! {

broadcast use vstd::std_specs::hash::group_hash_axioms;

/// Work that a message asks of the game.
#[derive(Clone, Copy, Debug, PartialEq, Eq)]
pub enum GameTask {
    ClientGreet(Address),
    ActorAction { external_id: u16, actions: u8, direction: u32 },
    ActorTurn { external_id: u16, direction: u32 },
    ActorSpawn { external_id: u16, x: u32, y: u32, direction: u32 },
    ActorGrant { external_id: u16 },
}

/// What came of one incoming message, besides the work it caused.
#[derive(Clone, Copy, Debug, PartialEq, Eq)]
pub struct Reception {
    /// The answer that the peer is owed, if the message was reliable.
    pub response: Option<Message>,
    /// What the message acknowledged, if it was a `Response`.
    pub acknowledgement: Option<Acknowledgement>,
}

/// The work that a server takes from `message`, which came from `address`
/// and from the peer that controls the actor `external_id`.
pub open spec fn server_task(address: Address, message: Message, external_id: Option<u16>) -> Option<
    GameTask,
> {
    match message {
        Message::Greeting { .. } => Some(GameTask::ClientGreet(address)),
        Message::ClientInput { actions, direction, .. } => match external_id {
            Some(external_id) => Some(GameTask::ActorAction { external_id, actions, direction }),
            None => None,
        },
        Message::ClientInputDirection { direction, .. } => match external_id {
            Some(external_id) => Some(GameTask::ActorTurn { external_id, direction }),
            None => None,
        },
        _ => None,
    }
}

/// The work that a client takes from `message`.
pub open spec fn client_task(message: Message) -> Option<GameTask> {
    match message {
        Message::ActorSpawn { public_id, x, y, direction, .. } => Some(
            GameTask::ActorSpawn { external_id: public_id, x, y, direction },
        ),
        Message::ActorGrant { public_id, .. } => Some(GameTask::ActorGrant { external_id: public_id }),
        _ => None,
    }
}

/// The actor whose position `message` sets on a client, and the position.
pub open spec fn client_position(message: Message) -> Option<(u16, Position)> {
    match message {
        Message::TransformSync { public_id, x, y, direction, .. } => Some(
            (public_id, Position { x, y, direction }),
        ),
        _ => None,
    }
}

/// The work that `message` causes, in a list of its own.
pub open spec fn task_of(
    is_server: bool,
    address: Address,
    message: Message,
    external_id: Option<u16>,
) -> Seq<GameTask> {
    let task = if is_server {
        server_task(address, message, external_id)
    } else {
        client_task(message)
    };
    match task {
        Some(task) => seq![task],
        None => Seq::empty(),
    }
}

/// The work that `messages` cause, in their order.
pub open spec fn tasks_of(
    is_server: bool,
    address: Address,
    messages: Seq<Message>,
    external_id: Option<u16>,
) -> Seq<GameTask>
    decreases messages.len(),
{
    if messages.len() == 0 {
        Seq::empty()
    } else {
        tasks_of(is_server, address, messages.drop_last(), external_id) + task_of(
            is_server,
            address,
            messages.last(),
            external_id,
        )
    }
}

/// The positions once `message` is taken in: on a client, a position that
/// it sets replaces the one known for that actor.
pub open spec fn positions_with(
    is_server: bool,
    positions: Map<u16, Position>,
    message: Message,
) -> Map<u16, Position> {
    match client_position(message) {
        Some((actor, update)) if !is_server => positions.insert(actor, update),
        _ => positions,
    }
}

/// The positions once `messages` are taken in, in their order.
pub open spec fn positions_after(
    is_server: bool,
    positions: Map<u16, Position>,
    messages: Seq<Message>,
) -> Map<u16, Position>
    decreases messages.len(),
{
    if messages.len() == 0 {
        positions
    } else {
        positions_with(
            is_server,
            positions_after(is_server, positions, messages.drop_last()),
            messages.last(),
        )
    }
}

/// Takes in the messages of the peers, as a server or as a client.
pub struct MessageReceiveSystem {
    is_server: bool,
}

impl MessageReceiveSystem {
    /// Whether messages are taken in as a server.
    pub closed spec fn serves(&self) -> bool {
        self.is_server
    }

    /// A system that takes messages in as a server, or else as a client.
    pub fn new(is_server: bool) -> (system: Self)
        ensures
            system.serves() == is_server,
    {
        MessageReceiveSystem { is_server }
    }

    /// Turns one message into work, as a server or as a client.
    pub fn on_message(
        &self,
        address: &Address,
        message: &Message,
        external_id: Option<u16>,
        tasks: &mut Vec<GameTask>,
        position_updates: &mut HashMap<u16, Position>,
    )
        ensures
            final(tasks)@ == old(tasks)@ + task_of(self.serves(), *address, *message, external_id),
            final(position_updates)@ == positions_with(
                self.serves(),
                old(position_updates)@,
                *message,
            ),
    {
        if self.is_server {
            Self::on_message_as_server(address, message, external_id, tasks);
        } else {
            Self::on_message_as_client(message, tasks, position_updates);
        }
    }

    /// A greeting announces a client; input moves the actor that the peer
    /// controls, if it controls one. A server takes nothing else.
    fn on_message_as_server(
        address: &Address,
        message: &Message,
        external_id: Option<u16>,
        tasks: &mut Vec<GameTask>,
    )
        ensures
            final(tasks)@ == old(tasks)@ + task_of(true, *address, *message, external_id),
    {
        match *message {
            Message::Greeting { .. } => {
                tasks.push(GameTask::ClientGreet(*address));
            },
            Message::ClientInput { actions, direction, .. } => {
                if let Some(external_id) = external_id {
                    tasks.push(GameTask::ActorAction { external_id, actions, direction });
                }
            },
            Message::ClientInputDirection { direction, .. } => {
                if let Some(external_id) = external_id {
                    tasks.push(GameTask::ActorTurn { external_id, direction });
                }
            },
            _ => {},
        }
        assert(final(tasks)@ =~= old(tasks)@ + task_of(true, *address, *message, external_id));
    }

    /// A client spawns and grants actors as told, and notes the positions
    /// that the server reports. It takes nothing else.
    fn on_message_as_client(
        message: &Message,
        tasks: &mut Vec<GameTask>,
        position_updates: &mut HashMap<u16, Position>,
    )
        ensures
            final(tasks)@ == old(tasks)@ + (match client_task(*message) {
                Some(task) => seq![task],
                None => Seq::empty(),
            }),
            final(position_updates)@ == positions_with(false, old(position_updates)@, *message),
    {
        match *message {
            Message::ActorSpawn { public_id, x, y, direction, .. } => {
                tasks.push(GameTask::ActorSpawn { external_id: public_id, x, y, direction });
            },
            Message::ActorGrant { public_id, .. } => {
                tasks.push(GameTask::ActorGrant { external_id: public_id });
            },
            Message::TransformSync { public_id, x, y, direction, .. } => {
                position_updates.insert(public_id, Position { x, y, direction });
            },
            _ => {},
        }
        assert(final(tasks)@ =~= old(tasks)@ + (match client_task(*message) {
            Some(task) => seq![task],
            None => Seq::empty(),
        }));
    }

    /// Takes in one message from the peer at `address`.
    ///
    /// A `Response` acknowledges a message of ours, and that is all it does.
    /// Any other message is owed a `Response` under its identifier. It is
    /// then put in order: if it is its turn, it and the held messages that
    /// follow it are turned into work, in the order of their identifiers.
    #[verifier::rlimit(30)]
    pub fn receive(
        &self,
        address: &Address,
        connection: &mut Connection,
        message: Message,
        now: u128,
        tasks: &mut Vec<GameTask>,
        position_updates: &mut HashMap<u16, Position>,
    ) -> (reception: Reception)
        ensures
            message matches Message::Response { message_id } ==> {
                &&& reception.response.is_none()
                &&& reception.acknowledgement == Some(
                    old(connection)@.acknowledged(message_id, now),
                )
                &&& final(connection)@ == old(connection)@.after_acknowledgement(message_id, now)
                &&& final(tasks)@ == old(tasks)@
                &&& final(position_updates)@ == old(position_updates)@
            },
            message.sequence_id() matches Some(id) ==> {
                &&& reception.response == Some(Message::Response { message_id: id })
                &&& reception.acknowledgement.is_none()
                &&& final(connection)@ == old(connection)@.received(message)
                &&& final(tasks)@ == old(tasks)@ + tasks_of(
                    self.serves(),
                    *address,
                    old(connection)@.delivered(message),
                    old(connection)@.attached_external_id,
                )
                &&& final(position_updates)@ == positions_after(
                    self.serves(),
                    old(position_updates)@,
                    old(connection)@.delivered(message),
                )
            },
    {
        if let Message::Response { message_id } = message {
            let outcome = connection.acknowledge_message(message_id, now);
            return Reception { response: None, acknowledgement: Some(outcome) };
        }
        let response = match message.get_id() {
            Some(message_id) => Some(Message::Response { message_id }),
            None => None,
        };
        let ghost delivered = old(connection)@.delivered(message);
        let ghost external = old(connection)@.attached_external_id;
        if let Some(message) = connection.filter_message(message) {
            let external_id = connection.attached_external_id();
            let next_messages = connection.take_next_held_messages();
            proof {
                assert(delivered == seq![message] + next_messages@);
                let one = delivered.take(1);
                let none = one.drop_last();
                assert(none.len() == 0);
                assert(one.last() == message);
                assert(tasks_of(self.serves(), *address, none, external) == Seq::<
                    GameTask,
                >::empty());
                assert(positions_after(self.serves(), old(position_updates)@, none) == old(
                    position_updates,
                )@);
            }
            self.on_message(address, &message, external_id, tasks, position_updates);
            let mut i: usize = 0;
            while i < next_messages.len()
                invariant
                    i <= next_messages@.len(),
                    delivered == seq![message] + next_messages@,
                    external_id == external,
                    tasks@ == old(tasks)@ + tasks_of(
                        self.serves(),
                        *address,
                        delivered.take(i + 1),
                        external,
                    ),
                    position_updates@ == positions_after(
                        self.serves(),
                        old(position_updates)@,
                        delivered.take(i + 1),
                    ),
                decreases next_messages@.len() - i,
            {
                let next = next_messages[i];
                proof {
                    let grown = delivered.take(i + 2);
                    assert(grown.drop_last() == delivered.take(i + 1));
                    assert(grown.last() == next);
                }
                self.on_message(address, &next, external_id, tasks, position_updates);
                i = i + 1;
            }
            assert(delivered.take(i + 1) == delivered);
        }
        Reception { response, acknowledgement: None }
    }
}

} // verus!
