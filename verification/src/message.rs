//! The messages that peers exchange, and the sequence identifier that each
//! reliable message carries.

use crate::address::Address;
use vstd::prelude::*;

verus! {

/// The peers that a message is for.
#[derive(Clone, Copy, Debug, PartialEq, Eq)]
pub enum MessageReceiver {
    /// The peer at this address.
    Only(Address),
    /// Every peer.
    Every,
    /// Every peer but the one at this address.
    Except(Address),
}

impl MessageReceiver {
    /// Whether the peer at `address` is among those that the message is for.
    pub open spec fn names(self, address: Address) -> bool {
        match self {
            MessageReceiver::Only(only) => address == only,
            MessageReceiver::Every => true,
            MessageReceiver::Except(except) => address != except,
        }
    }

    /// Whether the peer at `address` is among those that the message is for.
    pub fn includes(&self, address: Address) -> (included: bool)
        ensures
            included == self.names(address),
    {
        match *self {
            MessageReceiver::Only(only) => address == only,
            MessageReceiver::Every => true,
            MessageReceiver::Except(except) => address != except,
        }
    }
}

/// One message on the wire.
///
/// Every kind but `Response` is reliable: it carries a sequence identifier
/// `id` that the sending connection assigns, and the receiver answers it
/// with a `Response` that names the same identifier.
///
/// Coordinates and angles are carried as single-precision bit patterns.
#[derive(Clone, Copy, Debug, PartialEq, Eq)]
pub enum Message {
    Response { message_id: u16 },
    Greeting { id: u16 },
    ClientInput { id: u16, actions: u8, direction: u32 },
    ClientInputDirection { id: u16, direction: u32 },
    ActorSpawn { id: u16, public_id: u16, x: u32, y: u32, direction: u32 },
    ActorGrant { id: u16, public_id: u16 },
    TransformSync { id: u16, public_id: u16, x: u32, y: u32, direction: u32 },
}

impl Message {
    /// Whether the message is reliable, that is, carries a sequence
    /// identifier.
    pub open spec fn is_reliable(self) -> bool {
        !(self is Response)
    }

    /// The sequence identifier of a reliable message.
    pub open spec fn sequence_id(self) -> Option<u16> {
        match self {
            Message::Response { .. } => None,
            Message::Greeting { id } => Some(id),
            Message::ClientInput { id, .. } => Some(id),
            Message::ClientInputDirection { id, .. } => Some(id),
            Message::ActorSpawn { id, .. } => Some(id),
            Message::ActorGrant { id, .. } => Some(id),
            Message::TransformSync { id, .. } => Some(id),
        }
    }

    /// The same message under the sequence identifier `id_new`. A `Response`
    /// has none and stays as it is.
    pub open spec fn with_id(self, id_new: u16) -> Message {
        match self {
            Message::Response { message_id } => Message::Response { message_id },
            Message::Greeting { .. } => Message::Greeting { id: id_new },
            Message::ClientInput { actions, direction, .. } => Message::ClientInput {
                id: id_new,
                actions,
                direction,
            },
            Message::ClientInputDirection { direction, .. } => Message::ClientInputDirection {
                id: id_new,
                direction,
            },
            Message::ActorSpawn { public_id, x, y, direction, .. } => Message::ActorSpawn {
                id: id_new,
                public_id,
                x,
                y,
                direction,
            },
            Message::ActorGrant { public_id, .. } => Message::ActorGrant { id: id_new, public_id },
            Message::TransformSync { public_id, x, y, direction, .. } => Message::TransformSync {
                id: id_new,
                public_id,
                x,
                y,
                direction,
            },
        }
    }

    /// Replacing the identifier changes nothing else: the kind stays, a
    /// reliable message reads back the new identifier, and putting the old
    /// identifier back restores the message.
    pub proof fn law_with_id(self, id_new: u16)
        ensures
            self.with_id(id_new).is_reliable() == self.is_reliable(),
            self.is_reliable() ==> self.with_id(id_new).sequence_id() == Some(id_new),
            !self.is_reliable() ==> self.with_id(id_new) == self,
            self.sequence_id() matches Some(id) ==> self.with_id(id_new).with_id(id) == self,
            self.with_id(id_new).with_id(id_new) == self.with_id(id_new),
    {
    }

    /// Writes the sequence identifier of a reliable message.
    pub fn set_id(&mut self, id_new: u16)
        ensures
            *final(self) == old(self).with_id(id_new),
    {
        let updated = match *self {
            Message::Response { message_id } => Message::Response { message_id },
            Message::Greeting { .. } => Message::Greeting { id: id_new },
            Message::ClientInput { actions, direction, .. } => Message::ClientInput {
                id: id_new,
                actions,
                direction,
            },
            Message::ClientInputDirection { direction, .. } => Message::ClientInputDirection {
                id: id_new,
                direction,
            },
            Message::ActorSpawn { public_id, x, y, direction, .. } => Message::ActorSpawn {
                id: id_new,
                public_id,
                x,
                y,
                direction,
            },
            Message::ActorGrant { public_id, .. } => Message::ActorGrant { id: id_new, public_id },
            Message::TransformSync { public_id, x, y, direction, .. } => Message::TransformSync {
                id: id_new,
                public_id,
                x,
                y,
                direction,
            },
        };
        *self = updated;
    }

    /// The sequence identifier of a reliable message.
    pub fn get_id(&self) -> (id: Option<u16>)
        ensures
            id == self.sequence_id(),
            id.is_some() == self.is_reliable(),
    {
        match *self {
            Message::Response { .. } => None,
            Message::Greeting { id } => Some(id),
            Message::ClientInput { id, .. } => Some(id),
            Message::ClientInputDirection { id, .. } => Some(id),
            Message::ActorSpawn { id, .. } => Some(id),
            Message::ActorGrant { id, .. } => Some(id),
            Message::TransformSync { id, .. } => Some(id),
        }
    }

    /// Whether the message is reliable.
    pub fn has_id(&self) -> (reliable: bool)
        ensures
            reliable == self.is_reliable(),
            reliable == self.sequence_id().is_some(),
    {
        match *self {
            Message::Response { .. } => false,
            _ => true,
        }
    }
}

} // verus!
