//! The connections to all peers, by address.

use crate::address::Address;
use crate::connection::Connection;
use crate::connection::ConnectionView;
use crate::connection::Retransmission;
use crate::message::MessageReceiver;
use vstd::prelude::*;

verus! {

/// A peer and the state of the connection to it.
pub struct PeerView {
    pub address: Address,
    pub connection: ConnectionView,
}

/// Whether one of `peers` has the address `address`.
pub open spec fn has_peer(peers: Seq<PeerView>, address: Address) -> bool {
    exists|i: int| 0 <= i < peers.len() && (#[trigger] peers[i]).address == address
}

/// The place of the peer with the address `address`.
pub open spec fn peer_of(peers: Seq<PeerView>, address: Address) -> int {
    choose|i: int| 0 <= i < peers.len() && (#[trigger] peers[i]).address == address
}

/// No two peers have the same address.
pub open spec fn addresses_differ(peers: Seq<PeerView>) -> bool {
    forall|i: int, j: int|
        0 <= i < j < peers.len() ==> (#[trigger] peers[i]).address != (#[trigger] peers[j]).address
}

/// The peers among `peers` that a message for `receiver` goes to, in their
/// order.
pub open spec fn recipients_of(peers: Seq<PeerView>, receiver: MessageReceiver) -> Seq<Address> {
    peers.filter_map(
        |peer: PeerView|
            if receiver.names(peer.address) {
                Some(peer.address)
            } else {
                None
            },
    )
}

/// The table once a message came in from `address`: its peer has a
/// connection that has not ended, which is a new one if the peer had none
/// or if the one it had has ended.
pub open spec fn accepted(peers: Seq<PeerView>, address: Address) -> Seq<PeerView> {
    if !has_peer(peers, address) {
        peers.push(PeerView { address, connection: ConnectionView::fresh() })
    } else if peers[peer_of(peers, address)].connection.disconnected.is_some() {
        peers.update(
            peer_of(peers, address),
            PeerView { address, connection: ConnectionView::fresh() },
        )
    } else {
        peers
    }
}

/// The messages that are to go out again to one peer.
#[derive(Debug)]
pub struct Batch {
    pub address: Address,
    pub messages: Vec<Retransmission>,
}

struct Peer {
    address: Address,
    connection: Connection,
}

/// The connections to all peers, each under the address of its peer.
pub struct ConnectionTable {
    peers: Vec<Peer>,
}

impl View for ConnectionTable {
    type V = Seq<PeerView>;

    /// The peers, in the order in which they came up.
    closed spec fn view(&self) -> Seq<PeerView> {
        Seq::new(
            self.peers@.len(),
            |i: int| PeerView { address: self.peers@[i].address, connection: self.peers@[i].connection@ },
        )
    }
}

impl ConnectionTable {
    /// No two peers have the same address.
    pub closed spec fn wf(&self) -> bool {
        forall|i: int, j: int|
            0 <= i < j < self.peers@.len() ==> (#[trigger] self.peers@[i]).address != (
            #[trigger] self.peers@[j]).address
    }

    /// No two peers of a table have the same address.
    pub proof fn lemma_addresses_differ(&self)
        requires
            self.wf(),
        ensures
            addresses_differ(self@),
    {
    }

    /// A table without peers.
    pub fn new() -> (table: Self)
        ensures
            table.wf(),
            table@ == Seq::<PeerView>::empty(),
    {
        let table = ConnectionTable { peers: Vec::new() };
        assert(table@ =~= Seq::<PeerView>::empty());
        table
    }

    /// The place of the peer with the address `address`, if there is one.
    fn find(&self, address: Address) -> (place: Option<usize>)
        requires
            self.wf(),
        ensures
            match place {
                Some(i) => has_peer(self@, address) && i == peer_of(self@, address),
                None => !has_peer(self@, address),
            },
    {
        let mut i: usize = 0;
        while i < self.peers.len()
            invariant
                i <= self.peers@.len(),
                self.wf(),
                forall|j: int| 0 <= j < i ==> (#[trigger] self@[j]).address != address,
            decreases self.peers@.len() - i,
        {
            if self.peers[i].address == address {
                proof {
                    self.lemma_addresses_differ();
                    assert(self@[i as int].address == address);
                    let k = peer_of(self@, address);
                    if k < i {
                        assert(self@[k].address != address);
                    }
                    if i < k {
                        assert(self@[i as int].address != self@[k].address);
                    }
                }
                return Some(i);
            }
            i = i + 1;
        }
        None
    }

    /// The number of peers.
    pub fn len(&self) -> (count: usize)
        ensures
            count == self@.len(),
    {
        self.peers.len()
    }

    /// The connection to the peer at `address`, if there is one.
    pub fn get(&self, address: Address) -> (connection: Option<&Connection>)
        requires
            self.wf(),
        ensures
            match connection {
                Some(connection) => has_peer(self@, address) && connection@ == self@[peer_of(
                    self@,
                    address,
                )].connection,
                None => !has_peer(self@, address),
            },
    {
        match self.find(address) {
            Some(i) => Some(&self.peers[i].connection),
            None => None,
        }
    }

    /// The connection for a message that came in from `address`. A peer
    /// that is new gets a new connection, and so does a peer whose
    /// connection has ended.
    #[verifier::rlimit(30)]
    pub fn accept(&mut self, address: Address) -> (connection: &mut Connection)
        requires
            old(self).wf(),
        ensures
            final(self).wf(),
            has_peer(accepted(old(self)@, address), address),
            connection@ == accepted(old(self)@, address)[peer_of(
                accepted(old(self)@, address),
                address,
            )].connection,
            connection@.disconnected.is_none(),
            final(self)@ == accepted(old(self)@, address).update(
                peer_of(accepted(old(self)@, address), address),
                PeerView { address, connection: final(connection)@ },
            ),
    {
        let place = self.find(address);
        let i = match place {
            Some(i) => {
                if !self.peers[i].connection.is_connected() {
                    self.peers[i].connection = Connection::new();
                    assert(self@ =~= accepted(old(self)@, address));
                }
                i
            },
            None => {
                proof {
                    assert forall|j: int| 0 <= j < self.peers@.len() implies (
                    #[trigger] self.peers@[j]).address != address by {
                        assert(self@[j].address == self.peers@[j].address);
                    }
                }
                self.peers.push(Peer { address, connection: Connection::new() });
                assert(self@ =~= accepted(old(self)@, address));
                self.peers.len() - 1
            },
        };
        proof {
            assert(self@ == accepted(old(self)@, address));
            assert(self@[i as int].address == address);
            self.lemma_addresses_differ();
            let k = peer_of(self@, address);
            if k < i {
                assert(self@[k].address != self@[i as int].address);
            }
            if i < k {
                assert(self@[i as int].address != self@[k].address);
            }
        }
        assert(self.wf());
        &mut self.peers[i].connection
    }

    /// The peers that a message for `receiver` goes to, in the order in
    /// which they came up.
    pub fn recipients(&self, receiver: &MessageReceiver) -> (addresses: Vec<Address>)
        ensures
            addresses@ == recipients_of(self@, *receiver),
    {
        let mut addresses: Vec<Address> = Vec::new();
        let mut i: usize = 0;
        assert(self@.take(0) =~= Seq::<PeerView>::empty());
        while i < self.peers.len()
            invariant
                i <= self.peers@.len(),
                self.peers@.len() == self@.len(),
                addresses@ == recipients_of(self@.take(i as int), *receiver),
            decreases self.peers@.len() - i,
        {
            let address = self.peers[i].address;
            proof {
                let grown = self@.take(i as int + 1);
                assert(grown.drop_last() =~= self@.take(i as int));
                assert(grown.last().address == address);
            }
            if receiver.includes(address) {
                addresses.push(address);
            }
            i = i + 1;
        }
        assert(self@.take(i as int) =~= self@);
        addresses
    }

    /// Goes through all connections for the messages that are due at `now`,
    /// marks each as sent again at `now`, and returns them for the caller to
    /// transmit: one batch for each peer, in the order in which the peers
    /// came up. A caller whose transmission to a peer fails ends the
    /// connection to that peer.
    #[verifier::rlimit(30)]
    pub fn update_connections(&mut self, now: u128) -> (batches: Vec<Batch>)
        requires
            old(self).wf(),
        ensures
            final(self).wf(),
            batches@.len() == old(self)@.len(),
            final(self)@.len() == old(self)@.len(),
            forall|i: int|
                0 <= i < old(self)@.len() ==> {
                    &&& (#[trigger] batches@[i]).address == old(self)@[i].address
                    &&& old(self)@[i].connection.is_sweep(batches@[i].messages@, now)
                    &&& final(self)@[i] == (PeerView {
                        address: old(self)@[i].address,
                        connection: old(self)@[i].connection.swept(now),
                    })
                },
    {
        let mut batches: Vec<Batch> = Vec::new();
        let mut i: usize = 0;
        while i < self.peers.len()
            invariant
                i <= self.peers@.len(),
                self.wf(),
                self@.len() == old(self)@.len(),
                self.peers@.len() == self@.len(),
                batches@.len() == i,
                forall|j: int|
                    0 <= j < i ==> {
                        &&& (#[trigger] batches@[j]).address == old(self)@[j].address
                        &&& old(self)@[j].connection.is_sweep(batches@[j].messages@, now)
                        &&& self@[j] == (PeerView {
                            address: old(self)@[j].address,
                            connection: old(self)@[j].connection.swept(now),
                        })
                    },
                forall|j: int| i <= j < self@.len() ==> self@[j] == old(self)@[j],
            decreases self.peers@.len() - i,
        {
            let ghost before = self@;
            let address = self.peers[i].address;
            let messages = self.peers[i].connection.resend_unacknowledged_messages(now);
            assert(forall|j: int| 0 <= j < before.len() && j != i ==> self@[j] == before[j]);
            batches.push(Batch { address, messages });
            i = i + 1;
        }
        batches
    }

    /// The connection to the peer at `address`, made anew if there is none.
    pub fn connect(&mut self, address: Address) -> (connection: &mut Connection)
        requires
            old(self).wf(),
        ensures
            final(self).wf(),
            has_peer(old(self)@, address) ==> {
                let i = peer_of(old(self)@, address);
                &&& connection@ == old(self)@[i].connection
                &&& final(self)@ == old(self)@.update(
                    i,
                    PeerView { address, connection: final(connection)@ },
                )
            },
            !has_peer(old(self)@, address) ==> {
                &&& connection@ == ConnectionView::fresh()
                &&& final(self)@ == old(self)@.push(
                    PeerView { address, connection: final(connection)@ },
                )
            },
    {
        let place = self.find(address);
        let i = match place {
            Some(i) => i,
            None => {
                proof {
                    assert forall|j: int| 0 <= j < self.peers@.len() implies (
                    #[trigger] self.peers@[j]).address != address by {
                        assert(self@[j].address == self.peers@[j].address);
                    }
                }
                self.peers.push(Peer { address, connection: Connection::new() });
                assert(self@ =~= old(self)@.push(
                    PeerView { address, connection: ConnectionView::fresh() },
                ));
                self.peers.len() - 1
            },
        };
        assert(self@[i as int].address == address);
        assert(self.wf());
        &mut self.peers[i].connection
    }
}

} // verus!
