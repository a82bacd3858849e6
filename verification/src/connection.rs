//! The protocol state of one peer: sequencing, in-order delivery,
//! acknowledgement, retransmission and round-trip estimation.
//!
//! A connection never touches the network. `send` and
//! `resend_unacknowledged_messages` say what to transmit, and the caller
//! reports back how the transmission went.

use crate::message::Message;
use crate::sequence::distance_ahead;
use crate::sequence::id_after;
use crate::sequence::is_ahead;
use crate::sequence::lemma_id_after;
use crate::sequence::lemma_id_after_distance;
use crate::sequence::lemma_id_after_twice;
use crate::sequence::next_id;
use crate::sequence::places_ahead;
use crate::time::elapsed;
use crate::time::elapsed_between;
use crate::time::NANOS_PER_MILLI;
use std::collections::HashMap;
use vstd::prelude::*;
use vstd::std_specs::iter::IteratorSpec;

verus! {

broadcast use vstd::std_specs::hash::group_hash_axioms;

/// The age, in nanoseconds, at which an unacknowledged message is sent again.
pub const MESSAGE_RESEND_INTERVAL: u128 = 400_000_000;

/// The number of round trips after which the running average stops growing
/// less responsive.
pub const AVERAGE_PING_RANGE_MAX: u8 = 10;

/// One part in `parts` of `gap`, rounded up: the least step that, taken
/// `parts` times, covers the gap.
pub open spec fn share(gap: int, parts: int) -> int {
    (gap + parts - 1) / parts
}

/// The running average once a round trip of `sample` nanoseconds is folded
/// into an average over `samples` earlier round trips: the average moves
/// towards the sample by one part in `samples + 1` of the way, rounded up,
/// so a sample that differs from the average always moves it.
pub open spec fn folded_average(average: u128, samples: u8, sample: u128) -> u128 {
    if sample >= average {
        (average + share(sample - average, samples + 1)) as u128
    } else {
        (average - share(average - sample, samples + 1)) as u128
    }
}

/// A share of a gap is the quotient, and one more if the division leaves a
/// rest. It is never more than the gap, all of it if there is one part, and
/// nothing only if the gap is nothing.
pub proof fn lemma_share(gap: int, parts: int)
    requires
        gap >= 0,
        parts >= 1,
    ensures
        share(gap, parts) == gap / parts + (if gap % parts == 0 {
            0int
        } else {
            1int
        }),
        0 <= share(gap, parts) <= gap,
        parts == 1 ==> share(gap, parts) == gap,
        share(gap, parts) == 0 <==> gap == 0,
        (share(gap, parts) - 1) * parts < gap || gap == 0,
        share(gap, parts) * parts >= gap,
{
    let q = gap / parts;
    let r = gap % parts;
    assert(gap == q * parts + r && 0 <= r < parts && q >= 0) by (nonlinear_arith)
        requires
            gap >= 0,
            parts >= 1,
            q == gap / parts,
            r == gap % parts,
    ;
    let up = gap + parts - 1;
    assert(up / parts == (if r == 0 {
        q
    } else {
        q + 1
    })) by (nonlinear_arith)
        requires
            up == q * parts + r + parts - 1,
            0 <= r < parts,
            parts >= 1,
            q >= 0,
    ;
    assert(q * parts >= q && (parts == 1 ==> q * parts == q) && (q == 0 ==> q * parts == 0) && (q
        + 1) * parts == q * parts + parts && (q - 1) * parts == q * parts - parts)
        by (nonlinear_arith)
        requires
            parts >= 1,
            q >= 0,
    ;
}

/// Folding a sample in moves the average towards the sample and never past
/// it; the first sample becomes the average; and the average stays where it
/// is only if the sample is the average: any other sample moves it, and
/// brings it strictly closer to the sample.
pub proof fn law_folded_average(average: u128, samples: u8, sample: u128)
    ensures
        samples == 0 ==> folded_average(average, samples, sample) == sample,
        sample >= average ==> average <= folded_average(average, samples, sample) <= sample,
        sample <= average ==> sample <= folded_average(average, samples, sample) <= average,
        folded_average(average, samples, sample) == average <==> sample == average,
        sample > average ==> sample - folded_average(average, samples, sample) < sample - average,
        sample < average ==> folded_average(average, samples, sample) - sample < average - sample,
{
    let gap: int = if sample >= average {
        sample - average
    } else {
        average - sample
    };
    lemma_share(gap, samples + 1);
}

/// The folded average is the mean `(average * samples + sample) / (samples
/// + 1)`, rounded to a whole nanosecond towards the sample.
pub proof fn law_folded_average_is_the_mean_rounded(average: u128, samples: u8, sample: u128)
    ensures
        sample >= average ==> {
            &&& folded_average(average, samples, sample) * (samples + 1) >= average * samples
                + sample
            &&& (folded_average(average, samples, sample) - 1) * (samples + 1) < average * samples
                + sample || sample == average
        },
        sample <= average ==> {
            &&& folded_average(average, samples, sample) * (samples + 1) <= average * samples
                + sample
            &&& (folded_average(average, samples, sample) + 1) * (samples + 1) > average * samples
                + sample || sample == average
        },
{
    let parts: int = samples + 1;
    let gap: int = if sample >= average {
        sample - average
    } else {
        average - sample
    };
    lemma_share(gap, parts);
    let step = share(gap, parts);
    let a: int = average as int;
    let n: int = samples as int;
    let folded: int = folded_average(average, samples, sample) as int;
    if sample >= average {
        assert(folded * parts == a * n + a + step * parts && (folded - 1) * parts == a * n + a
            + (step - 1) * parts && (step == 0 ==> step * parts == 0)) by (nonlinear_arith)
            requires
                parts == n + 1,
                folded == a + step,
        ;
    } else {
        assert(folded * parts == a * n + a - step * parts && (folded + 1) * parts == a * n + a
            - (step - 1) * parts) by (nonlinear_arith)
            requires
                parts == n + 1,
                folded == a - step,
        ;
    }
}

/// One part in `parts` of `gap`, rounded up.
fn share_of(gap: u128, parts: u128) -> (step: u128)
    requires
        parts >= 1,
    ensures
        step == share(gap as int, parts as int),
        step <= gap,
{
    proof {
        lemma_share(gap as int, parts as int);
    }
    let whole: u128 = gap / parts;
    if gap % parts == 0 {
        whole
    } else {
        whole + 1
    }
}

/// The round trip that an acknowledgement at `now` measures for a message
/// sent at `last_sent`: whole milliseconds, in nanoseconds.
pub open spec fn round_trip(now: u128, last_sent: u128) -> u128 {
    (elapsed(now, last_sent) / NANOS_PER_MILLI * NANOS_PER_MILLI) as u128
}

/// The first `k` identifiers from `next` on are all held, and the one after
/// them is not.
pub open spec fn is_run(held: Map<u16, Message>, next: u16, k: int) -> bool {
    &&& 0 <= k <= 0x1_0000
    &&& forall|j: int| 0 <= j < k ==> held.contains_key(#[trigger] id_after(next, j))
    &&& k < 0x1_0000 ==> !held.contains_key(id_after(next, k))
}

/// The number of identifiers from the one `k` places after `next` on under
/// which a message is held without a gap, plus `k`.
pub open spec fn run_length_from(held: Map<u16, Message>, next: u16, k: int) -> int
    decreases 0x1_0000 - k,
{
    if 0 <= k < 0x1_0000 && held.contains_key(id_after(next, k)) {
        run_length_from(held, next, k + 1)
    } else {
        k
    }
}

/// The number of identifiers from `next` on under which a message is held
/// without a gap.
pub open spec fn run_length(held: Map<u16, Message>, next: u16) -> int {
    run_length_from(held, next, 0)
}

/// Counting on from a run of `k` identifiers finds the whole run.
pub proof fn lemma_run_length_from(held: Map<u16, Message>, next: u16, k: int)
    requires
        0 <= k <= 0x1_0000,
        forall|j: int| 0 <= j < k ==> held.contains_key(#[trigger] id_after(next, j)),
    ensures
        is_run(held, next, run_length_from(held, next, k)),
    decreases 0x1_0000 - k,
{
    if k < 0x1_0000 && held.contains_key(id_after(next, k)) {
        lemma_run_length_from(held, next, k + 1);
    }
}

/// `run_length` is the one length that `is_run` accepts.
pub proof fn lemma_run_length(held: Map<u16, Message>, next: u16, k: int)
    ensures
        is_run(held, next, run_length(held, next)),
        is_run(held, next, k) ==> k == run_length(held, next),
{
    lemma_run_length_from(held, next, 0);
    let r = run_length(held, next);
    if is_run(held, next, k) {
        if k < r {
            assert(held.contains_key(id_after(next, k)));
        }
        if r < k {
            assert(held.contains_key(id_after(next, r)));
        }
    }
}

/// The identifiers that lie fewer than `k` places after `next`.
pub open spec fn ids_within(next: u16, k: int) -> Set<u16> {
    Set::new(|id: u16| distance_ahead(next, id) < k)
}

impl Pending {
    /// Whether the message has waited for its acknowledgement for more than
    /// `MESSAGE_RESEND_INTERVAL` at `now`.
    pub open spec fn is_due(self, now: u128) -> bool {
        elapsed(now, self.last_sent) > MESSAGE_RESEND_INTERVAL
    }

    /// The message once it went out again at `now`.
    pub open spec fn resent(self, now: u128) -> Pending {
        Pending { data: self.data, last_sent: now, is_resent: true }
    }
}

/// The unacknowledged messages after each one that is due at `now` went out
/// again.
pub open spec fn after_resend(pending: Map<u16, Pending>, now: u128) -> Map<u16, Pending> {
    pending.map_values(
        |p: Pending|
            if p.is_due(now) {
                p.resent(now)
            } else {
                p
            },
    )
}

/// Whether a peer can still be reached.
#[derive(Clone, Debug, PartialEq, Eq)]
pub enum ConnectionStatus {
    Connected,
    Disconnected(String),
}

impl ConnectionStatus {
    /// The reason for which the connection ended, if it has.
    pub open spec fn reason(self) -> Option<Seq<char>> {
        match self {
            ConnectionStatus::Connected => None,
            ConnectionStatus::Disconnected(reason) => Some(reason@),
        }
    }
}

/// A reliable message that was sent and not yet acknowledged.
pub struct UnacknowledgedMessage {
    data: Vec<u8>,
    last_sent: u128,
    is_resent: bool,
}

/// What a connection remembers of an unacknowledged message: the bytes that
/// went out, when they last went out, and whether they went out again.
pub struct Pending {
    pub data: Seq<u8>,
    pub last_sent: u128,
    pub is_resent: bool,
}

impl View for UnacknowledgedMessage {
    type V = Pending;

    closed spec fn view(&self) -> Pending {
        Pending { data: self.data@, last_sent: self.last_sent, is_resent: self.is_resent }
    }
}

/// A message that is to go out again, as it went out before.
#[derive(Debug)]
pub struct Retransmission {
    pub id: u16,
    pub data: Vec<u8>,
}

/// The state of a connection.
pub struct ConnectionView {
    /// `None` while connected, else the reason for which it ended.
    pub disconnected: Option<Seq<char>>,
    /// The reliable messages that are awaiting their acknowledgement.
    pub unacknowledged: Map<u16, Pending>,
    /// The messages that arrived ahead of their turn.
    pub held: Map<u16, Message>,
    /// The identifier of the next message to hand on.
    pub next_incoming_id: u16,
    /// The identifier that the next reliable message goes out under.
    pub next_outgoing_id: u16,
    /// The actor that the peer controls, if any.
    pub attached_external_id: Option<u16>,
    /// The running average of the round-trip time, in nanoseconds.
    pub average_ping: u128,
    /// The number of round trips that weigh in the average, at most
    /// `AVERAGE_PING_RANGE_MAX`.
    pub ping_samples: u8,
}

impl ConnectionView {
    /// A connected peer with nothing sent, nothing held and no round trip
    /// measured.
    pub open spec fn fresh() -> ConnectionView {
        ConnectionView {
            disconnected: None,
            unacknowledged: Map::empty(),
            held: Map::empty(),
            next_incoming_id: 0,
            next_outgoing_id: 0,
            attached_external_id: None,
            average_ping: 0,
            ping_samples: 0,
        }
    }

    /// The number of samples in the average stays within its cap.
    pub open spec fn wf(self) -> bool {
        self.ping_samples <= AVERAGE_PING_RANGE_MAX
    }

    /// Every held message is ahead of its turn, and is held under its own
    /// identifier.
    pub open spec fn held_in_order(self) -> bool {
        forall|id: u16| #[trigger]
            self.held.contains_key(id) ==> is_ahead(self.next_incoming_id, id)
                && self.held[id].sequence_id() == Some(id)
    }

    /// The state after a resend sweep at `now`: on a connection that has not
    /// ended, every unacknowledged message that is due went out again.
    pub open spec fn swept(self, now: u128) -> ConnectionView {
        if self.disconnected.is_some() {
            self
        } else {
            ConnectionView { unacknowledged: after_resend(self.unacknowledged, now), ..self }
        }
    }

    /// Whether `due` is what a resend sweep at `now` hands out: nothing on a
    /// connection that has ended, else every unacknowledged message that is
    /// due, once, with the bytes it went out with.
    pub open spec fn is_sweep(self, due: Seq<Retransmission>, now: u128) -> bool {
        &&& self.disconnected.is_some() ==> due.len() == 0
        &&& forall|i: int|
            0 <= i < due.len() ==> {
                &&& self.unacknowledged.contains_key((#[trigger] due[i]).id)
                &&& self.unacknowledged[due[i].id].is_due(now)
                &&& due[i].data@ == self.unacknowledged[due[i].id].data
            }
        &&& forall|i: int, j: int|
            0 <= i < j < due.len() ==> (#[trigger] due[i]).id != (#[trigger] due[j]).id
        &&& self.disconnected.is_none() ==> forall|id: u16|
            #[trigger] self.unacknowledged.contains_key(id) && self.unacknowledged[id].is_due(now)
                ==> exists|i: int| 0 <= i < due.len() && (#[trigger] due[i]).id == id
    }

    /// What acknowledging the message sent under `id` does at `now`.
    pub open spec fn acknowledged(self, id: u16, now: u128) -> Acknowledgement {
        if !self.unacknowledged.contains_key(id) {
            Acknowledgement::Unknown
        } else if self.unacknowledged[id].is_resent {
            Acknowledgement::Retransmitted
        } else {
            Acknowledgement::Measured(round_trip(now, self.unacknowledged[id].last_sent))
        }
    }

    /// The state after the message sent under `id` was acknowledged at
    /// `now`: the message is no longer waiting, and a round trip that was
    /// measured is folded into the average as one more sample, up to the
    /// cap.
    pub open spec fn after_acknowledgement(self, id: u16, now: u128) -> ConnectionView {
        match self.acknowledged(id, now) {
            Acknowledgement::Unknown => self,
            Acknowledgement::Retransmitted => ConnectionView {
                unacknowledged: self.unacknowledged.remove(id),
                ..self
            },
            Acknowledgement::Measured(sample) => ConnectionView {
                unacknowledged: self.unacknowledged.remove(id),
                average_ping: folded_average(self.average_ping, self.ping_samples, sample),
                ping_samples: if self.ping_samples < AVERAGE_PING_RANGE_MAX {
                    (self.ping_samples + 1) as u8
                } else {
                    self.ping_samples
                },
                ..self
            },
        }
    }

    /// Whether `filter_message` lets `message` pass: it has no identifier,
    /// or it is its turn.
    pub open spec fn passes(self, message: Message) -> bool {
        message.sequence_id() matches Some(id) ==> id == self.next_incoming_id
    }

    /// The state after `message` came in: its turn moves on if it was its
    /// turn, it is held if it is ahead of its turn, and nothing changes if
    /// it is behind or has no identifier.
    pub open spec fn filtered(self, message: Message) -> ConnectionView {
        match message.sequence_id() {
            None => self,
            Some(id) => if id == self.next_incoming_id {
                ConnectionView { next_incoming_id: id_after(id, 1), ..self }
            } else if is_ahead(self.next_incoming_id, id) {
                ConnectionView { held: self.held.insert(id, message), ..self }
            } else {
                self
            },
        }
    }

    /// The held messages whose turn has come, in the order of their
    /// identifiers.
    pub open spec fn ready(self) -> Seq<Message> {
        Seq::new(
            run_length(self.held, self.next_incoming_id) as nat,
            |j: int| self.held[id_after(self.next_incoming_id, j)],
        )
    }

    /// The state once the held messages whose turn has come are taken out.
    pub open spec fn drained(self) -> ConnectionView {
        let count = run_length(self.held, self.next_incoming_id);
        ConnectionView {
            held: self.held.remove_keys(ids_within(self.next_incoming_id, count)),
            next_incoming_id: id_after(self.next_incoming_id, count),
            ..self
        }
    }

    /// The messages to hand on when `message` comes in, in order: the
    /// message itself, if it passes, and then the held messages whose turn
    /// has come with it.
    pub open spec fn delivered(self, message: Message) -> Seq<Message> {
        if self.passes(message) {
            seq![message] + self.filtered(message).ready()
        } else {
            Seq::empty()
        }
    }

    /// The state after `message` came in and what it released was taken out.
    pub open spec fn received(self, message: Message) -> ConnectionView {
        if self.passes(message) {
            self.filtered(message).drained()
        } else {
            self.filtered(message)
        }
    }

    /// The messages handed on, in order, while `arrivals` come in one after
    /// the other.
    pub open spec fn dispatched(self, arrivals: Seq<Message>) -> Seq<Message>
        decreases arrivals.len(),
    {
        if arrivals.len() == 0 {
            Seq::empty()
        } else {
            self.delivered(arrivals[0]) + self.received(arrivals[0]).dispatched(arrivals.skip(1))
        }
    }

    /// One arrival keeps the held messages in order, hands on messages with
    /// consecutive identifiers from the one whose turn it is, and moves the
    /// turn past them.
    #[verifier::rlimit(30)]
    pub proof fn lemma_received(self, message: Message)
        requires
            self.held_in_order(),
            message.is_reliable(),
        ensures
            self.received(message).held_in_order(),
            self.delivered(message).len() <= 0x8000,
            forall|i: int|
                0 <= i < self.delivered(message).len() ==> (#[trigger] self.delivered(
                    message,
                )[i]).sequence_id() == Some(id_after(self.next_incoming_id, i)),
            self.received(message).next_incoming_id == id_after(
                self.next_incoming_id,
                self.delivered(message).len() as int,
            ),
    {
        let next = self.next_incoming_id;
        let id = message.sequence_id().unwrap();
        lemma_id_after(next, 0);
        if id == next {
            let f = self.filtered(message);
            let turn = f.next_incoming_id;
            lemma_id_after(next, 1);
            let r = run_length(f.held, turn);
            lemma_run_length(f.held, turn, r);
            assert(r <= 0x7FFF) by {
                if r > 0x7FFF {
                    let far = id_after(turn, 0x7FFF);
                    assert(f.held.contains_key(far));
                    lemma_id_after_twice(next, 1, 0x7FFF);
                    lemma_id_after(next, 0x8000);
                    assert(is_ahead(next, far));
                }
            }
            assert forall|i: int| 0 <= i < self.delivered(message).len() implies (
            #[trigger] self.delivered(message)[i]).sequence_id() == Some(id_after(next, i)) by {
                if i > 0 {
                    assert(f.held.contains_key(id_after(turn, i - 1)));
                    lemma_id_after_twice(next, 1, i - 1);
                }
            }
            lemma_id_after_twice(next, 1, r);
            lemma_id_after(turn, r);
            let d = f.drained();
            assert forall|held_id: u16| #[trigger] d.held.contains_key(held_id) implies is_ahead(
                d.next_incoming_id,
                held_id,
            ) && d.held[held_id].sequence_id() == Some(held_id) by {
                assert(self.held.contains_key(held_id));
                let away = distance_ahead(turn, held_id);
                assert(away >= r);
                lemma_id_after_distance(turn, held_id);
                assert(away != r);
            }
        } else if is_ahead(next, id) {
            let f = self.filtered(message);
            assert forall|held_id: u16| #[trigger] f.held.contains_key(held_id) implies is_ahead(
                next,
                held_id,
            ) && f.held[held_id].sequence_id() == Some(held_id) by {
                if held_id != id {
                    assert(self.held.contains_key(held_id));
                }
            }
        }
    }

    /// Messages are handed on in the order of their identifiers, whatever
    /// order they come in: while reliable messages arrive, the messages
    /// handed on carry consecutive identifiers, starting with the one whose
    /// turn it was at first.
    #[verifier::rlimit(30)]
    pub proof fn law_dispatch_in_order(self, arrivals: Seq<Message>)
        requires
            self.held_in_order(),
            forall|i: int| 0 <= i < arrivals.len() ==> (#[trigger] arrivals[i]).is_reliable(),
        ensures
            forall|i: int|
                0 <= i < self.dispatched(arrivals).len() ==> (#[trigger] self.dispatched(
                    arrivals,
                )[i]).sequence_id() == Some(id_after(self.next_incoming_id, i)),
            self.received_all(arrivals).next_incoming_id == id_after(
                self.next_incoming_id,
                self.dispatched(arrivals).len() as int,
            ),
            self.received_all(arrivals).held_in_order(),
        decreases arrivals.len(),
    {
        if arrivals.len() > 0 {
            let first = self.delivered(arrivals[0]);
            let then = self.received(arrivals[0]);
            let rest = arrivals.skip(1);
            self.lemma_received(arrivals[0]);
            assert forall|i: int| 0 <= i < rest.len() implies (#[trigger] rest[i]).is_reliable() by {
                assert(rest[i] == arrivals[i + 1]);
            }
            then.law_dispatch_in_order(rest);
            let all = self.dispatched(arrivals);
            assert(all == first + then.dispatched(rest));
            assert forall|i: int| 0 <= i < all.len() implies (#[trigger] all[i]).sequence_id()
                == Some(id_after(self.next_incoming_id, i)) by {
                if i >= first.len() {
                    assert(all[i] == then.dispatched(rest)[i - first.len()]);
                    lemma_id_after_twice(
                        self.next_incoming_id,
                        first.len() as int,
                        i - first.len(),
                    );
                } else {
                    assert(all[i] == first[i]);
                }
            }
            lemma_id_after_twice(
                self.next_incoming_id,
                first.len() as int,
                then.dispatched(rest).len() as int,
            );
        } else {
            lemma_id_after(self.next_incoming_id, 0);
        }
    }

    /// No identifier is handed on twice: among the messages handed on while
    /// reliable messages arrive, any two that are less than a full circle of
    /// identifiers apart carry different identifiers.
    pub proof fn law_dispatch_once(self, arrivals: Seq<Message>)
        requires
            self.held_in_order(),
            forall|i: int| 0 <= i < arrivals.len() ==> (#[trigger] arrivals[i]).is_reliable(),
        ensures
            forall|i: int, j: int|
                0 <= i < j < self.dispatched(arrivals).len() && j - i < 0x1_0000 ==> (
                #[trigger] self.dispatched(arrivals)[i]).sequence_id() != (#[trigger] self.dispatched(
                    arrivals,
                )[j]).sequence_id(),
    {
        self.law_dispatch_in_order(arrivals);
        let out = self.dispatched(arrivals);
        assert forall|i: int, j: int| 0 <= i < j < out.len() && j - i < 0x1_0000 implies (
        #[trigger] out[i]).sequence_id() != (#[trigger] out[j]).sequence_id() by {
            let from = id_after(self.next_incoming_id, i);
            lemma_id_after_twice(self.next_incoming_id, i, j - i);
            lemma_id_after(from, j - i);
        }
    }

    /// Putting messages in order loses none: when a message comes in that
    /// is not behind its turn, every message that was held and the message
    /// itself are each either handed on or held afterwards, and nothing else
    /// is.
    #[verifier::rlimit(30)]
    pub proof fn law_reordering_loses_nothing(self, message: Message)
        requires
            self.held_in_order(),
            message.is_reliable(),
            self.passes(message) || is_ahead(
                self.next_incoming_id,
                message.sequence_id().unwrap(),
            ),
        ensures
            forall|id: u16|
                (self.held.contains_key(id) || message.sequence_id() == Some(id)) <==> (
                #[trigger] self.received(message).held.contains_key(id) || exists|i: int|
                    0 <= i < self.delivered(message).len() && (#[trigger] self.delivered(
                        message,
                    )[i]).sequence_id() == Some(id)),
    {
        let next = self.next_incoming_id;
        let own = message.sequence_id().unwrap();
        let out = self.delivered(message);
        let after = self.received(message);
        self.lemma_received(message);
        lemma_id_after(next, 0);
        if own == next {
            let f = self.filtered(message);
            let turn = f.next_incoming_id;
            let r = run_length(f.held, turn);
            lemma_run_length(f.held, turn, r);
            lemma_id_after(next, 1);
            assert forall|id: u16|
                (self.held.contains_key(id) || own == id) <==> (#[trigger] after.held.contains_key(
                    id,
                ) || exists|i: int| 0 <= i < out.len() && (#[trigger] out[i]).sequence_id() == Some(id)) by {
                if own == id {
                    assert(out[0].sequence_id() == Some(id));
                } else if self.held.contains_key(id) {
                    let away = distance_ahead(turn, id);
                    lemma_id_after_distance(turn, id);
                    if away < r {
                        lemma_id_after_twice(next, 1, away);
                        assert(out[away + 1].sequence_id() == Some(id));
                    }
                } else {
                    if exists|i: int| 0 <= i < out.len() && (#[trigger] out[i]).sequence_id() == Some(id) {
                        let i = choose|i: int|
                            0 <= i < out.len() && (#[trigger] out[i]).sequence_id() == Some(id);
                        assert(i > 0);
                        assert(f.held.contains_key(id_after(turn, i - 1)));
                        lemma_id_after_twice(next, 1, i - 1);
                    }
                }
            }
        } else {
            assert(out.len() == 0);
        }
    }

    /// Only a message that went out once tells the round-trip time: the
    /// acknowledgement of a message that went out again leaves the running
    /// average and the number of its samples as they are, and so does an
    /// acknowledgement under an unknown identifier. The acknowledgement of
    /// a message that went out once folds its round trip into the average,
    /// which alters the average unless the round trip is the average, and
    /// counts as one more sample up to the cap.
    pub proof fn law_round_trip_accounting(self, id: u16, now: u128)
        ensures
            self.acknowledged(id, now) == Acknowledgement::Retransmitted
                || self.acknowledged(id, now) == Acknowledgement::Unknown ==> self.after_acknowledgement(
                id,
                now,
            ).average_ping == self.average_ping && self.after_acknowledgement(id, now).ping_samples
                == self.ping_samples,
            self.acknowledged(id, now) matches Acknowledgement::Measured(sample) ==> {
                let after = self.after_acknowledgement(id, now);
                &&& sample == round_trip(now, self.unacknowledged[id].last_sent)
                &&& after.average_ping == folded_average(
                    self.average_ping,
                    self.ping_samples,
                    sample,
                )
                &&& after.average_ping != self.average_ping <==> sample != self.average_ping
                &&& self.ping_samples == 0 ==> after.average_ping == sample
                &&& sample >= self.average_ping ==> self.average_ping <= after.average_ping
                    <= sample
                &&& sample <= self.average_ping ==> sample <= after.average_ping
                    <= self.average_ping
                &&& after.ping_samples == (if self.ping_samples < AVERAGE_PING_RANGE_MAX {
                    self.ping_samples + 1
                } else {
                    self.ping_samples as int
                })
                &&& !after.unacknowledged.contains_key(id)
            },
            self.acknowledged(id, now) == Acknowledgement::Retransmitted <==> self.unacknowledged.contains_key(
                id,
            ) && self.unacknowledged[id].is_resent,
            self.acknowledged(id, now) is Measured <==> self.unacknowledged.contains_key(id)
                && !self.unacknowledged[id].is_resent,
            self.wf() ==> self.after_acknowledgement(id, now).wf(),
    {
        match self.acknowledged(id, now) {
            Acknowledgement::Measured(sample) => {
                law_folded_average(self.average_ping, self.ping_samples, sample);
            },
            _ => {},
        }
    }

    /// A message that a resend sweep sent again no longer tells the
    /// round-trip time: its acknowledgement leaves the running average as it
    /// is.
    pub proof fn law_resent_message_is_not_measured(self, id: u16, now: u128, later: u128)
        requires
            self.disconnected.is_none(),
            self.unacknowledged.contains_key(id),
            self.unacknowledged[id].is_due(now),
        ensures
            self.swept(now).acknowledged(id, later) == Acknowledgement::Retransmitted,
            self.swept(now).after_acknowledgement(id, later).average_ping == self.average_ping,
            self.swept(now).after_acknowledgement(id, later).ping_samples == self.ping_samples,
    {
    }

    /// A message that comes in again right after it was handed on is
    /// dropped, and changes nothing.
    pub proof fn law_duplicate_is_dropped(self, message: Message)
        requires
            self.held_in_order(),
            message.is_reliable(),
            self.passes(message),
        ensures
            self.received(message).delivered(message) == Seq::<Message>::empty(),
            self.received(message).received(message) == self.received(message),
    {
        self.lemma_received(message);
        let k = self.delivered(message).len() as int;
        lemma_id_after(self.next_incoming_id, k);
    }

    /// A message that comes in again while it is held takes the place of
    /// the one held, so it is handed on once.
    pub proof fn law_held_duplicate_is_replaced(self, message: Message)
        ensures
            !self.passes(message) ==> self.filtered(message).filtered(message) == self.filtered(
                message,
            ),
    {
        if !self.passes(message) {
            let id = message.sequence_id().unwrap();
            assert(self.held.insert(id, message).insert(id, message) =~= self.held.insert(
                id,
                message,
            ));
        }
    }

    /// The state after all of `arrivals` came in.
    pub open spec fn received_all(self, arrivals: Seq<Message>) -> ConnectionView
        decreases arrivals.len(),
    {
        if arrivals.len() == 0 {
            self
        } else {
            self.received(arrivals[0]).received_all(arrivals.skip(1))
        }
    }
}

/// What became of a message that was handed to `send`.
#[derive(Clone, Copy, Debug, PartialEq, Eq)]
pub enum Transmission {
    /// The connection has ended: nothing is to be transmitted.
    Withheld,
    /// The message is to be transmitted once and forgotten.
    Once,
    /// The message is to be transmitted under this identifier, and kept
    /// until it is acknowledged.
    Reliable(u16),
}

/// What an acknowledgement did.
#[derive(Clone, Copy, Debug, PartialEq, Eq)]
pub enum Acknowledgement {
    /// No message was waiting under that identifier.
    Unknown,
    /// The message had been sent more than once, so its round trip says
    /// nothing.
    Retransmitted,
    /// The message had been sent once; its round trip, in nanoseconds, went
    /// into the average.
    Measured(u128),
}

/// The protocol state of one peer.
pub struct Connection {
    status: ConnectionStatus,
    unacknowledged_messages: HashMap<u16, UnacknowledgedMessage>,
    held_messages: HashMap<u16, Message>,
    next_incoming_message_id: u16,
    next_outgoing_message_id: u16,
    attached_external_id: Option<u16>,
    average_ping: u128,
    average_ping_range: u8,
}

impl View for Connection {
    type V = ConnectionView;

    closed spec fn view(&self) -> ConnectionView {
        ConnectionView {
            disconnected: self.status.reason(),
            unacknowledged: self.unacknowledged_messages@.map_values(
                |m: UnacknowledgedMessage| m@,
            ),
            held: self.held_messages@,
            next_incoming_id: self.next_incoming_message_id,
            next_outgoing_id: self.next_outgoing_message_id,
            attached_external_id: self.attached_external_id,
            average_ping: self.average_ping,
            ping_samples: self.average_ping_range,
        }
    }
}

impl Connection {
    /// A connected peer with nothing sent, nothing held and no round trip
    /// measured.
    pub fn new() -> (connection: Self)
        ensures
            connection@ == ConnectionView::fresh(),
    {
        let connection = Connection {
            status: ConnectionStatus::Connected,
            unacknowledged_messages: HashMap::new(),
            held_messages: HashMap::new(),
            next_incoming_message_id: 0,
            next_outgoing_message_id: 0,
            attached_external_id: None,
            average_ping: 0,
            average_ping_range: 0,
        };
        assert(connection@.unacknowledged =~= Map::empty());
        connection
    }

    /// Takes the next outgoing identifier.
    fn generate_message_id(&mut self) -> (id: u16)
        ensures
            id == old(self)@.next_outgoing_id,
            final(self)@ == (ConnectionView {
                next_outgoing_id: id_after(id, 1),
                ..old(self)@
            }),
    {
        let id = self.next_outgoing_message_id;
        self.next_outgoing_message_id = next_id(id);
        id
    }

    /// Prepares `message` for transmission. On a connection that has ended
    /// this does nothing. Otherwise a reliable message gets the next
    /// outgoing identifier; the caller transmits the message and reports the
    /// outcome to `complete_send`.
    pub fn send(&mut self, message: &mut Message) -> (transmission: Transmission)
        ensures
            old(self)@.disconnected.is_some() ==> transmission == Transmission::Withheld
                && final(self)@ == old(self)@ && *final(message) == *old(message),
            old(self)@.disconnected.is_none() && !old(message).is_reliable() ==> transmission
                == Transmission::Once && final(self)@ == old(self)@ && *final(message) == *old(
                message,
            ),
            old(self)@.disconnected.is_none() && old(message).is_reliable() ==> transmission
                == Transmission::Reliable(old(self)@.next_outgoing_id) && *final(message) == old(
                message,
            ).with_id(old(self)@.next_outgoing_id) && final(self)@ == (ConnectionView {
                next_outgoing_id: id_after(old(self)@.next_outgoing_id, 1),
                ..old(self)@
            }),
    {
        if self.is_connected() {
            if message.has_id() {
                let id = self.generate_message_id();
                message.set_id(id);
                Transmission::Reliable(id)
            } else {
                Transmission::Once
            }
        } else {
            Transmission::Withheld
        }
    }

    /// Records how the transmission of a message that `send` prepared went.
    /// A failure ends the connection, with the failure as the reason. After
    /// a success a reliable message is kept, as sent once at `now`, until it
    /// is acknowledged. A withheld message, or a connection that has ended,
    /// leaves nothing to record.
    pub fn complete_send(
        &mut self,
        transmission: Transmission,
        encoded: Vec<u8>,
        outcome: Result<usize, String>,
        now: u128,
    )
        ensures
            final(self)@ == (if old(self)@.disconnected.is_some() || transmission
                == Transmission::Withheld {
                old(self)@
            } else {
                match outcome {
                    Err(reason) => ConnectionView {
                        disconnected: Some(reason@),
                        unacknowledged: Map::empty(),
                        held: Map::empty(),
                        ..old(self)@
                    },
                    Ok(_) => match transmission {
                        Transmission::Reliable(id) => ConnectionView {
                            unacknowledged: old(self)@.unacknowledged.insert(
                                id,
                                Pending { data: encoded@, last_sent: now, is_resent: false },
                            ),
                            ..old(self)@
                        },
                        _ => old(self)@,
                    },
                }
            }),
    {
        if !self.is_connected() {
            return ;
        }
        match transmission {
            Transmission::Withheld => {},
            _ => {
                match outcome {
                    Err(reason) => {
                        self.disconnect(reason);
                    },
                    Ok(_) => {
                        if let Transmission::Reliable(id) = transmission {
                            let entry = UnacknowledgedMessage {
                                data: encoded,
                                last_sent: now,
                                is_resent: false,
                            };
                            self.unacknowledged_messages.insert(id, entry);
                            assert(self@.unacknowledged =~= old(self)@.unacknowledged.insert(
                                id,
                                entry@,
                            ));
                        }
                    },
                }
            },
        }
    }

    /// Decides what becomes of an incoming message.
    ///
    /// A message without an identifier passes. The message whose turn it is
    /// passes too, and the turn moves on; the caller then collects the held
    /// messages that follow it with `take_next_held_messages`. A message
    /// ahead of its turn is held back, in place of any message held under
    /// the same identifier. A message behind its turn was handed on before,
    /// and is dropped.
    pub fn filter_message(&mut self, message: Message) -> (passed: Option<Message>)
        ensures
            final(self)@ == old(self)@.filtered(message),
            passed == (if old(self)@.passes(message) {
                Some(message)
            } else {
                None
            }),
    {
        match message.get_id() {
            None => Some(message),
            Some(id) => {
                let next = self.next_incoming_message_id;
                if id == next {
                    self.next_incoming_message_id = next_id(next);
                    Some(message)
                } else {
                    if places_ahead(next, id) < 0x8000 {
                        self.held_messages.insert(id, message);
                    }
                    None
                }
            },
        }
    }

    /// Takes out the held messages whose turn has come: those under the
    /// identifier whose turn it is and under the ones that follow it, up to
    /// the first identifier under which nothing is held. They come in the
    /// order of their identifiers, and the turn moves past them.
    #[verifier::rlimit(30)]
    pub fn take_next_held_messages(&mut self) -> (messages: Vec<Message>)
        ensures
            messages@ == old(self)@.ready(),
            final(self)@ == old(self)@.drained(),
            is_run(old(self)@.held, old(self)@.next_incoming_id, messages@.len() as int),
            !final(self)@.held.contains_key(final(self)@.next_incoming_id),
    {
        let ghost start = self.next_incoming_message_id;
        let ghost held = self.held_messages@;
        let mut messages: Vec<Message> = Vec::new();
        proof {
            lemma_id_after(start, 0);
            assert(held.remove_keys(ids_within(start, 0)) =~= held);
        }
        loop
            invariant
                0 <= messages@.len() <= 0x1_0000,
                forall|j: int|
                    0 <= j < messages@.len() ==> held.contains_key(#[trigger] id_after(start, j))
                        && messages@[j] == held[id_after(start, j)],
                self.held_messages@ == held.remove_keys(
                    ids_within(start, messages@.len() as int),
                ),
                self.next_incoming_message_id == id_after(start, messages@.len() as int),
                self@ == (ConnectionView {
                    held: self.held_messages@,
                    next_incoming_id: self.next_incoming_message_id,
                    ..old(self)@
                }),
            ensures
                is_run(held, start, messages@.len() as int),
            decreases self.held_messages@.len(),
        {
            let ghost k = messages@.len() as int;
            let next = self.next_incoming_message_id;
            match self.held_messages.remove(&next) {
                Some(message) => {
                    proof {
                        assert(k < 0x1_0000) by {
                            if k >= 0x1_0000 {
                                assert(ids_within(start, k).contains(next));
                            }
                        }
                        assert(held.contains_key(next) && held[next] == message);
                        lemma_id_after(start, k);
                        assert forall|id: u16| distance_ahead(start, id) == k implies id == next by {
                            lemma_id_after_distance(start, id);
                        }
                        assert(ids_within(start, k + 1) =~= ids_within(start, k).insert(next));
                        assert(held.remove_keys(ids_within(start, k)).remove(next) =~= held.remove_keys(
                            ids_within(start, k + 1),
                        ));
                        lemma_id_after_twice(start, k, 1);
                    }
                    messages.push(message);
                    self.next_incoming_message_id = next_id(next);
                },
                None => {
                    proof {
                        if k < 0x1_0000 {
                            lemma_id_after(start, k);
                            assert(!ids_within(start, k).contains(next));
                            assert(!held.contains_key(next));
                        }
                    }
                    break ;
                },
            }
        }
        proof {
            lemma_run_length(held, start, messages@.len() as int);
            assert(messages@ =~= old(self)@.ready());
            let k = messages@.len() as int;
            if k < 0x1_0000 {
                assert(!held.contains_key(id_after(start, k)));
            } else {
                assert(ids_within(start, k).contains(id_after(start, k)));
            }
        }
        messages
    }

    /// Takes the message sent under `id` off the list of unacknowledged
    /// messages. If it had been sent only once, its round trip, in whole
    /// milliseconds, is folded into the running average, and counts as one
    /// more sample up to `AVERAGE_PING_RANGE_MAX`: the average moves towards
    /// the round trip by one part in the number of samples, rounded up, so
    /// it stays where it is only if the round trip is the average.
    pub fn acknowledge_message(&mut self, id: u16, now: u128) -> (outcome: Acknowledgement)
        ensures
            outcome == old(self)@.acknowledged(id, now),
            final(self)@ == old(self)@.after_acknowledgement(id, now),
            old(self)@.wf() ==> final(self)@.wf(),
            outcome matches Acknowledgement::Measured(sample) ==> (final(self)@.average_ping
                != old(self)@.average_ping <==> sample != old(self)@.average_ping),
    {
        match self.unacknowledged_messages.remove(&id) {
            None => {
                assert(self@.unacknowledged =~= old(self)@.unacknowledged);
                Acknowledgement::Unknown
            },
            Some(message) => {
                assert(self@.unacknowledged =~= old(self)@.unacknowledged.remove(id));
                assert(old(self)@.unacknowledged[id] == message@);
                proof {
                    law_folded_average(
                        self.average_ping,
                        self.average_ping_range,
                        round_trip(now, message.last_sent),
                    );
                }
                if message.is_resent {
                    Acknowledgement::Retransmitted
                } else {
                    let millis: u128 = elapsed_between(now, message.last_sent) / NANOS_PER_MILLI;
                    let sample: u128 = millis * NANOS_PER_MILLI;
                    let parts: u128 = self.average_ping_range as u128 + 1;
                    if sample >= self.average_ping {
                        let step: u128 = share_of(sample - self.average_ping, parts);
                        self.average_ping = self.average_ping + step;
                    } else {
                        let step: u128 = share_of(self.average_ping - sample, parts);
                        self.average_ping = self.average_ping - step;
                    }
                    if self.average_ping_range < AVERAGE_PING_RANGE_MAX {
                        self.average_ping_range = self.average_ping_range + 1;
                    }
                    Acknowledgement::Measured(sample)
                }
            },
        }
    }

    /// The identifiers of the unacknowledged messages, each once, in no
    /// particular order.
    fn unacknowledged_ids(&self) -> (ids: Vec<u16>)
        ensures
            ids@.no_duplicates(),
            ids@.to_set() == self.unacknowledged_messages@.dom(),
    {
        let mut ids: Vec<u16> = Vec::new();
        let ghost keys = self.unacknowledged_messages.keys().remaining();
        for key in it: self.unacknowledged_messages.keys()
            invariant
                it.seq() == keys,
                ids@.len() == it.index(),
                forall|j: int| 0 <= j < ids@.len() ==> ids@[j] == *keys[j],
        {
            ids.push(*key);
        }
        proof {
            assert(ids@ =~= keys.unref());
        }
        ids
    }

    /// Picks the unacknowledged messages that are due at `now`, marks each as
    /// sent again at `now`, and returns them for the caller to transmit, in
    /// no particular order. A connection that has ended has none. A caller
    /// whose transmission fails ends the connection with `disconnect`.
    #[verifier::rlimit(30)]
    pub fn resend_unacknowledged_messages(&mut self, now: u128) -> (due: Vec<Retransmission>)
        ensures
            final(self)@ == old(self)@.swept(now),
            old(self)@.is_sweep(due@, now),
    {
        let mut due: Vec<Retransmission> = Vec::new();
        if !self.is_connected() {
            return due;
        }
        let ids = self.unacknowledged_ids();
        let ghost before = old(self)@.unacknowledged;
        let mut k: usize = 0;
        assert(self@.unacknowledged =~= before);
        while k < ids.len()
            invariant
                k <= ids@.len(),
                ids@.no_duplicates(),
                ids@.to_set() == before.dom(),
                before == old(self)@.unacknowledged,
                self@ == (ConnectionView { unacknowledged: self@.unacknowledged, ..old(self)@ }),
                self@.unacknowledged.dom() == before.dom(),
                forall|j: int|
                    0 <= j < k ==> self@.unacknowledged[#[trigger] ids@[j]] == (if before[ids@[j]].is_due(
                        now,
                    ) {
                        before[ids@[j]].resent(now)
                    } else {
                        before[ids@[j]]
                    }),
                forall|j: int|
                    k <= j < ids@.len() ==> self@.unacknowledged[#[trigger] ids@[j]]
                        == before[ids@[j]],
                forall|i: int|
                    0 <= i < due@.len() ==> {
                        &&& before.contains_key((#[trigger] due@[i]).id)
                        &&& before[due@[i].id].is_due(now)
                        &&& due@[i].data@ == before[due@[i].id].data
                        &&& exists|j: int| 0 <= j < k && ids@[j] == due@[i].id
                    },
                forall|i: int, j: int|
                    0 <= i < j < due@.len() ==> (#[trigger] due@[i]).id != (#[trigger] due@[j]).id,
                forall|j: int|
                    0 <= j < k && before[#[trigger] ids@[j]].is_due(now) ==> exists|i: int|
                        0 <= i < due@.len() && (#[trigger] due@[i]).id == ids@[j],
            decreases ids@.len() - k,
        {
            let id = ids[k];
            let ghost current = self@.unacknowledged;
            let ghost earlier = due@;
            assert(ids@.to_set().contains(ids@[k as int]));
            assert(before.contains_key(id));
            if let Some(message) = self.unacknowledged_messages.remove(&id) {
                assert(message@ == before[id]);
                let entry = if elapsed_between(now, message.last_sent) > MESSAGE_RESEND_INTERVAL {
                    let data = message.data.clone();
                    assert(data@ =~= message.data@);
                    due.push(Retransmission { id, data });
                    UnacknowledgedMessage { data: message.data, last_sent: now, is_resent: true }
                } else {
                    message
                };
                self.unacknowledged_messages.insert(id, entry);
                assert(self@.unacknowledged =~= current.insert(id, entry@));
            }
            proof {
                assert forall|j: int|
                    0 <= j <= k && before[#[trigger] ids@[j]].is_due(now) implies exists|i: int|
                    0 <= i < due@.len() && (#[trigger] due@[i]).id == ids@[j] by {
                    if j < k {
                        let i = choose|i: int|
                            0 <= i < earlier.len() && (#[trigger] earlier[i]).id == ids@[j];
                        assert(due@[i].id == ids@[j]);
                    } else {
                        assert(due@[due@.len() - 1].id == id);
                    }
                }
            }
            k = k + 1;
        }
        proof {
            assert forall|id: u16| #[trigger] before.contains_key(id) implies exists|j: int|
                0 <= j < ids@.len() && ids@[j] == id by {
                assert(ids@.to_set().contains(id));
            }
            assert(self@.unacknowledged =~= after_resend(before, now));
        }
        due
    }

    /// Ends the connection for `reason` and forgets what was pending and
    /// held. A connection that has ended stays as it is.
    pub fn disconnect(&mut self, reason: String)
        ensures
            final(self)@ == (if old(self)@.disconnected.is_some() {
                old(self)@
            } else {
                ConnectionView {
                    disconnected: Some(reason@),
                    unacknowledged: Map::empty(),
                    held: Map::empty(),
                    ..old(self)@
                }
            }),
    {
        if self.is_connected() {
            self.unacknowledged_messages = HashMap::new();
            self.held_messages = HashMap::new();
            self.status = ConnectionStatus::Disconnected(reason);
            assert(self@.unacknowledged =~= Map::empty());
        }
    }

    /// Whether the peer can still be reached, and if not, why.
    pub fn get_status(&self) -> (status: &ConnectionStatus)
        ensures
            status.reason() == self@.disconnected,
    {
        &self.status
    }

    /// Whether the peer can still be reached.
    pub fn is_connected(&self) -> (connected: bool)
        ensures
            connected == self@.disconnected.is_none(),
    {
        match self.status {
            ConnectionStatus::Connected => true,
            ConnectionStatus::Disconnected(..) => false,
        }
    }

    /// The actor that the peer controls, if any.
    pub fn attached_external_id(&self) -> (external_id: Option<u16>)
        ensures
            external_id == self@.attached_external_id,
    {
        self.attached_external_id
    }

    /// Notes which actor the peer controls, if any.
    pub fn attach_external_id(&mut self, external_id: Option<u16>)
        ensures
            final(self)@ == (ConnectionView { attached_external_id: external_id, ..old(self)@ }),
    {
        self.attached_external_id = external_id;
    }

    /// The running average of the round-trip time, in nanoseconds.
    pub fn get_average_ping(&self) -> (average: u128)
        ensures
            average == self@.average_ping,
    {
        self.average_ping
    }
}

} // verus!
