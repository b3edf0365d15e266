//! The sans-io state machine of the peer protocol: it turns events (incoming
//! packets, actions of the application, the passing of time) into the action
//! the event loop should take, retransmitting reliable packets until they are
//! acknowledged and acknowledging the peer's reliable packets exactly once.

use vstd::prelude::*;

use std::collections::VecDeque;
use std::sync::Arc;

use vstd::std_specs::cmp::PartialEqSpecImpl;

use crate::foreign::{
    arc_clone, fx_map_contains_key, fx_map_get, fx_map_insert, fx_map_remove,
    index_set_clear, index_set_contents, index_set_insert, index_set_len, index_set_new,
    index_set_shift_remove_index,
};
use crate::packet::{
    is_be8, u64_be_bytes, Action, CakapError, PacketBuilder, ReliableIndex, ReliablePacket, Shared,
    UnreliablePacket,
};
use crate::uint::{be_value, UInt};

verus! {

/// The index of the message asking the peer to forget which reliable packets it received.
pub const RECONNECT_INDEX: u64 = 0x7fff_ffff_ffff_ffff;

/// The top bit, set in the index of an acknowledgement.
pub const ACK_FLAG: u64 = 0x8000_0000_0000_0000;

/// A reliable packet waiting for its acknowledgement.
struct Retransmit {
    send_at: u64,
    data: Vec<u8>,
}

#[derive(Debug)]
pub(crate) enum HotPacketInner<'a> {
    Borrowed(&'a [u8]),
    Owned(Vec<u8>),
    Index([u8; 8]),
}

/// A packet of data that the state machine has determined needs to be sent immediately.
#[derive(Debug)]
pub struct HotPacket<'a> {
    pub(crate) inner: HotPacketInner<'a>,
}

impl<'a> HotPacket<'a> {
    /// The bytes to send.
    pub closed spec fn bytes(&self) -> Seq<u8> {
        match self.inner {
            HotPacketInner::Borrowed(b) => b@,
            HotPacketInner::Owned(v) => v@,
            HotPacketInner::Index(a) => a@,
        }
    }

    pub fn as_slice(&self) -> (r: &[u8])
        ensures
            r@ == self.bytes(),
    {
        match &self.inner {
            HotPacketInner::Borrowed(b) => b,
            HotPacketInner::Owned(v) => v.as_slice(),
            HotPacketInner::Index(a) => a.as_slice(),
        }
    }
}

impl<'a> core::ops::Deref for HotPacket<'a> {
    type Target = [u8];

    fn deref(&self) -> (r: &[u8])
        ensures
            r@ == self.bytes(),
    {
        self.as_slice()
    }
}

/// Whether two byte strings are equal.
fn bytes_equal(a: &[u8], b: &[u8]) -> (r: bool)
    ensures
        r == (a@ == b@),
{
    if a.len() != b.len() {
        return false;
    }
    let mut i: usize = 0;
    while i < a.len()
        invariant
            a@.len() == b@.len(),
            i <= a@.len(),
            forall|j: int| 0 <= j < i ==> a@[j] == b@[j],
        decreases a@.len() - i,
    {
        if a[i] != b[i] {
            assert(a@[i as int] != b@[i as int]);
            return false;
        }
        i = i + 1;
    }
    assert(a@ =~= b@);
    true
}

impl<'a> PartialEq for HotPacket<'a> {
    fn eq(&self, other: &Self) -> (r: bool) {
        bytes_equal(self.as_slice(), other.as_slice())
    }
}

impl<'a> PartialEqSpecImpl for HotPacket<'a> {
    open spec fn obeys_eq_spec() -> bool {
        true
    }

    open spec fn eq_spec(&self, other: &Self) -> bool {
        self.bytes() == other.bytes()
    }
}

impl<'a> Eq for HotPacket<'a> {

}

/// What the event loop should do next.
#[derive(Debug, PartialEq, Eq)]
pub enum RecommendedAction<'a, 'b> {
    /// Wait indefinitely until data from the peer is received, or there is data to send.
    WaitForData,
    /// Wait at most the given number of nanoseconds for data from the peer, or data to be sent.
    WaitForDuration(u64),
    /// Handle the given error and poll the state machine again with `NoEvent`.
    HandleError(CakapError),
    /// Handle the given data from the peer.
    HandleData(&'b [u8]),
    /// Handle `received` from the peer, and send `to_send` to the peer.
    HandleDataAndSend { received: &'b [u8], to_send: [u8; 8] },
    /// Send the given data to the peer.
    SendData(HotPacket<'a>),
}

impl<'a, 'b> RecommendedAction<'a, 'b> {
    /// The packet of a `SendData` action; `None` for the other actions.
    pub fn get_hot_packet(&self) -> (r: Option<&HotPacket<'a>>)
        ensures
            r is Some <==> self is SendData,
            r matches Some(p) ==> *p == self->SendData_0,
    {
        match self {
            RecommendedAction::SendData(hot_packet) => Some(hot_packet),
            _ => None,
        }
    }
}

/// What the state machine is polled with.
pub enum Event<'a> {
    /// A whole packet of data, with no padding bytes or otherwise empty space.
    IncomingData(&'a [u8]),
    /// An [`Action`] to perform.
    Action(Action),
    /// Nothing happened but the passing of time.
    NoEvent,
}

impl<'a> Event<'a> {
    /// `NoEvent`.
    pub fn no_event() -> (r: Self)
        ensures
            r is NoEvent,
    {
        Event::NoEvent
    }
}

/// The 8-byte trailer of a packet, read as a big-endian number.
pub open spec fn trailer_index(data: Seq<u8>) -> nat {
    be_value(data.subrange(data.len() - 8, data.len() as int))
}

/// The received set after a new reliable index: appended, and the oldest
/// dropped when the set grows past its bound.
pub open spec fn after_receive(received: Seq<u64>, idx: u64, max: nat) -> Seq<u64> {
    let s = received.push(idx);
    if s.len() > max {
        s.drop_first()
    } else {
        s
    }
}

/// The retransmission queue after dropping, from its front, the indices that
/// are no longer pending.
pub open spec fn live_queue(queue: Seq<u64>, pending: Map<u64, (u64, Seq<u8>)>) -> Seq<u64>
    decreases queue.len(),
{
    if queue.len() == 0 {
        queue
    } else if pending.contains_key(queue[0]) {
        queue
    } else {
        live_queue(queue.drop_first(), pending)
    }
}

/// The retransmission step that ends every poll that has not answered
/// otherwise: the first pending index in the queue is sent again if its time
/// has come (and goes to the back of the queue, due again `duration` later);
/// otherwise the loop waits until then, or for data if nothing is pending.
pub open spec fn retransmit_step<'a, 'b>(
    pending: Map<u64, (u64, Seq<u8>)>,
    queue: Seq<u64>,
    duration: u64,
    now: u64,
    post_pending: Map<u64, (u64, Seq<u8>)>,
    post_queue: Seq<u64>,
    r: RecommendedAction<'a, 'b>,
) -> bool {
    let q = live_queue(queue, pending);
    if q.len() == 0 {
        &&& r is WaitForData
        &&& post_pending == pending
        &&& post_queue == q
    } else {
        let first = q[0];
        let send_at = pending[first].0;
        let data = pending[first].1;
        if send_at <= now {
            &&& r matches RecommendedAction::SendData(p) && p.bytes() == data
            &&& post_pending == pending.insert(first, ((now + duration) as u64, data))
            &&& post_queue == q.drop_first().push(first)
        } else {
            &&& r == RecommendedAction::<'a, 'b>::WaitForDuration((send_at - now) as u64)
            &&& post_pending == pending
            &&& post_queue == q
        }
    }
}

/// What one poll does, event by event: `pending`, `queue` and `received` are
/// the state before, the `post_` ones the state after, `r` the answer.
pub open spec fn poll_spec<'a, 'b>(
    pending: Map<u64, (u64, Seq<u8>)>,
    queue: Seq<u64>,
    received: Seq<u64>,
    max_received: nat,
    duration: u64,
    event: Event<'b>,
    now: u64,
    post_pending: Map<u64, (u64, Seq<u8>)>,
    post_queue: Seq<u64>,
    post_received: Seq<u64>,
    r: RecommendedAction<'a, 'b>,
) -> bool {
    match event {
        Event::IncomingData(d) => {
            let data = d@;
            let idx = trailer_index(data);
            let payload = data.subrange(0, data.len() - 8);
            if data.len() < 8 {
                &&& r == RecommendedAction::<'a, 'b>::HandleError(CakapError::PacketTooSmall)
                &&& post_pending == pending && post_queue == queue && post_received == received
            } else if idx == RECONNECT_INDEX {
                if data.len() != 8 {
                    &&& r == RecommendedAction::<'a, 'b>::HandleError(CakapError::InvalidPacket)
                    &&& post_pending == pending && post_queue == queue && post_received == received
                } else {
                    &&& r matches RecommendedAction::SendData(p) && is_be8(
                        p.bytes(),
                        0xffff_ffff_ffff_ffff,
                    )
                    &&& post_pending == pending && post_queue == queue
                    &&& post_received == Seq::<u64>::empty()
                }
            } else if idx == 0 {
                &&& r matches RecommendedAction::HandleData(h) && h@ == payload
                &&& post_pending == pending && post_queue == queue && post_received == received
            } else if idx < ACK_FLAG {
                &&& post_pending == pending && post_queue == queue
                &&& if received.contains(idx as u64) {
                    &&& r matches RecommendedAction::SendData(p) && is_be8(p.bytes(), (idx + ACK_FLAG) as u64)
                    &&& post_received == received
                } else {
                    &&& r matches RecommendedAction::HandleDataAndSend { received: h, to_send }
                        && h@ == payload && is_be8(to_send@, (idx + ACK_FLAG) as u64)
                    &&& post_received == after_receive(received, idx as u64, max_received)
                }
            } else if idx == ACK_FLAG {
                &&& r == RecommendedAction::<'a, 'b>::HandleError(CakapError::InvalidPacket)
                &&& post_pending == pending && post_queue == queue && post_received == received
            } else {
                &&& post_received == received
                &&& retransmit_step(
                    pending.remove((idx - ACK_FLAG) as u64),
                    queue,
                    duration,
                    now,
                    post_pending,
                    post_queue,
                    r,
                )
            }
        },
        Event::Action(Action::SendReliable(p)) => {
            &&& r matches RecommendedAction::SendData(h) && h.bytes() == p.wire()
            &&& post_pending == pending.insert(
                p.index_spec().value(),
                ((now + duration) as u64, p.wire()),
            )
            &&& post_queue == queue.push(p.index_spec().value())
            &&& post_received == received
        },
        Event::Action(Action::CancelReliable(i)) => {
            &&& post_received == received
            &&& retransmit_step(
                pending.remove(i.value()),
                queue,
                duration,
                now,
                post_pending,
                post_queue,
                r,
            )
        },
        Event::Action(Action::CancelAllReliable) => {
            &&& r is WaitForData
            &&& post_pending == Map::<u64, (u64, Seq<u8>)>::empty()
            &&& post_queue == Seq::<u64>::empty()
            &&& post_received == received
        },
        Event::Action(Action::SendUnreliable(p)) => {
            &&& r matches RecommendedAction::SendData(h) && h.bytes() == p.wire()
            &&& post_pending == pending && post_queue == queue && post_received == received
        },
        Event::NoEvent => {
            &&& post_received == received
            &&& retransmit_step(pending, queue, duration, now, post_pending, post_queue, r)
        },
    }
}

/// The protocol state of one peer.
pub struct PeerStateMachine {
    shared: Arc<Shared>,
    retransmission_duration: u64,
    retransmission_map: fxhash::FxHashMap<u64, Retransmit>,
    retransmission_queue: VecDeque<u64>,
    received_set: indexmap::IndexSet<u64>,
    max_received_set_size: usize,
}

impl PeerStateMachine {
    /// The reliable packets waiting for an acknowledgement: index to (next send time, bytes).
    pub closed spec fn pending(&self) -> Map<u64, (u64, Seq<u8>)> {
        Map::new(
            |k: u64| self.retransmission_map@.contains_key(k),
            |k: u64| (self.retransmission_map@[k].send_at, self.retransmission_map@[k].data@),
        )
    }

    /// The order in which pending packets are retransmitted (it may hold stale indices).
    pub closed spec fn queue(&self) -> Seq<u64> {
        self.retransmission_queue@
    }

    /// The reliable indices of the peer seen most recently, oldest first.
    pub closed spec fn received(&self) -> Seq<u64> {
        index_set_contents(self.received_set)
    }

    /// The bound on the received set.
    pub closed spec fn max_received(&self) -> nat {
        self.max_received_set_size as nat
    }

    /// The time, in nanoseconds, after which an unacknowledged packet is sent again.
    pub closed spec fn duration(&self) -> u64 {
        self.retransmission_duration
    }

    /// The largest payload a packet builder accepts.
    pub closed spec fn max_packet_size(&self) -> usize {
        self.shared.max_packet_size_spec()
    }

    /// The received set holds no index twice and stays within its bound.
    pub closed spec fn well_formed(&self) -> bool {
        &&& self.received().no_duplicates()
        &&& self.received().len() <= self.max_received()
    }

    /// Creates a state machine with the given retransmission duration (in
    /// nanoseconds), bound on the received set, and maximum payload size.
    pub fn new(
        retransmission_duration: u64,
        max_received_set_size: usize,
        max_packet_size: usize,
    ) -> (r: Self)
        ensures
            r.well_formed(),
            r.pending() == Map::<u64, (u64, Seq<u8>)>::empty(),
            r.queue() == Seq::<u64>::empty(),
            r.received() == Seq::<u64>::empty(),
            r.max_received() == max_received_set_size,
            r.duration() == retransmission_duration,
            r.max_packet_size() == max_packet_size,
    {
        let r = PeerStateMachine {
            retransmission_duration,
            max_received_set_size,
            shared: Arc::new(Shared::new(max_packet_size)),
            retransmission_map: fxhash::FxHashMap::default(),
            retransmission_queue: VecDeque::new(),
            received_set: index_set_new(),
        };
        assert(r.pending() =~= Map::<u64, (u64, Seq<u8>)>::empty());
        r
    }

    /// A builder of packets that shares this state machine's reliable indices.
    pub fn get_packet_builder(&self) -> (r: PacketBuilder)
        ensures
            r.max_packet_size() == self.max_packet_size(),
    {
        let r = PacketBuilder { shared: arc_clone(&self.shared) };
        proof {
            r.lemma_max_packet_size();
        }
        r
    }

    /// Whether the packet with the given index still awaits its acknowledgement.
    pub fn is_packet_retransmitting(&self, index: ReliableIndex) -> (r: bool)
        ensures
            r == self.pending().contains_key(index.value()),
    {
        fx_map_contains_key(&self.retransmission_map, index.get())
    }

    /// Sends the reconnection message: a reliable packet made of the reserved
    /// index alone, which asks the peer to forget the packets it has received.
    pub fn send_reconnection_msg<'a>(&'a mut self, now: u64) -> (r: (
        RecommendedAction<'a, 'static>,
        ReliableIndex,
    ))
        requires
            old(self).well_formed(),
            now + old(self).duration() <= u64::MAX,
        ensures
            final(self).well_formed(),
            r.1.value() == RECONNECT_INDEX,
            r.0 matches RecommendedAction::SendData(h) && is_be8(h.bytes(), RECONNECT_INDEX),
            final(self).pending() == old(self).pending().insert(
                RECONNECT_INDEX,
                ((now + old(self).duration()) as u64, final(self).pending()[RECONNECT_INDEX].1),
            ),
            is_be8(final(self).pending()[RECONNECT_INDEX].1, RECONNECT_INDEX),
            final(self).queue() == old(self).queue().push(RECONNECT_INDEX),
            final(self).received() == old(self).received(),
    {
        let bytes = u64_be_bytes(RECONNECT_INDEX);
        let mut data: Vec<u8> = Vec::new();
        data.extend_from_slice(bytes.as_slice());
        let index = ReliableIndex(RECONNECT_INDEX);
        let packet = ReliablePacket { index, data };
        proof {
            packet.lemma_fields();
            index.lemma_value();
            assert(packet.data@ =~= bytes@);
        }
        let action = self.poll(Event::Action(Action::SendReliable(packet)), now);
        (action, index)
    }

    /// Digests an event at time `now` (nanoseconds on a monotonic clock) and
    /// gives the action the event loop should take; see [`poll_spec`].
    pub fn poll<'a, 'b>(&'a mut self, event: Event<'b>, now: u64) -> (r: RecommendedAction<'a, 'b>)
        requires
            old(self).well_formed(),
            now + old(self).duration() <= u64::MAX,
        ensures
            final(self).well_formed(),
            final(self).max_received() == old(self).max_received(),
            final(self).duration() == old(self).duration(),
            final(self).max_packet_size() == old(self).max_packet_size(),
            poll_spec(
                old(self).pending(),
                old(self).queue(),
                old(self).received(),
                old(self).max_received(),
                old(self).duration(),
                event,
                now,
                final(self).pending(),
                final(self).queue(),
                final(self).received(),
                r,
            ),
    {
        let ghost pre_pending = self.pending();
        match event {
            Event::IncomingData(data) => {
                if data.len() < 8 {
                    return RecommendedAction::HandleError(CakapError::PacketTooSmall);
                }
                let len = data.len();
                let trailer = vstd::slice::slice_subrange(data, len - 8, len);
                let index = match UInt::U64(0).try_with_slice(trailer) {
                    Ok(u) => u.to_u64(),
                    Err(_) => {
                        proof {
                            assert(false);
                        }
                        0
                    },
                };
                if index == RECONNECT_INDEX {
                    if len != 8 {
                        return RecommendedAction::HandleError(CakapError::InvalidPacket);
                    }
                    index_set_clear(&mut self.received_set);
                    return RecommendedAction::SendData(
                        HotPacket { inner: HotPacketInner::Index(u64_be_bytes(u64::MAX)) },
                    );
                } else if index != 0 {
                    if index < ACK_FLAG {
                        let reply_index = index | ACK_FLAG;
                        assert(index < 0x8000_0000_0000_0000u64 ==> index | 0x8000_0000_0000_0000u64
                            == index + 0x8000_0000_0000_0000u64) by (bit_vector);
                        if index_set_insert(&mut self.received_set, index) {
                            if index_set_len(&self.received_set) > self.max_received_set_size {
                                index_set_shift_remove_index(&mut self.received_set, 0);
                            }
                            proof {
                                let s = index_set_contents(self.received_set);
                                assert(s.no_duplicates());
                            }
                            return RecommendedAction::HandleDataAndSend {
                                received: vstd::slice::slice_subrange(data, 0, len - 8),
                                to_send: u64_be_bytes(reply_index),
                            };
                        } else {
                            return RecommendedAction::SendData(
                                HotPacket { inner: HotPacketInner::Index(u64_be_bytes(reply_index)) },
                            );
                        }
                    } else {
                        let true_index = index & !ACK_FLAG;
                        assert(index >= 0x8000_0000_0000_0000u64 ==> index
                            & !0x8000_0000_0000_0000u64 == index - 0x8000_0000_0000_0000u64)
                            by (bit_vector);
                        if true_index == 0 {
                            return RecommendedAction::HandleError(CakapError::InvalidPacket);
                        }
                        fx_map_remove(&mut self.retransmission_map, true_index);
                        proof {
                            assert(self.pending() =~= pre_pending.remove(true_index));
                        }
                    }
                } else {
                    return RecommendedAction::HandleData(
                        vstd::slice::slice_subrange(data, 0, len - 8),
                    );
                }
            },
            Event::Action(action) => match action {
                Action::SendReliable(packet) => {
                    proof {
                        packet.lemma_fields();
                    }
                    let index = packet.index.get();
                    let ghost wire = packet.data@;
                    let retransmit = Retransmit {
                        send_at: now + self.retransmission_duration,
                        data: packet.data,
                    };
                    fx_map_insert(&mut self.retransmission_map, index, retransmit);
                    self.retransmission_queue.push_back(index);
                    proof {
                        assert(self.pending() =~= pre_pending.insert(
                            index,
                            ((now + self.retransmission_duration) as u64, wire),
                        ));
                    }
                    return match fx_map_get(&self.retransmission_map, index) {
                        Some(entry) => RecommendedAction::SendData(
                            HotPacket { inner: HotPacketInner::Borrowed(entry.data.as_slice()) },
                        ),
                        None => {
                            proof {
                                assert(false);
                            }
                            RecommendedAction::WaitForData
                        },
                    };
                },
                Action::CancelReliable(index) => {
                    fx_map_remove(&mut self.retransmission_map, index.get());
                    proof {
                        assert(self.pending() =~= pre_pending.remove(index.value()));
                    }
                },
                Action::CancelAllReliable => {
                    self.retransmission_map.clear();
                    self.retransmission_queue.clear();
                    proof {
                        assert(self.pending() =~= Map::<u64, (u64, Seq<u8>)>::empty());
                    }
                },
                Action::SendUnreliable(packet) => {
                    proof {
                        packet.lemma_fields();
                    }
                    return RecommendedAction::SendData(
                        HotPacket { inner: HotPacketInner::Owned(packet.data) },
                    );
                },
            },
            Event::NoEvent => {},
        }
        self.next_retransmission(now)
    }

    /// The retransmission step; see [`retransmit_step`].
    fn next_retransmission<'a, 'b>(&'a mut self, now: u64) -> (r: RecommendedAction<'a, 'b>)
        requires
            old(self).well_formed(),
            now + old(self).duration() <= u64::MAX,
        ensures
            final(self).well_formed(),
            final(self).received() == old(self).received(),
            final(self).max_received() == old(self).max_received(),
            final(self).duration() == old(self).duration(),
            final(self).max_packet_size() == old(self).max_packet_size(),
            retransmit_step(
                old(self).pending(),
                old(self).queue(),
                old(self).duration(),
                now,
                final(self).pending(),
                final(self).queue(),
                r,
            ),
    {
        let ghost p0 = self.pending();
        let ghost q0 = self.queue();
        loop
            invariant
                self.well_formed(),
                self.received() == old(self).received(),
                self.max_received() == old(self).max_received(),
                self.duration() == old(self).duration(),
                self.max_packet_size() == old(self).max_packet_size(),
                self.pending() == p0,
                p0 == old(self).pending(),
                q0 == old(self).queue(),
                live_queue(self.queue(), p0) == live_queue(q0, p0),
                now + self.duration() <= u64::MAX,
            decreases self.retransmission_queue@.len(),
        {
            if self.retransmission_queue.len() == 0 {
                proof {
                    assert(self.queue() =~= live_queue(q0, p0));
                }
                return RecommendedAction::WaitForData;
            }
            let first = self.retransmission_queue[0];
            let ghost q = self.queue();
            assert(p0.contains_key(first) == self.retransmission_map@.contains_key(first));
            match fx_map_remove(&mut self.retransmission_map, first) {
                None => {
                    self.retransmission_queue.pop_front();
                    proof {
                        assert(!p0.contains_key(q[0]));
                        assert(self.queue() =~= q.drop_first());
                    }
                },
                Some(mut retransmit) => {
                    proof {
                        assert(p0.contains_key(first));
                        assert(live_queue(q, p0) == q);
                        assert(p0[first] == (retransmit.send_at, retransmit.data@));
                    }
                    if retransmit.send_at <= now {
                        self.retransmission_queue.pop_front();
                        self.retransmission_queue.push_back(first);
                        retransmit.send_at = now + self.retransmission_duration;
                        let ghost data = retransmit.data@;
                        fx_map_insert(&mut self.retransmission_map, first, retransmit);
                        proof {
                            assert(self.pending() =~= p0.insert(
                                first,
                                ((now + self.retransmission_duration) as u64, data),
                            ));
                            assert(self.queue() =~= q.drop_first().push(first));
                        }
                        return match fx_map_get(&self.retransmission_map, first) {
                            Some(entry) => RecommendedAction::SendData(
                                HotPacket { inner: HotPacketInner::Borrowed(entry.data.as_slice()) },
                            ),
                            None => {
                                proof {
                                    assert(false);
                                }
                                RecommendedAction::WaitForData
                            },
                        };
                    } else {
                        let wait = retransmit.send_at - now;
                        fx_map_insert(&mut self.retransmission_map, first, retransmit);
                        proof {
                            assert(self.pending() =~= p0);
                        }
                        return RecommendedAction::WaitForDuration(wait);
                    }
                },
            }
        }
    }
}

impl<'a> From<Action> for Event<'a> {
    fn from(value: Action) -> (r: Event<'a>) {
        Event::Action(value)
    }
}

impl<'a> vstd::std_specs::convert::FromSpecImpl<Action> for Event<'a> {
    open spec fn obeys_from_spec() -> bool {
        true
    }

    open spec fn from_spec(v: Action) -> Event<'a> {
        Event::Action(v)
    }
}

impl<'a> Default for Event<'a> {
    fn default() -> (r: Self)
        ensures
            r is NoEvent,
    {
        Event::NoEvent
    }
}

/// The first index of the live queue is pending.
pub proof fn lemma_live_queue_front(queue: Seq<u64>, pending: Map<u64, (u64, Seq<u8>)>)
    ensures
        live_queue(queue, pending).len() > 0 ==> pending.contains_key(live_queue(queue, pending)[0]),
    decreases queue.len(),
{
    if queue.len() > 0 && !pending.contains_key(queue[0]) {
        lemma_live_queue_front(queue.drop_first(), pending);
    }
}

/// A retransmission step never adds or removes a pending index.
pub proof fn lemma_retransmit_keeps_indices<'a, 'b>(
    pending: Map<u64, (u64, Seq<u8>)>,
    queue: Seq<u64>,
    duration: u64,
    now: u64,
    post_pending: Map<u64, (u64, Seq<u8>)>,
    post_queue: Seq<u64>,
    r: RecommendedAction<'a, 'b>,
)
    requires
        retransmit_step(pending, queue, duration, now, post_pending, post_queue, r),
    ensures
        post_pending.dom() == pending.dom(),
{
    lemma_live_queue_front(queue, pending);
    assert(post_pending.dom() =~= pending.dom());
}

/// The trailer of `body` followed by the encoding of `x` reads as `x`.
pub proof fn lemma_trailer_of(wire: Seq<u8>, body: Seq<u8>, x: u64)
    requires
        ends_with_index_seq(wire, body, x),
    ensures
        trailer_index(wire) == x,
        wire.subrange(0, wire.len() - 8) == body,
{
}

/// `wire` is `body` followed by the 8-byte big-endian encoding of `x`.
pub open spec fn ends_with_index_seq(wire: Seq<u8>, body: Seq<u8>, x: u64) -> bool {
    crate::packet::ends_with_index(wire, body, x)
}

/// Law (acknowledgement): once the acknowledgement of reliable index `i`
/// arrives, the packet with that index is no longer pending, so it is never
/// sent again.
pub proof fn law_ack_stops_retransmission<'a, 'b>(
    pending: Map<u64, (u64, Seq<u8>)>,
    queue: Seq<u64>,
    received: Seq<u64>,
    max_received: nat,
    duration: u64,
    ack: &'b [u8],
    i: u64,
    now: u64,
    post_pending: Map<u64, (u64, Seq<u8>)>,
    post_queue: Seq<u64>,
    post_received: Seq<u64>,
    r: RecommendedAction<'a, 'b>,
)
    requires
        0 < i < ACK_FLAG,
        is_be8(ack@, (i + ACK_FLAG) as u64),
        poll_spec(
            pending,
            queue,
            received,
            max_received,
            duration,
            Event::IncomingData(ack),
            now,
            post_pending,
            post_queue,
            post_received,
            r,
        ),
    ensures
        !post_pending.contains_key(i),
        post_received == received,
{
    assert(ack@.subrange(0, 8) =~= ack@);
    lemma_retransmit_keeps_indices(
        pending.remove(i),
        queue,
        duration,
        now,
        post_pending,
        post_queue,
        r,
    );
}

/// Law (delivery): a reliable packet built from `body` with index `i`, arriving
/// at a peer that has not seen `i`, is handed to the application as `body`
/// and answered with the acknowledgement of `i`; the peer then remembers `i`.
pub proof fn law_reliable_packet_delivered<'a, 'b>(
    pending: Map<u64, (u64, Seq<u8>)>,
    queue: Seq<u64>,
    received: Seq<u64>,
    max_received: nat,
    duration: u64,
    wire: &'b [u8],
    body: Seq<u8>,
    i: u64,
    now: u64,
    post_pending: Map<u64, (u64, Seq<u8>)>,
    post_queue: Seq<u64>,
    post_received: Seq<u64>,
    r: RecommendedAction<'a, 'b>,
)
    requires
        0 < i < ACK_FLAG,
        i != RECONNECT_INDEX,
        ends_with_index_seq(wire@, body, i),
        !received.contains(i),
        max_received > 0,
        poll_spec(
            pending,
            queue,
            received,
            max_received,
            duration,
            Event::IncomingData(wire),
            now,
            post_pending,
            post_queue,
            post_received,
            r,
        ),
    ensures
        r matches RecommendedAction::HandleDataAndSend { received: h, to_send } && h@ == body
            && is_be8(to_send@, (i + ACK_FLAG) as u64),
        post_received.contains(i),
        post_pending == pending,
        post_queue == queue,
{
    lemma_trailer_of(wire@, body, i);
    let s = received.push(i);
    assert(s[s.len() - 1] == i);
    if s.len() > max_received {
        assert(s.drop_first()[s.len() - 2] == i);
    }
}

/// Law (at most once): a reliable packet whose index the peer still remembers
/// is only acknowledged again, never handed to the application a second time.
pub proof fn law_duplicate_only_acknowledged<'a, 'b>(
    pending: Map<u64, (u64, Seq<u8>)>,
    queue: Seq<u64>,
    received: Seq<u64>,
    max_received: nat,
    duration: u64,
    wire: &'b [u8],
    body: Seq<u8>,
    i: u64,
    now: u64,
    post_pending: Map<u64, (u64, Seq<u8>)>,
    post_queue: Seq<u64>,
    post_received: Seq<u64>,
    r: RecommendedAction<'a, 'b>,
)
    requires
        0 < i < ACK_FLAG,
        i != RECONNECT_INDEX,
        ends_with_index_seq(wire@, body, i),
        received.contains(i),
        poll_spec(
            pending,
            queue,
            received,
            max_received,
            duration,
            Event::IncomingData(wire),
            now,
            post_pending,
            post_queue,
            post_received,
            r,
        ),
    ensures
        r matches RecommendedAction::SendData(p) && is_be8(p.bytes(), (i + ACK_FLAG) as u64),
        post_received == received,
{
    lemma_trailer_of(wire@, body, i);
}

/// Law (unreliable delivery): an unreliable packet built from `body` is handed
/// to the application as `body`, and the state does not change.
pub proof fn law_unreliable_packet_delivered<'a, 'b>(
    pending: Map<u64, (u64, Seq<u8>)>,
    queue: Seq<u64>,
    received: Seq<u64>,
    max_received: nat,
    duration: u64,
    wire: &'b [u8],
    body: Seq<u8>,
    now: u64,
    post_pending: Map<u64, (u64, Seq<u8>)>,
    post_queue: Seq<u64>,
    post_received: Seq<u64>,
    r: RecommendedAction<'a, 'b>,
)
    requires
        ends_with_index_seq(wire@, body, 0),
        poll_spec(
            pending,
            queue,
            received,
            max_received,
            duration,
            Event::IncomingData(wire),
            now,
            post_pending,
            post_queue,
            post_received,
            r,
        ),
    ensures
        r matches RecommendedAction::HandleData(h) && h@ == body,
        post_pending == pending,
        post_queue == queue,
        post_received == received,
{
    lemma_trailer_of(wire@, body, 0);
}

/// Law (reconnection): the reconnection message makes the peer forget every
/// reliable index it received, and it answers with eight `0xff` bytes.
pub proof fn law_reconnection_clears_received<'a, 'b>(
    pending: Map<u64, (u64, Seq<u8>)>,
    queue: Seq<u64>,
    received: Seq<u64>,
    max_received: nat,
    duration: u64,
    msg: &'b [u8],
    now: u64,
    post_pending: Map<u64, (u64, Seq<u8>)>,
    post_queue: Seq<u64>,
    post_received: Seq<u64>,
    r: RecommendedAction<'a, 'b>,
)
    requires
        is_be8(msg@, RECONNECT_INDEX),
        poll_spec(
            pending,
            queue,
            received,
            max_received,
            duration,
            Event::IncomingData(msg),
            now,
            post_pending,
            post_queue,
            post_received,
            r,
        ),
    ensures
        post_received.len() == 0,
        r matches RecommendedAction::SendData(p) && is_be8(p.bytes(), 0xffff_ffff_ffff_ffff),
        post_pending == pending,
{
    assert(msg@.subrange(0, 8) =~= msg@);
}

/// Law (retransmission): a pending packet at the front of the live queue whose
/// time has come is sent again, byte for byte, and stays pending.
pub proof fn law_due_packet_resent<'a, 'b>(
    pending: Map<u64, (u64, Seq<u8>)>,
    queue: Seq<u64>,
    duration: u64,
    now: u64,
    post_pending: Map<u64, (u64, Seq<u8>)>,
    post_queue: Seq<u64>,
    r: RecommendedAction<'a, 'b>,
)
    requires
        live_queue(queue, pending).len() > 0,
        pending[live_queue(queue, pending)[0]].0 <= now,
        retransmit_step(pending, queue, duration, now, post_pending, post_queue, r),
    ensures
        r matches RecommendedAction::SendData(p) && p.bytes() == pending[live_queue(
            queue,
            pending,
        )[0]].1,
        post_pending.contains_key(live_queue(queue, pending)[0]),
        post_pending.dom() == pending.dom(),
{
    lemma_retransmit_keeps_indices(pending, queue, duration, now, post_pending, post_queue, r);
}

} // verus!
