//! Packets of the peer protocol. Every packet ends in an 8-byte big-endian
//! index: 0 for an unreliable packet, the packet's reliable index for a
//! reliable one, the index with its top bit set for an acknowledgement.

use vstd::prelude::*;

use std::sync::atomic::AtomicU64;
use std::sync::Arc;

use crate::uint::{be_value, UInt};

verus! {

/// The index of a reliable packet; never 0.
#[derive(Clone, Copy, Debug, PartialEq, Eq, Structural)]
pub struct ReliableIndex(pub(crate) u64);

impl ReliableIndex {
    pub closed spec fn value(self) -> u64 {
        self.0
    }

    pub(crate) proof fn lemma_value(self)
        ensures
            self.value() == self.0,
    {
    }

    /// The index as a number.
    pub fn get(self) -> (r: u64)
        ensures
            r == self.value(),
    {
        self.0
    }
}

/// A packet that is sent until the peer acknowledges it.
#[derive(Debug)]
pub struct ReliablePacket {
    pub(crate) index: ReliableIndex,
    pub(crate) data: Vec<u8>,
}

impl ReliablePacket {
    pub closed spec fn index_spec(&self) -> ReliableIndex {
        self.index
    }

    /// The bytes that go on the wire, index trailer included.
    pub closed spec fn wire(&self) -> Seq<u8> {
        self.data@
    }

    pub(crate) proof fn lemma_fields(&self)
        ensures
            self.wire() == self.data@,
            self.index_spec() == self.index,
    {
    }

    pub fn get_index(&self) -> (r: ReliableIndex)
        ensures
            r == self.index_spec(),
    {
        self.index
    }
}

/// A packet that is sent once.
#[derive(Clone, Debug)]
pub struct UnreliablePacket {
    pub(crate) data: Vec<u8>,
}

impl UnreliablePacket {
    /// The bytes that go on the wire, the zero trailer included.
    pub closed spec fn wire(&self) -> Seq<u8> {
        self.data@
    }

    pub(crate) proof fn lemma_fields(&self)
        ensures
            self.wire() == self.data@,
    {
    }
}

/// What the application asks the state machine to do.
#[derive(Debug)]
pub enum Action {
    SendReliable(ReliablePacket),
    CancelReliable(ReliableIndex),
    CancelAllReliable,
    SendUnreliable(UnreliablePacket),
}

impl From<ReliablePacket> for Action {
    fn from(packet: ReliablePacket) -> (r: Action) {
        Action::SendReliable(packet)
    }
}

impl vstd::std_specs::convert::FromSpecImpl<ReliablePacket> for Action {
    open spec fn obeys_from_spec() -> bool {
        true
    }

    open spec fn from_spec(v: ReliablePacket) -> Action {
        Action::SendReliable(v)
    }
}

impl From<UnreliablePacket> for Action {
    fn from(packet: UnreliablePacket) -> (r: Action) {
        Action::SendUnreliable(packet)
    }
}

impl vstd::std_specs::convert::FromSpecImpl<UnreliablePacket> for Action {
    open spec fn obeys_from_spec() -> bool {
        true
    }

    open spec fn from_spec(v: UnreliablePacket) -> Action {
        Action::SendUnreliable(v)
    }
}

/// The payload of a packet being built.
pub struct PacketBody {
    pub data: Vec<u8>,
}

impl PacketBody {
    /// The payload followed by `extra`.
    fn into_bytes(self, extra: &[u8]) -> (r: Vec<u8>)
        ensures
            r@ == self.data@ + extra@,
    {
        let mut data = self.data;
        data.extend_from_slice(extra);
        data
    }
}

impl From<Vec<u8>> for PacketBody {
    fn from(data: Vec<u8>) -> (r: PacketBody) {
        PacketBody { data }
    }
}

impl vstd::std_specs::convert::FromSpecImpl<Vec<u8>> for PacketBody {
    open spec fn obeys_from_spec() -> bool {
        true
    }

    open spec fn from_spec(v: Vec<u8>) -> PacketBody {
        PacketBody { data: v }
    }
}

/// Errors from the peer's packets.
#[derive(Debug, PartialEq, Eq, Structural, Clone, Copy)]
pub enum CakapError {
    /// A packet from the peer was too small to be processed.
    PacketTooSmall,
    /// A packet from the peer was too large to be processed.
    PacketTooLong,
    /// A packet from the peer was invalid.
    InvalidPacket,
}

impl CakapError {
    /// The error's description.
    pub open spec fn message_spec(self) -> Seq<char> {
        match self {
            CakapError::PacketTooSmall => "Packet from peer was too small to be processed"@,
            CakapError::PacketTooLong => "Packet from peer was too large to be processed"@,
            CakapError::InvalidPacket => "Packet from peer was invalid"@,
        }
    }

    /// The error's description.
    pub fn message(&self) -> (r: &'static str)
        ensures
            r@ == self.message_spec(),
    {
        match self {
            CakapError::PacketTooSmall => "Packet from peer was too small to be processed",
            CakapError::PacketTooLong => "Packet from peer was too large to be processed",
            CakapError::InvalidPacket => "Packet from peer was invalid",
        }
    }
}

/// Why a packet could not be built; the payload is handed back.
#[derive(Debug)]
pub enum BuildPacketError {
    /// The payload is longer than the maximum packet size.
    BufferTooLarge { buffer: Vec<u8>, max_packet_size: usize },
    /// The payload is empty.
    EmptyBuffer { buffer: Vec<u8> },
    /// Every reliable index has been handed out; the state machine has to be rebuilt.
    IndexExhausted { buffer: Vec<u8> },
}

/// State shared by a state machine and its packet builders.
#[derive(Debug)]
pub struct Shared {
    pub(crate) reliable_index: AtomicU64,
    pub(crate) max_packet_size: usize,
}

impl Shared {
    pub closed spec fn max_packet_size_spec(&self) -> usize {
        self.max_packet_size
    }

    /// A fresh counter of reliable indices starting at 1.
    pub(crate) fn new(max_packet_size: usize) -> (r: Self)
        ensures
            r.max_packet_size_spec() == max_packet_size,
    {
        Shared { reliable_index: AtomicU64::new(1), max_packet_size }
    }

    /// Takes the next reliable index (shared with every builder, so any value may come back).
    fn next_reliable_index(&self) -> u64 {
        self.reliable_index.fetch_add(1, std::sync::atomic::Ordering::Relaxed)
    }
}

/// The 8-byte big-endian encoding of `x`, characterised by length and value.
pub open spec fn is_be8(s: Seq<u8>, x: u64) -> bool {
    s.len() == 8 && be_value(s) == x
}

/// `wire` is `body` followed by the 8-byte big-endian encoding of `x`.
pub open spec fn ends_with_index(wire: Seq<u8>, body: Seq<u8>, x: u64) -> bool {
    &&& wire.len() == body.len() + 8
    &&& wire.subrange(0, body.len() as int) == body
    &&& is_be8(wire.subrange(body.len() as int, wire.len() as int), x)
}

/// The 8-byte big-endian encoding of `x`.
pub fn u64_be_bytes(x: u64) -> (r: [u8; 8])
    ensures
        is_be8(r@, x),
{
    let b = UInt::U64(x).to_be_bytes();
    match b {
        crate::uint::UIntBeBytes::U64(a) => a,
        _ => {
            proof {
                assert(false);
            }
            [0u8; 8]
        },
    }
}

/// Used to create reliable and unreliable packets.
#[derive(Clone, Debug)]
pub struct PacketBuilder {
    pub(crate) shared: Arc<Shared>,
}

impl PacketBuilder {
    pub closed spec fn max_packet_size(&self) -> usize {
        self.shared.max_packet_size
    }

    pub(crate) proof fn lemma_max_packet_size(&self)
        ensures
            self.max_packet_size() == self.shared.max_packet_size_spec(),
    {
    }

    /// Builds a packet that is sent once: the payload followed by eight zero bytes.
    ///
    /// Packets cannot have a zero-sized payload.
    pub fn new_unreliable(&self, body: PacketBody) -> (r: Result<
        UnreliablePacket,
        BuildPacketError,
    >)
        ensures
            body.data@.len() == 0 ==> (r matches Err(BuildPacketError::EmptyBuffer { buffer })
                && buffer@ == body.data@),
            body.data@.len() > self.max_packet_size() ==> (r matches Err(
                BuildPacketError::BufferTooLarge { buffer, max_packet_size },
            ) && buffer@ == body.data@ && max_packet_size == self.max_packet_size()),
            0 < body.data@.len() <= self.max_packet_size() ==> (r matches Ok(p) && ends_with_index(
                p.wire(),
                body.data@,
                0,
            )),
    {
        if body.data.len() == 0 {
            return Err(BuildPacketError::EmptyBuffer { buffer: body.data });
        }
        if body.data.len() > self.shared.max_packet_size {
            return Err(
                BuildPacketError::BufferTooLarge {
                    buffer: body.data,
                    max_packet_size: self.shared.max_packet_size,
                },
            );
        }
        let ghost payload = body.data@;
        let zeros = u64_be_bytes(0);
        let data = body.into_bytes(zeros.as_slice());
        proof {
            assert(data@.subrange(0, payload.len() as int) =~= payload);
            assert(data@.subrange(payload.len() as int, data@.len() as int) =~= zeros@);
        }
        Ok(UnreliablePacket { data })
    }

    /// Builds a packet that is sent until acknowledged: the payload followed by
    /// the next reliable index, which the packet also records.
    ///
    /// Packets cannot have a zero-sized payload.
    pub fn new_reliable(&self, body: PacketBody) -> (r: Result<ReliablePacket, BuildPacketError>)
        ensures
            body.data@.len() == 0 ==> (r matches Err(BuildPacketError::EmptyBuffer { buffer })
                && buffer@ == body.data@),
            body.data@.len() > self.max_packet_size() ==> (r matches Err(
                BuildPacketError::BufferTooLarge { buffer, max_packet_size },
            ) && buffer@ == body.data@ && max_packet_size == self.max_packet_size()),
            0 < body.data@.len() <= self.max_packet_size() ==> match r {
                Ok(p) => p.index_spec().value() != 0 && ends_with_index(
                    p.wire(),
                    body.data@,
                    p.index_spec().value(),
                ),
                Err(BuildPacketError::IndexExhausted { buffer }) => buffer@ == body.data@,
                _ => false,
            },
    {
        if body.data.len() == 0 {
            return Err(BuildPacketError::EmptyBuffer { buffer: body.data });
        }
        if body.data.len() > self.shared.max_packet_size {
            return Err(
                BuildPacketError::BufferTooLarge {
                    buffer: body.data,
                    max_packet_size: self.shared.max_packet_size,
                },
            );
        }
        let reliable_index = self.shared.next_reliable_index();
        if reliable_index == 0 {
            return Err(BuildPacketError::IndexExhausted { buffer: body.data });
        }
        let ghost payload = body.data@;
        let trailer = u64_be_bytes(reliable_index);
        let data = body.into_bytes(trailer.as_slice());
        proof {
            assert(data@.subrange(0, payload.len() as int) =~= payload);
            assert(data@.subrange(payload.len() as int, data@.len() as int) =~= trailer@);
        }
        Ok(ReliablePacket { data, index: ReliableIndex(reliable_index) })
    }
}

} // verus!
