//! Sequence numbers for a packet layer: every outgoing packet carries the
//! counter as a big-endian trailer, and incoming packets that are older than
//! the last accepted one (within a window) are dropped.

use vstd::prelude::*;

use crate::foreign::bytes_mut_contents;
use crate::uint::{appended_be, be_value, UInt, UIntVariant};

verus! {

/// The window size used when none is given: 128, sent as two bytes.
pub fn default_window_size() -> (r: UInt)
    ensures
        r == UInt::U16(128),
{
    UInt::U16(128)
}

/// A layer that stamps packets with a sequence number and discards stale ones.
pub struct Sequenced<T> {
    window_size: UInt,
    counter: u64,
    pub forward: T,
}

/// Why an incoming packet was refused.
#[derive(Debug)]
pub enum SequencedRecvError<E> {
    /// The packet is shorter than the sequence-number trailer.
    PacketTooSmall,
    /// The layer below failed.
    ForwardError(E),
}

/// Whether an incoming sequence number counts as stale.
///
/// With `w` the window size and `m` the largest number of the width: a number
/// at or after the counter is stale when the counter sits in the first window
/// and the number in the last one (it is from before a wrap-around); a number
/// before the counter is stale unless the counter sits in the last window.
pub open spec fn is_stale(incoming: nat, counter: nat, window: nat, max: nat) -> bool {
    if incoming >= counter {
        counter < window && incoming >= max - window
    } else {
        counter < max - window
    }
}

/// The counter after accepting `incoming`: one past it, wrapping at 2^64, modulo `max`.
pub open spec fn next_counter(incoming: nat, max: nat) -> nat {
    (if incoming == 0xffff_ffff_ffff_ffff { 0 } else { incoming + 1 }) % max
}

impl<T> Sequenced<T> {
    /// The width and size of the window.
    pub closed spec fn window(&self) -> UInt {
        self.window_size
    }

    /// The layer below.
    pub closed spec fn next_layer(&self) -> T {
        self.forward
    }

    /// The sequence number expected next.
    pub closed spec fn counter(&self) -> u64 {
        self.counter
    }

    pub fn new(window_size: UInt, forward: T) -> (r: Self)
        ensures
            r.window() == window_size,
            r.counter() == 0,
            r.next_layer() == forward,
    {
        Sequenced { window_size, counter: 0, forward }
    }

    /// Keeps the window and counter, replacing the layer below.
    pub fn map<V>(self, new: V) -> (r: Sequenced<V>)
        ensures
            r.window() == self.window(),
            r.counter() == self.counter(),
            r.next_layer() == new,
    {
        Sequenced { window_size: self.window_size, counter: self.counter, forward: new }
    }

    /// Appends the current sequence number, in the window's width, to an outgoing packet.
    pub fn stamp_outgoing(&self, data: &mut bytes::BytesMut)
        ensures
            appended_be(
                bytes_mut_contents(*old(data)),
                bytes_mut_contents(*final(data)),
                UInt::with_u64_spec(self.window(), self.counter()),
            ),
    {
        let stamp = self.window_size.with_u64(self.counter);
        proof {
            UInt::lemma_with_u64_spec(self.window_size, self.counter, stamp);
        }
        stamp.extend_bytes_mut(data);
    }

    /// Judges an incoming packet by its sequence-number trailer.
    ///
    /// Returns `Err(PacketTooSmall)` for a packet shorter than the trailer,
    /// `Ok(None)` for a stale packet, which is dropped, and `Ok(Some(n))` for
    /// an accepted one, whose payload is its first `n` bytes; then the counter
    /// moves past the packet's number.
    pub fn check_incoming<E>(&mut self, data: &[u8]) -> (r: Result<
        Option<usize>,
        SequencedRecvError<E>,
    >)
        ensures
            final(self).window() == old(self).window(),
            final(self).next_layer() == old(self).next_layer(),
            ({
                let size = old(self).window().variant().byte_len();
                let max = old(self).window().variant().max();
                let w = old(self).window().value();
                let incoming = be_value(data@.subrange(data@.len() - size, data@.len() as int));
                if data@.len() < size {
                    r matches Err(SequencedRecvError::PacketTooSmall) && final(self).counter()
                        == old(self).counter()
                } else if is_stale(incoming, old(self).counter() as nat, w, max) {
                    r == Ok::<Option<usize>, SequencedRecvError<E>>(None) && final(self).counter()
                        == old(self).counter()
                } else {
                    r == Ok::<Option<usize>, SequencedRecvError<E>>(Some((data@.len() - size) as usize))
                        && final(self).counter() == next_counter(incoming, max)
                }
            }),
    {
        let size = self.window_size.size();
        if data.len() < size {
            return Err(SequencedRecvError::PacketTooSmall);
        }
        let slice_index = data.len() - size;
        let counter_slice = vstd::slice::slice_subrange(data, slice_index, data.len());
        let incoming_index = match self.window_size.to_variant().try_with_slice(counter_slice) {
            Ok(u) => u.to_u64(),
            Err(_) => {
                proof {
                    assert(false);
                }
                return Err(SequencedRecvError::PacketTooSmall);
            },
        };
        let max_value = self.window_size.to_variant().max_value().to_u64();
        let window_size = self.window_size.to_u64();
        proof {
            self.window_size.lemma_value_bound();
        }
        let upper_window_index = max_value - window_size;
        if incoming_index >= self.counter {
            if self.counter < window_size && incoming_index >= upper_window_index {
                return Ok(None);
            }
        } else if self.counter < upper_window_index {
            return Ok(None);
        }
        self.counter = incoming_index.wrapping_add(1) % max_value;
        Ok(Some(slice_index))
    }
}

/// A packet is not taken twice: once a number was accepted, the same number
/// again is stale, unless the counter that follows it lies in the last window
/// (where numbers from before a wrap-around are let through); `max` is the
/// largest number of the window's width.
pub proof fn law_duplicate_is_stale(incoming: nat, window: nat, max: nat)
    requires
        max <= 0xffff_ffff_ffff_ffff,
        incoming + 1 < max - window,
    ensures
        is_stale(incoming, next_counter(incoming, max), window, max),
{
    vstd::arithmetic::div_mod::lemma_small_mod((incoming + 1) as nat, max);
}

/// Packets from ahead are taken, however far ahead: a number at or after
/// the counter is accepted wherever it lies short of the last window (so a
/// layer that missed a run of packets, or joined a stream late, takes the
/// next one that arrives); `max` is the largest number of the window's
/// width.
pub proof fn law_numbers_ahead_are_accepted(incoming: nat, counter: nat, window: nat, max: nat)
    requires
        counter <= incoming,
        incoming < max - window,
    ensures
        !is_stale(incoming, counter, window, max),
{
}

/// A stream in order is taken whole: after `incoming` was accepted, the
/// number that follows it is accepted too, short of the last window.
pub proof fn law_next_number_is_accepted(incoming: nat, window: nat, max: nat)
    requires
        max <= 0xffff_ffff_ffff_ffff,
        incoming + 1 < max - window,
    ensures
        !is_stale(incoming + 1, next_counter(incoming, max), window, max),
{
    vstd::arithmetic::div_mod::lemma_small_mod((incoming + 1) as nat, max);
}

/// Packets from behind are dropped: a number before the counter is stale
/// wherever the counter lies short of the last window.
pub proof fn law_numbers_behind_are_dropped(incoming: nat, counter: nat, window: nat, max: nat)
    requires
        incoming < counter,
        counter < max - window,
    ensures
        is_stale(incoming, counter, window, max),
{
}

impl UInt {
    /// `value` truncated to the width of `u`.
    pub open spec fn with_u64_spec(u: UInt, value: u64) -> UInt {
        match u.variant() {
            UIntVariant::U8 => UInt::U8((value % 0x100) as u8),
            UIntVariant::U16 => UInt::U16((value % 0x1_0000) as u16),
            UIntVariant::U32 => UInt::U32((value % 0x1_0000_0000) as u32),
            UIntVariant::U64 => UInt::U64(value),
        }
    }

    pub proof fn lemma_with_u64_spec(u: UInt, value: u64, r: UInt)
        requires
            r.variant() == u.variant(),
            r.value() == value as nat % u.variant().modulus(),
        ensures
            r == UInt::with_u64_spec(u, value),
    {
    }
}

} // verus!
