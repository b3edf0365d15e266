//! Splitting a packet into fragments that fit under a size limit, with
//! Reed-Solomon parity fragments so that the packet survives the loss of a
//! few of them, and putting the fragments back together on the other side.
//!
//! Every fragment ends in a trailer: for a *complete* fragment the padding
//! and the number of fragments, then for every fragment its index and the
//! set's identifier, all big-endian in their configured widths, and last a
//! type byte (`255` for complete, `0` otherwise). The first fragments of a
//! set, one more than it has parity fragments, are complete.

use vstd::prelude::*;

use crate::foreign::{
    fragment_sets, fragment_sets_get_index_of, fragment_sets_len,
    fragment_sets_new, fragment_sets_shift_insert, shards_recoverable, fragment_sets_shift_remove_index, fx_map_contains_key, fx_map_insert, fx_map_into_vec, fx_map_len, index_set_contents, index_set_insert, index_set_len, index_set_new, index_set_shift_remove_index,
    random_u64, rs16_encode_sep, rs16_new, rs16_parity, rs16_reconstruct_data, rs16_recovered,
    rs8_encode_sep, rs8_new, rs8_parity, rs8_reconstruct_data, rs8_recovered,
};
use crate::uint::{be_value, narrowest_variant, UInt, UIntVariant};

verus! {

/// Why a packet could not be fragmented.
#[derive(Debug)]
pub enum FragmentSendError<E> {
    /// It needs more fragments than a set may have.
    PacketTooBig,
    /// It needs the 16-bit Reed-Solomon field, and its fragments cannot be
    /// read as 2-byte symbols or are more than that field can code.
    Unencodable,
    /// No identifier was found that no set sent lately has.
    NoFreeFragmentId,
    /// The layer below failed.
    ForwardError(E),
}

/// Why a fragment was refused.
#[derive(Debug)]
pub enum FragmentRecvError<E> {
    PacketTooSmall,
    DuplicateFragment,
    BadFragmentIndex,
    BadFragmentCount,
    BadFragmentData,
    TooManyFragments,
    ReconstructionError(reed_solomon_erasure::Error),
    ForwardError(E),
}

/// How many fragments of a set are parity fragments. The application
/// decides, with the redundancy it was configured with.
pub trait Redundancy {
    /// The number of parity fragments for `data_fragments` fragments of data.
    spec fn parity_for(&self, data_fragments: u64) -> u64;

    /// The number of data fragments in a set of `fragments` fragments.
    spec fn data_for(&self, fragments: u64) -> u64;

    /// The number of parity fragments for `data_fragments` fragments of data.
    fn redundant_fragments(&self, data_fragments: u64) -> (r: u64)
        ensures
            r == self.parity_for(data_fragments),
    ;

    /// The number of data fragments in a set of `fragments` fragments.
    fn data_fragments(&self, fragments: u64) -> (r: u64)
        ensures
            r == self.data_for(fragments),
    ;
}

/// The same number of parity fragments in every set, whatever its size.
pub struct FixedParity(pub u64);

impl Redundancy for FixedParity {
    open spec fn parity_for(&self, data_fragments: u64) -> u64 {
        self.0
    }

    open spec fn data_for(&self, fragments: u64) -> u64 {
        if fragments >= self.0 {
            (fragments - self.0) as u64
        } else {
            0
        }
    }

    fn redundant_fragments(&self, data_fragments: u64) -> (r: u64) {
        self.0
    }

    fn data_fragments(&self, fragments: u64) -> (r: u64) {
        if fragments >= self.0 {
            fragments - self.0
        } else {
            0
        }
    }
}

/// `256` to the power `w`.
pub open spec fn pow256(w: nat) -> nat
    decreases w,
{
    if w == 0 {
        1
    } else {
        256 * pow256((w - 1) as nat)
    }
}

/// The `w` bytes of `x` in big-endian order, the more significant ones
/// dropped.
pub open spec fn be_bytes(w: nat, x: nat) -> Seq<u8>
    decreases w,
{
    if w == 0 {
        Seq::empty()
    } else {
        be_bytes((w - 1) as nat, x / 256).push((x % 256) as u8)
    }
}

/// `x` in the width `v`, as a trailer holds it.
pub open spec fn encode(v: UIntVariant, x: nat) -> Seq<u8> {
    be_bytes(v.byte_len(), x % v.modulus())
}

proof fn lemma_be_bytes(w: nat, x: nat)
    requires
        x < pow256(w),
    ensures
        be_bytes(w, x).len() == w,
        be_value(be_bytes(w, x)) == x,
    decreases w,
{
    if w > 0 {
        let p = pow256((w - 1) as nat);
        assert(x / 256 < p) by (nonlinear_arith)
            requires
                x < 256 * p,
        ;
        lemma_be_bytes((w - 1) as nat, x / 256);
        let s = be_bytes(w, x);
        assert(s.drop_last() == be_bytes((w - 1) as nat, x / 256));
        assert(be_value(s) == (x / 256) * 256 + x % 256);
        assert((x / 256) * 256 + x % 256 == x) by (nonlinear_arith);
    }
}

proof fn lemma_modulus(v: UIntVariant)
    ensures
        pow256(v.byte_len()) == v.modulus(),
{
    reveal_with_fuel(pow256, 9);
}

/// Encoding `x` in the width `v` and reading it back gives `x`, where it fits.
pub proof fn lemma_encode(v: UIntVariant, x: nat)
    requires
        x < v.modulus(),
    ensures
        encode(v, x).len() == v.byte_len(),
        be_value(encode(v, x)) == x,
{
    lemma_modulus(v);
    lemma_be_bytes(v.byte_len(), x);
}

proof fn lemma_encode_mod(v: UIntVariant, x: nat)
    ensures
        encode(v, x % v.modulus()) == encode(v, x),
{
    let m = v.modulus();
    vstd::arithmetic::div_mod::lemma_mod_twice(x as int, m as int);
}

/// Appends `u` in big-endian order.
fn push_uint(out: &mut Vec<u8>, u: UInt)
    ensures
        final(out)@ == old(out)@ + encode(u.variant(), u.value()),
{
    let b = u.to_be_bytes();
    let s = b.as_slice();
    proof {
        u.lemma_value_bound();
        lemma_encode(u.variant(), u.value());
        crate::uint::lemma_be_value_injective(s@, encode(u.variant(), u.value()));
    }
    let mut i: usize = 0;
    let ghost start = out@;
    while i < s.len()
        invariant
            0 <= i <= s@.len(),
            out@ == start + s@.take(i as int),
        decreases s@.len() - i,
    {
        out.push(s[i]);
        proof {
            assert(s@.take(i + 1) == s@.take(i as int).push(s@[i as int]));
        }
        i = i + 1;
    }
    proof {
        assert(s@.take(s@.len() as int) == s@);
    }
}

/// The widths of the fields of a trailer.
#[derive(Clone, Copy, Debug, PartialEq, Eq, Structural)]
pub struct TrailerWidths {
    /// The width of the padding.
    pub padding: UIntVariant,
    /// The width of fragment counts and indices.
    pub count: UIntVariant,
    /// The width of set identifiers.
    pub id: UIntVariant,
}

/// What a complete fragment's trailer says of its set.
#[derive(Clone, Copy, Debug, PartialEq, Eq, Structural)]
pub struct SetInfo {
    /// The number of padding bytes at the end of the set's data.
    pub padding: u64,
    /// The number of fragments in the set.
    pub count: u64,
}

/// What a fragment's trailer says of it.
#[derive(Clone, Copy, Debug, PartialEq, Eq, Structural)]
pub struct FragmentTrailer {
    /// The fragment's place in its set.
    pub index: u64,
    /// The set's identifier.
    pub id: u64,
    /// What a complete fragment says of its set; `None` for another fragment.
    pub complete: Option<SetInfo>,
}

/// The bytes that follow a fragment's payload.
pub open spec fn trailer_bytes(t: FragmentTrailer, w: TrailerWidths) -> Seq<u8> {
    (match t.complete {
        Some(info) => encode(w.padding, info.padding as nat) + encode(w.count, info.count as nat),
        None => Seq::empty(),
    }) + encode(w.count, t.index as nat) + encode(w.id, t.id as nat) + seq![
        if t.complete is Some {
            255u8
        } else {
            0u8
        },
    ]
}

/// The values of the trailer fit their widths.
pub open spec fn trailer_fits(t: FragmentTrailer, w: TrailerWidths) -> bool {
    &&& t.index < w.count.modulus()
    &&& t.id < w.id.modulus()
    &&& t.complete matches Some(info) ==> info.padding < w.padding.modulus() && info.count
        < w.count.modulus()
}

/// Writes a fragment: its payload, then its trailer.
pub fn encode_fragment(payload: &[u8], trailer: FragmentTrailer, widths: TrailerWidths) -> (r: Vec<
    u8,
>)
    ensures
        r@ == payload@ + trailer_bytes(trailer, widths),
{
    let mut out: Vec<u8> = Vec::new();
    let mut i: usize = 0;
    while i < payload.len()
        invariant
            0 <= i <= payload@.len(),
            out@ == payload@.take(i as int),
        decreases payload@.len() - i,
    {
        out.push(payload[i]);
        proof {
            assert(payload@.take(i + 1) == payload@.take(i as int).push(payload@[i as int]));
        }
        i = i + 1;
    }
    proof {
        assert(payload@.take(payload@.len() as int) == payload@);
    }
    let complete = match trailer.complete {
        Some(info) => {
            push_uint(&mut out, widths.padding.with_u64(info.padding));
            push_uint(&mut out, widths.count.with_u64(info.count));
            true
        },
        None => false,
    };
    push_uint(&mut out, widths.count.with_u64(trailer.index));
    push_uint(&mut out, widths.id.with_u64(trailer.id));
    out.push(if complete { 255u8 } else { 0u8 });
    proof {
        lemma_encode_mod(widths.count, trailer.index as nat);
        lemma_encode_mod(widths.id, trailer.id as nat);
        if let Some(info) = trailer.complete {
            lemma_encode_mod(widths.padding, info.padding as nat);
            lemma_encode_mod(widths.count, info.count as nat);
        }
        let tb = trailer_bytes(trailer, widths);
        assert(out@ =~= payload@ + tb);
    }
    out
}

/// The number of trailer bytes before the type byte.
pub open spec fn trailer_len(complete: bool, w: TrailerWidths) -> nat {
    if complete {
        w.padding.byte_len() + 2 * w.count.byte_len() + w.id.byte_len()
    } else {
        w.count.byte_len() + w.id.byte_len()
    }
}

/// `packet` is a fragment of `payload` with `trailer`, whatever its type
/// byte is besides telling complete fragments (`127` and above) from the
/// others.
pub open spec fn parses_as(packet: Seq<u8>, payload: Seq<u8>, t: FragmentTrailer, w: TrailerWidths) -> bool {
    &&& packet.len() > 0
    &&& (t.complete is Some) == (packet.last() >= 127)
    &&& packet.drop_last() == payload + trailer_bytes(t, w).drop_last()
}

/// The payload and trailer that [`parse_fragment`] reads from a packet long
/// enough to hold them.
pub open spec fn parse(packet: Seq<u8>, w: TrailerWidths) -> (Seq<u8>, FragmentTrailer) {
    let b = packet.drop_last();
    let complete = packet.last() >= 127;
    let len = b.len() as int;
    let ids = w.id.byte_len() as int;
    let cs = w.count.byte_len() as int;
    let ps = w.padding.byte_len() as int;
    let plen = len - trailer_len(complete, w);
    (
        b.subrange(0, plen),
        FragmentTrailer {
            index: be_value(b.subrange(len - ids - cs, len - ids)) as u64,
            id: be_value(b.subrange(len - ids, len)) as u64,
            complete: if complete {
                Some(
                    SetInfo {
                        padding: be_value(b.subrange(plen, plen + ps)) as u64,
                        count: be_value(b.subrange(len - ids - 2 * cs, len - ids - cs)) as u64,
                    },
                )
            } else {
                None
            },
        },
    )
}

/// Reads the value of `width` bytes ending at `end`.
fn read_uint(body: &[u8], end: usize, width: UIntVariant) -> (r: u64)
    requires
        width.byte_len() <= end <= body@.len(),
    ensures
        r == be_value(body@.subrange(end - width.byte_len(), end as int)),
{
    let size = width.size();
    let part = vstd::slice::slice_subrange(body, end - size, end);
    match width.try_with_slice(part) {
        Ok(u) => u.to_u64(),
        Err(_) => {
            proof {
                assert(false);
            }
            0
        },
    }
}

proof fn lemma_parse_field(body: Seq<u8>, end: int, v: UIntVariant, x: u64)
    requires
        v.byte_len() <= end <= body.len(),
        x == be_value(body.subrange(end - v.byte_len(), end)),
    ensures
        x < v.modulus(),
        body.subrange(end - v.byte_len(), end) == encode(v, x as nat),
{
    let part = body.subrange(end - v.byte_len(), end);
    lemma_be_value_bound(part);
    lemma_modulus(v);
    lemma_encode(v, x as nat);
    crate::uint::lemma_be_value_injective(part, encode(v, x as nat));
}

proof fn lemma_be_value_bound(s: Seq<u8>)
    ensures
        be_value(s) < pow256(s.len()),
    decreases s.len(),
{
    if s.len() > 0 {
        lemma_be_value_bound(s.drop_last());
        let a = be_value(s.drop_last());
        let p = pow256((s.len() - 1) as nat);
        let x = s.last() as nat;
        assert(a * 256 + x < 256 * p) by (nonlinear_arith)
            requires
                a < p,
                x < 256,
        ;
    }
}

#[verifier::spinoff_prover]
#[verifier::rlimit(50)]
proof fn lemma_parse_assembles(packet: Seq<u8>, payload: Seq<u8>, t: FragmentTrailer, w: TrailerWidths)
    requires
        packet.len() > 0,
        (t.complete is Some) == (packet.last() >= 127),
        ({
            let b = packet.drop_last();
            let len = b.len() as int;
            let ids = w.id.byte_len() as int;
            let cs = w.count.byte_len() as int;
            let ps = w.padding.byte_len() as int;
            let plen = len - trailer_len(t.complete is Some, w);
            &&& plen >= 1
            &&& payload == b.subrange(0, plen)
            &&& t.id == be_value(b.subrange(len - ids, len))
            &&& t.index == be_value(b.subrange(len - ids - cs, len - ids))
            &&& t.complete matches Some(info) ==> {
                &&& info.count == be_value(b.subrange(len - ids - 2 * cs, len - ids - cs))
                &&& info.padding == be_value(b.subrange(plen, plen + ps))
            }
        }),
    ensures
        parses_as(packet, payload, t, w),
        trailer_fits(t, w),
{
    let b = packet.drop_last();
    let len = b.len() as int;
    let ids = w.id.byte_len() as int;
    let cs = w.count.byte_len() as int;
    let ps = w.padding.byte_len() as int;
    let plen = len - trailer_len(t.complete is Some, w);
    lemma_parse_field(b, len, w.id, t.id);
    lemma_parse_field(b, len - ids, w.count, t.index);
    let tail = encode(w.count, t.index as nat) + encode(w.id, t.id as nat);
    if let Some(info) = t.complete {
        lemma_parse_field(b, len - ids - cs, w.count, info.count);
        lemma_parse_field(b, plen + ps, w.padding, info.padding);
        let head = encode(w.padding, info.padding as nat) + encode(w.count, info.count as nat);
        assert(trailer_bytes(t, w).drop_last() =~= head + tail);
        assert(b =~= payload + (head + tail));
    } else {
        assert(trailer_bytes(t, w).drop_last() =~= tail);
        assert(b =~= payload + tail);
    }
}

/// Reads a fragment: its payload and its trailer. A packet too short to hold
/// a trailer and at least one byte of payload is refused.
#[verifier::rlimit(40)]
pub fn parse_fragment<E>(packet: &[u8], widths: TrailerWidths) -> (r: Result<
    (Vec<u8>, FragmentTrailer),
    FragmentRecvError<E>,
>)
    requires
        packet@.len() > 0,
    ensures
        r matches Ok((payload, t)) ==> parses_as(packet@, payload@, t, widths) && trailer_fits(
            t,
            widths,
        ) && payload@.len() > 0,
        r is Err <==> packet@.len() - 1 < 1 + trailer_len(packet@.last() >= 127, widths),
        r is Err ==> r matches Err(FragmentRecvError::PacketTooSmall),
        r matches Ok((payload, t)) ==> (payload@, t) == parse(packet@, widths),
{
    let len = packet.len() - 1;
    let body = vstd::slice::slice_subrange(packet, 0, len);
    let complete = packet[len] >= 127;
    let cs = widths.count.size();
    let ids = widths.id.size();
    let ps = widths.padding.size();
    let trailer_size = if complete {
        ps + 2 * cs + ids
    } else {
        cs + ids
    };
    if len < 1 + trailer_size {
        return Err(FragmentRecvError::PacketTooSmall);
    }
    let id = read_uint(body, len, widths.id);
    let index = read_uint(body, len - ids, widths.count);
    let payload_len = len - trailer_size;
    let info = if complete {
        let count = read_uint(body, len - ids - cs, widths.count);
        let padding = read_uint(body, payload_len + ps, widths.padding);
        Some(SetInfo { padding, count })
    } else {
        None
    };
    let payload = vstd::slice::slice_to_vec(vstd::slice::slice_subrange(body, 0, payload_len));
    let t = FragmentTrailer { index, id, complete: info };
    proof {
        lemma_parse_assembles(packet@, payload@, t, widths);
    }
    Ok((payload, t))
}

/// What a fragment's writer wrote, its reader reads back: a fragment of a
/// payload and a trailer whose values fit their widths parses as nothing but
/// that payload and that trailer.
pub proof fn law_fragment_roundtrip(
    payload: Seq<u8>,
    t: FragmentTrailer,
    w: TrailerWidths,
    payload2: Seq<u8>,
    t2: FragmentTrailer,
)
    requires
        trailer_fits(t, w),
        trailer_fits(t2, w),
        parses_as(payload + trailer_bytes(t, w), payload2, t2, w),
    ensures
        payload2 == payload,
        t2 == t,
{
    let tb = trailer_bytes(t, w);
    let tb2 = trailer_bytes(t2, w);
    let packet = payload + tb;
    lemma_trailer_len(t, w);
    lemma_trailer_len(t2, w);
    assert(packet.last() == tb.last());
    assert((t.complete is Some) == (t2.complete is Some));
    let d = packet.drop_last();
    assert(d =~= payload + tb.drop_last());
    assert(payload2.len() == payload.len());
    assert(payload2 =~= d.subrange(0, payload.len() as int));
    assert(payload =~= d.subrange(0, payload.len() as int));
    assert(tb2.drop_last() =~= d.subrange(payload.len() as int, d.len() as int));
    assert(tb.drop_last() =~= d.subrange(payload.len() as int, d.len() as int));
    lemma_trailer_injective(t, t2, w);
}

proof fn lemma_trailer_len(t: FragmentTrailer, w: TrailerWidths)
    requires
        trailer_fits(t, w),
    ensures
        trailer_bytes(t, w).len() == trailer_len(t.complete is Some, w) + 1,
        trailer_bytes(t, w).last() == (if t.complete is Some {
            255u8
        } else {
            0u8
        }),
{
    lemma_encode(w.count, t.index as nat);
    lemma_encode(w.id, t.id as nat);
    if let Some(info) = t.complete {
        lemma_encode(w.padding, info.padding as nat);
        lemma_encode(w.count, info.count as nat);
    }
}

proof fn lemma_encode_injective(v: UIntVariant, x: nat, y: nat)
    requires
        x < v.modulus(),
        y < v.modulus(),
        encode(v, x) == encode(v, y),
    ensures
        x == y,
{
    lemma_encode(v, x);
    lemma_encode(v, y);
}

proof fn lemma_split4(a: Seq<u8>, b: Seq<u8>, c: Seq<u8>, d: Seq<u8>, a2: Seq<u8>, b2: Seq<u8>, c2: Seq<u8>, d2: Seq<u8>)
    requires
        a.len() == a2.len(),
        b.len() == b2.len(),
        c.len() == c2.len(),
        d.len() == d2.len(),
        (a + b) + (c + d) == (a2 + b2) + (c2 + d2),
    ensures
        a == a2,
        b == b2,
        c == c2,
        d == d2,
{
    let s = (a + b) + (c + d);
    let s2 = (a2 + b2) + (c2 + d2);
    let n1 = a.len() as int;
    let n2 = n1 + b.len();
    let n3 = n2 + c.len();
    assert(a =~= s.subrange(0, n1));
    assert(a2 =~= s2.subrange(0, n1));
    assert(b =~= s.subrange(n1, n2));
    assert(b2 =~= s2.subrange(n1, n2));
    assert(c =~= s.subrange(n2, n3));
    assert(c2 =~= s2.subrange(n2, n3));
    assert(d =~= s.subrange(n3, s.len() as int));
    assert(d2 =~= s2.subrange(n3, s.len() as int));
}

proof fn lemma_split2(c: Seq<u8>, d: Seq<u8>, c2: Seq<u8>, d2: Seq<u8>)
    requires
        c.len() == c2.len(),
        d.len() == d2.len(),
        c + d == c2 + d2,
    ensures
        c == c2,
        d == d2,
{
    let s = c + d;
    assert(c =~= s.subrange(0, c.len() as int));
    assert(c2 =~= (c2 + d2).subrange(0, c.len() as int));
    assert(d =~= s.subrange(c.len() as int, s.len() as int));
    assert(d2 =~= (c2 + d2).subrange(c.len() as int, s.len() as int));
}

proof fn lemma_trailer_injective(t: FragmentTrailer, t2: FragmentTrailer, w: TrailerWidths)
    requires
        trailer_fits(t, w),
        trailer_fits(t2, w),
        (t.complete is Some) == (t2.complete is Some),
        trailer_bytes(t2, w).drop_last() == trailer_bytes(t, w).drop_last(),
    ensures
        t2 == t,
{
    lemma_encode(w.count, t.index as nat);
    lemma_encode(w.id, t.id as nat);
    lemma_encode(w.count, t2.index as nat);
    lemma_encode(w.id, t2.id as nat);
    let e3 = encode(w.count, t.index as nat);
    let e4 = encode(w.id, t.id as nat);
    let f3 = encode(w.count, t2.index as nat);
    let f4 = encode(w.id, t2.id as nat);
    if let Some(info) = t.complete {
        let info2 = t2.complete.unwrap();
        lemma_encode(w.padding, info.padding as nat);
        lemma_encode(w.count, info.count as nat);
        lemma_encode(w.padding, info2.padding as nat);
        lemma_encode(w.count, info2.count as nat);
        let e1 = encode(w.padding, info.padding as nat);
        let e2 = encode(w.count, info.count as nat);
        let f1 = encode(w.padding, info2.padding as nat);
        let f2 = encode(w.count, info2.count as nat);
        assert(trailer_bytes(t, w).drop_last() =~= (e1 + e2) + (e3 + e4));
        assert(trailer_bytes(t2, w).drop_last() =~= (f1 + f2) + (f3 + f4));
        lemma_split4(e1, e2, e3, e4, f1, f2, f3, f4);
        lemma_encode_injective(w.padding, info.padding as nat, info2.padding as nat);
        lemma_encode_injective(w.count, info.count as nat, info2.count as nat);
    } else {
        assert(trailer_bytes(t, w).drop_last() =~= e3 + e4);
        assert(trailer_bytes(t2, w).drop_last() =~= f3 + f4);
        lemma_split2(e3, e4, f3, f4);
    }
    lemma_encode_injective(w.count, t.index as nat, t2.index as nat);
    lemma_encode_injective(w.id, t.id as nat, t2.id as nat);
}

/// The settings of a [`Fragmenter`].
#[derive(Debug, Clone, Copy)]
pub struct FragmenterBuilder {
    /// The largest fragment, trailer included.
    pub max_fragment_size: u64,
    /// The largest number of fragments in a set; its width is that of counts
    /// and indices.
    pub max_fragment_count: UInt,
    /// The number of sets kept track of at once.
    pub max_active_fragment_sets: UInt,
    /// The width of set identifiers.
    pub fragment_id_type: UIntVariant,
}

impl Default for FragmenterBuilder {
    fn default() -> (r: Self)
        ensures
            r.max_fragment_size == 1450,
            r.max_fragment_count == UInt::U16(u16::MAX),
            r.max_active_fragment_sets == UInt::U16(256),
            r.fragment_id_type == UIntVariant::U32,
    {
        FragmenterBuilder {
            max_fragment_size: 1450,
            max_fragment_count: UInt::U16(u16::MAX),
            max_active_fragment_sets: UInt::U16(256),
            fragment_id_type: UIntVariant::U32,
        }
    }
}

/// The largest payload of a fragment, for `n` bytes left over by the largest
/// trailer (counting eight bytes for the padding), in the width that also
/// encodes the padding.
pub open spec fn payload_size_for(n: nat) -> UInt {
    match narrowest_variant(n) {
        UIntVariant::U8 => if n > 248 {
            UInt::U16((n + 6) as u16)
        } else {
            UInt::U8((n + 7) as u8)
        },
        UIntVariant::U16 => if n > 0xffff - 6 {
            UInt::U32((n + 4) as u32)
        } else {
            UInt::U16((n + 6) as u16)
        },
        UIntVariant::U32 => if n > 0xffff_ffff - 4 {
            UInt::U64(n as u64)
        } else {
            UInt::U32((n + 4) as u32)
        },
        UIntVariant::U64 => UInt::U64(n as u64),
    }
}

/// Fragments packets on their way down, and reassembles them on their way up.
pub struct Fragmenter<T, R> {
    max_fragment_payload_size: UInt,
    max_fragment_count: UInt,
    max_active_fragments: UInt,
    fragment_id_type: UIntVariant,
    send_active_fragments: indexmap::IndexSet<u64>,
    recv_active_fragments: indexmap::IndexMap<u64, Fragments>,
    redundancy: R,
    pub forward: T,
}

impl<T, R: Redundancy> Fragmenter<T, R> {
    /// The default settings, to be changed before building.
    pub fn builder() -> (r: FragmenterBuilder)
        ensures
            r.max_fragment_size == 1450,
            r.max_fragment_count == UInt::U16(u16::MAX),
            r.max_active_fragment_sets == UInt::U16(256),
            r.fragment_id_type == UIntVariant::U32,
    {
        FragmenterBuilder::default()
    }
}

impl FragmenterBuilder {
    /// The fragmenter with these settings, above `forward`, with parity
    /// counts from `redundancy`.
    pub fn build<T, R: Redundancy>(self, forward: T, redundancy: R) -> (r: Fragmenter<T, R>)
        requires
            self.max_fragment_size >= 9 + 2 * self.max_fragment_count.variant().byte_len()
                + self.fragment_id_type.byte_len(),
        ensures
            r.max_payload() == payload_size_for(
                (self.max_fragment_size - 9 - 2 * self.max_fragment_count.variant().byte_len()
                    - self.fragment_id_type.byte_len()) as nat,
            ),
            r.max_count() == self.max_fragment_count,
            r.max_active() == self.max_active_fragment_sets,
            r.id_type() == self.fragment_id_type,
            r.send_ids() == Seq::<u64>::empty(),
            r.recv_sets() == Seq::<(u64, SetView)>::empty(),
            r.next_layer() == forward,
            r.redundancy_of() == redundancy,
            r.well_formed(),
    {
        let partial_size = self.max_fragment_size - 1 - self.max_fragment_count.size() as u64 * 2
            - self.fragment_id_type.size() as u64;
        let n = partial_size - 8;
        let max_fragment_payload_size = match UInt::fit_u64(n) {
            UInt::U8(n) => if n > u8::MAX - 7 {
                UInt::U16(n as u16 + 6)
            } else {
                UInt::U8(n + 7)
            },
            UInt::U16(n) => if n > u16::MAX - 6 {
                UInt::U32(n as u32 + 4)
            } else {
                UInt::U16(n + 6)
            },
            UInt::U32(n) => if n > u32::MAX - 4 {
                UInt::U64(n as u64)
            } else {
                UInt::U32(n + 4)
            },
            UInt::U64(n) => UInt::U64(n),
        };
        Fragmenter {
            max_fragment_payload_size,
            max_fragment_count: self.max_fragment_count,
            max_active_fragments: self.max_active_fragment_sets,
            fragment_id_type: self.fragment_id_type,
            send_active_fragments: index_set_new(),
            recv_active_fragments: fragment_sets_new(),
            redundancy,
            forward,
        }
    }
}

/// `a / b` rounded up.
pub open spec fn div_ceil(a: nat, b: nat) -> nat {
    if a % b == 0 {
        a / b
    } else {
        a / b + 1
    }
}

/// How a packet of `len` bytes is laid out in fragments of at most
/// `max_payload` bytes: the packet is first padded to an even length, then
/// spread evenly over as few fragments as hold it, the last one padded.
pub struct Layout {
    /// The number of fragments of data.
    pub data_count: nat,
    /// The payload of each fragment.
    pub fragment_size: nat,
    /// The number of padding bytes in all.
    pub padding: nat,
}

/// The layout of a packet of `len` bytes.
pub open spec fn layout(len: nat, max_payload: nat) -> Layout {
    let even = if len % 2 == 1 {
        len + 1
    } else {
        len
    };
    let data_count = div_ceil(even, max_payload);
    let fragment_size = div_ceil(even, data_count);
    Layout { data_count, fragment_size, padding: (fragment_size * data_count - len) as nat }
}

/// The data fragments of `data` for a layout: the data padded with zeros,
/// cut into fragments of equal size.
pub open spec fn data_shards(data: Seq<u8>, l: Layout) -> Seq<Seq<u8>> {
    let padded = data + Seq::new(l.padding, |i: int| 0u8);
    Seq::new(
        l.data_count,
        |i: int| padded.subrange(i * l.fragment_size, (i + 1) * l.fragment_size),
    )
}

/// The parity fragments for the data fragments `shards`, `parity_count` of
/// them: over GF(2^8) while the set has fewer than 256 fragments, otherwise
/// over GF(2^16).
pub open spec fn parity_shards(shards: Seq<Seq<u8>>, parity_count: nat) -> Seq<Seq<u8>> {
    if parity_count == 0 {
        Seq::empty()
    } else if shards.len() + parity_count < 256 {
        rs8_parity(shards, parity_count)
    } else {
        rs16_parity(shards, parity_count)
    }
}

/// The fragments of `data` in a set of identifier `id` with `parity_count`
/// parity fragments: all fragments in order, data first, the first
/// `parity_count + 1` of them complete.
pub open spec fn fragments_of(
    data: Seq<u8>,
    max_payload: nat,
    parity_count: nat,
    id: u64,
    w: TrailerWidths,
) -> Seq<Seq<u8>> {
    let l = layout(data.len(), max_payload);
    let shards = data_shards(data, l);
    let all = shards + parity_shards(shards, parity_count);
    let count = l.data_count + parity_count;
    Seq::new(
        count,
        |i: int|
            all[i] + trailer_bytes(
                FragmentTrailer {
                    index: i as u64,
                    id,
                    complete: if i < parity_count + 1 {
                        Some(SetInfo { padding: l.padding as u64, count: count as u64 })
                    } else {
                        None
                    },
                },
                w,
            ),
    )
}

/// A set sent with `parity_count` parity fragments has as many fragments
/// as its data count plus `parity_count`; its first `parity_count + 1`
/// fragments are complete (their last byte is 255), the others not (their
/// last byte is 0).
pub proof fn law_sent_fragment_marks(
    data: Seq<u8>,
    max_payload: nat,
    parity_count: nat,
    id: u64,
    w: TrailerWidths,
)
    ensures
        fragments_of(data, max_payload, parity_count, id, w).len() == layout(
            data.len(),
            max_payload,
        ).data_count + parity_count,
        forall|i: int|
            0 <= i < fragments_of(data, max_payload, parity_count, id, w).len() ==> (#[trigger] fragments_of(
                data,
                max_payload,
                parity_count,
                id,
                w,
            )[i]).last() == (if i < parity_count + 1 {
                255u8
            } else {
                0u8
            }),
{
    let f = fragments_of(data, max_payload, parity_count, id, w);
    assert forall|i: int| 0 <= i < f.len() implies (#[trigger] f[i]).last() == (if i < parity_count
        + 1 {
        255u8
    } else {
        0u8
    }) by {
        let l = layout(data.len(), max_payload);
        let shards = data_shards(data, l);
        let all = shards + parity_shards(shards, parity_count);
        let count = l.data_count + parity_count;
        let t = FragmentTrailer {
            index: i as u64,
            id,
            complete: if i < parity_count + 1 {
                Some(SetInfo { padding: l.padding as u64, count: count as u64 })
            } else {
                None
            },
        };
        let tb = trailer_bytes(t, w);
        assert(f[i] == all[i] + tb);
        assert(tb.last() == (if i < parity_count + 1 {
            255u8
        } else {
            0u8
        }));
        assert((all[i] + tb).last() == tb.last());
    }
}

impl<T, R: Redundancy> Fragmenter<T, R> {
    /// The largest payload of a fragment, in the width of the padding.
    pub closed spec fn max_payload(&self) -> UInt {
        self.max_fragment_payload_size
    }

    /// The largest number of fragments in a set.
    pub closed spec fn max_count(&self) -> UInt {
        self.max_fragment_count
    }

    /// The number of sets kept track of at once.
    pub closed spec fn max_active(&self) -> UInt {
        self.max_active_fragments
    }

    /// The width of set identifiers.
    pub closed spec fn id_type(&self) -> UIntVariant {
        self.fragment_id_type
    }

    /// The layer below.
    pub closed spec fn next_layer(&self) -> T {
        self.forward
    }

    /// The counts of parity and data fragments of a set.
    pub closed spec fn redundancy_of(&self) -> R {
        self.redundancy
    }

    /// The sets being received, oldest first, with their identifiers.
    pub closed spec fn recv_sets(&self) -> Seq<(u64, SetView)> {
        fragment_sets(self.recv_active_fragments).map_values(
            |e: (u64, Fragments)| (e.0, e.1.view_of()),
        )
    }

    /// The identifiers of the sets sent lately, oldest first.
    pub closed spec fn send_ids(&self) -> Seq<u64> {
        index_set_contents(self.send_active_fragments)
    }

    /// The widths of the trailer fields.
    pub open spec fn widths(&self) -> TrailerWidths {
        TrailerWidths {
            padding: self.max_payload().variant(),
            count: self.max_count().variant(),
            id: self.id_type(),
        }
    }

    /// The widths of the trailer fields.
    pub fn trailer_widths(&self) -> (r: TrailerWidths)
        ensures
            r == self.widths(),
    {
        TrailerWidths {
            padding: self.max_fragment_payload_size.to_variant(),
            count: self.max_fragment_count.to_variant(),
            id: self.fragment_id_type,
        }
    }
}

proof fn lemma_data_shards_len(data: Seq<u8>, l: Layout)
    requires
        data.len() + l.padding == l.data_count * l.fragment_size,
    ensures
        data_shards(data, l).len() == l.data_count,
        forall|k: int| 0 <= k < l.data_count ==> #[trigger] data_shards(data, l)[k].len() == l.fragment_size,
{
    assert forall|k: int| 0 <= k < l.data_count implies #[trigger] data_shards(data, l)[k].len()
        == l.fragment_size by {
        assert((k + 1) * l.fragment_size <= l.data_count * l.fragment_size && k * l.fragment_size
            >= 0 && (k + 1) * l.fragment_size == k * l.fragment_size + l.fragment_size)
            by (nonlinear_arith)
            requires
                0 <= k < l.data_count,
        ;
    }
}

/// `a / b` rounded up, where `b > 0`.
fn div_ceil_u64(a: u64, b: u64) -> (r: u64)
    requires
        b > 0,
    ensures
        r == div_ceil(a as nat, b as nat),
{
    if a % b == 0 {
        a / b
    } else {
        proof {
            assert(a / b < a || a / b == 0) by (nonlinear_arith)
                requires
                    b > 0,
                    a % b != 0,
            ;
            vstd::arithmetic::div_mod::lemma_div_is_ordered_by_denominator(a as int, 1, b as int);
        }
        a / b + 1
    }
}

proof fn lemma_div_ceil_bounds(a: nat, b: nat)
    requires
        b > 0,
        a > 0,
    ensures
        div_ceil(a, b) > 0,
        div_ceil(a, b) <= a,
        div_ceil(a, b) * b >= a,
        div_ceil(a, b) * b < a + b,
{
    vstd::arithmetic::div_mod::lemma_fundamental_div_mod(a as int, b as int);
    let q = a / b;
    let r = a % b;
    if r == 0 {
        assert(q * b == a) by (nonlinear_arith)
            requires
                a == b * q + r,
                r == 0,
        ;
        assert(q > 0 && q <= a) by (nonlinear_arith)
            requires
                q * b == a,
                a > 0,
                b > 0,
        ;
    } else {
        assert((q + 1) * b >= a && (q + 1) * b < a + b) by (nonlinear_arith)
            requires
                a == b * q + r,
                0 < r < b,
        ;
        assert(q + 1 <= a) by (nonlinear_arith)
            requires
                a == b * q + r,
                0 < r < b,
                q >= 0,
        ;
    }
}

/// A vector of `n` zero bytes.
fn zeros(n: u64) -> (r: Vec<u8>)
    ensures
        r@ == Seq::new(n as nat, |i: int| 0u8),
{
    let mut v: Vec<u8> = Vec::new();
    let mut i: u64 = 0;
    while i < n
        invariant
            0 <= i <= n,
            v@ == Seq::new(i as nat, |k: int| 0u8),
        decreases n - i,
    {
        v.push(0u8);
        i = i + 1;
        proof {
            assert(v@ =~= Seq::new(i as nat, |k: int| 0u8));
        }
    }
    v
}

/// `count` vectors of `size` zero bytes.
fn zero_shards(count: u64, size: u64) -> (r: Vec<Vec<u8>>)
    ensures
        r.deep_view() == Seq::new(count as nat, |i: int| Seq::new(size as nat, |k: int| 0u8)),
{
    let mut v: Vec<Vec<u8>> = Vec::new();
    let mut i: u64 = 0;
    while i < count
        invariant
            0 <= i <= count,
            v.deep_view() == Seq::new(i as nat, |j: int| Seq::new(size as nat, |k: int| 0u8)),
        decreases count - i,
    {
        let z = zeros(size);
        let ghost before = v.deep_view();
        v.push(z);
        proof {
            assert(z.deep_view() =~= z@);
            assert(v.deep_view() =~= before.push(z@));
        }
        i = i + 1;
        proof {
            assert(v.deep_view() =~= Seq::new(i as nat, |j: int| Seq::new(size as nat, |k: int| 0u8)));
        }
    }
    v
}

/// The data fragments: `data` padded with zeros to `count * size` bytes, cut
/// into `count` fragments of `size` bytes.
fn cut_shards(data: &Vec<u8>, padding: u64, count: u64, size: u64) -> (r: Vec<Vec<u8>>)
    requires
        data@.len() + padding == count * size,
        count * size <= u64::MAX,
    ensures
        r.deep_view() == data_shards(
            data@,
            Layout { data_count: count as nat, fragment_size: size as nat, padding: padding as nat },
        ),
{
    let ghost l = Layout { data_count: count as nat, fragment_size: size as nat, padding: padding as nat };
    let ghost padded = data@ + Seq::new(padding as nat, |i: int| 0u8);
    let mut out: Vec<Vec<u8>> = Vec::new();
    let mut i: u64 = 0;
    while i < count
        invariant
            0 <= i <= count,
            padded == data@ + Seq::new(padding as nat, |k: int| 0u8),
            padded.len() == count * size,
            count * size <= u64::MAX,
            out.deep_view() == data_shards(data@, l).take(i as int),
            l == (Layout { data_count: count as nat, fragment_size: size as nat, padding: padding as nat }),
        decreases count - i,
    {
        let mut shard: Vec<u8> = Vec::new();
        let mut k: u64 = 0;
        proof {
            assert((i + 1) * size <= count * size && i * size + size == (i + 1) * size)
                by (nonlinear_arith)
                requires
                    i < count,
            ;
        }
        let start = i * size;
        while k < size
            invariant
                0 <= k <= size,
                start == i * size,
                start + size <= count * size,
                padded == data@ + Seq::new(padding as nat, |j: int| 0u8),
                padded.len() == count * size,
                count * size <= u64::MAX,
                shard@ == padded.subrange(start as int, start + k),
            decreases size - k,
        {
            let pos = start + k;
            let b = if pos < data.len() as u64 {
                data[pos as usize]
            } else {
                0u8
            };
            proof {
                assert(b == padded[pos as int]);
            }
            shard.push(b);
            k = k + 1;
            proof {
                assert(shard@ =~= padded.subrange(start as int, start + k));
            }
        }
        let ghost before = out.deep_view();
        out.push(shard);
        proof {
            assert(shard.deep_view() =~= shard@);
            assert(out.deep_view() =~= before.push(shard@));
            assert(shard@ =~= padded.subrange(start as int, start + size));
        }
        i = i + 1;
        proof {
            assert(out.deep_view() =~= data_shards(data@, l).take(i as int));
        }
    }
    proof {
        assert(data_shards(data@, l).take(count as int) =~= data_shards(data@, l));
    }
    out
}

/// The fragments of a set whose data and parity fragments are `shards` and
/// `parity`: each followed by its trailer, the first `parity@.len() + 1` complete.
pub open spec fn assembled(
    shards: Seq<Seq<u8>>,
    parity: Seq<Seq<u8>>,
    padding: u64,
    id: u64,
    w: TrailerWidths,
) -> Seq<Seq<u8>> {
    let all = shards + parity;
    let count = all.len();
    Seq::new(
        count,
        |i: int|
            all[i] + trailer_bytes(
                FragmentTrailer {
                    index: i as u64,
                    id,
                    complete: if i < parity.len() + 1 {
                        Some(SetInfo { padding, count: count as u64 })
                    } else {
                        None
                    },
                },
                w,
            ),
    )
}

fn assemble_fragments(
    shards: &Vec<Vec<u8>>,
    parity: &Vec<Vec<u8>>,
    padding: u64,
    id: u64,
    widths: TrailerWidths,
) -> (r: Vec<Vec<u8>>)
    requires
        shards@.len() > 0,
        shards@.len() + parity@.len() <= u64::MAX,
        shards@.len() + parity@.len() <= usize::MAX,
    ensures
        r.deep_view() == assembled(shards.deep_view(), parity.deep_view(), padding, id, widths),
{
    let data_count = shards.len();
    let parity_count = parity.len();
    let count = data_count + parity_count;
    let ghost all = shards.deep_view() + parity.deep_view();
    let ghost goal = assembled(shards.deep_view(), parity.deep_view(), padding, id, widths);
    let mut out: Vec<Vec<u8>> = Vec::new();
    let mut i: usize = 0;
    while i < count
        invariant
            0 <= i <= count,
            count == data_count + parity_count,
            data_count == shards@.len(),
            parity_count == parity@.len(),
            data_count > 0,
            data_count + parity_count <= u64::MAX,
            all == shards.deep_view() + parity.deep_view(),
            goal == assembled(shards.deep_view(), parity.deep_view(), padding, id, widths),
            out.deep_view() == goal.take(i as int),
        decreases count - i,
    {
        let payload = if i < data_count {
            let p = shards[i].as_slice();
            proof {
                assert(shards@[i as int].deep_view() =~= shards@[i as int]@);
                assert(all[i as int] == shards.deep_view()[i as int]);
            }
            p
        } else {
            let p = parity[i - data_count].as_slice();
            proof {
                assert(parity@[i - data_count].deep_view() =~= parity@[i - data_count]@);
                assert(all[i as int] == parity.deep_view()[i - data_count]);
            }
            p
        };
        let complete = if i < parity_count + 1 {
            Some(SetInfo { padding, count: count as u64 })
        } else {
            None
        };
        let packet = encode_fragment(
            payload,
            FragmentTrailer { index: i as u64, id, complete },
            widths,
        );
        let ghost before = out.deep_view();
        out.push(packet);
        proof {
            assert(packet.deep_view() =~= packet@);
            assert(out.deep_view() =~= before.push(packet@));
            assert(packet@ == goal[i as int]);
        }
        i = i + 1;
        proof {
            assert(out.deep_view() =~= goal.take(i as int));
        }
    }
    proof {
        assert(goal.take(goal.len() as int) =~= goal);
    }
    out
}

proof fn lemma_fragments_assembled(
    data: Seq<u8>,
    max_payload: nat,
    parity_count: nat,
    id: u64,
    w: TrailerWidths,
    sd: Seq<Seq<u8>>,
    pd: Seq<Seq<u8>>,
)
    requires
        sd == data_shards(data, layout(data.len(), max_payload)),
        sd.len() == layout(data.len(), max_payload).data_count,
        pd == parity_shards(sd, parity_count),
        pd.len() == parity_count,
        layout(data.len(), max_payload).padding <= u64::MAX,
    ensures
        fragments_of(data, max_payload, parity_count, id, w) == assembled(
            sd,
            pd,
            layout(data.len(), max_payload).padding as u64,
            id,
            w,
        ),
{
    let l = layout(data.len(), max_payload);
    let f = fragments_of(data, max_payload, parity_count, id, w);
    let a = assembled(sd, pd, l.padding as u64, id, w);
    assert(f.len() == a.len());
    assert forall|k: int| 0 <= k < f.len() implies f[k] == a[k] by {
        assert((sd + parity_shards(sd, parity_count))[k] == (sd + pd)[k]);
    }
    assert(f =~= a);
}

/// A set of this layout and parity count has more fragments than a set may
/// have, or than a vector can hold.
pub open spec fn too_many_fragments(l: Layout, parity_count: nat, max_count: nat) -> bool {
    l.data_count + parity_count > max_count || l.data_count + parity_count > usize::MAX
}

/// A set of this layout and parity count needs the 16-bit field and cannot
/// use it: its fragments have an odd size, or it has more fragments than the
/// field can code.
pub open spec fn unencodable(l: Layout, parity_count: nat) -> bool {
    &&& parity_count > 0
    &&& l.data_count + parity_count >= 256
    &&& (l.fragment_size % 2 != 0 || l.data_count + parity_count > 65536)
}

/// The data and parity shards all have `size` bytes, which is not zero.
pub open spec fn shards_fit_sizes(sd: Seq<Seq<u8>>, pd: Seq<Seq<u8>>, size: nat) -> bool {
    &&& size > 0
    &&& forall|i: int| 0 <= i < sd.len() ==> #[trigger] sd[i].len() == size
    &&& forall|i: int| 0 <= i < pd.len() ==> #[trigger] pd[i].len() == size
}

/// The identifiers of sets sent lately once a new set is about to be sent:
/// the oldest is forgotten where as many as may be kept are kept.
pub open spec fn evicted(ids: Seq<u64>, max_active: nat) -> Seq<u64> {
    if ids.len() >= max_active && ids.len() > 0 {
        ids.drop_first()
    } else {
        ids
    }
}

impl<T, R: Redundancy> Fragmenter<T, R> {
    /// The settings allow a payload, and the sets being received are well
    /// formed, each identifier once.
    pub open spec fn well_formed(&self) -> bool {
        &&& self.max_payload().value() > 0
        &&& sets_wf(self.recv_sets())
    }

    /// Nothing but the identifiers of sets sent lately differs.
    pub open spec fn same_settings(&self, other: &Self) -> bool {
        &&& self.max_payload() == other.max_payload()
        &&& self.max_count() == other.max_count()
        &&& self.max_active() == other.max_active()
        &&& self.id_type() == other.id_type()
        &&& self.next_layer() == other.next_layer()
        &&& self.redundancy_of() == other.redundancy_of()
        &&& self.recv_sets() == other.recv_sets()
    }

    /// Takes a random identifier that no set sent lately has, and notes it.
    /// The search gives up after `u64::MAX` draws; where no set was sent
    /// lately, the first draw is taken.
    fn fresh_id(&mut self) -> (r: Option<u64>)
        ensures
            final(self).same_settings(old(self)),
            r matches Some(id) ==> id < old(self).id_type().modulus() && !old(self).send_ids().contains(
                id,
            ) && final(self).send_ids() == old(self).send_ids().push(id),
            r is None ==> final(self).send_ids() == old(self).send_ids(),
            old(self).send_ids().len() == 0 ==> r is Some,
    {
        let mut attempts: u64 = 0;
        while attempts < u64::MAX
            invariant
                self.same_settings(old(self)),
                self.send_ids() == old(self).send_ids(),
                old(self).send_ids().len() == 0 ==> attempts == 0,
            decreases u64::MAX - attempts,
        {
            let id = self.fragment_id_type.with_u64(random_u64()).to_u64();
            if index_set_insert(&mut self.send_active_fragments, id) {
                return Some(id);
            }
            attempts = attempts + 1;
        }
        None
    }

    /// What sending `data` with `parity_count` parity fragments gives: an
    /// empty packet goes out as it is; otherwise `PacketTooBig` exactly where
    /// the set would have too many fragments, `Unencodable` exactly where it
    /// fits but cannot be coded, and else the fragments of a new set with a
    /// fresh identifier, or `NoFreeFragmentId` where none was found. A
    /// refusal leaves the identifiers of sets sent lately as they were.
    pub open spec fn sent_with_parity<E>(
        &self,
        next: &Self,
        data: Seq<u8>,
        parity_count: nat,
        r: Result<Vec<Vec<u8>>, FragmentSendError<E>>,
    ) -> bool {
        let l = layout(data.len(), self.max_payload().value());
        let too_big = too_many_fragments(l, parity_count, self.max_count().value());
        let cannot_code = !too_big && unencodable(l, parity_count);
        let kept = evicted(self.send_ids(), self.max_active().value());
        if data.len() == 0 {
            r matches Ok(p) && p.deep_view() == seq![Seq::<u8>::empty()] && next.send_ids()
                == self.send_ids()
        } else {
            &&& (r matches Err(FragmentSendError::PacketTooBig)) <==> too_big
            &&& (r matches Err(FragmentSendError::Unencodable)) <==> cannot_code
            &&& !(r matches Err(FragmentSendError::ForwardError(_)))
            &&& too_big || cannot_code ==> next.send_ids() == self.send_ids()
            &&& !too_big && !cannot_code && kept.len() == 0 ==> r is Ok
            &&& r matches Err(FragmentSendError::NoFreeFragmentId) ==> next.send_ids() == kept
            &&& r matches Ok(p) ==> exists|id: u64|
                {
                    &&& id < self.id_type().modulus()
                    &&& !kept.contains(id)
                    &&& next.send_ids() == kept.push(id)
                    &&& p.deep_view() == fragments_of(
                        data,
                        self.max_payload().value(),
                        parity_count,
                        id,
                        self.widths(),
                    )
                }
        }
    }

    /// Sending `data` as [`Self::sent_with_parity`] describes, with the
    /// parity count that the redundancy gives for the packet's data count.
    pub open spec fn sent_sized<E>(
        &self,
        next: &Self,
        data: Seq<u8>,
        r: Result<Vec<Vec<u8>>, FragmentSendError<E>>,
    ) -> bool {
        let data_count = layout(data.len(), self.max_payload().value()).data_count;
        self.sent_with_parity(
            next,
            data,
            self.redundancy_of().parity_for(data_count as u64) as nat,
            r,
        )
    }

    /// The number of data fragments that a packet of `len` bytes is cut into.
    pub fn data_fragment_count(&self, len: usize) -> (r: u64)
        requires
            self.well_formed(),
            0 < len <= i64::MAX,
        ensures
            r == layout(len as nat, self.max_payload().value()).data_count,
    {
        let len = len as u64;
        let even = if len % 2 == 1 {
            len + 1
        } else {
            len
        };
        let max_payload = self.max_fragment_payload_size.to_u64();
        div_ceil_u64(even, max_payload)
    }

    /// Cuts `data` into the fragments of a new set, the parity fragments
    /// that the redundancy asks for included, to be sent in order. An empty
    /// packet is sent as it is.
    pub fn send<E>(&mut self, data: Vec<u8>) -> (r: Result<Vec<Vec<u8>>, FragmentSendError<E>>)
        requires
            old(self).well_formed(),
            data@.len() <= i64::MAX,
        ensures
            final(self).well_formed(),
            final(self).same_settings(old(self)),
            data@.len() == 0 ==> old(self).sent_with_parity(&*final(self), data@, 0, r),
            data@.len() > 0 ==> old(self).sent_sized(&*final(self), data@, r),
    {
        if data.len() == 0 {
            return self.send_with_parity(data, 0);
        }
        let data_count = self.data_fragment_count(data.len());
        let parity_count = self.redundancy.redundant_fragments(data_count);
        let ghost s0 = *self;
        let ghost d = data@;
        let r = self.send_with_parity(data, parity_count);
        assert(s0.sent_sized(&*self, d, r));
        r
    }

    /// Cuts `data` into the fragments of a new set with `parity_count`
    /// parity fragments, to be sent in order, as `sent_with_parity`
    /// describes.
    pub fn send_with_parity<E>(&mut self, data: Vec<u8>, parity_count: u64) -> (r: Result<
        Vec<Vec<u8>>,
        FragmentSendError<E>,
    >)
        requires
            old(self).well_formed(),
            data@.len() <= i64::MAX,
        ensures
            final(self).well_formed(),
            final(self).same_settings(old(self)),
            old(self).sent_with_parity(&*final(self), data@, parity_count as nat, r),
    {
        if data.len() == 0 {
            let mut out: Vec<Vec<u8>> = Vec::new();
            let ghost before = out.deep_view();
            proof {
                assert(data.deep_view() =~= Seq::<u8>::empty());
            }
            out.push(data);
            proof {
                assert(out.deep_view() =~= before.push(Seq::<u8>::empty()));
                assert(out.deep_view() =~= seq![Seq::<u8>::empty()]);
            }
            return Ok(out);
        }
        let ghost l = layout(data@.len(), self.max_payload().value());
        let len = data.len() as u64;
        let even = if len % 2 == 1 {
            len + 1
        } else {
            len
        };
        let max_payload = self.max_fragment_payload_size.to_u64();
        let data_count = div_ceil_u64(even, max_payload);
        proof {
            lemma_div_ceil_bounds(even as nat, max_payload as nat);
        }
        let fragment_size = div_ceil_u64(even, data_count);
        proof {
            lemma_div_ceil_bounds(even as nat, data_count as nat);
            assert(fragment_size * data_count == data_count * fragment_size) by (nonlinear_arith);
            assert(fragment_size * data_count <= u64::MAX);
        }
        let padding = fragment_size * data_count - len;
        proof {
            self.max_count().lemma_value_bound();
            assert(l.data_count == data_count && l.fragment_size == fragment_size);
        }
        let fragment_count = match data_count.checked_add(parity_count) {
            Some(c) => c,
            None => {
                proof {
                    assert(too_many_fragments(l, parity_count as nat, self.max_count().value()));
                }
                return Err(FragmentSendError::PacketTooBig);
            },
        };
        if fragment_count > self.max_fragment_count.to_u64() {
            proof {
                assert(too_many_fragments(l, parity_count as nat, self.max_count().value()));
            }
            return Err(FragmentSendError::PacketTooBig);
        }
        if fragment_count > usize::MAX as u64 {
            proof {
                assert(too_many_fragments(l, parity_count as nat, self.max_count().value()));
            }
            return Err(FragmentSendError::PacketTooBig);
        }
        if parity_count > 0 && fragment_count >= 256 && (fragment_size % 2 != 0 || fragment_count
            > 65536) {
            proof {
                assert(unencodable(l, parity_count as nat));
            }
            return Err(FragmentSendError::Unencodable);
        }
        proof {
            self.max_count().lemma_value_bound();
        }
        let shards = cut_shards(&data, padding, data_count, fragment_size);
        let mut parity = zero_shards(parity_count, fragment_size);
        proof {
            assert(shards.deep_view() == data_shards(data@, l));
            lemma_data_shards_len(data@, l);
            assert(shards@.len() == shards.deep_view().len());
            assert(parity@.len() == parity.deep_view().len());
            assert(shards_fit_sizes(shards.deep_view(), parity.deep_view(), fragment_size as nat));
        }
        if parity_count > 0 {
            if fragment_count < 256 {
                let encoded = match rs8_new(data_count as usize, parity_count as usize) {
                    Ok(codec) => rs8_encode_sep(&codec, &shards, &mut parity),
                    Err(_) => {
                        proof {
                            assert(false);
                        }
                        return Err(FragmentSendError::Unencodable);
                    },
                };
                if encoded.is_err() {
                    proof {
                        assert(false);
                    }
                    return Err(FragmentSendError::Unencodable);
                }
                proof {
                    assert(parity.deep_view() == parity_shards(shards.deep_view(), parity_count as nat));
                }
            } else {
                proof {
                    assert forall|k: int| 0 <= k < shards@.len() implies #[trigger] shards@[k]@.len()
                        % 2 == 0 by {
                        assert(shards.deep_view()[k] == shards@[k].deep_view());
                        assert(shards@[k].deep_view().len() == shards@[k]@.len());
                    }
                    assert forall|k: int| 0 <= k < parity@.len() implies #[trigger] parity@[k]@.len()
                        % 2 == 0 by {
                        assert(parity.deep_view()[k] == parity@[k].deep_view());
                        assert(parity@[k].deep_view().len() == parity@[k]@.len());
                    }
                }
                let encoded = match rs16_new(data_count as usize, parity_count as usize) {
                    Ok(codec) => rs16_encode_sep(&codec, &shards, &mut parity),
                    Err(_) => {
                        proof {
                            assert(false);
                        }
                        return Err(FragmentSendError::Unencodable);
                    },
                };
                if encoded.is_err() {
                    proof {
                        assert(false);
                    }
                    return Err(FragmentSendError::Unencodable);
                }
                proof {
                    assert(parity.deep_view() == parity_shards(shards.deep_view(), parity_count as nat));
                }
            }
        } else {
            proof {
                assert(parity.deep_view() =~= parity_shards(shards.deep_view(), parity_count as nat));
            }
        }
        if index_set_len(&self.send_active_fragments) as u64 >= self.max_active_fragments.to_u64() {
            index_set_shift_remove_index(&mut self.send_active_fragments, 0);
        }
        let id = match self.fresh_id() {
            Some(id) => id,
            None => return Err(FragmentSendError::NoFreeFragmentId),
        };
        let widths = self.trailer_widths();
        let out = assemble_fragments(&shards, &parity, padding, id, widths);
        proof {
            let pc = parity_count as nat;
            assert(l == Layout {
                data_count: data_count as nat,
                fragment_size: fragment_size as nat,
                padding: padding as nat,
            });
            assert(parity.deep_view() == parity_shards(shards.deep_view(), pc));
            lemma_fragments_assembled(
                data@,
                self.max_payload().value(),
                pc,
                id,
                widths,
                shards.deep_view(),
                parity.deep_view(),
            );
            assert(layout(data@.len(), old(self).max_payload().value()).data_count + pc
                <= old(self).max_count().value());
            assert(!evicted(old(self).send_ids(), old(self).max_active().value()).contains(id));
            assert(out.deep_view() == fragments_of(
                data@,
                old(self).max_payload().value(),
                pc,
                id,
                old(self).widths(),
            ));
        }
        Ok(out)
    }
}

/// The fragments of a set received so far.
pub enum Fragments {
    /// Once a complete fragment told the number of fragments: one slot per
    /// fragment, empty where none has come yet.
    Sorted {
        fragments: Vec<Vec<u8>>,
        fragment_size: u64,
        found_count: u64,
        target_count: u64,
        succeeded: bool,
        padding: u64,
    },
    /// Before that: the fragments by index.
    Unsorted { fragments: fxhash::FxHashMap<u64, Vec<u8>>, fragment_size: u64 },
}

/// What a set of fragments holds, as values.
pub enum SetView {
    Sorted {
        fragments: Seq<Seq<u8>>,
        size: u64,
        found: u64,
        target: u64,
        succeeded: bool,
        padding: u64,
    },
    Unsorted { fragments: Map<u64, Seq<u8>>, size: u64 },
}

impl Fragments {
    /// What the set holds.
    pub open spec fn view_of(self) -> SetView {
        match self {
            Fragments::Sorted {
                fragments,
                fragment_size,
                found_count,
                target_count,
                succeeded,
                padding,
            } => SetView::Sorted {
                fragments: fragments.deep_view(),
                size: fragment_size,
                found: found_count,
                target: target_count,
                succeeded,
                padding,
            },
            Fragments::Unsorted { fragments, fragment_size } => SetView::Unsorted {
                fragments: fragments@.map_values(|v: Vec<u8>| v@),
                size: fragment_size,
            },
        }
    }
}

/// The number of slots that hold a fragment.
pub open spec fn filled(s: Seq<Seq<u8>>) -> nat
    decreases s.len(),
{
    if s.len() == 0 {
        0
    } else {
        filled(s.drop_last()) + if s.last().len() > 0 {
            1nat
        } else {
            0nat
        }
    }
}

proof fn lemma_filled_bound(s: Seq<Seq<u8>>)
    ensures
        filled(s) <= s.len(),
    decreases s.len(),
{
    if s.len() > 0 {
        lemma_filled_bound(s.drop_last());
    }
}

proof fn lemma_filled_update(s: Seq<Seq<u8>>, i: int, x: Seq<u8>)
    requires
        0 <= i < s.len(),
        s[i].len() == 0,
        x.len() > 0,
    ensures
        filled(s.update(i, x)) == filled(s) + 1,
    decreases s.len(),
{
    let t = s.update(i, x);
    if i == s.len() - 1 {
        assert(t.drop_last() =~= s.drop_last());
    } else {
        assert(t.drop_last() =~= s.drop_last().update(i, x));
        lemma_filled_update(s.drop_last(), i, x);
    }
}

proof fn lemma_filled_empty(n: nat)
    ensures
        filled(Seq::new(n, |i: int| Seq::<u8>::empty())) == 0,
    decreases n,
{
    if n > 0 {
        assert(Seq::new(n, |i: int| Seq::<u8>::empty()).drop_last() =~= Seq::new(
            (n - 1) as nat,
            |i: int| Seq::<u8>::empty(),
        ));
        lemma_filled_empty((n - 1) as nat);
    }
}

/// A set's fragments all have its size, which is not zero, and a sorted set
/// has counted no more fragments than fill its slots (until its slots are
/// handed over for reassembly).
pub open spec fn set_wf(v: SetView) -> bool {
    match v {
        SetView::Sorted { fragments, size, found, .. } => {
            &&& size > 0
            &&& forall|i: int|
                0 <= i < fragments.len() ==> #[trigger] fragments[i].len() == 0 || fragments[i].len()
                    == size
            &&& (fragments.len() == 0 || found <= filled(fragments))
        },
        SetView::Unsorted { fragments, size } => {
            &&& size > 0
            &&& forall|k: u64| #[trigger] fragments.contains_key(k) ==> fragments[k].len() == size
        },
    }
}

/// Each identifier names one set, and each set is well formed.
pub open spec fn sets_wf(sets: Seq<(u64, SetView)>) -> bool {
    &&& forall|i: int, j: int| 0 <= i < j < sets.len() ==> #[trigger] sets[i].0 != #[trigger] sets[j].0
    &&& forall|i: int| 0 <= i < sets.len() ==> set_wf(#[trigger] sets[i].1)
}

/// A complete fragment tells the set's number of fragments and padding: a
/// set so far unsorted is sorted into slots, the data fragments among them
/// being `target` (the application's count for the set). `None` where the
/// fragment contradicts the set: no fragments, another number of them, or a
/// fragment already received past the number.
pub open spec fn sort_step(set: SetView, info: SetInfo, target: u64) -> Option<SetView> {
    if info.count == 0 {
        None
    } else {
        match set {
            SetView::Sorted { fragments, .. } => if fragments.len() != info.count {
                None
            } else {
                Some(set)
            },
            SetView::Unsorted { fragments, size } => if exists|k: u64|
                #[trigger] fragments.contains_key(k) && k >= info.count {
                None
            } else {
                Some(
                    SetView::Sorted {
                        fragments: Seq::new(
                            info.count as nat,
                            |i: int|
                                if fragments.contains_key(i as u64) {
                                    fragments[i as u64]
                                } else {
                                    Seq::empty()
                                },
                        ),
                        size,
                        found: fragments.len() as u64,
                        target,
                        succeeded: false,
                        padding: info.padding,
                    },
                )
            },
        }
    }
}

/// Why a fragment was refused, as the receiver's state machine decides it.
#[derive(Clone, Copy, Debug, PartialEq, Eq, Structural)]
pub enum Refusal {
    PacketTooSmall,
    DuplicateFragment,
    BadFragmentIndex,
    BadFragmentCount,
    BadFragmentData,
    TooManyFragments,
}

/// What adding a fragment to its set leads to.
pub enum AddOutcome {
    /// The set goes on waiting.
    Keep,
    /// The fragment is refused; the set is dropped.
    Drop(Refusal),
    /// The fragment is kept, but too many fragments came before the set
    /// could be sorted.
    Overflow,
    /// Enough fragments came: they, their size, the number of data fragments
    /// and the padding, for reassembly.
    Complete { fragments: Seq<Seq<u8>>, size: u64, target: u64, padding: u64 },
}

/// Adding the fragment `payload` with index `index` to `set`: the set
/// afterwards (`None` where it is dropped) and what follows. An unsorted set
/// holding `threshold` fragments or more overflows.
pub open spec fn add_step(set: SetView, index: u64, payload: Seq<u8>, threshold: u64) -> (
    Option<SetView>,
    AddOutcome,
) {
    match set {
        SetView::Sorted { fragments, size, found, target, succeeded, padding } => if size
            != payload.len() {
            (None, AddOutcome::Drop(Refusal::BadFragmentData))
        } else if index >= fragments.len() {
            (None, AddOutcome::Drop(Refusal::BadFragmentIndex))
        } else if fragments[index as int].len() != 0 {
            (None, AddOutcome::Drop(Refusal::DuplicateFragment))
        } else {
            let filled = fragments.update(index as int, payload);
            let found = (found + 1) as u64;
            if found >= target && !succeeded {
                (
                    Some(
                        SetView::Sorted {
                            fragments: Seq::empty(),
                            size,
                            found,
                            target,
                            succeeded,
                            padding,
                        },
                    ),
                    AddOutcome::Complete { fragments: filled, size, target, padding },
                )
            } else {
                (
                    Some(
                        SetView::Sorted {
                            fragments: filled,
                            size,
                            found,
                            target,
                            succeeded,
                            padding,
                        },
                    ),
                    AddOutcome::Keep,
                )
            }
        },
        SetView::Unsorted { fragments, size } => if size != payload.len() {
            (None, AddOutcome::Drop(Refusal::BadFragmentData))
        } else if fragments.contains_key(index) {
            (None, AddOutcome::Drop(Refusal::DuplicateFragment))
        } else {
            let more = fragments.insert(index, payload);
            (
                Some(SetView::Unsorted { fragments: more, size }),
                if more.len() >= threshold {
                    AddOutcome::Overflow
                } else {
                    AddOutcome::Keep
                },
            )
        },
    }
}

/// `count` empty vectors.
fn empty_slots(count: u64) -> (r: Vec<Vec<u8>>)
    ensures
        r@.len() == count,
        r.deep_view() == Seq::new(count as nat, |i: int| Seq::<u8>::empty()),
{
    let mut v: Vec<Vec<u8>> = Vec::new();
    let mut i: u64 = 0;
    while i < count
        invariant
            0 <= i <= count,
            v@.len() == i,
            v.deep_view() == Seq::new(i as nat, |j: int| Seq::<u8>::empty()),
        decreases count - i,
    {
        let e: Vec<u8> = Vec::new();
        let ghost before = v.deep_view();
        v.push(e);
        proof {
            assert(e.deep_view() =~= Seq::<u8>::empty());
            assert(v.deep_view() =~= before.push(Seq::<u8>::empty()));
        }
        i = i + 1;
        proof {
            assert(v.deep_view() =~= Seq::new(i as nat, |j: int| Seq::<u8>::empty()));
        }
    }
    v
}

/// Sorts a set by what a complete fragment tells of it; see [`sort_step`].
fn sort_set(set: Fragments, info: SetInfo, target: u64) -> (r: Option<Fragments>)
    requires
        set_wf(set.view_of()),
    ensures
        r matches Some(f) ==> set_wf(f.view_of()),
        r matches Some(f) ==> sort_step(set.view_of(), info, target) == Some(f.view_of()),
        r is None ==> sort_step(set.view_of(), info, target) is None,
{
    if info.count == 0 {
        return None;
    }
    match set {
        Fragments::Sorted {
            fragments,
            fragment_size,
            found_count,
            target_count,
            succeeded,
            padding,
        } => {
            if fragments.len() as u64 != info.count {
                None
            } else {
                Some(
                    Fragments::Sorted {
                        fragments,
                        fragment_size,
                        found_count,
                        target_count,
                        succeeded,
                        padding,
                    },
                )
            }
        },
        Fragments::Unsorted { fragments: map, fragment_size } => {
            let ghost mv = map@.map_values(|v: Vec<u8>| v@);
            let found = fx_map_len(&map) as u64;
            let mut entries = fx_map_into_vec(map);
            let ghost all = entries@;
            let mut slots = empty_slots(info.count);
            proof {
                lemma_filled_empty(info.count as nat);
                assert(set.view_of() == SetView::Unsorted { fragments: mv, size: fragment_size });
            }
            while entries.len() > 0
                invariant
                    set.view_of() == (SetView::Unsorted { fragments: mv, size: fragment_size }),
                    info.count > 0,
                    slots@.len() == info.count,
                    all.len() == map@.len(),
                    forall|i: int| 0 <= i < all.len() ==> map@.contains_key(#[trigger] all[i].0)
                        && map@[all[i].0] == all[i].1,
                    forall|i: int, j: int| 0 <= i < j < all.len() ==> #[trigger] all[i].0 != #[trigger] all[j].0,
                    forall|k: u64| #[trigger] map@.contains_key(k) ==> exists|i: int| 0 <= i < all.len() && #[trigger] all[i].0 == k,
                    entries@.len() <= all.len(),
                    entries@ == all.take(entries@.len() as int),
                    mv == map@.map_values(|v: Vec<u8>| v@),
                    forall|i: int| entries@.len() <= i < all.len() ==> #[trigger] all[i].0 < info.count,
                    filled(slots.deep_view()) == all.len() - entries@.len(),
                    slots.deep_view().len() == info.count,
                    forall|k: u64| #[trigger] mv.contains_key(k) ==> mv[k].len() == fragment_size,
                    fragment_size > 0,
                    forall|s: int|
                        0 <= s < info.count ==> #[trigger] slots.deep_view()[s] == (if exists|i: int|
                            entries@.len() <= i < all.len() && #[trigger] all[i].0 == s as u64 {
                            mv[s as u64]
                        } else {
                            Seq::<u8>::empty()
                        }),
                decreases entries@.len(),
            {
                let ghost n = entries@.len() as int;
                let ghost before = entries@;
                let popped = entries.pop();
                proof {
                    assert(popped == Some(before.last()));
                    assert(before.last() == all[n - 1]);
                }
                let (k, frag) = popped.unwrap();
                proof {
                    assert(all[n - 1] == (k, frag));
                    assert(map@.contains_key(k));
                    assert(mv.contains_key(k));
                    assert(mv[k] == frag@);
                }
                if k >= info.count {
                    proof {
                        assert(mv.contains_key(k) && k >= info.count);
                    }
                    return None;
                }
                let slen = slots.len();
                proof {
                    assert(k < slen);
                }
                let ghost old_slots = slots.deep_view();
                let ghost old_view = slots@;
                proof {
                    if old_slots[k as int].len() != 0 {
                        let i = choose|i: int| n <= i < all.len() && #[trigger] all[i].0 == k;
                        assert(all[i].0 == all[n - 1].0);
                        assert(false);
                    }
                    assert(frag@.len() == fragment_size);
                    lemma_filled_update(old_slots, k as int, frag@);
                }
                slots[k as usize] = frag;
                proof {
                    assert(slots@ == old_view.update(k as int, frag));
                    assert(frag.deep_view() =~= frag@);
                    assert(slots.deep_view() =~= old_slots.update(k as int, frag@));
                }
                proof {
                    assert(entries@ =~= all.take(n - 1));
                    assert forall|t: int| 0 <= t < info.count implies #[trigger] slots.deep_view()[t]
                        == (if exists|i: int| n - 1 <= i < all.len() && #[trigger] all[i].0 == t as u64 {
                        mv[t as u64]
                    } else {
                        Seq::<u8>::empty()
                    }) by {
                        if t == k as int {
                            assert(slots@[t].deep_view() =~= frag@);
                            assert(all[n - 1].0 == t as u64);
                        } else {
                            assert(slots.deep_view()[t] == old_slots[t]);
                            if exists|i: int| n - 1 <= i < all.len() && #[trigger] all[i].0 == t as u64 {
                                let i = choose|i: int| n - 1 <= i < all.len() && #[trigger] all[i].0 == t as u64;
                                assert(i != n - 1);
                                assert(n <= i < all.len() && all[i].0 == t as u64);
                            }
                        }
                    }
                    assert forall|i: int| n - 1 <= i < all.len() implies #[trigger] all[i].0 < info.count by {
                        if i == n - 1 {
                        } else {
                            assert(n <= i);
                        }
                    }
                }
            }
            let r = Fragments::Sorted {
                fragments: slots,
                fragment_size,
                found_count: found,
                target_count: target,
                succeeded: false,
                padding: info.padding,
            };
            proof {
                let goal = Seq::new(
                    info.count as nat,
                    |i: int|
                        if mv.contains_key(i as u64) {
                            mv[i as u64]
                        } else {
                            Seq::<u8>::empty()
                        },
                );
                assert forall|t: int| 0 <= t < info.count implies #[trigger] slots.deep_view()[t]
                    == goal[t] by {
                    if mv.contains_key(t as u64) {
                        assert(map@.contains_key(t as u64));
                        let i = choose|i: int| 0 <= i < all.len() && #[trigger] all[i].0 == t as u64;
                        assert(all[i].0 == t as u64);
                    }
                }
                assert(slots.deep_view() =~= goal);
                assert forall|k: u64| #[trigger] mv.contains_key(k) implies k < info.count by {
                    assert(map@.contains_key(k));
                    let i = choose|i: int| 0 <= i < all.len() && #[trigger] all[i].0 == k;
                    assert(all[i].0 < info.count);
                }
                assert(mv.dom() =~= map@.dom());
                assert(mv.len() == map@.len());
                assert forall|t: int| 0 <= t < info.count implies #[trigger] goal[t].len() == 0
                    || goal[t].len() == fragment_size by {
                }
            }
            Some(r)
        },
    }
}

/// What adding a fragment to its set leads to; see [`AddOutcome`].
pub enum Added {
    Keep,
    Drop(Refusal),
    Overflow,
    Complete { fragments: Vec<Vec<u8>>, size: u64, target: u64, padding: u64 },
}

impl Added {
    pub open spec fn view_of(self) -> AddOutcome {
        match self {
            Added::Keep => AddOutcome::Keep,
            Added::Drop(why) => AddOutcome::Drop(why),
            Added::Overflow => AddOutcome::Overflow,
            Added::Complete { fragments, size, target, padding } => AddOutcome::Complete {
                fragments: fragments.deep_view(),
                size,
                target,
                padding,
            },
        }
    }
}

/// The view of an optional set.
pub open spec fn opt_view(f: Option<Fragments>) -> Option<SetView> {
    match f {
        Some(f) => Some(f.view_of()),
        None => None,
    }
}

/// Adds a fragment to its set; see [`add_step`].
fn add_to_set(set: Fragments, index: u64, payload: Vec<u8>, threshold: u64) -> (r: (
    Option<Fragments>,
    Added,
))
    requires
        set_wf(set.view_of()),
    ensures
        (opt_view(r.0), r.1.view_of()) == add_step(set.view_of(), index, payload@, threshold),
        r.0 matches Some(f) ==> set_wf(f.view_of()),
        r.1 matches Added::Complete { fragments, size, .. } ==> forall|i: int|
            0 <= i < fragments@.len() ==> #[trigger] fragments.deep_view()[i].len() == 0
                || fragments.deep_view()[i].len() == size,
{
    match set {
        Fragments::Sorted {
            mut fragments,
            fragment_size,
            found_count,
            target_count,
            succeeded,
            padding,
        } => {
            if fragment_size != payload.len() as u64 {
                return (None, Added::Drop(Refusal::BadFragmentData));
            }
            if index >= fragments.len() as u64 {
                return (None, Added::Drop(Refusal::BadFragmentIndex));
            }
            if fragments[index as usize].len() != 0 {
                proof {
                    assert(fragments@[index as int].deep_view().len() != 0);
                }
                return (None, Added::Drop(Refusal::DuplicateFragment));
            }
            proof {
                assert(fragments@[index as int].deep_view().len() == 0);
                let fv = fragments.deep_view();
                assert(fv[index as int].len() == 0);
                assert(payload.deep_view() =~= payload@);
                lemma_filled_update(fv, index as int, payload@);
                lemma_filled_bound(fv.update(index as int, payload@));
            }
            let ghost before = fragments.deep_view();
            fragments[index as usize] = payload;
            proof {
                assert(payload.deep_view() =~= payload@);
                assert(fragments.deep_view() =~= before.update(index as int, payload@));
            }
            let found = found_count + 1;
            if found >= target_count && !succeeded {
                let empty: Vec<Vec<u8>> = Vec::new();
                proof {
                    assert(empty.deep_view() =~= Seq::<Seq<u8>>::empty());
                }
                (
                    Some(
                        Fragments::Sorted {
                            fragments: empty,
                            fragment_size,
                            found_count: found,
                            target_count,
                            succeeded,
                            padding,
                        },
                    ),
                    Added::Complete { fragments, size: fragment_size, target: target_count, padding },
                )
            } else {
                (
                    Some(
                        Fragments::Sorted {
                            fragments,
                            fragment_size,
                            found_count: found,
                            target_count,
                            succeeded,
                            padding,
                        },
                    ),
                    Added::Keep,
                )
            }
        },
        Fragments::Unsorted { fragments: mut map, fragment_size } => {
            if fragment_size != payload.len() as u64 {
                return (None, Added::Drop(Refusal::BadFragmentData));
            }
            if fx_map_contains_key(&map, index) {
                return (None, Added::Drop(Refusal::DuplicateFragment));
            }
            let ghost old_map = map@;
            let ghost pv = payload@;
            fx_map_insert(&mut map, index, payload);
            let len = fx_map_len(&map) as u64;
            proof {
                assert(map@.map_values(|v: Vec<u8>| v@) =~= old_map.map_values(|v: Vec<u8>| v@).insert(
                    index,
                    pv,
                ));
                assert(map@.map_values(|v: Vec<u8>| v@).dom() =~= map@.dom());
            }
            let outcome = if len >= threshold {
                Added::Overflow
            } else {
                Added::Keep
            };
            (Some(Fragments::Unsorted { fragments: map, fragment_size }), outcome)
        },
    }
}

/// The fragments one after the other.
pub open spec fn concat(s: Seq<Seq<u8>>) -> Seq<u8>
    decreases s.len(),
{
    if s.len() == 0 {
        Seq::empty()
    } else {
        concat(s.drop_last()) + s.last()
    }
}

/// The slots of a completed set, the empty ones filled with zeros.
pub open spec fn zero_filled(fragments: Seq<Seq<u8>>, size: u64) -> Seq<Seq<u8>> {
    Seq::new(
        fragments.len(),
        |i: int|
            if fragments[i].len() == 0 {
                Seq::new(size as nat, |k: int| 0u8)
            } else {
                fragments[i]
            },
    )
}

/// Which slots of a completed set hold a fragment.
pub open spec fn received(fragments: Seq<Seq<u8>>) -> Seq<bool> {
    Seq::new(fragments.len(), |i: int| fragments[i].len() != 0)
}

/// The data fragments that decoding recovers from the slots of a completed
/// set, with `target` data fragments and `parity` parity fragments: over
/// GF(2^8) while the set has fewer than 256 slots, otherwise over GF(2^16).
pub open spec fn recovered(fragments: Seq<Seq<u8>>, size: u64, target: nat, parity: nat) -> Seq<Seq<u8>> {
    if fragments.len() < 256 {
        rs8_recovered(zero_filled(fragments, size), received(fragments), target, parity)
    } else {
        rs16_recovered(zero_filled(fragments, size), received(fragments), target, parity)
    }
}

/// The packet a completed set carries: its recovered data fragments one after
/// the other, without the padding.
pub open spec fn reassembled(
    fragments: Seq<Seq<u8>>,
    size: u64,
    target: nat,
    parity: nat,
    padding: u64,
) -> Seq<u8> {
    unpadded(recovered(fragments, size, target, parity), target, padding)
}

/// The first `target` fragments one after the other, without the last
/// `padding` bytes.
pub open spec fn unpadded(shards: Seq<Seq<u8>>, target: nat, padding: u64) -> Seq<u8> {
    let data = concat(shards.take(target as int));
    data.take(data.len() - padding)
}

/// The first `target` slots hold a fragment: every data fragment came.
pub open spec fn data_slots_filled(fragments: Seq<Seq<u8>>, target: nat) -> bool {
    &&& target <= fragments.len()
    &&& forall|i: int| 0 <= i < target ==> #[trigger] fragments[i].len() > 0
}

/// Fills the empty slots with zeros, and notes which held a fragment.
fn fill_slots(fragments: Vec<Vec<u8>>, size: u64) -> (r: (Vec<Vec<u8>>, Vec<bool>))
    ensures
        r.0.deep_view() == zero_filled(fragments.deep_view(), size),
        r.1@ == received(fragments.deep_view()),
{
    let ghost fv = fragments.deep_view();
    let n = fragments.len();
    let mut slots: Vec<Vec<u8>> = Vec::new();
    let mut present: Vec<bool> = Vec::new();
    let mut rest = fragments;
    let mut i: usize = 0;
    while i < n
        invariant
            0 <= i <= n,
            n == fv.len(),
            rest@.len() == n,
            forall|j: int| i <= j < n ==> #[trigger] rest@[j].deep_view() == fv[j],
            slots.deep_view() == zero_filled(fv, size).take(i as int),
            present@ == received(fv).take(i as int),
        decreases n - i,
    {
        let mut taken: Vec<u8> = Vec::new();
        let ghost before_rest = rest@;
        std::mem::swap(&mut taken, &mut rest[i]);
        proof {
            assert(taken.deep_view() == fv[i as int]);
            assert(taken.deep_view() =~= taken@);
            assert(forall|j: int| i < j < n ==> #[trigger] rest@[j] == before_rest[j]);
        }
        let ghost before_slots = slots.deep_view();
        if taken.len() == 0 {
            let z = zeros(size);
            slots.push(z);
            present.push(false);
            proof {
                assert(z.deep_view() =~= z@);
            }
        } else {
            slots.push(taken);
            present.push(true);
        }
        proof {
            assert(slots.deep_view() =~= before_slots.push(zero_filled(fv, size)[i as int]));
        }
        i = i + 1;
        proof {
            assert(slots.deep_view() =~= zero_filled(fv, size).take(i as int));
            assert(present@ =~= received(fv).take(i as int));
        }
    }
    proof {
        assert(zero_filled(fv, size).take(n as int) =~= zero_filled(fv, size));
        assert(received(fv).take(n as int) =~= received(fv));
    }
    (slots, present)
}

/// Appends the first `count` fragments one after the other.
fn concat_first(shards: &Vec<Vec<u8>>, count: usize) -> (r: Vec<u8>)
    requires
        count <= shards@.len(),
    ensures
        r@ == concat(shards.deep_view().take(count as int)),
{
    let mut out: Vec<u8> = Vec::new();
    let mut i: usize = 0;
    while i < count
        invariant
            0 <= i <= count <= shards@.len(),
            out@ == concat(shards.deep_view().take(i as int)),
        decreases count - i,
    {
        let shard = &shards[i];
        let ghost start = out@;
        let mut k: usize = 0;
        while k < shard.len()
            invariant
                0 <= k <= shard@.len(),
                out@ == start + shard@.take(k as int),
            decreases shard@.len() - k,
        {
            out.push(shard[k]);
            proof {
                assert(shard@.take(k + 1) == shard@.take(k as int).push(shard@[k as int]));
            }
            k = k + 1;
        }
        proof {
            assert(shard@.take(shard@.len() as int) =~= shard@);
            assert(shards@[i as int].deep_view() =~= shards@[i as int]@);
            assert(shards.deep_view().take(i + 1).drop_last() =~= shards.deep_view().take(i as int));
        }
        i = i + 1;
    }
    out
}

/// Recovers the packet a completed set carries: its slots `fragments` of
/// `size` bytes, `target` of them data and `parity` of them parity, and
/// `padding` bytes of padding. Decoding errors are reported; so are a set
/// that needs the 16-bit field with fragments of an odd size, and more
/// padding than data.
pub fn reassemble<E>(fragments: Vec<Vec<u8>>, size: u64, target: u64, parity: u64, padding: u64) -> (r:
    Result<Vec<u8>, FragmentRecvError<E>>)
    requires
        forall|i: int|
            0 <= i < fragments@.len() ==> #[trigger] fragments.deep_view()[i].len() == 0
                || fragments.deep_view()[i].len() == size,
    ensures
        r matches Ok(d) ==> d@ == reassembled(
            fragments.deep_view(),
            size,
            target as nat,
            parity as nat,
            padding,
        ),
        data_slots_filled(fragments.deep_view(), target as nat) ==> (r matches Ok(d) ==> d@
            == unpadded(fragments.deep_view(), target as nat, padding)),
        r matches Err(e) ==> (e is ReconstructionError || e is BadFragmentData),
        set_decodes(fragments.deep_view(), size, target as nat, parity as nat, padding) ==> r is Ok,
{
    let ghost fv = fragments.deep_view();
    let n = fragments.len();
    proof {
        assert(fragments@.len() == fv.len());
    }
    if target > usize::MAX as u64 || parity > usize::MAX as u64 || target as usize > usize::MAX
        - parity as usize {
        return Err(FragmentRecvError::BadFragmentData);
    }
    let (mut shards, present) = fill_slots(fragments, size);
    proof {
        assert(shards@.len() == shards.deep_view().len());
        if set_decodes(fv, size, target as nat, parity as nat, padding) {
            lemma_set_recoverable(fv, size, target as nat, parity as nat, padding);
        }
    }
    if n < 256 {
        let codec = match rs8_new(target as usize, parity as usize) {
            Ok(c) => c,
            Err(e) => return Err(FragmentRecvError::ReconstructionError(e)),
        };
        let ghost before = shards.deep_view();
        match rs8_reconstruct_data(&codec, &mut shards, &present) {
            Ok(()) => {},
            Err(e) => return Err(FragmentRecvError::ReconstructionError(e)),
        }
        proof {
            lemma_present_kept(fv, size, before, shards.deep_view(), present@, target as nat);
        }
    } else {
        if size % 2 != 0 {
            return Err(FragmentRecvError::BadFragmentData);
        }
        proof {
            assert forall|k: int| 0 <= k < shards@.len() implies #[trigger] shards@[k]@.len() % 2
                == 0 by {
                assert(shards.deep_view()[k] == shards@[k].deep_view());
                assert(shards@[k].deep_view() =~= shards@[k]@);
                assert(fv[k].len() == 0 || fv[k].len() == size);
                assert(zero_filled(fv, size)[k].len() == size);
            }
        }
        let codec = match rs16_new(target as usize, parity as usize) {
            Ok(c) => c,
            Err(e) => return Err(FragmentRecvError::ReconstructionError(e)),
        };
        let ghost before = shards.deep_view();
        match rs16_reconstruct_data(&codec, &mut shards, &present) {
            Ok(()) => {},
            Err(e) => return Err(FragmentRecvError::ReconstructionError(e)),
        }
        proof {
            lemma_present_kept(fv, size, before, shards.deep_view(), present@, target as nat);
        }
    }
    proof {
        assert(shards@.len() == shards.deep_view().len());
    }
    let mut data = concat_first(&shards, target as usize);
    proof {
        if set_decodes(fv, size, target as nat, parity as nat, padding) {
            lemma_concat_len(fv.take(target as int), size as nat);
            assert(data@.len() == target * size);
        }
    }
    if padding > data.len() as u64 {
        return Err(FragmentRecvError::BadFragmentData);
    }
    let keep = data.len() - padding as usize;
    data.truncate(keep);
    proof {
        assert(shards.deep_view().take(target as int) =~= recovered(
            fv,
            size,
            target as nat,
            parity as nat,
        ).take(target as int));
        assert(data@ == reassembled(fv, size, target as nat, parity as nat, padding));
    }
    Ok(data)
}

/// A completed set that decoding takes: every data fragment came, the sizes
/// are not zero, the slots are as many as data and parity fragments together
/// and fit the field (the 16-bit field wants fragments of an even size), and
/// the padding is within the data.
pub open spec fn set_decodes(
    fragments: Seq<Seq<u8>>,
    size: u64,
    target: nat,
    parity: nat,
    padding: u64,
) -> bool {
    &&& data_slots_filled(fragments, target)
    &&& size > 0
    &&& target > 0
    &&& parity > 0
    &&& fragments.len() == target + parity
    &&& fragments.len() >= 256 ==> size % 2 == 0 && fragments.len() <= 65536
    &&& padding <= target * size
}

/// Fragments of one size, one after the other, are as long as their number
/// times that size.
proof fn lemma_concat_len(s: Seq<Seq<u8>>, size: nat)
    requires
        forall|i: int| 0 <= i < s.len() ==> #[trigger] s[i].len() == size,
    ensures
        concat(s).len() == s.len() * size,
    decreases s.len(),
{
    if s.len() > 0 {
        lemma_concat_len(s.drop_last(), size);
        assert((s.len() - 1) * size + size == s.len() * size) by (nonlinear_arith);
    }
}

/// Booleans that all hold are all kept by a filter for those that hold.
proof fn lemma_all_true_filter(t: Seq<bool>)
    requires
        forall|i: int| 0 <= i < t.len() ==> #[trigger] t[i],
    ensures
        t.filter(|p: bool| p).len() == t.len(),
    decreases t.len(),
{
    if t.len() > 0 {
        lemma_all_true_filter(t.drop_last());
        assert(t.drop_last().push(t.last()) =~= t);
        t.drop_last().lemma_filter_len_push(|p: bool| p, t.last());
    } else {
        reveal_with_fuel(Seq::filter, 1);
    }
}

/// A set that decoding takes has the shards that reconstruction recovers
/// from.
proof fn lemma_set_recoverable(fv: Seq<Seq<u8>>, size: u64, target: nat, parity: nat, padding: u64)
    requires
        set_decodes(fv, size, target, parity, padding),
        forall|i: int| 0 <= i < fv.len() ==> #[trigger] fv[i].len() == 0 || fv[i].len() == size,
    ensures
        shards_recoverable(zero_filled(fv, size), received(fv), (target, parity)),
        forall|i: int| 0 <= i < target ==> #[trigger] fv[i].len() == size,
{
    let z = zero_filled(fv, size);
    let present = received(fv);
    assert forall|i: int| 0 <= i < z.len() implies #[trigger] z[i].len() == z[0].len() by {
        assert(z[i].len() == size);
        assert(z[0].len() == size);
    }
    let head = present.take(target as int);
    assert forall|i: int| 0 <= i < head.len() implies #[trigger] head[i] by {
        assert(fv[i].len() > 0);
    }
    lemma_all_true_filter(head);
    present.lemma_filter_take_len(|p: bool| p, target as int);
    assert forall|i: int| 0 <= i < target implies #[trigger] fv[i].len() == size by {
        assert(fv[i].len() > 0);
    }
}

/// Where every data fragment came, decoding leaves them as they were: the
/// slots that held a fragment are not written.
proof fn lemma_present_kept(
    fv: Seq<Seq<u8>>,
    size: u64,
    before: Seq<Seq<u8>>,
    after: Seq<Seq<u8>>,
    present: Seq<bool>,
    target: nat,
)
    requires
        before == zero_filled(fv, size),
        present == received(fv),
        after.len() == before.len(),
        forall|i: int| 0 <= i < present.len() && #[trigger] present[i] ==> after[i] == before[i],
    ensures
        data_slots_filled(fv, target) ==> after.take(target as int) == fv.take(target as int),
{
    if data_slots_filled(fv, target) {
        assert forall|i: int| 0 <= i < target implies #[trigger] after.take(target as int)[i] == fv.take(
            target as int,
        )[i] by {
            assert(fv[i].len() > 0);
            assert(present[i]);
        }
        assert(after.take(target as int) =~= fv.take(target as int));
    }
}

/// The place of the set with identifier `id`, if one is being received.
pub open spec fn find_set(sets: Seq<(u64, SetView)>, id: u64) -> Option<int> {
    if exists|i: int| 0 <= i < sets.len() && #[trigger] sets[i].0 == id {
        Some(choose|i: int| 0 <= i < sets.len() && #[trigger] sets[i].0 == id)
    } else {
        None
    }
}

/// Where the fragment of a set with identifier `id`, of `size` bytes, goes:
/// the sets left beside it, the place of its set among them, and its set.
/// Its set is taken out where it is being received; otherwise a new unsorted
/// set of that size goes last, after the oldest set is forgotten where
/// `max_active` sets or more are kept.
pub open spec fn locate(sets: Seq<(u64, SetView)>, id: u64, size: u64, max_active: nat) -> (
    Seq<(u64, SetView)>,
    int,
    SetView,
) {
    match find_set(sets, id) {
        Some(i) => (sets.remove(i), i, sets[i].1),
        None => {
            let kept = if sets.len() >= max_active && sets.len() > 0 {
                sets.drop_first()
            } else {
                sets
            };
            (kept, kept.len() as int, SetView::Unsorted { fragments: Map::empty(), size })
        },
    }
}

/// Receiving the fragment `payload` with trailer `t`, the sets being
/// received being `sets`: the sets afterwards and what follows. The fragment
/// goes to its set ([`locate`]). A complete fragment first sorts its set
/// ([`sort_step`], with `target` data fragments for a set so far unsorted),
/// then the fragment is added ([`add_step`], an unsorted set overflowing at
/// `threshold` fragments). A set that is dropped leaves the sets; the others
/// keep their place.
pub open spec fn receive_step(
    sets: Seq<(u64, SetView)>,
    payload: Seq<u8>,
    t: FragmentTrailer,
    max_active: nat,
    target: u64,
    threshold: u64,
) -> (Seq<(u64, SetView)>, AddOutcome) {
    let (rest, pos, set) = locate(sets, t.id, payload.len() as u64, max_active);
    let sorted = match t.complete {
        Some(info) => sort_step(set, info, target),
        None => Some(set),
    };
    match sorted {
        None => (rest, AddOutcome::Drop(Refusal::BadFragmentCount)),
        Some(s) => {
            let (after, outcome) = add_step(s, t.index, payload, threshold);
            match after {
                Some(a) => (rest.insert(pos, (t.id, a)), outcome),
                None => (rest, outcome),
            }
        },
    }
}

/// A sorted set after its packet was reassembled.
pub open spec fn succeeded_view(v: SetView) -> SetView {
    match v {
        SetView::Sorted { fragments, size, found, target, padding, .. } => SetView::Sorted {
            fragments,
            size,
            found,
            target,
            succeeded: true,
            padding,
        },
        SetView::Unsorted { .. } => v,
    }
}

/// The sets, that of identifier `id` marked as reassembled.
pub open spec fn mark_succeeded(sets: Seq<(u64, SetView)>, id: u64) -> Seq<(u64, SetView)> {
    sets.map_values(
        |e: (u64, SetView)|
            if e.0 == id {
                (e.0, succeeded_view(e.1))
            } else {
                e
            },
    )
}

/// The error that tells a refusal.
pub open spec fn refuses<E>(e: FragmentRecvError<E>, why: Refusal) -> bool {
    match why {
        Refusal::PacketTooSmall => e is PacketTooSmall,
        Refusal::DuplicateFragment => e is DuplicateFragment,
        Refusal::BadFragmentIndex => e is BadFragmentIndex,
        Refusal::BadFragmentCount => e is BadFragmentCount,
        Refusal::BadFragmentData => e is BadFragmentData,
        Refusal::TooManyFragments => e is TooManyFragments,
    }
}

/// The error that tells a refusal.
fn refusal_error<E>(why: Refusal) -> (e: FragmentRecvError<E>)
    ensures
        refuses(e, why),
{
    match why {
        Refusal::PacketTooSmall => FragmentRecvError::PacketTooSmall,
        Refusal::DuplicateFragment => FragmentRecvError::DuplicateFragment,
        Refusal::BadFragmentIndex => FragmentRecvError::BadFragmentIndex,
        Refusal::BadFragmentCount => FragmentRecvError::BadFragmentCount,
        Refusal::BadFragmentData => FragmentRecvError::BadFragmentData,
        Refusal::TooManyFragments => FragmentRecvError::TooManyFragments,
    }
}

/// Receiving the fragment `packet` (long enough to hold a trailer and a byte
/// of payload) turns the sets `before` into `after` and gives `r`, where a
/// set so far unsorted that a complete fragment sorts has `target` data
/// fragments, an unsorted set overflows at `threshold` fragments, and a
/// completed set is decoded with `parity` parity fragments: a set still
/// waiting gives `Ok(None)`, a refusal its error, a reassembled packet
/// `Ok(Some(..))` (its data fragments as they came, where all of them came)
/// and marks its set, a failed reassembly (of a set that decoding does not
/// take) its error.
pub open spec fn receives<E>(
    before: Seq<(u64, SetView)>,
    packet: Seq<u8>,
    w: TrailerWidths,
    max_active: nat,
    target: u64,
    threshold: u64,
    parity: u64,
    after: Seq<(u64, SetView)>,
    r: Result<Option<Vec<u8>>, FragmentRecvError<E>>,
) -> bool {
    let (payload, t) = parse(packet, w);
    let (sets, outcome) = receive_step(before, payload, t, max_active, target, threshold);
    match outcome {
        AddOutcome::Keep => after == sets && (r matches Ok(None)),
        AddOutcome::Drop(why) => after == sets && (r matches Err(e) && refuses(e, why)),
        AddOutcome::Overflow => after == sets && (r matches Err(FragmentRecvError::TooManyFragments)),
        AddOutcome::Complete { fragments, size, target, padding } => match r {
            Ok(Some(d)) => d@ == reassembled(fragments, size, target as nat, parity as nat, padding)
                && (data_slots_filled(fragments, target as nat) ==> d@ == unpadded(
                fragments,
                target as nat,
                padding,
            )) && after == mark_succeeded(sets, t.id),
            Err(e) => (e is ReconstructionError || e is BadFragmentData) && !set_decodes(
                fragments,
                size,
                target as nat,
                parity as nat,
                padding,
            ) && after == sets,
            Ok(None) => false,
        },
    }
}


/// `x + 1`, or `x` where that overflows.
pub open spec fn sat_add1(x: u64) -> u64 {
    if x == u64::MAX {
        x
    } else {
        (x + 1) as u64
    }
}

/// The data count taken when `packet` arrives: for a complete fragment of a
/// set not yet sorted, what the redundancy `red` counts as data fragments in
/// a set of its fragment count (`red.data_for`), and otherwise `0`.
pub open spec fn sized_target<R: Redundancy>(
    before: Seq<(u64, SetView)>,
    packet: Seq<u8>,
    w: TrailerWidths,
    max_active: nat,
    red: R,
) -> u64 {
    let (payload, t) = parse(packet, w);
    let (rest, pos, set) = locate(before, t.id, payload.len() as u64, max_active);
    match t.complete {
        Some(info) => if set is Unsorted {
            red.data_for(info.count)
        } else {
            0
        },
        None => 0,
    }
}

/// How many fragments a set still unsorted after `packet` may hold: one
/// more than the parity count that the redundancy `red` gives for the
/// maximum count (`0` where the set is sorted).
pub open spec fn sized_threshold<R: Redundancy>(
    before: Seq<(u64, SetView)>,
    packet: Seq<u8>,
    w: TrailerWidths,
    max_active: nat,
    max_count: u64,
    red: R,
) -> u64 {
    let (payload, t) = parse(packet, w);
    let (rest, pos, set) = locate(before, t.id, payload.len() as u64, max_active);
    let target = sized_target(before, packet, w, max_active, red);
    let sorted = match t.complete {
        Some(info) => sort_step(set, info, target),
        None => Some(set),
    };
    if sorted matches Some(SetView::Unsorted { .. }) {
        sat_add1(red.parity_for(max_count))
    } else {
        0
    }
}

/// The parity count taken when `packet` completes a set: what the redundancy
/// `red` gives for the set's data count (`0` where no set is completed).
pub open spec fn sized_parity<R: Redundancy>(
    before: Seq<(u64, SetView)>,
    packet: Seq<u8>,
    w: TrailerWidths,
    max_active: nat,
    max_count: u64,
    red: R,
) -> u64 {
    let (payload, t) = parse(packet, w);
    let target = sized_target(before, packet, w, max_active, red);
    let threshold = sized_threshold(before, packet, w, max_active, max_count, red);
    match receive_step(before, payload, t, max_active, target, threshold).1 {
        AddOutcome::Complete { target: d, .. } => red.parity_for(d),
        _ => 0,
    }
}

/// Receiving `packet` as [`receives`] describes, with the counts that the
/// redundancy `red` gives: data fragments for the fragment count of a
/// complete fragment, parity fragments for the maximum count and for the
/// data count of a completed set.
pub open spec fn receives_sized<E, R: Redundancy>(
    before: Seq<(u64, SetView)>,
    packet: Seq<u8>,
    w: TrailerWidths,
    max_active: nat,
    max_count: u64,
    red: R,
    after: Seq<(u64, SetView)>,
    r: Result<Option<Vec<u8>>, FragmentRecvError<E>>,
) -> bool {
    receives(
        before,
        packet,
        w,
        max_active,
        sized_target(before, packet, w, max_active, red),
        sized_threshold(before, packet, w, max_active, max_count, red),
        sized_parity(before, packet, w, max_active, max_count, red),
        after,
        r,
    )
}

/// Marks a sorted set as reassembled.
fn set_succeeded(set: Fragments) -> (r: Fragments)
    ensures
        r.view_of() == succeeded_view(set.view_of()),
{
    match set {
        Fragments::Sorted { fragments, fragment_size, found_count, target_count, padding, .. } => {
            Fragments::Sorted {
                fragments,
                fragment_size,
                found_count,
                target_count,
                succeeded: true,
                padding,
            }
        },
        Fragments::Unsorted { fragments, fragment_size } => Fragments::Unsorted {
            fragments,
            fragment_size,
        },
    }
}

impl<T, R: Redundancy> Fragmenter<T, R> {
    /// Nothing but the sets being received differs.
    pub open spec fn same_but_received(&self, other: &Self) -> bool {
        &&& self.max_payload() == other.max_payload()
        &&& self.max_count() == other.max_count()
        &&& self.max_active() == other.max_active()
        &&& self.id_type() == other.id_type()
        &&& self.next_layer() == other.next_layer()
        &&& self.redundancy_of() == other.redundancy_of()
        &&& self.send_ids() == other.send_ids()
    }

    /// Takes a packet from the layer below: a fragment joins its set, and the
    /// packet of a set is given back once enough of its fragments came
    /// (`Ok(None)` until then). An empty packet is given back as it is.
    #[verifier::rlimit(80)]
    #[verifier::spinoff_prover]
    pub fn receive<E>(&mut self, packet: Vec<u8>) -> (r: Result<Option<Vec<u8>>, FragmentRecvError<E>>)
        requires
            old(self).well_formed(),
        ensures
            final(self).well_formed(),
            final(self).same_but_received(old(self)),
            packet@.len() == 0 ==> (r matches Ok(Some(d)) && d@.len() == 0 && final(self).recv_sets()
                == old(self).recv_sets()),
            packet@.len() > 0 && packet@.len() - 1 < 1 + trailer_len(
                packet@.last() >= 127,
                old(self).widths(),
            ) ==> (r matches Err(FragmentRecvError::PacketTooSmall) && final(self).recv_sets()
                == old(self).recv_sets()),
            packet@.len() > 0 && packet@.len() - 1 >= 1 + trailer_len(
                packet@.last() >= 127,
                old(self).widths(),
            ) ==> receives_sized(
                old(self).recv_sets(),
                packet@,
                old(self).widths(),
                old(self).max_active().value(),
                old(self).max_count().value() as u64,
                old(self).redundancy_of(),
                final(self).recv_sets(),
                r,
            ),
    {
        if packet.len() == 0 {
            return Ok(Some(packet));
        }
        let widths = self.trailer_widths();
        let (payload, trailer) = match parse_fragment::<E>(packet.as_slice(), widths) {
            Ok(x) => x,
            Err(e) => return Err(e),
        };
        let ghost sets0 = self.recv_sets();
        let ghost max_active = self.max_active().value();
        let id = trailer.id;
        proof {
            assert(sets_wf(sets0));
        }
        let (pos, set) = match fragment_sets_get_index_of(&self.recv_active_fragments, id) {
            Some(i) => {
                let ghost m0 = fragment_sets(self.recv_active_fragments);
                proof {
                    assert(sets0[i as int].0 == id);
                    assert(find_set(sets0, id) == Some(i as int));
                }
                let e = fragment_sets_shift_remove_index(&mut self.recv_active_fragments, i);
                proof {
                    assert(self.recv_sets() =~= sets0.remove(i as int));
                }
                match e {
                    Some(entry) => {
                        proof {
                            assert(entry == m0[i as int]);
                            assert(entry.1.view_of() == sets0[i as int].1);
                        }
                        (i, entry.1)
                    },
                    None => {
                        proof {
                            assert(false);
                        }
                        return Err(FragmentRecvError::BadFragmentData);
                    },
                }
            },
            None => {
                proof {
                    assert(find_set(sets0, id) is None);
                }
                if fragment_sets_len(&self.recv_active_fragments) as u64
                    >= self.max_active_fragments.to_u64() {
                    fragment_sets_shift_remove_index(&mut self.recv_active_fragments, 0);
                }
                let len = fragment_sets_len(&self.recv_active_fragments);
                proof {
                    assert(self.recv_sets() =~= if sets0.len() >= max_active && sets0.len() > 0 {
                        sets0.drop_first()
                    } else {
                        sets0
                    });
                }
                let empty: fxhash::FxHashMap<u64, Vec<u8>> = fxhash::FxHashMap::default();
                let set = Fragments::Unsorted { fragments: empty, fragment_size: payload.len() as u64 };
                proof {
                    assert(empty@.map_values(|v: Vec<u8>| v@) =~= Map::<u64, Seq<u8>>::empty());
                }
                (len, set)
            },
        };
        let ghost rest = self.recv_sets();
        let ghost sv = set.view_of();
        proof {
            assert(locate(sets0, id, payload@.len() as u64, max_active) == (rest, pos as int, sv));
            lemma_located(sets0, id, payload@.len() as u64, max_active);
        }
        let mut target: u64 = 0;
        let set = match trailer.complete {
            Some(info) => {
                if let Fragments::Unsorted { .. } = &set {
                    target = self.redundancy.data_fragments(info.count);
                }
                match sort_set(set, info, target) {
                    Some(s) => s,
                    None => {
                        let r = Err(FragmentRecvError::BadFragmentCount);
                        proof {
                            assert(receives(sets0, packet@, widths, max_active, target, 0, 0, self.recv_sets(), r));
                            assert(receives_sized(sets0, packet@, widths, max_active, self.max_count().value() as u64, self.redundancy_of(), self.recv_sets(), r));
                        }
                        return r;
                    },
                }
            },
            None => set,
        };
        let ghost mut thr_raw: u64 = 0;
        let threshold = match &set {
            Fragments::Unsorted { .. } => {
                let raw = self.redundancy.redundant_fragments(self.max_fragment_count.to_u64());
                proof {
                    thr_raw = raw;
                }
                raw.saturating_add(1)
            },
            Fragments::Sorted { .. } => 0,
        };
        let ghost step = receive_step(sets0, payload@, trailer, max_active, target, threshold);
        let (after, added) = add_to_set(set, trailer.index, payload, threshold);
        let ghost av = opt_view(after);
        proof {
            match av {
                Some(a) => {
                    assert(step.0 == rest.insert(pos as int, (id, a)));
                    lemma_sets_wf_insert(rest, pos as int, id, a);
                },
                None => {
                    assert(step.0 == rest);
                },
            }
            assert(step.1 == added.view_of());
        }
        match added {
            Added::Keep => {
                self.put_back(pos, id, after);
                let r = Ok(None);
                proof {
                    assert(receives(sets0, packet@, widths, max_active, target, threshold, 0, self.recv_sets(), r));
                    assert(receives_sized(sets0, packet@, widths, max_active, self.max_count().value() as u64, self.redundancy_of(), self.recv_sets(), r));
                }
                r
            },
            Added::Drop(why) => {
                let r = Err(refusal_error(why));
                proof {
                    assert(receives(sets0, packet@, widths, max_active, target, threshold, 0, self.recv_sets(), r));
                    assert(receives_sized(sets0, packet@, widths, max_active, self.max_count().value() as u64, self.redundancy_of(), self.recv_sets(), r));
                }
                r
            },
            Added::Overflow => {
                self.put_back(pos, id, after);
                let r = Err(FragmentRecvError::TooManyFragments);
                proof {
                    assert(receives(sets0, packet@, widths, max_active, target, threshold, 0, self.recv_sets(), r));
                    assert(receives_sized(sets0, packet@, widths, max_active, self.max_count().value() as u64, self.redundancy_of(), self.recv_sets(), r));
                }
                r
            },
            Added::Complete { fragments, size, target: data_count, padding } => {
                let parity = self.redundancy.redundant_fragments(data_count);
                let result = reassemble(fragments, size, data_count, parity, padding);
                match result {
                    Ok(data) => {
                        let marked = match after {
                            Some(a) => Some(set_succeeded(a)),
                            None => None,
                        };
                        proof {
                            if let Some(a) = av {
                                lemma_mark_inserted(rest, pos as int, id, a);
                                lemma_sets_wf_insert(rest, pos as int, id, succeeded_view(a));
                            }
                        }
                        self.put_back(pos, id, marked);
                        let r = Ok(Some(data));
                        proof {
                            assert(receives(sets0, packet@, widths, max_active, target, threshold, parity, self.recv_sets(), r));
                            assert(receives_sized(sets0, packet@, widths, max_active, self.max_count().value() as u64, self.redundancy_of(), self.recv_sets(), r));
                        }
                        r
                    },
                    Err(e) => {
                        self.put_back(pos, id, after);
                        let r = Err(e);
                        proof {
                            assert(receives(sets0, packet@, widths, max_active, target, threshold, parity, self.recv_sets(), r));
                            assert(receives_sized(sets0, packet@, widths, max_active, self.max_count().value() as u64, self.redundancy_of(), self.recv_sets(), r));
                        }
                        r
                    },
                }
            },
        }
    }

    /// Puts a set back at `pos` among the sets being received, if it was kept.
    fn put_back(&mut self, pos: usize, id: u64, set: Option<Fragments>)
        requires
            pos <= old(self).recv_sets().len(),
            forall|i: int| 0 <= i < old(self).recv_sets().len() ==> #[trigger] old(self).recv_sets()[i].0 != id,
        ensures
            final(self).same_but_received(old(self)),
            final(self).recv_sets() == match set {
                Some(f) => old(self).recv_sets().insert(pos as int, (id, f.view_of())),
                None => old(self).recv_sets(),
            },
    {
        if let Some(f) = set {
            let ghost sets = self.recv_sets();
            let ghost m = fragment_sets(self.recv_active_fragments);
            let ghost fv = f.view_of();
            proof {
                assert forall|i: int| 0 <= i < m.len() implies #[trigger] m[i].0 != id by {
                    assert(sets[i].0 == m[i].0);
                }
            }
            fragment_sets_shift_insert(&mut self.recv_active_fragments, pos, id, f);
            proof {
                assert(self.recv_sets() =~= sets.insert(pos as int, (id, fv)));
            }
        }
    }
}

/// What [`locate`] gives: the sets left beside the fragment's set keep their
/// identifiers apart and hold no set of the fragment's identifier, and the
/// place is among them; a new set is well formed where its size is not zero.
proof fn lemma_located(sets: Seq<(u64, SetView)>, id: u64, size: u64, max_active: nat)
    requires
        sets_wf(sets),
    ensures
        ({
            let (rest, pos, set) = locate(sets, id, size, max_active);
            &&& sets_wf(rest)
            &&& 0 <= pos <= rest.len()
            &&& forall|i: int| 0 <= i < rest.len() ==> #[trigger] rest[i].0 != id
            &&& (find_set(sets, id) is Some || size > 0) ==> set_wf(set)
        }),
{
    match find_set(sets, id) {
        Some(i) => {
            assert(0 <= i < sets.len() && sets[i].0 == id);
            let rest = sets.remove(i);
            assert forall|a: int, b: int| 0 <= a < b < rest.len() implies #[trigger] rest[a].0
                != #[trigger] rest[b].0 by {
                let a2 = if a < i { a } else { a + 1 };
                let b2 = if b < i { b } else { b + 1 };
                assert(rest[a] == sets[a2] && rest[b] == sets[b2]);
                assert(sets[a2].0 != sets[b2].0);
            }
            assert forall|a: int| 0 <= a < rest.len() implies set_wf(#[trigger] rest[a].1) by {
                let a2 = if a < i { a } else { a + 1 };
                assert(rest[a] == sets[a2]);
            }
            assert forall|a: int| 0 <= a < rest.len() implies #[trigger] rest[a].0 != id by {
                let a2 = if a < i { a } else { a + 1 };
                assert(rest[a] == sets[a2]);
                assert(sets[a2].0 != sets[i].0);
            }
            assert(set_wf(sets[i].1));
        },
        None => {
            let rest = if sets.len() >= max_active && sets.len() > 0 {
                sets.drop_first()
            } else {
                sets
            };
            if sets.len() >= max_active && sets.len() > 0 {
                assert forall|a: int, b: int| 0 <= a < b < rest.len() implies #[trigger] rest[a].0
                    != #[trigger] rest[b].0 by {
                    assert(rest[a] == sets[a + 1] && rest[b] == sets[b + 1]);
                }
                assert forall|a: int| 0 <= a < rest.len() implies set_wf(#[trigger] rest[a].1) by {
                    assert(rest[a] == sets[a + 1]);
                }
                assert forall|a: int| 0 <= a < rest.len() implies #[trigger] rest[a].0 != id by {
                    assert(rest[a] == sets[a + 1]);
                }
            } else {
                assert forall|a: int| 0 <= a < rest.len() implies #[trigger] rest[a].0 != id by {
                    if rest[a].0 == id {
                        assert(sets[a].0 == id);
                    }
                }
            }
            let e = Map::<u64, Seq<u8>>::empty();
            assert forall|k: u64| #[trigger] e.contains_key(k) implies e[k].len() == size by {}
        },
    }
}

/// Putting a well-formed set under a new identifier anywhere among
/// well-formed sets keeps them well formed.
proof fn lemma_sets_wf_insert(sets: Seq<(u64, SetView)>, pos: int, id: u64, v: SetView)
    requires
        sets_wf(sets),
        0 <= pos <= sets.len(),
        forall|i: int| 0 <= i < sets.len() ==> #[trigger] sets[i].0 != id,
        set_wf(v),
    ensures
        sets_wf(sets.insert(pos, (id, v))),
{
    let t = sets.insert(pos, (id, v));
    assert forall|a: int, b: int| 0 <= a < b < t.len() implies #[trigger] t[a].0 != #[trigger] t[b].0 by {
        if a != pos && b != pos {
            let a2 = if a < pos { a } else { a - 1 };
            let b2 = if b < pos { b } else { b - 1 };
            assert(t[a] == sets[a2] && t[b] == sets[b2]);
        } else if a == pos {
            assert(t[b] == sets[b - 1]);
        } else {
            assert(t[a] == sets[a]);
        }
    }
    assert forall|a: int| 0 <= a < t.len() implies set_wf(#[trigger] t[a].1) by {
        if a < pos {
            assert(t[a] == sets[a]);
        } else if a > pos {
            assert(t[a] == sets[a - 1]);
        }
    }
}

/// Marking the set of a new identifier once it is put among the others is
/// putting it there marked.
proof fn lemma_mark_inserted(sets: Seq<(u64, SetView)>, pos: int, id: u64, v: SetView)
    requires
        0 <= pos <= sets.len(),
        forall|i: int| 0 <= i < sets.len() ==> #[trigger] sets[i].0 != id,
    ensures
        mark_succeeded(sets.insert(pos, (id, v)), id) == sets.insert(pos, (id, succeeded_view(v))),
{
    let t = sets.insert(pos, (id, v));
    let u = sets.insert(pos, (id, succeeded_view(v)));
    assert forall|a: int| 0 <= a < t.len() implies #[trigger] mark_succeeded(t, id)[a] == u[a] by {
        if a < pos {
            assert(t[a] == sets[a] && u[a] == sets[a]);
        } else if a > pos {
            assert(t[a] == sets[a - 1] && u[a] == sets[a - 1]);
        }
    }
    assert(mark_succeeded(t, id) =~= u);
}


/// The packet is long enough to hold a fragment: a trailer and at least one
/// byte of payload.
pub open spec fn holds_fragment(packet: Seq<u8>, w: TrailerWidths) -> bool {
    &&& packet.len() > 0
    &&& packet.len() - 1 >= 1 + trailer_len(packet.last() >= 127, w)
}

/// Receiving the fragments `packets` one after the other, the sets being
/// received being `sets` at first: the sets afterwards and what followed
/// each fragment.
pub open spec fn receive_run(
    sets: Seq<(u64, SetView)>,
    packets: Seq<Seq<u8>>,
    w: TrailerWidths,
    max_active: nat,
    target: u64,
    threshold: u64,
) -> (Seq<(u64, SetView)>, Seq<AddOutcome>)
    decreases packets.len(),
{
    if packets.len() == 0 {
        (sets, Seq::empty())
    } else {
        let (before, outcomes) = receive_run(
            sets,
            packets.drop_last(),
            w,
            max_active,
            target,
            threshold,
        );
        let (payload, t) = parse(packets.last(), w);
        let (after, outcome) = receive_step(before, payload, t, max_active, target, threshold);
        (after, outcomes.push(outcome))
    }
}

/// The slots of a set of `n` fragments once its first `k` came.
pub open spec fn slots_upto(shards: Seq<Seq<u8>>, k: nat, n: nat) -> Seq<Seq<u8>> {
    Seq::new(
        n,
        |i: int|
            if i < k {
                shards[i]
            } else {
                Seq::empty()
            },
    )
}

/// A packet that holds a fragment parses as a payload and a trailer that
/// fit their widths.
proof fn lemma_parse_fits(packet: Seq<u8>, w: TrailerWidths)
    requires
        holds_fragment(packet, w),
    ensures
        parses_as(packet, parse(packet, w).0, parse(packet, w).1, w),
        trailer_fits(parse(packet, w).1, w),
{
    let (payload, t) = parse(packet, w);
    let b = packet.drop_last();
    let len = b.len() as int;
    let ids = w.id.byte_len() as int;
    let cs = w.count.byte_len() as int;
    let ps = w.padding.byte_len() as int;
    let complete = packet.last() >= 127;
    let plen = len - trailer_len(complete, w);
    lemma_modulus(w.id);
    lemma_modulus(w.count);
    lemma_modulus(w.padding);
    lemma_be_value_bound(b.subrange(len - ids, len));
    lemma_be_value_bound(b.subrange(len - ids - cs, len - ids));
    if complete {
        lemma_be_value_bound(b.subrange(len - ids - 2 * cs, len - ids - cs));
        lemma_be_value_bound(b.subrange(plen, plen + ps));
    }
    lemma_parse_assembles(packet, payload, t, w);
}

/// The `k`-th fragment of a set parses as its shard and trailer.
proof fn lemma_parse_sent(shard: Seq<u8>, t: FragmentTrailer, w: TrailerWidths)
    requires
        shard.len() > 0,
        trailer_fits(t, w),
    ensures
        holds_fragment(shard + trailer_bytes(t, w), w),
        parse(shard + trailer_bytes(t, w), w) == (shard, t),
{
    let packet = shard + trailer_bytes(t, w);
    lemma_trailer_len(t, w);
    assert(packet.last() == trailer_bytes(t, w).last());
    lemma_parse_fits(packet, w);
    law_fragment_roundtrip(shard, t, w, parse(packet, w).0, parse(packet, w).1);
}

/// The facts of a layout: at least one data fragment of at least one byte,
/// which with the padding hold the packet exactly.
proof fn lemma_layout(len: nat, max_payload: nat)
    requires
        len > 0,
        max_payload > 0,
    ensures
        ({
            let l = layout(len, max_payload);
            &&& l.data_count > 0
            &&& l.fragment_size > 0
            &&& l.data_count * l.fragment_size == len + l.padding
            &&& l.fragment_size <= len + 1
        }),
{
    let even = if len % 2 == 1 {
        len + 1
    } else {
        len
    };
    lemma_div_ceil_bounds(even, max_payload);
    let d = div_ceil(even, max_payload);
    lemma_div_ceil_bounds(even, d);
    let fs = div_ceil(even, d);
    assert(fs * d == d * fs) by (nonlinear_arith);
}

/// The data fragments one after the other are the data padded.
proof fn lemma_concat_shards(padded: Seq<u8>, size: nat, k: nat)
    requires
        k * size <= padded.len(),
    ensures
        concat(Seq::new(k, |i: int| padded.subrange(i * size, (i + 1) * size))) == padded.subrange(
            0,
            (k * size) as int,
        ),
    decreases k,
{
    let s = Seq::new(k, |i: int| padded.subrange(i * size, (i + 1) * size));
    if k > 0 {
        let j = (k - 1) as nat;
        assert(j * size + size == k * size && j * size <= k * size) by (nonlinear_arith)
            requires
                j == k - 1,
        ;
        lemma_concat_shards(padded, size, j);
        assert(s.drop_last() =~= Seq::new(j, |i: int| padded.subrange(i * size, (i + 1) * size)));
        assert(s.last() == padded.subrange((j * size) as int, (k * size) as int));
        assert(padded.subrange(0, (k * size) as int) =~= padded.subrange(0, (j * size) as int)
            + padded.subrange((j * size) as int, (k * size) as int));
    } else {
        assert(k * size == 0) by (nonlinear_arith)
            requires
                k == 0,
        ;
        assert(padded.subrange(0, (k * size) as int) =~= Seq::<u8>::empty());
    }
}

/// The `k`-th data fragment (`k` counted from zero) of a packet, received by
/// a receiver to which the fragments before it came, in order: the set is
/// started by the first, each leaves it waiting until the last data fragment
/// completes it with the data fragments in their slots.
#[verifier::rlimit(60)]
#[verifier::spinoff_prover]
proof fn lemma_receive_data_fragment(
    data: Seq<u8>,
    max_payload: nat,
    parity_count: nat,
    id: u64,
    w: TrailerWidths,
    sets: Seq<(u64, SetView)>,
    max_active: nat,
    threshold: u64,
    k: nat,
)
    requires
        0 < data.len() <= i64::MAX,
        max_payload > 0,
        id < w.id.modulus(),
        layout(data.len(), max_payload).data_count + parity_count < w.count.modulus(),
        layout(data.len(), max_payload).padding < w.padding.modulus(),
        k < layout(data.len(), max_payload).data_count,
        sets_wf(sets),
        k == 0 ==> find_set(sets, id) is None,
        k > 0 ==> ({
            let l = layout(data.len(), max_payload);
            let n = l.data_count + parity_count;
            find_set(sets, id) matches Some(pos) && sets[pos].1 == SetView::Sorted {
                fragments: slots_upto(data_shards(data, l), k, n),
                size: l.fragment_size as u64,
                found: k as u64,
                target: l.data_count as u64,
                succeeded: false,
                padding: l.padding as u64,
            }
        }),
    ensures
        ({
            let l = layout(data.len(), max_payload);
            let n = l.data_count + parity_count;
            let frag = fragments_of(data, max_payload, parity_count, id, w)[k as int];
            let (payload, t) = parse(frag, w);
            let (after, outcome) = receive_step(
                sets,
                payload,
                t,
                max_active,
                l.data_count as u64,
                threshold,
            );
            &&& holds_fragment(frag, w)
            &&& sets_wf(after)
            &&& k + 1 < l.data_count ==> {
                &&& outcome == AddOutcome::Keep
                &&& find_set(after, id) matches Some(pos) && after[pos].1 == SetView::Sorted {
                    fragments: slots_upto(data_shards(data, l), k + 1, n),
                    size: l.fragment_size as u64,
                    found: (k + 1) as u64,
                    target: l.data_count as u64,
                    succeeded: false,
                    padding: l.padding as u64,
                }
            }
            &&& k + 1 == l.data_count ==> outcome == AddOutcome::Complete {
                fragments: slots_upto(data_shards(data, l), k + 1, n),
                size: l.fragment_size as u64,
                target: l.data_count as u64,
                padding: l.padding as u64,
            }
        }),
{
    let l = layout(data.len(), max_payload);
    let d = l.data_count;
    let n = d + parity_count;
    let fs = l.fragment_size;
    lemma_layout(data.len(), max_payload);
    lemma_modulus(w.count);
    lemma_data_shards_len(data, l);
    let shards = data_shards(data, l);
    let all = shards + parity_shards(shards, parity_count);
    let frags = fragments_of(data, max_payload, parity_count, id, w);
    let info = SetInfo { padding: l.padding as u64, count: n as u64 };
    let t = FragmentTrailer {
        index: k as u64,
        id,
        complete: if k < parity_count + 1 {
            Some(info)
        } else {
            None
        },
    };
    assert(all[k as int] == shards[k as int]);
    assert(frags[k as int] == shards[k as int] + trailer_bytes(t, w));
    lemma_parse_sent(shards[k as int], t, w);
    let payload = shards[k as int];
    assert(payload.len() == fs);
    let sk = slots_upto(shards, k, n);
    let sk1 = slots_upto(shards, k + 1, n);
    assert(sk.update(k as int, payload) =~= sk1);
    let sorted = SetView::Sorted {
        fragments: sk,
        size: fs as u64,
        found: k as u64,
        target: d as u64,
        succeeded: false,
        padding: l.padding as u64,
    };
    lemma_located(sets, id, fs as u64, max_active);
    let (rest, pos, set) = locate(sets, id, fs as u64, max_active);
    if k == 0 {
        let empty = Map::<u64, Seq<u8>>::empty();
        assert(set == SetView::Unsorted { fragments: empty, size: fs as u64 });
        assert(!(exists|j: u64| #[trigger] empty.contains_key(j) && j >= info.count));
        assert(Seq::new(
            info.count as nat,
            |i: int|
                if empty.contains_key(i as u64) {
                    empty[i as u64]
                } else {
                    Seq::empty()
                },
        ) =~= sk);
        assert(sort_step(set, info, d as u64) == Some(sorted));
    } else {
        assert(set == sorted);
        if let Some(i) = t.complete {
            assert(sort_step(set, i, d as u64) == Some(sorted));
        }
    }
    assert(sk[k as int].len() == 0);
    let a = SetView::Sorted {
        fragments: if k + 1 >= d {
            Seq::empty()
        } else {
            sk1
        },
        size: fs as u64,
        found: (k + 1) as u64,
        target: d as u64,
        succeeded: false,
        padding: l.padding as u64,
    };
    assert(add_step(sorted, k as u64, payload, threshold).0 == Some(a));
    proof_filled_prefix(shards, k + 1, n);
    assert(set_wf(a));
    lemma_sets_wf_insert(rest, pos, id, a);
    let after = rest.insert(pos, (id, a));
    assert(after[pos].0 == id);
    assert(find_set(after, id) == Some(pos));
}

/// The number of filled slots once the first `k` fragments came.
proof fn proof_filled_prefix(shards: Seq<Seq<u8>>, k: nat, n: nat)
    requires
        k <= n,
        k <= shards.len(),
        forall|i: int| 0 <= i < k ==> #[trigger] shards[i].len() > 0,
    ensures
        filled(slots_upto(shards, k, n)) == k,
    decreases k,
{
    if k == 0 {
        lemma_filled_empty(n);
        assert(slots_upto(shards, 0, n) =~= Seq::new(n, |i: int| Seq::<u8>::empty()));
    } else {
        let j = (k - 1) as nat;
        proof_filled_prefix(shards, j, n);
        assert(slots_upto(shards, j, n).update(j as int, shards[j as int]) =~= slots_upto(
            shards,
            k,
            n,
        ));
        lemma_filled_update(slots_upto(shards, j, n), j as int, shards[j as int]);
    }
}


/// The first `k` data fragments of a packet, received in order; see
/// [`lemma_receive_data_fragment`].
proof fn lemma_receive_data_fragments(
    data: Seq<u8>,
    max_payload: nat,
    parity_count: nat,
    id: u64,
    w: TrailerWidths,
    sets: Seq<(u64, SetView)>,
    max_active: nat,
    threshold: u64,
    k: nat,
)
    requires
        0 < data.len() <= i64::MAX,
        max_payload > 0,
        id < w.id.modulus(),
        layout(data.len(), max_payload).data_count + parity_count < w.count.modulus(),
        layout(data.len(), max_payload).padding < w.padding.modulus(),
        1 <= k <= layout(data.len(), max_payload).data_count,
        sets_wf(sets),
        find_set(sets, id) is None,
    ensures
        ({
            let l = layout(data.len(), max_payload);
            let n = l.data_count + parity_count;
            let frags = fragments_of(data, max_payload, parity_count, id, w);
            let run = receive_run(
                sets,
                frags.take(k as int),
                w,
                max_active,
                l.data_count as u64,
                threshold,
            );
            &&& run.1.len() == k
            &&& sets_wf(run.0)
            &&& forall|j: int| 0 <= j < k && j + 1 < l.data_count ==> #[trigger] run.1[j] == AddOutcome::Keep
            &&& k < l.data_count ==> (find_set(run.0, id) matches Some(pos) && run.0[pos].1
                == SetView::Sorted {
                fragments: slots_upto(data_shards(data, l), k, n),
                size: l.fragment_size as u64,
                found: k as u64,
                target: l.data_count as u64,
                succeeded: false,
                padding: l.padding as u64,
            })
            &&& k == l.data_count ==> run.1[k - 1] == AddOutcome::Complete {
                fragments: slots_upto(data_shards(data, l), k, n),
                size: l.fragment_size as u64,
                target: l.data_count as u64,
                padding: l.padding as u64,
            }
        }),
    decreases k,
{
    let l = layout(data.len(), max_payload);
    let frags = fragments_of(data, max_payload, parity_count, id, w);
    let j = (k - 1) as nat;
    assert(frags.take(k as int).drop_last() =~= frags.take(j as int));
    assert(frags.take(k as int).last() == frags[j as int]);
    if k == 1 {
        assert(frags.take(0) =~= Seq::<Seq<u8>>::empty());
        lemma_receive_data_fragment(data, max_payload, parity_count, id, w, sets, max_active, threshold, 0);
    } else {
        lemma_receive_data_fragments(data, max_payload, parity_count, id, w, sets, max_active, threshold, j);
        let prev = receive_run(sets, frags.take(j as int), w, max_active, l.data_count as u64, threshold);
        lemma_receive_data_fragment(data, max_payload, parity_count, id, w, prev.0, max_active, threshold, j);
    }
}

/// What a packet's sender cuts, its receiver puts back: where the data
/// fragments of a set that [`Fragmenter::send`] would send come in order to
/// a receiver that has no set of their identifier, and the receiver counts
/// as many data fragments as the sender cut, each of them holds a fragment,
/// each but the last leaves the set waiting, and the last completes the set
/// with every data fragment in its slot, which one after the other without
/// the padding are the packet; with parity fragments, of sizes the field
/// takes, decoding takes the set. (Reassembly from other fragments goes
/// through Reed-Solomon decoding; see [`reassembled`].)
pub proof fn law_send_receive(
    data: Seq<u8>,
    max_payload: nat,
    parity_count: nat,
    id: u64,
    w: TrailerWidths,
    sets: Seq<(u64, SetView)>,
    max_active: nat,
    threshold: u64,
)
    requires
        0 < data.len() <= i64::MAX,
        max_payload > 0,
        id < w.id.modulus(),
        layout(data.len(), max_payload).data_count + parity_count < w.count.modulus(),
        layout(data.len(), max_payload).padding < w.padding.modulus(),
        sets_wf(sets),
        find_set(sets, id) is None,
    ensures
        ({
            let l = layout(data.len(), max_payload);
            let frags = fragments_of(data, max_payload, parity_count, id, w);
            let run = receive_run(
                sets,
                frags.take(l.data_count as int),
                w,
                max_active,
                l.data_count as u64,
                threshold,
            );
            &&& forall|k: int| 0 <= k < l.data_count ==> holds_fragment(#[trigger] frags[k], w)
            &&& run.1.len() == l.data_count
            &&& forall|k: int| 0 <= k < l.data_count - 1 ==> #[trigger] run.1[k] == AddOutcome::Keep
            &&& run.1.last() matches AddOutcome::Complete { fragments, size, target, padding }
                && target == l.data_count && data_slots_filled(fragments, target as nat)
                && unpadded(fragments, target as nat, padding) == data && (parity_count > 0 && (
                l.data_count + parity_count >= 256 ==> size % 2 == 0 && l.data_count
                    + parity_count <= 65536) ==> set_decodes(
                fragments,
                size,
                target as nat,
                parity_count,
                padding,
            ))
        }),
{
    let l = layout(data.len(), max_payload);
    let d = l.data_count;
    let n = d + parity_count;
    let fs = l.fragment_size;
    lemma_layout(data.len(), max_payload);
    lemma_data_shards_len(data, l);
    lemma_modulus(w.count);
    let shards = data_shards(data, l);
    let frags = fragments_of(data, max_payload, parity_count, id, w);
    assert forall|k: int| 0 <= k < d implies holds_fragment(#[trigger] frags[k], w) by {
        let info = SetInfo { padding: l.padding as u64, count: n as u64 };
        let t = FragmentTrailer {
            index: k as u64,
            id,
            complete: if k < parity_count + 1 {
                Some(info)
            } else {
                None
            },
        };
        assert((shards + parity_shards(shards, parity_count))[k] == shards[k]);
        assert(frags[k] == shards[k] + trailer_bytes(t, w));
        lemma_parse_sent(shards[k], t, w);
    }
    lemma_receive_data_fragments(data, max_payload, parity_count, id, w, sets, max_active, threshold, d);
    let slots = slots_upto(shards, d, n);
    assert(slots.take(d as int) =~= shards);
    let padded = data + Seq::new(l.padding, |i: int| 0u8);
    lemma_concat_shards(padded, fs, d);
    assert(shards =~= Seq::new(d, |i: int| padded.subrange(i * fs, (i + 1) * fs)));
    assert(padded.subrange(0, (d * fs) as int) =~= padded);
    assert(padded.take(data.len() as int) =~= data);
}

} // verus!
