//! Forward error correction of whole packets: a packet is cut into blocks,
//! each followed by Reed-Solomon parity bytes, so that the receiver can
//! correct bytes that were corrupted on the way.
//!
//! Every block on the wire holds 255 bytes, `ecc_len` of them parity, except
//! the last, which holds what is left of the packet and a number of parity
//! bytes of its own.

use vstd::prelude::*;

use crate::foreign::{ecc_correct, ecc_encode, ecc_parity};

verus! {

/// Why a packet could not be decoded.
#[derive(Debug)]
pub enum ECCRecvError<E> {
    /// A block held more errors than its parity bytes can correct, or fewer
    /// bytes than parity bytes.
    TooCorrupted,
    /// The layer below failed.
    ForwardError(E),
}

/// How many parity bytes go with a block. The application decides, with the
/// share of parity it was configured with.
pub trait EccSizing {
    /// The number of parity bytes in each full block of 255 bytes.
    spec fn block_ecc(&self) -> usize;

    /// The number of parity bytes for a last block of `data_len` bytes of
    /// data.
    spec fn tail_ecc(&self, data_len: usize) -> usize;

    /// The number of parity bytes in a received last block of `block_len`
    /// bytes.
    spec fn tail_ecc_within(&self, block_len: usize) -> usize;

    /// The number of parity bytes in each full block of 255 bytes.
    fn block_ecc_len(&self) -> (r: usize)
        ensures
            r == self.block_ecc(),
    ;

    /// The number of parity bytes for a last block of `data_len` bytes of
    /// data.
    fn tail_ecc_len(&self, data_len: usize) -> (r: usize)
        ensures
            r == self.tail_ecc(data_len),
    ;

    /// The number of parity bytes in a received last block of `block_len`
    /// bytes.
    fn tail_ecc_len_within(&self, block_len: usize) -> (r: usize)
        ensures
            r == self.tail_ecc_within(block_len),
    ;
}

/// No parity bytes at all: packets go through as they are.
pub struct NoParity;

impl EccSizing for NoParity {
    open spec fn block_ecc(&self) -> usize {
        0
    }

    open spec fn tail_ecc(&self, data_len: usize) -> usize {
        0
    }

    open spec fn tail_ecc_within(&self, block_len: usize) -> usize {
        0
    }

    fn block_ecc_len(&self) -> (r: usize) {
        0
    }

    fn tail_ecc_len(&self, data_len: usize) -> (r: usize) {
        0
    }

    fn tail_ecc_len_within(&self, block_len: usize) -> (r: usize) {
        0
    }
}

/// The `ecc_len` parity bytes of a block of data.
pub open spec fn parity_bytes(data: Seq<u8>, ecc_len: nat) -> Seq<u8> {
    Seq::new(ecc_len, |i: int| ecc_parity(data, ecc_len)[i])
}

/// The number of data bytes in a full block.
pub open spec fn block_payload(ecc_len: nat) -> nat {
    (255 - ecc_len) as nat
}

/// The packet can be encoded: a full block keeps room for data, and the last
/// block, where there is one, fits the encoder.
pub open spec fn encodable(len: nat, ecc_len: nat, tail_ecc: nat) -> bool {
    &&& ecc_len < 255
    &&& len % block_payload(ecc_len) != 0 ==> tail_ecc <= 255 && len % block_payload(ecc_len)
        + tail_ecc <= 256
}

/// The first `j` full blocks of `data`, each followed by its parity bytes.
pub open spec fn encoded_upto(data: Seq<u8>, ecc_len: nat, j: nat) -> Seq<u8>
    decreases j,
{
    if j == 0 {
        Seq::empty()
    } else {
        let k = block_payload(ecc_len);
        let chunk = data.subrange((j - 1) * k, (j * k) as int);
        encoded_upto(data, ecc_len, (j - 1) as nat) + chunk + parity_bytes(chunk, ecc_len)
    }
}

/// `data` encoded: its full blocks, each followed by `ecc_len` parity bytes,
/// then what is left, followed by `tail_ecc` parity bytes.
pub open spec fn encoded(data: Seq<u8>, ecc_len: nat, tail_ecc: nat) -> Seq<u8> {
    let k = block_payload(ecc_len);
    let n = data.len() / k;
    let tail = data.skip((n * k) as int);
    encoded_upto(data, ecc_len, n) + if tail.len() == 0 {
        Seq::empty()
    } else {
        tail + parity_bytes(tail, tail_ecc)
    }
}

/// The `i`-th full block of a message.
pub open spec fn block(msg: Seq<u8>, i: nat) -> Seq<u8> {
    msg.subrange((i * 255) as int, (i * 255 + 255) as int)
}

/// What is left of a message after its full blocks.
pub open spec fn tail_block(msg: Seq<u8>) -> Seq<u8> {
    msg.skip((msg.len() / 255 * 255) as int)
}

/// The decoder can take blocks with `ecc_len` parity bytes: while it
/// corrects one, it multiplies the `ecc_len + 1` syndromes by an error
/// locator of up to `ecc_len / 2 + 1` terms, and its polynomials hold at most
/// 256 terms.
pub open spec fn correctable_parity(ecc_len: nat) -> bool {
    ecc_len + ecc_len / 2 + 1 <= 256
}

/// The message can be decoded: every block holds at least its parity bytes,
/// and the decoder can take their numbers of parity bytes.
pub open spec fn decodable(len: nat, ecc_len: nat, tail_ecc: nat) -> bool {
    &&& len >= 255 ==> ecc_len <= 255 && correctable_parity(ecc_len)
    &&& tail_ecc <= len % 255 || len % 255 == 0
    &&& len % 255 != 0 ==> correctable_parity(tail_ecc)
}

/// The first `j` full blocks of `msg`, each corrected; `None` where one is
/// too corrupted.
pub open spec fn decoded_upto(msg: Seq<u8>, ecc_len: nat, j: nat) -> Option<Seq<u8>>
    decreases j,
{
    if j == 0 {
        Some(Seq::empty())
    } else {
        match decoded_upto(msg, ecc_len, (j - 1) as nat) {
            Some(p) => match ecc_corrected_block(block(msg, (j - 1) as nat), ecc_len) {
                Some(d) => Some(p + d),
                None => None,
            },
            None => None,
        }
    }
}

/// The data of a block that its decoder corrects.
pub open spec fn ecc_corrected_block(b: Seq<u8>, ecc_len: nat) -> Option<Seq<u8>> {
    crate::foreign::ecc_corrected(b, ecc_len)
}

/// `msg` decoded: the data of its full blocks, each with `ecc_len` parity
/// bytes, then that of its last block, with `tail_ecc` parity bytes; `None`
/// where a block is too corrupted.
pub open spec fn decoded(msg: Seq<u8>, ecc_len: nat, tail_ecc: nat) -> Option<Seq<u8>> {
    match decoded_upto(msg, ecc_len, msg.len() / 255) {
        Some(p) => if tail_block(msg).len() == 0 {
            Some(p)
        } else {
            match ecc_corrected_block(tail_block(msg), tail_ecc) {
                Some(d) => Some(p + d),
                None => None,
            }
        },
        None => None,
    }
}

/// The block is its data followed by the parity bytes of that data.
pub open spec fn is_codeword(b: Seq<u8>, ecc_len: nat) -> bool {
    &&& ecc_len <= b.len()
    &&& b.skip(b.len() - ecc_len) == parity_bytes(b.take(b.len() - ecc_len), ecc_len)
}

/// The data of a block with `ecc_len` parity bytes.
pub open spec fn block_data(b: Seq<u8>, ecc_len: nat) -> Seq<u8> {
    b.take(b.len() - ecc_len)
}

/// Every block of the message is a codeword.
pub open spec fn codewords(msg: Seq<u8>, ecc_len: nat, tail_ecc: nat) -> bool {
    &&& forall|i: nat| i < msg.len() / 255 ==> is_codeword(#[trigger] block(msg, i), ecc_len)
    &&& tail_block(msg).len() > 0 ==> is_codeword(tail_block(msg), tail_ecc)
}

/// The data of the first `j` blocks of a message of codewords.
pub open spec fn codeword_data_upto(msg: Seq<u8>, ecc_len: nat, j: nat) -> Seq<u8>
    decreases j,
{
    if j == 0 {
        Seq::empty()
    } else {
        codeword_data_upto(msg, ecc_len, (j - 1) as nat) + block_data(
            block(msg, (j - 1) as nat),
            ecc_len,
        )
    }
}

/// The data of a message of codewords.
pub open spec fn codeword_data(msg: Seq<u8>, ecc_len: nat, tail_ecc: nat) -> Seq<u8> {
    codeword_data_upto(msg, ecc_len, msg.len() / 255) + if tail_block(msg).len() == 0 {
        Seq::empty()
    } else {
        block_data(tail_block(msg), tail_ecc)
    }
}

/// `r` is what encoding `data` gives: `None` where the sizes do not fit the
/// encoder, otherwise the encoding.
pub open spec fn encodes_as(data: Seq<u8>, ecc_len: nat, tail_ecc: nat, r: Option<Vec<u8>>) -> bool {
    &&& r is Some <==> encodable(data.len(), ecc_len, tail_ecc)
    &&& (r matches Some(v) ==> v@ == encoded(data, ecc_len, tail_ecc))
}

/// `r` is what decoding `msg` gives: too corrupted where a block holds fewer
/// bytes than parity bytes or its decoder fails, otherwise the corrected
/// data; a message of codewords gives back their data.
pub open spec fn decodes_as<E>(
    msg: Seq<u8>,
    ecc_len: nat,
    tail_ecc: nat,
    r: Result<Vec<u8>, ECCRecvError<E>>,
) -> bool {
    &&& !decodable(msg.len(), ecc_len, tail_ecc) ==> (r matches Err(ECCRecvError::TooCorrupted))
    &&& decodable(msg.len(), ecc_len, tail_ecc) ==> match r {
        Ok(d) => decoded(msg, ecc_len, tail_ecc) == Some(d@),
        Err(e) => (e is TooCorrupted) && decoded(msg, ecc_len, tail_ecc) is None,
    }
    &&& decodable(msg.len(), ecc_len, tail_ecc) && codewords(msg, ecc_len, tail_ecc) ==> (r matches Ok(
        d,
    ) && d@ == codeword_data(msg, ecc_len, tail_ecc))
}

/// Encodes a packet: full blocks of `255 - ecc_len` bytes of data, each
/// followed by `ecc_len` parity bytes, and what is left followed by
/// `tail_ecc` parity bytes. `None` where the sizes do not fit the encoder.
pub fn encode_blocks(data: &[u8], ecc_len: usize, tail_ecc: usize) -> (r: Option<Vec<u8>>)
    ensures
        encodes_as(data@, ecc_len as nat, tail_ecc as nat, r),
{
    if ecc_len >= 255 {
        return None;
    }
    let k = 255 - ecc_len;
    let len = data.len();
    let n = data.len() / k;
    let rem = data.len() % k;
    if rem != 0 && (tail_ecc > 255 || rem + tail_ecc > 256) {
        return None;
    }
    let mut out: Vec<u8> = Vec::new();
    let mut j: usize = 0;
    while j < n
        invariant
            0 <= j <= n,
            k == 255 - ecc_len,
            ecc_len < 255,
            len == data@.len(),
            n == data@.len() / (k as nat),
            out@ == encoded_upto(data@, ecc_len as nat, j as nat),
        decreases n - j,
    {
        proof {
            lemma_block_bounds(data@.len(), k as nat, j as nat);
        }
        let chunk = vstd::slice::slice_subrange(data, j * k, j * k + k);
        let mut enc = ecc_encode(ecc_len, chunk);
        proof {
            assert(parity_bytes(chunk@, ecc_len as nat) =~= ecc_parity(chunk@, ecc_len as nat));
        }
        let ghost before = out@;
        out.append(&mut enc);
        proof {
            assert(out@ =~= before + chunk@ + parity_bytes(chunk@, ecc_len as nat));
            assert(j * k + k == (j + 1) * k) by (nonlinear_arith);
        }
        j = j + 1;
    }
    proof {
        lemma_tail_bounds(data@.len(), k as nat);
    }
    if rem != 0 {
        let tail = vstd::slice::slice_subrange(data, n * k, data.len());
        let mut enc = ecc_encode(tail_ecc, tail);
        proof {
            assert(parity_bytes(tail@, tail_ecc as nat) =~= ecc_parity(tail@, tail_ecc as nat));
        }
        let ghost before = out@;
        out.append(&mut enc);
        proof {
            assert(tail@ =~= data@.skip((n * k) as int));
            assert(out@ =~= before + (tail@ + parity_bytes(tail@, tail_ecc as nat)));
        }
    } else {
        proof {
            assert(data@.skip((n * k) as int).len() == 0);
            assert(out@ =~= out@ + Seq::<u8>::empty());
        }
    }
    Some(out)
}

/// The `j`-th block of `k` bytes lies within the data.
proof fn lemma_block_bounds(len: nat, k: nat, j: nat)
    requires
        k > 0,
        j < len / k,
    ensures
        j * k + k <= len,
        j * k + k == (j + 1) * k,
{
    assert(j * k + k == (j + 1) * k) by (nonlinear_arith);
    assert((j + 1) * k <= (len / k) * k) by (nonlinear_arith)
        requires
            j + 1 <= len / k,
    ;
    vstd::arithmetic::div_mod::lemma_fundamental_div_mod(len as int, k as int);
}

/// The full blocks of `k` bytes and what is left make up the data.
proof fn lemma_tail_bounds(len: nat, k: nat)
    requires
        k > 0,
    ensures
        (len / k) * k + len % k == len,
        (len / k) * k <= len,
{
    vstd::arithmetic::div_mod::lemma_fundamental_div_mod(len as int, k as int);
    assert((len / k) * k == k * (len / k)) by (nonlinear_arith);
}

/// Decodes a message: its full blocks of 255 bytes with `ecc_len` parity
/// bytes each, then its last block with `tail_ecc` parity bytes. A block that
/// its decoder cannot correct, or that holds fewer bytes than parity bytes,
/// makes the message too corrupted. A message of codewords gives back their
/// data.
pub fn decode_blocks<E>(msg: &[u8], ecc_len: usize, tail_ecc: usize) -> (r: Result<
    Vec<u8>,
    ECCRecvError<E>,
>)
    ensures
        decodes_as(msg@, ecc_len as nat, tail_ecc as nat, r),
{
    let len = msg.len();
    let n = msg.len() / 255;
    let rem = msg.len() % 255;
    if (n > 0 && ecc_len > 170) || (rem != 0 && (tail_ecc > rem || tail_ecc > 170)) {
        return Err(ECCRecvError::TooCorrupted);
    }
    let ghost cw = codewords(msg@, ecc_len as nat, tail_ecc as nat);
    let mut out: Vec<u8> = Vec::new();
    let mut j: usize = 0;
    while j < n
        invariant
            0 <= j <= n,
            len == msg@.len(),
            n == msg@.len() / 255,
            n > 0 ==> ecc_len <= 170,
            cw == codewords(msg@, ecc_len as nat, tail_ecc as nat),
            decoded_upto(msg@, ecc_len as nat, j as nat) == Some(out@),
            cw ==> out@ == codeword_data_upto(msg@, ecc_len as nat, j as nat),
        decreases n - j,
    {
        proof {
            lemma_block_bounds(msg@.len(), 255, j as nat);
        }
        let b = vstd::slice::slice_subrange(msg, j * 255, j * 255 + 255);
        proof {
            assert(b@ == block(msg@, j as nat));
            if cw {
                assert(is_codeword(block(msg@, j as nat), ecc_len as nat));
            }
        }
        match ecc_correct(ecc_len, b) {
            Some(mut d) => {
                let ghost before = out@;
                let ghost dv = d@;
                out.append(&mut d);
                proof {
                    assert(out@ =~= before + dv);
                }
            },
            None => {
                proof {
                    lemma_decoded_upto_none(msg@, ecc_len as nat, (j + 1) as nat, n as nat);
                }
                return Err(ECCRecvError::TooCorrupted);
            },
        }
        j = j + 1;
    }
    proof {
        lemma_tail_bounds(msg@.len(), 255);
    }
    if rem != 0 {
        let t = vstd::slice::slice_subrange(msg, n * 255, msg.len());
        proof {
            assert(t@ =~= tail_block(msg@));
        }
        match ecc_correct(tail_ecc, t) {
            Some(mut d) => {
                let ghost before = out@;
                let ghost dv = d@;
                out.append(&mut d);
                proof {
                    assert(out@ =~= before + dv);
                }
            },
            None => {
                return Err(ECCRecvError::TooCorrupted);
            },
        }
    } else {
        proof {
            assert(tail_block(msg@).len() == 0);
            assert(out@ =~= out@ + Seq::<u8>::empty());
        }
    }
    Ok(out)
}

/// Once a block fails, so does every longer prefix.
proof fn lemma_decoded_upto_none(msg: Seq<u8>, ecc_len: nat, j: nat, n: nat)
    requires
        j <= n,
        decoded_upto(msg, ecc_len, j) is None,
    ensures
        decoded_upto(msg, ecc_len, n) is None,
    decreases n - j,
{
    if j < n {
        lemma_decoded_upto_none(msg, ecc_len, j + 1, n);
    }
}


/// The `i`-th full block of data of a packet, `k` bytes each.
pub open spec fn chunk(data: Seq<u8>, k: nat, i: nat) -> Seq<u8> {
    data.subrange((i * k) as int, ((i + 1) * k) as int)
}

proof fn lemma_chunk_bounds(len: nat, k: nat, i: nat, n: nat)
    requires
        k > 0,
        i < n,
        n == len / k,
    ensures
        (i + 1) * k <= n * k,
        n * k <= len,
        i * k + k == (i + 1) * k,
        0 <= i * k,
{
    assert((i + 1) * k <= n * k) by (nonlinear_arith)
        requires
            i + 1 <= n,
            k > 0,
    ;
    assert(i * k + k == (i + 1) * k) by (nonlinear_arith);
    assert(0 <= i * k) by (nonlinear_arith);
    lemma_tail_bounds(len, k);
}

/// The first `j` blocks of the encoding are `255` bytes each, every one the
/// data of its block followed by the parity bytes of that data.
proof fn lemma_encoded_upto(data: Seq<u8>, ecc_len: nat, j: nat)
    requires
        ecc_len < 255,
        j <= data.len() / block_payload(ecc_len),
    ensures
        encoded_upto(data, ecc_len, j).len() == j * 255,
        forall|i: nat|
            i < j ==> #[trigger] encoded_upto(data, ecc_len, j).subrange(
                (i * 255) as int,
                (i * 255 + 255) as int,
            ) == chunk(data, block_payload(ecc_len), i) + parity_bytes(
                chunk(data, block_payload(ecc_len), i),
                ecc_len,
            ),
    decreases j,
{
    let k = block_payload(ecc_len);
    if j > 0 {
        let p = (j - 1) as nat;
        lemma_encoded_upto(data, ecc_len, p);
        lemma_chunk_bounds(data.len(), k, p, data.len() / k);
        let prev = encoded_upto(data, ecc_len, p);
        let c = chunk(data, k, p);
        assert(c == data.subrange((j - 1) * k, (j * k) as int));
        let e = encoded_upto(data, ecc_len, j);
        assert(e == prev + c + parity_bytes(c, ecc_len));
        assert(c.len() == k);
        assert forall|i: nat| i < j implies #[trigger] e.subrange(
            (i * 255) as int,
            (i * 255 + 255) as int,
        ) == chunk(data, k, i) + parity_bytes(chunk(data, k, i), ecc_len) by {
            if i < p {
                assert(e.subrange((i * 255) as int, (i * 255 + 255) as int) =~= prev.subrange(
                    (i * 255) as int,
                    (i * 255 + 255) as int,
                ));
            } else {
                assert(e.subrange((i * 255) as int, (i * 255 + 255) as int) =~= c + parity_bytes(
                    c,
                    ecc_len,
                ));
            }
        }
    }
}

/// The data of the first `j` blocks of a message whose blocks are those of
/// the encoding of `data` is the first `j` blocks of `data`.
proof fn lemma_codeword_data_upto(msg: Seq<u8>, data: Seq<u8>, ecc_len: nat, j: nat)
    requires
        ecc_len < 255,
        j <= data.len() / block_payload(ecc_len),
        forall|i: nat|
            i < j ==> #[trigger] block(msg, i) == chunk(data, block_payload(ecc_len), i)
                + parity_bytes(chunk(data, block_payload(ecc_len), i), ecc_len),
    ensures
        codeword_data_upto(msg, ecc_len, j) == data.take((j * block_payload(ecc_len)) as int),
    decreases j,
{
    let k = block_payload(ecc_len);
    if j == 0 {
        assert(data.take(0) =~= Seq::<u8>::empty());
    } else {
        let p = (j - 1) as nat;
        lemma_codeword_data_upto(msg, data, ecc_len, p);
        lemma_chunk_bounds(data.len(), k, p, data.len() / k);
        let c = chunk(data, k, p);
        assert(block(msg, p) == c + parity_bytes(c, ecc_len));
        assert(block_data(block(msg, p), ecc_len) =~= c);
        assert(data.take((j * k) as int) =~= data.take((p * k) as int) + c);
    }
}

/// What the encoder writes, the decoder reads back: a packet encoded with
/// `ecc_len` parity bytes per full block and `tail_ecc` for its last block,
/// the last block being shorter than a full one and both parity counts ones
/// that the decoder can take, is a message of codewords that the decoder,
/// counting the same parity bytes, can decode, and their data is the
/// packet. (That it also survives corrupted bytes rests on Reed-Solomon
/// decoding.)
pub proof fn law_ecc_roundtrip(data: Seq<u8>, ecc_len: nat, tail_ecc: nat)
    requires
        encodable(data.len(), ecc_len, tail_ecc),
        data.len() % block_payload(ecc_len) != 0 ==> data.len() % block_payload(ecc_len)
            + tail_ecc < 255,
        data.len() >= block_payload(ecc_len) ==> correctable_parity(ecc_len),
        data.len() % block_payload(ecc_len) != 0 ==> correctable_parity(tail_ecc),
    ensures
        ({
            let msg = encoded(data, ecc_len, tail_ecc);
            let rem = data.len() % block_payload(ecc_len);
            &&& decodable(msg.len(), ecc_len, tail_ecc)
            &&& codewords(msg, ecc_len, tail_ecc)
            &&& codeword_data(msg, ecc_len, tail_ecc) == data
            &&& tail_block(msg).len() == if rem == 0 {
                0
            } else {
                rem + tail_ecc
            }
        }),
{
    let k = block_payload(ecc_len);
    let n = data.len() / k;
    let rem = data.len() % k;
    lemma_tail_bounds(data.len(), k);
    lemma_encoded_upto(data, ecc_len, n);
    let e = encoded_upto(data, ecc_len, n);
    let tail = data.skip((n * k) as int);
    let msg = encoded(data, ecc_len, tail_ecc);
    let t = if tail.len() == 0 {
        Seq::<u8>::empty()
    } else {
        tail + parity_bytes(tail, tail_ecc)
    };
    assert(msg == e + t);
    assert(tail.len() == rem);
    assert(t.len() < 255);
    assert(msg.len() / 255 == n && msg.len() % 255 == t.len()) by {
        vstd::arithmetic::div_mod::lemma_fundamental_div_mod_converse(
            msg.len() as int,
            255,
            n as int,
            t.len() as int,
        );
    }
    assert forall|i: nat| i < n implies #[trigger] block(msg, i) == chunk(data, k, i) + parity_bytes(
        chunk(data, k, i),
        ecc_len,
    ) by {
        assert(block(msg, i) =~= e.subrange((i * 255) as int, (i * 255 + 255) as int));
    }
    assert forall|i: nat| i < msg.len() / 255 implies is_codeword(#[trigger] block(msg, i), ecc_len) by {
        let c = chunk(data, k, i);
        lemma_chunk_bounds(data.len(), k, i, n);
        assert(c.len() == k);
        assert(block(msg, i) == c + parity_bytes(c, ecc_len));
        assert(block(msg, i).take(k as int) =~= c);
        assert(block(msg, i).skip(k as int) =~= parity_bytes(c, ecc_len));
    }
    assert(tail_block(msg) =~= t);
    lemma_codeword_data_upto(msg, data, ecc_len, n);
    if rem != 0 {
        assert(t.take(rem as int) =~= tail);
        assert(t.skip(rem as int) =~= parity_bytes(tail, tail_ecc));
        assert(data =~= data.take((n * k) as int) + tail);
    } else {
        assert(data =~= data.take((n * k) as int));
    }
}


/// The number of data bytes in the last block of a packet of `len` bytes,
/// with `ecc_len` parity bytes in each full block: what is left after the
/// full blocks.
pub fn tail_data_len(len: usize, ecc_len: usize) -> (r: usize)
    requires
        ecc_len < 255,
    ensures
        r == len as nat % block_payload(ecc_len as nat),
{
    len % (255 - ecc_len)
}

/// The number of bytes in the last, shorter block of `len` received bytes:
/// what is left after the full blocks of 255 bytes.
pub fn tail_block_len(len: usize) -> (r: usize)
    ensures
        r == len as nat % 255,
{
    len % 255
}

/// Corrects corrupted bytes of the packets of the layer below: each packet
/// goes as blocks of data and parity bytes.
pub struct ECC<T, R> {
    pub forward: T,
    ecc_len: usize,
    sizing: R,
}

impl<T, R: EccSizing> ECC<T, R> {
    /// The number of parity bytes in each full block.
    pub closed spec fn block_parity(&self) -> nat {
        self.ecc_len as nat
    }

    /// The layer below.
    pub closed spec fn next_layer(&self) -> T {
        self.forward
    }

    /// The parity counts.
    pub closed spec fn sizing_of(&self) -> R {
        self.sizing
    }

    /// The number of parity bytes for the last block of a packet of `len`
    /// bytes: what the sizing counts for the data left after the full
    /// blocks, none where there is none.
    pub open spec fn tail_parity(&self, len: nat) -> nat {
        if self.block_parity() < 255 && len % block_payload(self.block_parity()) != 0 {
            self.sizing_of().tail_ecc((len % block_payload(self.block_parity())) as usize) as nat
        } else {
            0
        }
    }

    /// The number of parity bytes in the last block of a message of `len`
    /// bytes: what the sizing counts within it, none where there is none.
    pub open spec fn tail_parity_within(&self, len: nat) -> nat {
        if len % 255 != 0 {
            self.sizing_of().tail_ecc_within((len % 255) as usize) as nat
        } else {
            0
        }
    }

    /// A layer above `forward`, with the parity counts of `sizing`.
    pub fn new(sizing: R, forward: T) -> (r: Self)
        ensures
            r.next_layer() == forward,
            r.sizing_of() == sizing,
            r.block_parity() == sizing.block_ecc(),
    {
        let ecc_len = sizing.block_ecc_len();
        ECC { forward, ecc_len, sizing }
    }

    /// The same layer above another one.
    pub fn map<V>(self, new: V) -> (r: ECC<V, R>)
        ensures
            r.next_layer() == new,
            r.block_parity() == self.block_parity(),
            r.sizing_of() == self.sizing_of(),
    {
        ECC { forward: new, ecc_len: self.ecc_len, sizing: self.sizing }
    }

    /// The blocks to send for a packet ([`encode_blocks`]), with as many
    /// parity bytes for its last block as the sizing counts for it.
    pub fn encode(&self, data: &[u8]) -> (r: Option<Vec<u8>>)
        ensures
            encodes_as(data@, self.block_parity(), self.tail_parity(data@.len()), r),
    {
        let tail_ecc = if self.ecc_len < 255 {
            let tail = tail_data_len(data.len(), self.ecc_len);
            if tail != 0 {
                self.sizing.tail_ecc_len(tail)
            } else {
                0
            }
        } else {
            0
        };
        encode_blocks(data, self.ecc_len, tail_ecc)
    }

    /// The packet that received blocks carry ([`decode_blocks`]), with as
    /// many parity bytes in its last block as the sizing counts within it.
    pub fn decode<E>(&self, msg: &[u8]) -> (r: Result<Vec<u8>, ECCRecvError<E>>)
        ensures
            decodes_as(msg@, self.block_parity(), self.tail_parity_within(msg@.len()), r),
    {
        let tail = tail_block_len(msg.len());
        let tail_ecc = if tail != 0 {
            self.sizing.tail_ecc_len_within(tail)
        } else {
            0
        };
        decode_blocks(msg, self.ecc_len, tail_ecc)
    }
}

} // verus!
