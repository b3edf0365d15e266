//! Unsigned integers of a chosen width (1, 2, 4 or 8 bytes) and their
//! big-endian byte encodings, as used in packet headers and trailers.

use vstd::prelude::*;

use crate::foreign::{array1_try_from, bytes_mut_contents, bytes_mut_extend_from_slice};

verus! {

/// The unsigned value of a byte sequence read in big-endian order.
pub open spec fn be_value(s: Seq<u8>) -> nat
    decreases s.len(),
{
    if s.len() == 0 {
        0
    } else {
        be_value(s.drop_last()) * 256 + s.last() as nat
    }
}

/// The width of an unsigned integer.
#[derive(Clone, Copy, Debug, Hash, PartialEq, Eq, Structural)]
pub enum UIntVariant {
    U8,
    U16,
    U32,
    U64,
}

/// An unsigned integer together with its width.
#[derive(Clone, Copy, Debug, Hash, PartialEq, Eq, Structural)]
pub enum UInt {
    U8(u8),
    U16(u16),
    U32(u32),
    U64(u64),
}

/// The big-endian bytes of a [`UInt`], as many as its width.
#[derive(Clone, Copy, Debug, Hash, PartialEq, Eq)]
pub enum UIntBeBytes {
    U8([u8; 1]),
    U16([u8; 2]),
    U32([u8; 4]),
    U64([u8; 8]),
}

impl UIntVariant {
    /// Number of bytes of this width.
    pub open spec fn byte_len(self) -> nat {
        match self {
            UIntVariant::U8 => 1,
            UIntVariant::U16 => 2,
            UIntVariant::U32 => 4,
            UIntVariant::U64 => 8,
        }
    }

    /// Largest value of this width.
    pub open spec fn max(self) -> nat {
        match self {
            UIntVariant::U8 => 0xff,
            UIntVariant::U16 => 0xffff,
            UIntVariant::U32 => 0xffff_ffff,
            UIntVariant::U64 => 0xffff_ffff_ffff_ffff,
        }
    }

    /// Number of values of this width (`max + 1`).
    pub open spec fn modulus(self) -> nat {
        match self {
            UIntVariant::U8 => 0x100,
            UIntVariant::U16 => 0x1_0000,
            UIntVariant::U32 => 0x1_0000_0000,
            UIntVariant::U64 => 0x1_0000_0000_0000_0000,
        }
    }

    pub fn size(self) -> (r: usize)
        ensures
            r == self.byte_len(),
    {
        match self {
            UIntVariant::U8 => 1,
            UIntVariant::U16 => 2,
            UIntVariant::U32 => 4,
            UIntVariant::U64 => 8,
        }
    }

    /// `num` truncated to this width.
    pub fn with_u64(self, num: u64) -> (r: UInt)
        ensures
            r.variant() == self,
            r.value() == num as nat % self.modulus(),
    {
        match self {
            UIntVariant::U8 => {
                UInt::U8((num % 0x100) as u8)
            },
            UIntVariant::U16 => UInt::U16((num % 0x1_0000) as u16),
            UIntVariant::U32 => UInt::U32((num % 0x1_0000_0000) as u32),
            UIntVariant::U64 => UInt::U64(num),
        }
    }

    /// Reads a big-endian integer from a slice of 1, 2, 4 or 8 bytes.
    ///
    /// The width of the result is the slice's length, whatever `self` is;
    /// a slice of any other length is an error.
    pub fn try_with_slice(self, slice: &[u8]) -> (r: Result<UInt, core::array::TryFromSliceError>)
        ensures
            r is Ok <==> (slice@.len() == 1 || slice@.len() == 2 || slice@.len() == 4
                || slice@.len() == 8),
            r matches Ok(u) ==> u.variant().byte_len() == slice@.len() && u.value() == be_value(
                slice@,
            ),
    {
        let len = slice.len();
        if len == 1 {
            let b = UIntBeBytes::U8([slice[0]]);
            proof {
                assert(b.bytes() =~= slice@);
            }
            Ok(b.to_uint())
        } else if len == 2 {
            let b = UIntBeBytes::U16([slice[0], slice[1]]);
            proof {
                assert(b.bytes() =~= slice@);
            }
            Ok(b.to_uint())
        } else if len == 4 {
            let b = UIntBeBytes::U32([slice[0], slice[1], slice[2], slice[3]]);
            proof {
                assert(b.bytes() =~= slice@);
            }
            Ok(b.to_uint())
        } else if len == 8 {
            let b = UIntBeBytes::U64(
                [slice[0], slice[1], slice[2], slice[3], slice[4], slice[5], slice[6], slice[7]],
            );
            proof {
                assert(b.bytes() =~= slice@);
            }
            Ok(b.to_uint())
        } else {
            match array1_try_from(slice) {
                Ok(a) => Ok(UIntBeBytes::U8(a).to_uint()),
                Err(e) => Err(e),
            }
        }
    }

    /// The largest value of this width.
    pub fn max_value(self) -> (r: UInt)
        ensures
            r.variant() == self,
            r.value() == self.max(),
    {
        match self {
            UIntVariant::U8 => UInt::U8(u8::MAX),
            UIntVariant::U16 => UInt::U16(u16::MAX),
            UIntVariant::U32 => UInt::U32(u32::MAX),
            UIntVariant::U64 => UInt::U64(u64::MAX),
        }
    }
}

impl UInt {
    /// The integer's value.
    pub open spec fn value(self) -> nat {
        match self {
            UInt::U8(v) => v as nat,
            UInt::U16(v) => v as nat,
            UInt::U32(v) => v as nat,
            UInt::U64(v) => v as nat,
        }
    }

    /// The integer's width.
    pub open spec fn variant(self) -> UIntVariant {
        match self {
            UInt::U8(_) => UIntVariant::U8,
            UInt::U16(_) => UIntVariant::U16,
            UInt::U32(_) => UIntVariant::U32,
            UInt::U64(_) => UIntVariant::U64,
        }
    }

    pub proof fn lemma_value_bound(self)
        ensures
            self.value() <= self.variant().max(),
    {
    }

    pub fn to_u64(self) -> (r: u64)
        ensures
            r == self.value(),
    {
        match self {
            UInt::U8(v) => v as u64,
            UInt::U16(v) => v as u64,
            UInt::U32(v) => v as u64,
            UInt::U64(v) => v,
        }
    }

    /// The big-endian encoding of the integer, as wide as the integer.
    pub fn to_be_bytes(self) -> (r: UIntBeBytes)
        ensures
            r.variant() == self.variant(),
            r.bytes().len() == self.variant().byte_len(),
            be_value(r.bytes()) == self.value(),
    {
        match self {
            UInt::U8(v) => {
                let r = UIntBeBytes::U8([v]);
                proof {
                    lemma_be_value_1(r.bytes());
                }
                r
            },
            UInt::U16(v) => {
                let r = UIntBeBytes::U16([(v >> 8) as u8, v as u8]);
                proof {
                    lemma_be_value_2(r.bytes());
                    assert(((v >> 8) as u8) as nat * 0x100 + (v as u8) as nat == v as nat)
                        by (bit_vector);
                }
                r
            },
            UInt::U32(v) => {
                let r = UIntBeBytes::U32(
                    [(v >> 24) as u8, (v >> 16) as u8, (v >> 8) as u8, v as u8],
                );
                proof {
                    lemma_be_value_4(r.bytes());
                    assert(((v >> 24) as u8) as nat * 0x100_0000 + ((v >> 16) as u8) as nat
                        * 0x1_0000 + ((v >> 8) as u8) as nat * 0x100 + (v as u8) as nat
                        == v as nat) by (bit_vector);
                }
                r
            },
            UInt::U64(v) => {
                let r = UIntBeBytes::U64(
                    [
                        (v >> 56) as u8,
                        (v >> 48) as u8,
                        (v >> 40) as u8,
                        (v >> 32) as u8,
                        (v >> 24) as u8,
                        (v >> 16) as u8,
                        (v >> 8) as u8,
                        v as u8,
                    ],
                );
                proof {
                    lemma_be_value_8(r.bytes());
                    assert(((v >> 56) as u8) as nat * 0x100_0000_0000_0000 + ((v >> 48) as u8) as nat
                        * 0x1_0000_0000_0000 + ((v >> 40) as u8) as nat * 0x100_0000_0000
                        + ((v >> 32) as u8) as nat * 0x1_0000_0000 + ((v >> 24) as u8) as nat
                        * 0x100_0000 + ((v >> 16) as u8) as nat * 0x1_0000 + ((v >> 8) as u8) as nat
                        * 0x100 + (v as u8) as nat == v as nat) by (bit_vector);
                }
                r
            },
        }
    }

    /// Appends the big-endian encoding of the integer to a byte buffer.
    pub(crate) fn extend_bytes_mut(self, bytes: &mut bytes::BytesMut)
        ensures
            appended_be(bytes_mut_contents(*old(bytes)), bytes_mut_contents(*final(bytes)), self),
    {
        self.to_be_bytes().extend_bytes_mut(bytes)
    }

    pub fn size(self) -> (r: usize)
        ensures
            r == self.variant().byte_len(),
    {
        match self {
            UInt::U8(_) => 1,
            UInt::U16(_) => 2,
            UInt::U32(_) => 4,
            UInt::U64(_) => 8,
        }
    }

    pub fn to_variant(self) -> (r: UIntVariant)
        ensures
            r == self.variant(),
    {
        match self {
            UInt::U8(_) => UIntVariant::U8,
            UInt::U16(_) => UIntVariant::U16,
            UInt::U32(_) => UIntVariant::U32,
            UInt::U64(_) => UIntVariant::U64,
        }
    }

    /// `value` truncated to the width of `self`.
    pub fn with_u64(self, value: u64) -> (r: Self)
        ensures
            r.variant() == self.variant(),
            r.value() == value as nat % self.variant().modulus(),
    {
        self.to_variant().with_u64(value)
    }

    /// `value` in the narrowest width that holds it.
    pub fn fit_u64(value: u64) -> (r: Self)
        ensures
            r.value() == value,
            r.variant() == narrowest_variant(value as nat),
    {
        if value <= u8::MAX as u64 {
            UInt::U8(value as u8)
        } else if value <= u16::MAX as u64 {
            UInt::U16(value as u16)
        } else if value <= u32::MAX as u64 {
            UInt::U32(value as u32)
        } else {
            UInt::U64(value)
        }
    }

    /// Reads a big-endian integer from a slice; see [`UIntVariant::try_with_slice`].
    pub(crate) fn try_with_slice(self, fragment_count_slice: &[u8]) -> (r: Result<
        Self,
        core::array::TryFromSliceError,
    >)
        ensures
            r is Ok <==> (fragment_count_slice@.len() == 1 || fragment_count_slice@.len() == 2
                || fragment_count_slice@.len() == 4 || fragment_count_slice@.len() == 8),
            r matches Ok(u) ==> u.variant().byte_len() == fragment_count_slice@.len() && u.value()
                == be_value(fragment_count_slice@),
    {
        self.to_variant().try_with_slice(fragment_count_slice)
    }
}

/// The narrowest width that holds `value`.
pub open spec fn narrowest_variant(value: nat) -> UIntVariant {
    if value <= 0xff {
        UIntVariant::U8
    } else if value <= 0xffff {
        UIntVariant::U16
    } else if value <= 0xffff_ffff {
        UIntVariant::U32
    } else {
        UIntVariant::U64
    }
}

/// `after` is `before` followed by the big-endian encoding of `u`, as wide as `u`
/// (by [`lemma_be_value_injective`] there is only one such encoding).
pub open spec fn appended_be(before: Seq<u8>, after: Seq<u8>, u: UInt) -> bool {
    &&& after.len() == before.len() + u.variant().byte_len()
    &&& after.subrange(0, before.len() as int) == before
    &&& be_value(after.subrange(before.len() as int, after.len() as int)) == u.value()
}

/// Two byte strings of equal length with the same big-endian value are equal.
pub proof fn lemma_be_value_injective(s: Seq<u8>, t: Seq<u8>)
    requires
        s.len() == t.len(),
        be_value(s) == be_value(t),
    ensures
        s == t,
    decreases s.len(),
{
    if s.len() > 0 {
        let a = be_value(s.drop_last());
        let b = be_value(t.drop_last());
        let x = s.last() as int;
        let y = t.last() as int;
        assert(x == y && a == b) by (nonlinear_arith)
            requires
                a * 256 + x == b * 256 + y,
                0 <= x < 256,
                0 <= y < 256,
                a >= 0,
                b >= 0,
        ;
        lemma_be_value_injective(s.drop_last(), t.drop_last());
        assert(s =~= s.drop_last().push(s.last()));
        assert(t =~= t.drop_last().push(t.last()));
    }
}

impl UIntBeBytes {
    /// The bytes, most significant first.
    pub open spec fn bytes(self) -> Seq<u8> {
        match self {
            UIntBeBytes::U8(b) => b@,
            UIntBeBytes::U16(b) => b@,
            UIntBeBytes::U32(b) => b@,
            UIntBeBytes::U64(b) => b@,
        }
    }

    /// The width the bytes encode.
    pub open spec fn variant(self) -> UIntVariant {
        match self {
            UIntBeBytes::U8(_) => UIntVariant::U8,
            UIntBeBytes::U16(_) => UIntVariant::U16,
            UIntBeBytes::U32(_) => UIntVariant::U32,
            UIntBeBytes::U64(_) => UIntVariant::U64,
        }
    }

    /// The integer these bytes encode.
    pub open spec fn to_uint_spec(self) -> UInt {
        match self {
            UIntBeBytes::U8(_) => UInt::U8(be_value(self.bytes()) as u8),
            UIntBeBytes::U16(_) => UInt::U16(be_value(self.bytes()) as u16),
            UIntBeBytes::U32(_) => UInt::U32(be_value(self.bytes()) as u32),
            UIntBeBytes::U64(_) => UInt::U64(be_value(self.bytes()) as u64),
        }
    }

    pub proof fn lemma_to_uint_spec(self)
        ensures
            self.to_uint_spec().value() == be_value(self.bytes()),
            self.to_uint_spec().variant() == self.variant(),
    {
        match self {
            UIntBeBytes::U8(b) => lemma_be_value_1(b@),
            UIntBeBytes::U16(b) => lemma_be_value_2(b@),
            UIntBeBytes::U32(b) => lemma_be_value_4(b@),
            UIntBeBytes::U64(b) => lemma_be_value_8(b@),
        }
    }

    /// The integer these bytes encode.
    pub fn to_uint(self) -> (r: UInt)
        ensures
            r.variant() == self.variant(),
            r.value() == be_value(self.bytes()),
    {
        match self {
            UIntBeBytes::U8(b) => {
                proof {
                    lemma_be_value_1(b@);
                }
                UInt::U8(b[0])
            },
            UIntBeBytes::U16(b) => {
                proof {
                    lemma_be_value_2(b@);
                }
                UInt::U16((b[0] as u16) * 0x100 + b[1] as u16)
            },
            UIntBeBytes::U32(b) => {
                proof {
                    lemma_be_value_4(b@);
                }
                UInt::U32(
                    (b[0] as u32) * 0x100_0000 + (b[1] as u32) * 0x1_0000 + (b[2] as u32) * 0x100
                        + b[3] as u32,
                )
            },
            UIntBeBytes::U64(b) => {
                proof {
                    lemma_be_value_8(b@);
                }
                UInt::U64(
                    (b[0] as u64) * 0x100_0000_0000_0000 + (b[1] as u64) * 0x1_0000_0000_0000
                        + (b[2] as u64) * 0x100_0000_0000 + (b[3] as u64) * 0x1_0000_0000
                        + (b[4] as u64) * 0x100_0000 + (b[5] as u64) * 0x1_0000 + (b[6] as u64)
                        * 0x100 + b[7] as u64,
                )
            },
        }
    }

    /// The integer these bytes encode, widened to 64 bits.
    pub fn to_u64(self) -> (r: u64)
        ensures
            r == be_value(self.bytes()),
    {
        self.to_uint().to_u64()
    }

    /// The bytes as a slice.
    pub fn as_slice(&self) -> (r: &[u8])
        ensures
            r@ == self.bytes(),
    {
        match self {
            UIntBeBytes::U8(b) => b.as_slice(),
            UIntBeBytes::U16(b) => b.as_slice(),
            UIntBeBytes::U32(b) => b.as_slice(),
            UIntBeBytes::U64(b) => b.as_slice(),
        }
    }

    /// Copies the bytes into `slice`, which must be exactly as long.
    pub fn copy_to_slice(self, slice: &mut [u8]) -> (r: Result<(), core::array::TryFromSliceError>)
        ensures
            r is Ok <==> old(slice)@.len() == self.bytes().len(),
            r is Ok ==> final(slice)@ == self.bytes(),
            r is Err ==> final(slice)@ == old(slice)@,
    {
        let src = self.as_slice();
        if slice.len() != src.len() {
            if slice.len() != 1 {
                match array1_try_from(&*slice) {
                    Ok(_) => {},
                    Err(e) => return Err(e),
                }
            }
            let empty: [u8; 0] = [];
            match array1_try_from(empty.as_slice()) {
                Ok(_) => {},
                Err(e) => return Err(e),
            }
            proof {
                assert(false);
            }
        }
        let mut i: usize = 0;
        while i < src.len()
            invariant
                src@ == self.bytes(),
                slice@.len() == src@.len(),
                0 <= i <= src@.len(),
                forall|j: int| 0 <= j < i ==> slice@[j] == src@[j],
            decreases src@.len() - i,
        {
            slice[i] = src[i];
            i = i + 1;
        }
        assert(slice@ =~= self.bytes());
        Ok(())
    }

    pub fn size(self) -> (r: usize)
        ensures
            r == self.variant().byte_len(),
    {
        match self {
            UIntBeBytes::U8(_) => 1,
            UIntBeBytes::U16(_) => 2,
            UIntBeBytes::U32(_) => 4,
            UIntBeBytes::U64(_) => 8,
        }
    }

    pub fn to_variant(self) -> (r: UIntVariant)
        ensures
            r == self.variant(),
    {
        match self {
            UIntBeBytes::U8(_) => UIntVariant::U8,
            UIntBeBytes::U16(_) => UIntVariant::U16,
            UIntBeBytes::U32(_) => UIntVariant::U32,
            UIntBeBytes::U64(_) => UIntVariant::U64,
        }
    }

    /// Appends the bytes to a byte buffer.
    pub fn extend_bytes_mut(self, bytes: &mut bytes::BytesMut)
        ensures
            bytes_mut_contents(*final(bytes)) == bytes_mut_contents(*old(bytes)) + self.bytes(),
            appended_be(
                bytes_mut_contents(*old(bytes)),
                bytes_mut_contents(*final(bytes)),
                self.to_uint_spec(),
            ),
    {
        let s = self.as_slice();
        bytes_mut_extend_from_slice(bytes, s);
        proof {
            self.lemma_to_uint_spec();
            let before = bytes_mut_contents(*old(bytes));
            let after = bytes_mut_contents(*bytes);
            assert(after.subrange(0, before.len() as int) =~= before);
            assert(after.subrange(before.len() as int, after.len() as int) =~= self.bytes());
        }
    }
}


impl From<UInt> for u64 {
    fn from(value: UInt) -> (r: u64) {
        value.to_u64()
    }
}

impl vstd::std_specs::convert::FromSpecImpl<UInt> for u64 {
    open spec fn obeys_from_spec() -> bool {
        true
    }

    open spec fn from_spec(v: UInt) -> u64 {
        v.value() as u64
    }
}

impl From<UIntBeBytes> for UInt {
    fn from(value: UIntBeBytes) -> (r: UInt) {
        let r = value.to_uint();
        proof {
            value.lemma_to_uint_spec();
            UInt::lemma_same(r, value.to_uint_spec());
        }
        r
    }
}

impl vstd::std_specs::convert::FromSpecImpl<UIntBeBytes> for UInt {
    open spec fn obeys_from_spec() -> bool {
        true
    }

    open spec fn from_spec(v: UIntBeBytes) -> UInt {
        v.to_uint_spec()
    }
}

impl From<UIntBeBytes> for u64 {
    fn from(value: UIntBeBytes) -> (r: u64) {
        value.to_u64()
    }
}

impl vstd::std_specs::convert::FromSpecImpl<UIntBeBytes> for u64 {
    open spec fn obeys_from_spec() -> bool {
        true
    }

    open spec fn from_spec(v: UIntBeBytes) -> u64 {
        be_value(v.bytes()) as u64
    }
}

impl UInt {
    /// A width and a value determine the integer.
    pub proof fn lemma_same(a: UInt, b: UInt)
        requires
            a.variant() == b.variant(),
            a.value() == b.value(),
        ensures
            a == b,
    {
    }
}

proof fn lemma_be_value_1(s: Seq<u8>)
    requires
        s.len() == 1,
    ensures
        be_value(s) == s[0] as nat,
{
    assert(be_value(s.drop_last()) == 0);
}

proof fn lemma_be_value_2(s: Seq<u8>)
    requires
        s.len() == 2,
    ensures
        be_value(s) == s[0] as nat * 0x100 + s[1] as nat,
{
    lemma_be_value_1(s.drop_last());
}

proof fn lemma_be_value_4(s: Seq<u8>)
    requires
        s.len() == 4,
    ensures
        be_value(s) == s[0] as nat * 0x100_0000 + s[1] as nat * 0x1_0000 + s[2] as nat * 0x100
            + s[3] as nat,
{
    let s3 = s.drop_last();
    let s2 = s3.drop_last();
    lemma_be_value_2(s2);
    assert(be_value(s3) == be_value(s2) * 256 + s[2] as nat);
}

proof fn lemma_be_value_8(s: Seq<u8>)
    requires
        s.len() == 8,
    ensures
        be_value(s) == s[0] as nat * 0x100_0000_0000_0000 + s[1] as nat * 0x1_0000_0000_0000
            + s[2] as nat * 0x100_0000_0000 + s[3] as nat * 0x1_0000_0000 + s[4] as nat
            * 0x100_0000 + s[5] as nat * 0x1_0000 + s[6] as nat * 0x100 + s[7] as nat,
{
    let s7 = s.drop_last();
    let s6 = s7.drop_last();
    let s5 = s6.drop_last();
    let s4 = s5.drop_last();
    lemma_be_value_4(s4);
    assert(be_value(s5) == be_value(s4) * 256 + s[4] as nat);
    assert(be_value(s6) == be_value(s5) * 256 + s[5] as nat);
    assert(be_value(s7) == be_value(s6) * 256 + s[6] as nat);
}

} // verus!
