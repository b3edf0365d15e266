//! Declarations of the outside types and functions that the library calls,
//! with the contracts that Verus takes on trust.

use vstd::prelude::*;

use crate::lumpur::LaunchTime;


verus! {

#[verifier::external_type_specification]
#[verifier::external_body]
pub struct ExTryFromSliceError(core::array::TryFromSliceError);

#[verifier::external_type_specification]
#[verifier::external_body]
pub struct ExBytesMut(bytes::BytesMut);

/// The bytes held by a `BytesMut` buffer, in order.
pub uninterp spec fn bytes_mut_contents(b: bytes::BytesMut) -> Seq<u8>;

/// `<[u8; 1]>::try_from(&[u8])`: std documents that the conversion succeeds
/// exactly when the slice holds one element, and that the array then holds it.
#[verifier::external_body]
pub fn array1_try_from(slice: &[u8]) -> (r: Result<[u8; 1], core::array::TryFromSliceError>)
    ensures
        (r is Ok) == (slice@.len() == 1),
        r matches Ok(a) ==> a@ == slice@,
{
    <[u8; 1]>::try_from(slice)
}

/// `BytesMut::extend_from_slice`: the buffer afterwards holds its former
/// bytes followed by those of the slice.
#[verifier::external_body]
pub fn bytes_mut_extend_from_slice(b: &mut bytes::BytesMut, s: &[u8])
    ensures
        bytes_mut_contents(*final(b)) == bytes_mut_contents(*old(b)) + s@,
{
    b.extend_from_slice(s)
}

} // verus!

verus! {

#[verifier::external_type_specification]
#[verifier::external_body]
#[verifier::reject_recursive_types(H)]
pub struct ExBuildHasherDefault<H>(std::hash::BuildHasherDefault<H>);

#[verifier::external_type_specification]
#[verifier::external_body]
pub struct ExFxHasher(fxhash::FxHasher);

#[verifier::external_type_specification]
#[verifier::external_body]
#[verifier::reject_recursive_types(T)]
#[verifier::reject_recursive_types(S)]
pub struct ExIndexSet<T, S>(indexmap::IndexSet<T, S>);

/// The items of an `IndexSet<u64>`, in insertion order.
pub uninterp spec fn index_set_contents(s: indexmap::IndexSet<u64>) -> Seq<u64>;

/// `IndexSet::new`: a set with no items.
#[verifier::external_body]
pub fn index_set_new() -> (r: indexmap::IndexSet<u64>)
    ensures
        index_set_contents(r) == Seq::<u64>::empty(),
{
    indexmap::IndexSet::new()
}

/// `IndexSet::insert`: an item already present leaves the set as it was and
/// gives `false`; a new item is appended after the others and gives `true`.
#[verifier::external_body]
pub fn index_set_insert(s: &mut indexmap::IndexSet<u64>, value: u64) -> (r: bool)
    ensures
        r == !index_set_contents(*old(s)).contains(value),
        r ==> index_set_contents(*final(s)) == index_set_contents(*old(s)).push(value),
        !r ==> index_set_contents(*final(s)) == index_set_contents(*old(s)),
{
    s.insert(value)
}

/// `IndexSet::len`: the number of items.
#[verifier::external_body]
pub fn index_set_len(s: &indexmap::IndexSet<u64>) -> (r: usize)
    ensures
        r == index_set_contents(*s).len(),
{
    s.len()
}

/// `IndexSet::shift_remove_index`: removes the item at `index`, keeping the
/// order of the others, and gives it; an index out of range changes nothing
/// and gives `None`.
#[verifier::external_body]
pub fn index_set_shift_remove_index(s: &mut indexmap::IndexSet<u64>, index: usize) -> (r: Option<
    u64,
>)
    ensures
        index < index_set_contents(*old(s)).len() ==> r == Some(index_set_contents(*old(s))[index as int])
            && index_set_contents(*final(s)) == index_set_contents(*old(s)).remove(index as int),
        index >= index_set_contents(*old(s)).len() ==> r is None && index_set_contents(*final(s))
            == index_set_contents(*old(s)),
{
    s.shift_remove_index(index)
}

/// `IndexSet::clear`: removes every item.
#[verifier::external_body]
pub fn index_set_clear(s: &mut indexmap::IndexSet<u64>)
    ensures
        index_set_contents(*final(s)) == Seq::<u64>::empty(),
{
    s.clear()
}

/// `HashMap::insert` on a map hashed with `fxhash`'s deterministic hasher:
/// afterwards `k` maps to `v`; the former value of `k`, if any, is given back.
#[verifier::external_body]
pub fn fx_map_insert<V>(m: &mut fxhash::FxHashMap<u64, V>, k: u64, v: V) -> (r: Option<V>)
    ensures
        final(m)@ == old(m)@.insert(k, v),
        r matches Some(x) ==> old(m)@.contains_key(k) && x == old(m)@[k],
        r is None ==> !old(m)@.contains_key(k),
{
    m.insert(k, v)
}

/// `HashMap::remove` on a map hashed with `fxhash`: `k` no longer has a value;
/// its former value, if any, is given back.
#[verifier::external_body]
pub fn fx_map_remove<V>(m: &mut fxhash::FxHashMap<u64, V>, k: u64) -> (r: Option<V>)
    ensures
        final(m)@ == old(m)@.remove(k),
        r matches Some(x) ==> old(m)@.contains_key(k) && x == old(m)@[k],
        r is None ==> !old(m)@.contains_key(k),
{
    m.remove(&k)
}

/// `HashMap::get` on a map hashed with `fxhash`: the value of `k`, if any.
#[verifier::external_body]
pub fn fx_map_get<V>(m: &fxhash::FxHashMap<u64, V>, k: u64) -> (r: Option<&V>)
    ensures
        r matches Some(x) ==> m@.contains_key(k) && *x == m@[k],
        r is None ==> !m@.contains_key(k),
{
    m.get(&k)
}

/// `HashMap::contains_key` on a map hashed with `fxhash`.
#[verifier::external_body]
pub fn fx_map_contains_key<V>(m: &fxhash::FxHashMap<u64, V>, k: u64) -> (r: bool)
    ensures
        r == m@.contains_key(k),
{
    m.contains_key(&k)
}

/// `Arc::clone`: another pointer to the same value.
#[verifier::external_body]
pub fn arc_clone<T>(a: &std::sync::Arc<T>) -> (r: std::sync::Arc<T>)
    ensures
        r == *a,
{
    std::sync::Arc::clone(a)
}

} // verus!

verus! {

/// Calls a closure that the library's user wrote as a behavior or action.
/// Verus cannot read the user's code, so nothing is known of what it returns
/// or of how it changes the blackboard.
#[verifier::external_body]
pub fn call_user_closure<B, T, F: FnMut(&mut B) -> T>(f: &mut F, blackboard: &mut B) -> T {
    f(blackboard)
}

/// Calls the user's tracing closure with the blackboard and the stack of
/// node names; nothing is known of what it does.
#[verifier::external_body]
pub fn call_user_tracer<B, F: FnMut(&B, &[String])>(f: &mut F, blackboard: &B, stack: &[String]) {
    f(blackboard, stack)
}

/// `String::push`: appends `c`.
#[verifier::external_body]
pub fn string_push(s: &mut String, c: char)
    ensures
        final(s)@ == old(s)@.push(c),
{
    s.push(c)
}


/// `chrono::Local::now()`, taken apart into its date and time of day. What
/// it returns depends on the clock; chrono documents the ranges of each
/// component.
#[verifier::external_body]
pub fn local_now() -> (r: LaunchTime)
    ensures
        r.valid(),
{
    let now = chrono::Local::now();
    LaunchTime {
        year: chrono::Datelike::year(&now),
        month: chrono::Datelike::month(&now),
        day: chrono::Datelike::day(&now),
        hour: chrono::Timelike::hour(&now),
        minute: chrono::Timelike::minute(&now),
        second: chrono::Timelike::second(&now),
    }
}

} // verus!

verus! {

#[verifier::external_type_specification]
#[verifier::external_body]
pub struct ExReedSolomonError(reed_solomon_erasure::Error);

/// A Reed-Solomon codec over GF(2^8). Verus refuses to declare the codec
/// type itself (its parameter is bounded by the crate's `Field` trait), so it
/// is held here, out of Verus's sight.
#[verifier::external_body]
pub struct Rs8Codec {
    codec: reed_solomon_erasure::galois_8::ReedSolomon,
}

/// A Reed-Solomon codec over GF(2^16), held as [`Rs8Codec`] is.
#[verifier::external_body]
pub struct Rs16Codec {
    codec: reed_solomon_erasure::galois_16::ReedSolomon,
}

/// The numbers of data shards and of parity shards that a Reed-Solomon codec
/// over GF(2^8) was made with.
pub uninterp spec fn rs8_shape(
    c: Rs8Codec) -> (nat, nat);

/// The parity shards that Reed-Solomon coding over GF(2^8) computes for the
/// data shards `data`, `parity_count` of them.
pub uninterp spec fn rs8_parity(data: Seq<Seq<u8>>, parity_count: nat) -> Seq<Seq<u8>>;

/// The data shards that Reed-Solomon decoding over GF(2^8) recovers from
/// `shards`, of which those flagged in `present` were received.
pub uninterp spec fn rs8_recovered(
    shards: Seq<Seq<u8>>,
    present: Seq<bool>,
    data_count: nat,
    parity_count: nat,
) -> Seq<Seq<u8>>;

/// The numbers of data shards and of parity shards that a Reed-Solomon codec
/// over GF(2^16) was made with.
pub uninterp spec fn rs16_shape(
    c: Rs16Codec) -> (nat, nat);

/// The parity shards, as bytes, that Reed-Solomon coding over GF(2^16)
/// computes for the data shards `data`, read as 2-byte symbols,
/// `parity_count` of them.
pub uninterp spec fn rs16_parity(data: Seq<Seq<u8>>, parity_count: nat) -> Seq<Seq<u8>>;

/// The data shards, as bytes, that Reed-Solomon decoding over GF(2^16)
/// recovers from `shards`, read as 2-byte symbols, of which those flagged in
/// `present` were received.
pub uninterp spec fn rs16_recovered(
    shards: Seq<Seq<u8>>,
    present: Seq<bool>,
    data_count: nat,
    parity_count: nat,
) -> Seq<Seq<u8>>;

/// `galois_8::ReedSolomon::new`: the source refuses no data shards, no parity
/// shards, and more shards than the field's 256 elements.
#[verifier::external_body]
pub fn rs8_new(data_shards: usize, parity_shards: usize) -> (r: Result<
    Rs8Codec,
    reed_solomon_erasure::Error,
>)
    requires
        data_shards + parity_shards <= usize::MAX,
    ensures
        r is Ok <==> (data_shards > 0 && parity_shards > 0 && data_shards + parity_shards <= 256),
        r matches Ok(c) ==> rs8_shape(c) == (data_shards as nat, parity_shards as nat),
{
    reed_solomon_erasure::galois_8::ReedSolomon::new(data_shards, parity_shards).map(|codec| Rs8Codec { codec })
}

/// `galois_16::ReedSolomon::new`: the source refuses no data shards, no
/// parity shards, and more shards than the field's 65536 elements.
#[verifier::external_body]
pub fn rs16_new(data_shards: usize, parity_shards: usize) -> (r: Result<
    Rs16Codec,
    reed_solomon_erasure::Error,
>)
    requires
        data_shards + parity_shards <= usize::MAX,
    ensures
        r is Ok <==> (data_shards > 0 && parity_shards > 0 && data_shards + parity_shards <= 65536),
        r matches Ok(c) ==> rs16_shape(c) == (data_shards as nat, parity_shards as nat),
{
    reed_solomon_erasure::galois_16::ReedSolomon::new(data_shards, parity_shards).map(|codec| Rs16Codec { codec })
}

/// The shards fit a codec made with `shape`: as many data and parity shards
/// as it was made with, all of one length that is not zero.
pub open spec fn shards_fit(data: Seq<Seq<u8>>, parity: Seq<Seq<u8>>, shape: (nat, nat)) -> bool {
    &&& data.len() == shape.0
    &&& parity.len() == shape.1
    &&& data.len() > 0
    &&& data[0].len() > 0
    &&& forall|i: int| 0 <= i < data.len() ==> #[trigger] data[i].len() == data[0].len()
    &&& forall|i: int| 0 <= i < parity.len() ==> #[trigger] parity[i].len() == data[0].len()
}

/// `ReedSolomon::encode_sep` over GF(2^8): where the shards fit the codec,
/// the parity shards are overwritten with the parity of the data shards;
/// otherwise the source returns an error before touching them.
#[verifier::external_body]
pub fn rs8_encode_sep(
    c: &Rs8Codec,
    data: &Vec<Vec<u8>>,
    parity: &mut Vec<Vec<u8>>,
) -> (r: Result<(), reed_solomon_erasure::Error>)
    ensures
        r is Ok <==> shards_fit(data.deep_view(), old(parity).deep_view(), rs8_shape(*c)),
        r is Ok ==> final(parity).deep_view() == rs8_parity(data.deep_view(), rs8_shape(*c).1),
        final(parity)@.len() == old(parity)@.len(),
        forall|i: int|
            0 <= i < old(parity)@.len() ==> #[trigger] final(parity)@[i]@.len() == old(parity)@[i]@.len(),
        r is Err ==> final(parity).deep_view() == old(parity).deep_view(),
{
    c.codec.encode_sep(data.as_slice(), parity.as_mut_slice())
}

/// `ReedSolomon::encode_sep` over GF(2^16), on shards of bytes read as
/// 2-byte symbols: where the shards fit the codec, the parity shards are
/// overwritten with the parity of the data shards; otherwise the source
/// returns an error before touching them.
#[verifier::external_body]
pub fn rs16_encode_sep(
    c: &Rs16Codec,
    data: &Vec<Vec<u8>>,
    parity: &mut Vec<Vec<u8>>,
) -> (r: Result<(), reed_solomon_erasure::Error>)
    requires
        forall|i: int| 0 <= i < data@.len() ==> #[trigger] data@[i]@.len() % 2 == 0,
        forall|i: int| 0 <= i < old(parity)@.len() ==> #[trigger] old(parity)@[i]@.len() % 2 == 0,
    ensures
        r is Ok <==> shards_fit(data.deep_view(), old(parity).deep_view(), rs16_shape(*c)),
        r is Ok ==> final(parity).deep_view() == rs16_parity(data.deep_view(), rs16_shape(*c).1),
        final(parity)@.len() == old(parity)@.len(),
        forall|i: int|
            0 <= i < old(parity)@.len() ==> #[trigger] final(parity)@[i]@.len() == old(parity)@[i]@.len(),
        r is Err ==> final(parity).deep_view() == old(parity).deep_view(),
{
    let words: Vec<Vec<[u8; 2]>> = data.iter().map(|s| s.chunks_exact(2).map(|w| [w[0], w[1]]).collect()).collect();
    let mut out: Vec<Vec<[u8; 2]>> = parity.iter().map(|s| s.chunks_exact(2).map(|w| [w[0], w[1]]).collect()).collect();
    let r = c.codec.encode_sep(words.as_slice(), out.as_mut_slice());
    if r.is_ok() {
        *parity = out.iter().map(|s| s.iter().flatten().copied().collect()).collect();
    }
    r
}

/// What reconstruction needs of the shards: as many as the codec was made
/// with, the received ones not empty, all of one length, and at least as many
/// received as there are data shards.
pub open spec fn shards_recoverable(shards: Seq<Seq<u8>>, present: Seq<bool>, shape: (nat, nat)) -> bool {
    &&& shards.len() == shape.0 + shape.1
    &&& present.len() == shards.len()
    &&& shards.len() > 0
    &&& shards[0].len() > 0
    &&& forall|i: int| 0 <= i < shards.len() ==> #[trigger] shards[i].len() == shards[0].len()
    &&& present.filter(|p: bool| p).len() >= shape.0
}

/// `ReedSolomon::reconstruct_data` over GF(2^8), with each shard flagged as
/// received or not. The source documents that the received shards are never
/// written, that on an error nothing is touched, and it returns `Ok` where
/// the shards are recoverable; the data shards afterwards are those the
/// decoding recovers, and the parity shards are left as they were. Which
/// error comes otherwise is not stated.
#[verifier::external_body]
pub fn rs8_reconstruct_data(
    c: &Rs8Codec,
    shards: &mut Vec<Vec<u8>>,
    present: &Vec<bool>,
) -> (r: Result<(), reed_solomon_erasure::Error>)
    requires
        present@.len() == old(shards)@.len(),
    ensures
        shards_recoverable(old(shards).deep_view(), present@, rs8_shape(*c)) ==> r is Ok,
        r is Ok ==> old(shards)@.len() == rs8_shape(*c).0 + rs8_shape(*c).1,
        final(shards)@.len() == old(shards)@.len(),
        r is Ok ==> final(shards).deep_view() == rs8_recovered(
            old(shards).deep_view(),
            present@,
            rs8_shape(*c).0,
            rs8_shape(*c).1,
        ) + old(shards).deep_view().skip(rs8_shape(*c).0 as int),
        r is Ok ==> forall|i: int|
            0 <= i < present@.len() && #[trigger] present@[i] ==> final(shards).deep_view()[i]
                == old(shards).deep_view()[i],
        r is Err ==> final(shards).deep_view() == old(shards).deep_view(),
{
    let mut flagged: Vec<(&mut [u8], bool)> = shards.iter_mut().zip(present.iter()).map(|(s, p)| (s.as_mut_slice(), *p)).collect();
    c.codec.reconstruct_data(flagged.as_mut_slice())
}

/// `ReedSolomon::reconstruct_data` over GF(2^16), on shards of bytes read as
/// 2-byte symbols, each flagged as received or not: as over GF(2^8).
#[verifier::external_body]
pub fn rs16_reconstruct_data(
    c: &Rs16Codec,
    shards: &mut Vec<Vec<u8>>,
    present: &Vec<bool>,
) -> (r: Result<(), reed_solomon_erasure::Error>)
    requires
        present@.len() == old(shards)@.len(),
        forall|i: int| 0 <= i < old(shards)@.len() ==> #[trigger] old(shards)@[i]@.len() % 2 == 0,
    ensures
        shards_recoverable(old(shards).deep_view(), present@, rs16_shape(*c)) ==> r is Ok,
        r is Ok ==> old(shards)@.len() == rs16_shape(*c).0 + rs16_shape(*c).1,
        final(shards)@.len() == old(shards)@.len(),
        r is Ok ==> final(shards).deep_view() == rs16_recovered(
            old(shards).deep_view(),
            present@,
            rs16_shape(*c).0,
            rs16_shape(*c).1,
        ) + old(shards).deep_view().skip(rs16_shape(*c).0 as int),
        r is Ok ==> forall|i: int|
            0 <= i < present@.len() && #[trigger] present@[i] ==> final(shards).deep_view()[i]
                == old(shards).deep_view()[i],
        r is Err ==> final(shards).deep_view() == old(shards).deep_view(),
{
    let mut words: Vec<Vec<[u8; 2]>> = shards.iter().map(|s| s.chunks_exact(2).map(|w| [w[0], w[1]]).collect()).collect();
    let mut flagged: Vec<(&mut [[u8; 2]], bool)> = words.iter_mut().zip(present.iter()).map(|(s, p)| (s.as_mut_slice(), *p)).collect();
    let r = c.codec.reconstruct_data(flagged.as_mut_slice());
    if r.is_ok() {
        *shards = words.iter().map(|s| s.iter().flatten().copied().collect()).collect();
    }
    r
}

} // verus!

verus! {

/// `rand::random::<u64>()`: a number from the thread's random generator.
/// Nothing is known of which.
#[verifier::external_body]
pub fn random_u64() -> u64 {
    rand::random::<u64>()
}

} // verus!

verus! {

#[verifier::external_type_specification]
#[verifier::external_body]
#[verifier::reject_recursive_types(K)]
#[verifier::reject_recursive_types(V)]
#[verifier::reject_recursive_types(S)]
pub struct ExIndexMap<K, V, S>(indexmap::IndexMap<K, V, S>);

/// The entries of the map of fragment sets, in their order.
pub uninterp spec fn fragment_sets(
    m: indexmap::IndexMap<u64, crate::fragment::Fragments>,
) -> Seq<(u64, crate::fragment::Fragments)>;

/// `IndexMap::new`: a map with no entries.
#[verifier::external_body]
pub fn fragment_sets_new() -> (r: indexmap::IndexMap<u64, crate::fragment::Fragments>)
    ensures
        fragment_sets(r) == Seq::<(u64, crate::fragment::Fragments)>::empty(),
{
    indexmap::IndexMap::new()
}

/// `IndexMap::len`: the number of entries.
#[verifier::external_body]
pub fn fragment_sets_len(m: &indexmap::IndexMap<u64, crate::fragment::Fragments>) -> (r: usize)
    ensures
        r == fragment_sets(*m).len(),
{
    m.len()
}

/// `IndexMap::get_index_of`: the place of the entry of `key`, if there is one.
#[verifier::external_body]
pub fn fragment_sets_get_index_of(
    m: &indexmap::IndexMap<u64, crate::fragment::Fragments>,
    key: u64,
) -> (r: Option<usize>)
    ensures
        r matches Some(i) ==> i < fragment_sets(*m).len() && fragment_sets(*m)[i as int].0 == key,
        r is None ==> forall|i: int|
            0 <= i < fragment_sets(*m).len() ==> #[trigger] fragment_sets(*m)[i].0 != key,
{
    m.get_index_of(&key)
}

/// `IndexMap::shift_remove_index`: removes the entry at `index`, keeping the
/// order of the others, and gives it; an index out of range changes nothing
/// and gives `None`.
#[verifier::external_body]
pub fn fragment_sets_shift_remove_index(
    m: &mut indexmap::IndexMap<u64, crate::fragment::Fragments>,
    index: usize,
) -> (r: Option<(u64, crate::fragment::Fragments)>)
    ensures
        index < fragment_sets(*old(m)).len() ==> r == Some(fragment_sets(*old(m))[index as int])
            && fragment_sets(*final(m)) == fragment_sets(*old(m)).remove(index as int),
        index >= fragment_sets(*old(m)).len() ==> r is None && fragment_sets(*final(m))
            == fragment_sets(*old(m)),
{
    m.shift_remove_index(index)
}

/// `IndexMap::shift_insert` of a key the map does not hold: the entry is put
/// at `index`, the later ones shifted up. The source panics on an index past
/// the end.
#[verifier::external_body]
pub fn fragment_sets_shift_insert(
    m: &mut indexmap::IndexMap<u64, crate::fragment::Fragments>,
    index: usize,
    key: u64,
    value: crate::fragment::Fragments,
)
    requires
        index <= fragment_sets(*old(m)).len(),
        forall|i: int|
            0 <= i < fragment_sets(*old(m)).len() ==> #[trigger] fragment_sets(*old(m))[i].0 != key,
    ensures
        fragment_sets(*final(m)) == fragment_sets(*old(m)).insert(index as int, (key, value)),
{
    m.shift_insert(index, key, value);
}

/// `HashMap::len` on a map hashed with `fxhash`.
#[verifier::external_body]
pub fn fx_map_len<V>(m: &fxhash::FxHashMap<u64, V>) -> (r: usize)
    ensures
        r == m@.len(),
{
    m.len()
}

/// Empties a map hashed with `fxhash` into a vector of its entries, each key
/// once, in an order that the hasher decides and nothing here states.
#[verifier::external_body]
pub fn fx_map_into_vec<V>(m: fxhash::FxHashMap<u64, V>) -> (r: Vec<(u64, V)>)
    ensures
        r@.len() == m@.len(),
        forall|i: int| 0 <= i < r@.len() ==> m@.contains_key(#[trigger] r@[i].0) && m@[r@[i].0] == r@[i].1,
        forall|i: int, j: int| 0 <= i < j < r@.len() ==> #[trigger] r@[i].0 != #[trigger] r@[j].0,
        forall|k: u64| #[trigger] m@.contains_key(k) ==> exists|i: int| 0 <= i < r@.len() && #[trigger] r@[i].0 == k,
{
    m.into_iter().collect()
}

} // verus!

verus! {

/// The parity bytes that Reed-Solomon coding over GF(2^8) computes for a
/// block of data, with `ecc_len` of them.
pub uninterp spec fn ecc_parity(data: Seq<u8>, ecc_len: nat) -> Seq<u8>;

/// The data that Reed-Solomon decoding over GF(2^8) corrects out of a block
/// with `ecc_len` parity bytes; `None` where the block has too many errors.
pub uninterp spec fn ecc_corrected(block: Seq<u8>, ecc_len: nat) -> Option<Seq<u8>>;

/// `reed_solomon::Encoder::encode`, with an encoder made for `ecc_len` parity
/// bytes: the data followed by its parity bytes. The source builds the
/// encoder and the block in arrays of 256 bytes, hence the bounds.
#[verifier::external_body]
pub fn ecc_encode(ecc_len: usize, data: &[u8]) -> (r: Vec<u8>)
    requires
        ecc_len <= 255,
        data@.len() + ecc_len <= 256,
    ensures
        r@.len() == data@.len() + ecc_len,
        r@ == data@ + ecc_parity(data@, ecc_len as nat),
{
    reed_solomon::Encoder::new(ecc_len).encode(data).to_vec()
}

/// `reed_solomon::Decoder::correct`, with a decoder made for `ecc_len` parity
/// bytes and no known erasures: the corrected data of the block, `None` where
/// it has too many errors. A block that is its data followed by the parity
/// bytes of that data has no error: its syndromes are zero, and the source
/// gives its data back as it is. The source keeps every polynomial in an
/// array of 256 terms; the longest it builds is the product of the
/// `ecc_len + 1` syndromes and an error locator of at most `ecc_len / 2 + 1`
/// terms (a locator with more errors is refused before), hence the bound on
/// `ecc_len`.
#[verifier::external_body]
pub fn ecc_correct(ecc_len: usize, block: &[u8]) -> (r: Option<Vec<u8>>)
    requires
        ecc_len <= block@.len() < 256,
        crate::ecc::correctable_parity(ecc_len as nat),
    ensures
        r matches Some(d) ==> ecc_corrected(block@, ecc_len as nat) == Some(d@),
        r is None ==> ecc_corrected(block@, ecc_len as nat) is None,
        r matches Some(d) ==> d@.len() == block@.len() - ecc_len,
        r is None ==> !crate::ecc::is_codeword(block@, ecc_len as nat),
        r matches Some(d) ==> (crate::ecc::is_codeword(block@, ecc_len as nat) ==> d@
            == block@.take(block@.len() - ecc_len)),
{
    match reed_solomon::Decoder::new(ecc_len).correct(block, None) {
        Ok(b) => Some(b.data().to_vec()),
        Err(_) => None,
    }
}

} // verus!
