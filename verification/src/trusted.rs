//! The few points where the library leans on code it does not verify:
//! random number generation, UTF-8 decoding, and the FNV-hashed offset
//! map. Each item's contract states what the outside code is relied on
//! for.

use vstd::prelude::*;

verus! {

use vstd::utf8::valid_utf8;
use vstd::utf8::decode_utf8;

/// Relies on rand's `random_range` on the thread-local generator: the
/// draw falls in the half-open range below `bound`. Nothing more is
/// claimed of a random value.
#[verifier::external_body]
pub(crate) fn random_below(bound: u64) -> (r: u64)
    requires
        bound > 0,
    ensures
        r < bound,
{
    rand::RngExt::random_range(&mut rand::rng(), 0..bound)
}

/// Relies on `String::from_utf8`: it succeeds exactly on valid UTF-8 and
/// returns the decoded characters.
#[verifier::external_body]
pub(crate) fn utf8_to_string(bytes: Vec<u8>) -> (r: Option<String>)
    ensures
        r is Some <==> valid_utf8(bytes@),
        r matches Some(s) ==> s@ == decode_utf8(bytes@),
{
    String::from_utf8(bytes).ok()
}

#[verifier::external_type_specification]
#[verifier::external_body]
pub struct ExFnvHasher(fnv::FnvHasher);

#[verifier::external_type_specification]
#[verifier::external_body]
#[verifier::reject_recursive_types(H)]
pub struct ExBuildHasherDefault<H>(std::hash::BuildHasherDefault<H>);

/// Relies on `HashMap::default` with fnv's hasher: the new map is empty.
#[verifier::external_body]
pub(crate) fn offset_map_new() -> (m: fnv::FnvHashMap<usize, usize>)
    ensures
        m@ == (Map::<usize, usize>::empty()),
{
    fnv::FnvHashMap::default()
}

/// Relies on `HashMap::insert` with fnv's hasher: afterwards the map
/// holds `v` at `k` and is otherwise unchanged.
#[verifier::external_body]
pub(crate) fn offset_map_insert(m: &mut fnv::FnvHashMap<usize, usize>, k: usize, v: usize)
    ensures
        final(m)@ == old(m)@.insert(k, v),
{
    m.insert(k, v);
}

/// Relies on `HashMap::get` with fnv's hasher: it answers exactly at the
/// keys present, with the value stored there.
#[verifier::external_body]
pub(crate) fn offset_map_get(m: &fnv::FnvHashMap<usize, usize>, k: usize) -> (r: Option<usize>)
    ensures
        r == if m@.contains_key(k) {
            Some(m@[k])
        } else {
            None::<usize>
        },
{
    m.get(&k).copied()
}

} // verus!
