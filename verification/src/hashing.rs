//! Hashing of an item together with a round number, and the reduction of a
//! hash to a position in the bit array.

use std::collections::hash_map::DefaultHasher;
use std::hash::Hash;
use std::hash::Hasher;
use vstd::prelude::*;
use vstd::std_specs::hash::DefaultHasherAdditionalSpecFns;

verus! {

/// What a `DefaultHasher` has recorded once `Hasher::write_usize` has fed it
/// `round`, given what it had recorded before. Nothing is stated of which
/// bytes these are.
pub uninterp spec fn round_written(before: Seq<Seq<u8>>, round: usize) -> Seq<Seq<u8>>;

/// What a `DefaultHasher` has recorded once the `Hash` impl of `str` has fed
/// it `item`, given what it had recorded before. Nothing is stated of which
/// bytes these are.
pub uninterp spec fn str_written(before: Seq<Seq<u8>>, item: Seq<char>) -> Seq<Seq<u8>>;

/// The hash of `item` in hash round `round`: a fresh hasher is fed the round
/// number, then the item, and finished.
pub open spec fn spec_round_hash(item: Seq<char>, round: usize) -> u64 {
    DefaultHasher::spec_finish(str_written(round_written(Seq::empty(), round), item))
}

/// The position that `hash` selects in an array of `size` bits.
pub open spec fn spec_slot(hash: u64, size: nat) -> int {
    hash as int % size as int
}

/// Calls `Hasher::write_usize` on a `DefaultHasher`.
///
/// Trusted: the state of the hasher afterwards is determined by its state
/// before and by `round`. The contract only gives that state a name.
#[verifier::external_body]
pub(crate) fn write_round(state: &mut DefaultHasher, round: usize)
    ensures
        final(state)@ == round_written(old(state)@, round),
{
    state.write_usize(round);
}

/// Calls `Hash::hash` of `str` with a `DefaultHasher`.
///
/// Trusted: the state of the hasher afterwards is determined by its state
/// before and by the characters of `item`. The contract only gives that
/// state a name.
#[verifier::external_body]
pub(crate) fn write_item(state: &mut DefaultHasher, item: &str)
    ensures
        final(state)@ == str_written(old(state)@, item@),
{
    item.hash(state);
}

/// Hashes `item` for hash round `round`.
pub fn round_hash(item: &str, round: usize) -> (hash: u64)
    ensures
        hash == spec_round_hash(item@, round),
{
    let mut hasher = DefaultHasher::new();
    write_round(&mut hasher, round);
    write_item(&mut hasher, item);
    hasher.finish()
}

/// Reduces a 64-bit hash to a position in an array of `size` bits. The
/// remainder is taken on 64 bits before it is narrowed to an index.
pub fn slot(hash: u64, size: usize) -> (index: usize)
    requires
        size > 0,
    ensures
        index == spec_slot(hash, size as nat),
        index < size,
{
    (hash % (size as u64)) as usize
}

} // verus!
