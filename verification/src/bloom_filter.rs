//! The executable Bloom filter.

use crate::hashing::round_hash;
use crate::hashing::slot;
use crate::model::lemma_clear_accepts_nothing;
use crate::model::lemma_insert_keeps_accepted;
use crate::model::lemma_insert_monotone;
use crate::model::lemma_insert_next_round;
use crate::model::lemma_insert_no_round;
use crate::model::lemma_inserted_is_accepted;
use crate::model::lemma_saturated_accepts_all;
use crate::model::FilterModel;
use vstd::prelude::*;

verus! {

/// A simple Bloom filter: a fixed array of bits and the number of hash
/// rounds used per operation.
pub struct BloomFilter {
    /// The bit array.
    bits: Vec<bool>,
    /// The number of hash rounds.
    k: usize,
}

impl View for BloomFilter {
    type V = FilterModel;

    closed spec fn view(&self) -> FilterModel {
        FilterModel { bits: self.bits@, rounds: self.k as nat }
    }
}

impl BloomFilter {
    /// Creates a filter of `size` cleared bits that hashes each item
    /// `hash_count` times.
    ///
    /// Any sizes are accepted. A filter without bits that hashes at least
    /// once is not usable: `add` and `check` leave it out. A new filter that
    /// is usable and hashes at least once accepts no item.
    pub fn new(size: usize, hash_count: usize) -> (filter: Self)
        ensures
            filter@ == FilterModel::empty(size as nat, hash_count as nat),
            forall|item: Seq<char>| size > 0 && hash_count > 0 ==> !filter@.accepts(item),
    {
        let filter = BloomFilter { bits: vec![false; size], k: hash_count };
        proof {
            assert(filter@.bits =~= FilterModel::empty(size as nat, hash_count as nat).bits);
            assert forall|item: Seq<char>| size > 0 && hash_count > 0 implies !filter@.accepts(
                item,
            ) by {
                if size > 0 && hash_count > 0 {
                    lemma_clear_accepts_nothing(filter@, item);
                }
            }
        }
        filter
    }

    /// The length of the bit array.
    pub fn size(&self) -> (size: usize)
        ensures
            size == self@.size(),
    {
        self.bits.len()
    }

    /// The number of hash rounds per operation.
    pub fn hash_count(&self) -> (hash_count: usize)
        ensures
            hash_count == self@.rounds,
    {
        self.k
    }

    /// Whether the bit at `index` is set; `false` outside the array.
    pub fn is_set(&self, index: usize) -> (set: bool)
        ensures
            set == (index < self@.size() && self@.bits[index as int]),
    {
        index < self.bits.len() && self.bits[index]
    }

    /// Adds an item to the filter: sets one bit for each hash round.
    ///
    /// The array keeps its length and bits are only ever set, so every item
    /// accepted before is accepted afterwards, and so is `item`.
    pub fn add(&mut self, item: &str)
        requires
            old(self)@.usable(),
        ensures
            final(self)@ == old(self)@.insert(item@),
            final(self)@.size() == old(self)@.size(),
            final(self)@.rounds == old(self)@.rounds,
            forall|index: int|
                0 <= index < old(self)@.size() && old(self)@.bits[index]
                    ==> #[trigger] final(self)@.bits[index],
            final(self)@.accepts(item@),
            forall|other: Seq<char>| old(self)@.accepts(other) ==> final(self)@.accepts(other),
    {
        let ghost start = self@;
        proof {
            lemma_insert_no_round(start, item@);
        }
        let rounds: usize = self.k;
        for i in 0..rounds
            invariant
                rounds == start.rounds,
                start.usable(),
                self@ == start.insert_rounds(item@, i as nat),
        {
            // For each hash round, compute an index and set that bit.
            let index: usize = self.hash_index(item, i);
            self.bits.set(index, true);
            proof {
                lemma_insert_next_round(start, item@, i);
            }
        }
        proof {
            lemma_insert_monotone(start, item@);
            lemma_inserted_is_accepted(start, item@);
            assert forall|other: Seq<char>| start.accepts(other) implies start.insert(
                item@,
            ).accepts(other) by {
                lemma_insert_keeps_accepted(start, item@, other);
            }
        }
    }

    /// Checks whether an item is possibly in the filter.
    ///
    /// Returns `true` if the bits of all hash rounds are set (the item may
    /// have been added, or other items set the same bits), and `false` if
    /// one of them is clear (the item was never added). So a filter with
    /// every bit set answers `true` for every item, and one with no bit set
    /// that hashes at least once answers `false`.
    pub fn check(&self, item: &str) -> (present: bool)
        requires
            self@.usable(),
        ensures
            present == self@.accepts(item@),
            self@.is_saturated() ==> present,
            self@.is_clear() && self@.rounds > 0 ==> !present,
    {
        proof {
            if self@.is_saturated() {
                lemma_saturated_accepts_all(self@, item@);
            }
            if self@.is_clear() && self@.rounds > 0 {
                lemma_clear_accepts_nothing(self@, item@);
            }
        }
        for i in 0..self.k
            invariant
                self@.usable(),
                self@.accepts_rounds(item@, i as nat),
        {
            let index: usize = self.hash_index(item, i);
            if !self.bits[index] {
                return false;
            }
        }
        true
    }

    /// Computes the position in the bit array that hash round `i` selects
    /// for `item`: the hash of the round number followed by the item,
    /// reduced modulo the length of the array.
    pub fn hash_index(&self, item: &str, i: usize) -> (index: usize)
        requires
            self@.size() > 0,
        ensures
            index == self@.position(item@, i),
            index < self@.size(),
    {
        let hash_value: u64 = round_hash(item, i);
        // Map the hash value to a position in the bit array.
        slot(hash_value, self.bits.len())
    }
}

} // verus!
