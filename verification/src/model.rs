//! The mathematical model of a Bloom filter, and the laws that hold of it.
//!
//! A filter is a sequence of bits and a number of hash rounds. An item
//! selects one position of the sequence in each round; inserting the item
//! sets the bits at those positions, and a query accepts the item when all
//! of them are set.

use crate::hashing::spec_round_hash;
use crate::hashing::spec_slot;
use vstd::prelude::*;

verus! {

/// The abstract state of a filter.
pub struct FilterModel {
    /// The bit array, in order.
    pub bits: Seq<bool>,
    /// The number of hash rounds per operation.
    pub rounds: nat,
}

impl FilterModel {
    /// The filter of `size` cleared bits and `rounds` hash rounds.
    pub open spec fn empty(size: nat, rounds: nat) -> FilterModel {
        FilterModel { bits: Seq::new(size, |index: int| false), rounds }
    }

    /// The length of the bit array.
    pub open spec fn size(self) -> nat {
        self.bits.len()
    }

    /// Whether insertions and queries are defined: a filter that hashes at
    /// all needs a bit array to hash into.
    pub open spec fn usable(self) -> bool {
        self.rounds == 0 || self.size() > 0
    }

    /// Whether no bit is set.
    pub open spec fn is_clear(self) -> bool {
        forall|index: int| 0 <= index < self.size() ==> !#[trigger] self.bits[index]
    }

    /// Whether every bit is set.
    pub open spec fn is_saturated(self) -> bool {
        forall|index: int| 0 <= index < self.size() ==> #[trigger] self.bits[index]
    }

    /// The position that `item` selects in round `round`.
    pub open spec fn position(self, item: Seq<char>, round: usize) -> int {
        spec_slot(spec_round_hash(item, round), self.size())
    }

    /// Whether one of the first `rounds` rounds sends `item` to `index`.
    pub open spec fn touches(self, item: Seq<char>, rounds: nat, index: int) -> bool {
        exists|round: usize| round < rounds && #[trigger] self.position(item, round) == index
    }

    /// The filter after the first `rounds` rounds of inserting `item`: a bit
    /// is set if it was set before or one of those rounds selects it.
    pub open spec fn insert_rounds(self, item: Seq<char>, rounds: nat) -> FilterModel {
        FilterModel {
            bits: Seq::new(
                self.size(),
                |index: int| self.bits[index] || self.touches(item, rounds, index),
            ),
            rounds: self.rounds,
        }
    }

    /// The filter after inserting `item`.
    pub open spec fn insert(self, item: Seq<char>) -> FilterModel {
        self.insert_rounds(item, self.rounds)
    }

    /// The filter after inserting each of `items`, first to last.
    pub open spec fn insert_all(self, items: Seq<Seq<char>>) -> FilterModel
        decreases items.len(),
    {
        if items.len() == 0 {
            self
        } else {
            self.insert_all(items.drop_last()).insert(items.last())
        }
    }

    /// Whether the bits selected for `item` by the first `rounds` rounds are
    /// all set.
    pub open spec fn accepts_rounds(self, item: Seq<char>, rounds: nat) -> bool {
        forall|round: usize|
            round < rounds ==> self.bits[#[trigger] self.position(item, round)]
    }

    /// Whether a query for `item` answers "possibly present".
    pub open spec fn accepts(self, item: Seq<char>) -> bool {
        self.accepts_rounds(item, self.rounds)
    }
}

/// Insertion keeps the size and the number of rounds, and never clears a bit.
pub proof fn lemma_insert_monotone(filter: FilterModel, item: Seq<char>)
    ensures
        filter.insert(item).size() == filter.size(),
        filter.insert(item).rounds == filter.rounds,
        filter.insert(item).usable() == filter.usable(),
        forall|index: int|
            0 <= index < filter.size() && filter.bits[index] ==> #[trigger] filter.insert(
                item,
            ).bits[index],
{
}

/// One more round of an insertion sets the bit that this round selects and
/// changes nothing else.
pub proof fn lemma_insert_next_round(filter: FilterModel, item: Seq<char>, round: usize)
    requires
        filter.size() > 0,
    ensures
        filter.insert_rounds(item, round as nat + 1).bits == filter.insert_rounds(
            item,
            round as nat,
        ).bits.update(filter.position(item, round), true),
{
    let before = filter.insert_rounds(item, round as nat);
    let after = filter.insert_rounds(item, round as nat + 1);
    let target = filter.position(item, round);
    assert forall|index: int| 0 <= index < filter.size() implies after.bits[index]
        == before.bits.update(target, true)[index] by {
        if filter.touches(item, round as nat, index) {
            let earlier = choose|earlier: usize|
                earlier < round as nat && #[trigger] filter.position(item, earlier) == index;
            assert(earlier < round as nat + 1 && filter.position(item, earlier) == index);
        }
        if index == target {
            assert(round < round as nat + 1 && filter.position(item, round) == index);
        }
    }
    assert(after.bits =~= before.bits.update(target, true));
}

/// No rounds of an insertion leave the filter as it was.
pub proof fn lemma_insert_no_round(filter: FilterModel, item: Seq<char>)
    ensures
        filter.insert_rounds(item, 0) == filter,
{
    assert(filter.insert_rounds(item, 0).bits =~= filter.bits);
}

/// No false negatives, one step: right after an item is inserted, a query
/// for it answers "possibly present".
pub proof fn lemma_inserted_is_accepted(filter: FilterModel, item: Seq<char>)
    requires
        filter.usable(),
    ensures
        filter.insert(item).accepts(item),
{
    let after = filter.insert(item);
    assert forall|round: usize| round < after.rounds implies after.bits[#[trigger] after.position(
        item,
        round,
    )] by {
        assert(filter.position(item, round) == after.position(item, round));
        assert(filter.touches(item, filter.rounds, filter.position(item, round)));
    }
}

/// An item that a filter accepts is still accepted after any insertion.
pub proof fn lemma_insert_keeps_accepted(filter: FilterModel, item: Seq<char>, other: Seq<char>)
    requires
        filter.usable(),
        filter.accepts(other),
    ensures
        filter.insert(item).accepts(other),
{
    let after = filter.insert(item);
    assert forall|round: usize| round < after.rounds implies after.bits[#[trigger] after.position(
        other,
        round,
    )] by {
        assert(filter.position(other, round) == after.position(other, round));
    }
}

/// Inserting a run of items keeps the size and the number of rounds.
pub proof fn lemma_insert_all_shape(filter: FilterModel, items: Seq<Seq<char>>)
    ensures
        filter.insert_all(items).size() == filter.size(),
        filter.insert_all(items).rounds == filter.rounds,
        filter.insert_all(items).usable() == filter.usable(),
    decreases items.len(),
{
    if items.len() > 0 {
        lemma_insert_all_shape(filter, items.drop_last());
    }
}

/// No false negatives: once an item has been inserted, however many other
/// insertions came before or after it, a query for it answers "possibly
/// present".
pub proof fn lemma_no_false_negatives(filter: FilterModel, items: Seq<Seq<char>>, which: int)
    requires
        filter.usable(),
        0 <= which < items.len(),
    ensures
        filter.insert_all(items).accepts(items[which]),
    decreases items.len(),
{
    let earlier = filter.insert_all(items.drop_last());
    lemma_insert_all_shape(filter, items.drop_last());
    if which == items.len() - 1 {
        lemma_inserted_is_accepted(earlier, items.last());
    } else {
        lemma_no_false_negatives(filter, items.drop_last(), which);
        lemma_insert_keeps_accepted(earlier, items.last(), items[which]);
    }
}

/// Insertion is idempotent: inserting an item a second time leaves the
/// filter as the first insertion left it.
pub proof fn lemma_insert_idempotent(filter: FilterModel, item: Seq<char>)
    ensures
        filter.insert(item).insert(item) == filter.insert(item),
{
    let once = filter.insert(item);
    let twice = once.insert(item);
    assert forall|index: int| 0 <= index < filter.size() implies twice.bits[index]
        == once.bits[index] by {
        if once.touches(item, once.rounds, index) {
            let round = choose|round: usize|
                round < once.rounds && #[trigger] once.position(item, round) == index;
            assert(round < filter.rounds && filter.position(item, round) == index);
        }
    }
    assert(twice.bits =~= once.bits);
}

/// Insertion is idempotent, however often it is repeated: inserting an item
/// `times` times in a row, at least once, leaves the filter as one insertion
/// leaves it.
pub proof fn lemma_insert_repeated(filter: FilterModel, item: Seq<char>, times: nat)
    requires
        times >= 1,
    ensures
        filter.insert_all(Seq::new(times, |index: int| item)) == filter.insert(item),
    decreases times,
{
    let copies = Seq::new(times, |index: int| item);
    let fewer = Seq::new((times - 1) as nat, |index: int| item);
    assert(copies.drop_last() =~= fewer);
    assert(copies.last() == item);
    if times == 1 {
        assert(filter.insert_all(fewer) == filter);
    } else {
        lemma_insert_repeated(filter, item, (times - 1) as nat);
        lemma_insert_idempotent(filter, item);
    }
}

/// Queries are deterministic: the answer depends on nothing but the bit
/// array, the number of rounds and the item, so repeating a query on an
/// unchanged filter repeats the answer. This rests on the hash of an item in
/// a round being a function of the two, which the hashing module takes on
/// trust.
pub proof fn lemma_accepts_deterministic(first: FilterModel, second: FilterModel, item: Seq<char>)
    requires
        first.bits == second.bits,
        first.rounds == second.rounds,
    ensures
        first.accepts(item) == second.accepts(item),
{
}

/// A filter with no bit set accepts nothing, provided it hashes at least
/// once per query.
pub proof fn lemma_clear_accepts_nothing(filter: FilterModel, item: Seq<char>)
    requires
        filter.is_clear(),
        filter.size() > 0,
        filter.rounds >= 1,
    ensures
        !filter.accepts(item),
{
    let round: usize = 0;
    assert(round < filter.rounds);
    assert(!filter.bits[filter.position(item, round)]);
}

/// A freshly made filter accepts nothing, provided it has a bit array and
/// hashes at least once per query.
pub proof fn lemma_empty_accepts_nothing(size: nat, rounds: nat, item: Seq<char>)
    requires
        size > 0,
        rounds >= 1,
    ensures
        !FilterModel::empty(size, rounds).accepts(item),
{
    lemma_clear_accepts_nothing(FilterModel::empty(size, rounds), item);
}

/// A filter with every bit set accepts every item, inserted or not.
pub proof fn lemma_saturated_accepts_all(filter: FilterModel, item: Seq<char>)
    requires
        filter.is_saturated(),
        filter.usable(),
    ensures
        filter.accepts(item),
{
}

} // verus!
