use crate::counting::{count, lemma_count_bounded, lemma_count_none};
use std::collections::HashMap;
use vstd::prelude::*;

verus! {

/// The test for being `value`.
pub open spec fn is(value: i32) -> spec_fn(i32) -> bool {
    |x: i32| x == value
}

/// How often `value` occurs in `numbers`.
pub open spec fn occurrences(numbers: Seq<i32>, value: i32) -> nat {
    count(numbers, is(value))
}

/// `value` is a mode of `numbers`: it occurs in them, and nothing occurs
/// more often.
pub open spec fn is_mode(numbers: Seq<i32>, value: i32) -> bool {
    &&& numbers.contains(value)
    &&& forall|other: i32| occurrences(numbers, other) <= occurrences(numbers, value)
}

/// A number occurs as often as it is counted: not at all if and only if
/// it is not among the numbers.
pub proof fn lemma_occurs(numbers: Seq<i32>, value: i32)
    ensures
        numbers.contains(value) <==> occurrences(numbers, value) > 0,
        occurrences(numbers, value) <= numbers.len(),
{
    lemma_count_none(numbers, is(value));
    lemma_count_bounded(numbers, is(value));
    if numbers.contains(value) {
        let i = choose|i: int| 0 <= i < numbers.len() && numbers[i] == value;
        assert(is(value)(numbers[i]));
    }
}

/// Among the first `upto` of `pairs` there is one for `value` with the
/// count `most`.
spec fn listed(pairs: Seq<(&i32, &usize)>, upto: int, value: i32, most: usize) -> bool {
    exists|j: int| 0 <= j < upto && *(#[trigger] pairs[j]).0 == value && *pairs[j].1 == most
}

/// Counts how often each number occurs.
fn tally(numbers: &Vec<i32>) -> (counts: HashMap<i32, usize>)
    ensures
        forall|value: i32| #[trigger]
            counts@.contains_key(value) <==> numbers@.contains(value),
        forall|value: i32| #[trigger]
            counts@.contains_key(value) ==> counts@[value] == occurrences(numbers@, value),
{
    broadcast use vstd::std_specs::hash::group_hash_axioms;

    let mut counts: HashMap<i32, usize> = HashMap::with_capacity(numbers.len());
    let mut i: usize = 0;
    proof {
        assert forall|value: i32| occurrences(numbers@.take(0), value) == 0 by {
            assert(numbers@.take(0).len() == 0);
        }
    }
    while i < numbers.len()
        invariant
            i <= numbers.len(),
            forall|value: i32| #[trigger]
                counts@.contains_key(value) <==> occurrences(numbers@.take(i as int), value) > 0,
            forall|value: i32| #[trigger]
                counts@.contains_key(value) ==> counts@[value] == occurrences(
                    numbers@.take(i as int),
                    value,
                ),
        decreases numbers.len() - i,
    {
        let number: i32 = numbers[i];
        let seen: usize = match counts.get(&number) {
            Some(n) => *n,
            None => 0,
        };
        proof {
            let before = numbers@.take(i as int);
            let after = numbers@.take(i + 1);
            assert(after.drop_last() =~= before);
            assert(after.last() == number);
            lemma_count_bounded(before, is(number));
            assert forall|value: i32|
                occurrences(after, value) == occurrences(before, value) + if value == number {
                    1nat
                } else {
                    0nat
                } by {
                assert(is(value)(number) == (value == number));
            }
        }
        counts.insert(number, seen + 1);
        i = i + 1;
    }
    proof {
        assert(numbers@.take(numbers.len() as int) =~= numbers@);
        assert forall|value: i32| #[trigger]
            counts@.contains_key(value) <==> numbers@.contains(value) by {
            lemma_occurs(numbers@, value);
        }
    }
    counts
}

/// The modes of `numbers`: the numbers that occur most often, each of them
/// once, in no particular order. Without numbers there is no mode.
pub fn calculate_mode(numbers: &Vec<i32>) -> (modes: Vec<i32>)
    ensures
        modes@.no_duplicates(),
        forall|value: i32| modes@.contains(value) <==> is_mode(numbers@, value),
{
    broadcast use vstd::std_specs::hash::group_hash_axioms;

    let counts = tally(numbers);
    let mut most: usize = 0;
    for pair in it: counts.iter()
        invariant
            forall|j: int|
                0 <= j < it.seq().len() ==> counts@.contains_key(*(#[trigger] it.seq()[j]).0)
                    && counts@[*it.seq()[j].0] == *it.seq()[j].1,
            forall|value: i32| #[trigger]
                counts@.contains_key(value) ==> it.seq().contains((&value, &counts@[value])),
            forall|j: int| 0 <= j < it.index() ==> *(#[trigger] it.seq()[j]).1 <= most,
            most == 0 || exists|value: i32| #[trigger]
                counts@.contains_key(value) && counts@[value] == most,
            it.index() == it.seq().len() ==> forall|value: i32| #[trigger]
                counts@.contains_key(value) ==> counts@[value] <= most,
    {
        let (_, n) = pair;
        if *n > most {
            most = *n;
        }
        proof {
            let at = it.index() as int;
            assert(counts@.contains_key(*it.seq()[at].0));
            assert forall|value: i32|
                at + 1 == it.seq().len() && #[trigger] counts@.contains_key(
                    value,
                ) implies counts@[value] <= most by {
                let found = (&value, &counts@[value]);
                let j = choose|j: int| 0 <= j < it.seq().len() && it.seq()[j] == found;
                assert(*it.seq()[j].1 <= most);
            }
        }
    }
    let mut modes: Vec<i32> = Vec::new();
    for pair in it: counts.iter()
        invariant
            it.seq().no_duplicates(),
            forall|j: int|
                0 <= j < it.seq().len() ==> counts@.contains_key(*(#[trigger] it.seq()[j]).0)
                    && counts@[*it.seq()[j].0] == *it.seq()[j].1,
            forall|value: i32| #[trigger]
                counts@.contains_key(value) ==> it.seq().contains((&value, &counts@[value])),
            forall|k: int|
                0 <= k < modes@.len() ==> listed(
                    it.seq(),
                    it.index() as int,
                    #[trigger] modes@[k],
                    most,
                ),
            forall|j: int|
                0 <= j < it.index() && *(#[trigger] it.seq()[j]).1 == most ==> modes@.contains(
                    *it.seq()[j].0,
                ),
            modes@.no_duplicates(),
            forall|k: int|
                0 <= k < modes@.len() ==> counts@.contains_key(#[trigger] modes@[k])
                    && counts@[modes@[k]] == most,
            it.index() == it.seq().len() ==> forall|value: i32| #[trigger]
                counts@.contains_key(value) && counts@[value] == most ==> modes@.contains(value),
    {
        let (value, n) = pair;
        let ghost before = modes@;
        let ghost at = it.index() as int;
        if *n == most {
            proof {
                if before.contains(*value) {
                    let k = choose|k: int| 0 <= k < before.len() && before[k] == *value;
                    assert(listed(it.seq(), at, before[k], most));
                    let j = choose|j: int|
                        0 <= j < at && *(#[trigger] it.seq()[j]).0 == before[k] && *it.seq()[j].1
                            == most;
                    assert(it.seq()[j] == it.seq()[at]);
                }
            }
            modes.push(*value);
        }
        proof {
            assert forall|k: int| 0 <= k < modes@.len() implies listed(
                it.seq(),
                at + 1,
                #[trigger] modes@[k],
                most,
            ) by {
                if k < before.len() {
                    assert(modes@[k] == before[k]);
                    assert(listed(it.seq(), at, before[k], most));
                    let j = choose|j: int|
                        0 <= j < at && *(#[trigger] it.seq()[j]).0 == before[k] && *it.seq()[j].1
                            == most;
                    assert(0 <= j < at + 1);
                } else {
                    assert(*it.seq()[at].0 == modes@[k]);
                }
            }
            assert forall|j: int|
                0 <= j < at + 1 && *(#[trigger] it.seq()[j]).1 == most implies modes@.contains(
                *it.seq()[j].0,
            ) by {
                if j < at {
                    let k = choose|k: int| 0 <= k < before.len() && before[k] == *it.seq()[j].0;
                    assert(modes@[k] == *it.seq()[j].0);
                } else {
                    assert(modes@[before.len() as int] == *value);
                }
            }
            assert forall|value: i32|
                at + 1 == it.seq().len() && #[trigger] counts@.contains_key(value) && counts@[value]
                    == most implies modes@.contains(value) by {
                let found = (&value, &counts@[value]);
                let j = choose|j: int| 0 <= j < it.seq().len() && it.seq()[j] == found;
                assert(*it.seq()[j].1 == most);
            }
        }
    }
    proof {
        assert forall|value: i32| modes@.contains(value) <==> is_mode(numbers@, value) by {
            lemma_occurs(numbers@, value);
            if modes@.contains(value) {
                let k = choose|k: int| 0 <= k < modes@.len() && modes@[k] == value;
                assert(counts@.contains_key(modes@[k]));
                assert forall|other: i32|
                    occurrences(numbers@, other) <= occurrences(numbers@, value) by {
                    lemma_occurs(numbers@, other);
                    if numbers@.contains(other) {
                        assert(counts@.contains_key(other));
                    }
                }
            }
            if is_mode(numbers@, value) {
                assert(counts@.contains_key(value));
                if most != 0 {
                    let top = choose|top: i32| #[trigger]
                        counts@.contains_key(top) && counts@[top] == most;
                    assert(occurrences(numbers@, top) <= occurrences(numbers@, value));
                }
            }
        }
    }
    modes
}

/// The numbers stand in ascending order.
pub open spec fn ascending(numbers: Seq<i32>) -> bool {
    forall|i: int, j: int| 0 <= i <= j < numbers.len() ==> numbers[i] <= numbers[j]
}

/// What lies in the middle of a list of numbers.
#[derive(Clone, Copy, Debug, PartialEq, Eq)]
pub enum Median {
    /// The list has an odd length, and this is its middle entry.
    Middle(i32),
    /// The list has an even length, and these are its two middle entries,
    /// the smaller first. Their mean is the median.
    Between(i32, i32),
}

/// The middle of `sorted`, which is not empty.
pub open spec fn middle(sorted: Seq<i32>) -> Median {
    if sorted.len() % 2 == 0 {
        Median::Between(sorted[sorted.len() / 2 - 1], sorted[sorted.len() as int / 2])
    } else {
        Median::Middle(sorted[sorted.len() as int / 2])
    }
}

/// `sort` of std's slices, on a vector: puts the numbers in ascending
/// order. The contract says that afterwards they ascend and are the same
/// numbers, each as often as before.
#[verifier::external_body]
fn sort(numbers: &mut Vec<i32>)
    ensures
        ascending(final(numbers)@),
        final(numbers)@.to_multiset() == old(numbers)@.to_multiset(),
{
    numbers.sort();
}

/// Sorts `numbers` and finds their middle, see [`middle`].
pub fn calculate_median(numbers: &mut Vec<i32>) -> (median: Median)
    requires
        old(numbers)@.len() > 0,
    ensures
        ascending(final(numbers)@),
        final(numbers)@.to_multiset() == old(numbers)@.to_multiset(),
        median == middle(final(numbers)@),
{
    sort(numbers);
    proof {
        old(numbers)@.to_multiset_ensures();
        numbers@.to_multiset_ensures();
    }
    let half: usize = numbers.len() / 2;
    if numbers.len() % 2 == 0 {
        Median::Between(numbers[half - 1], numbers[half])
    } else {
        Median::Middle(numbers[half])
    }
}

} // verus!
