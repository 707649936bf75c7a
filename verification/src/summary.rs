//! The aggregator: the arithmetic mean of the collected observations.
//!
//! Observations are binary64 bit patterns, and so is their mean. The library
//! fixes what is computed, in which order and from which values; the two
//! binary64 operations it needs, addition and division by a count, are the
//! caller's and are handed in.

use crate::observation::Observation;
use vstd::prelude::*;

verus! {

/// The bit patterns of `samples`, in order.
pub open spec fn bit_patterns(samples: Seq<Observation>) -> Seq<u64> {
    samples.map_values(|sample: Observation| sample@)
}

/// Whether `sums` are the running sums of `values` under `plus`: the first is
/// the first value, and each later one is `plus` applied to the sum before it
/// and the value at its place.
pub open spec fn running_sums<A: Fn(u64, u64) -> u64>(
    plus: A,
    values: Seq<u64>,
    sums: Seq<u64>,
) -> bool {
    &&& sums.len() == values.len()
    &&& values.len() > 0 ==> sums[0] == values[0]
    &&& forall|i: int|
        0 < i < values.len() ==> plus.ensures((sums[i - 1], values[i]), #[trigger] sums[i])
}

/// Whether `mean` is a mean of `values`: there is at least one value, and
/// `mean` is `divide` applied to the last of their running sums and to how
/// many they are.
pub open spec fn is_mean_of<A: Fn(u64, u64) -> u64, D: Fn(u64, usize) -> u64>(
    plus: A,
    divide: D,
    values: Seq<u64>,
    mean: u64,
) -> bool {
    exists|sums: Seq<u64>|
        values.len() > 0 && #[trigger] running_sums(plus, values, sums) && divide.ensures(
            (sums.last(), values.len() as usize),
            mean,
        )
}

/// The arithmetic mean of `samples`, or `None` if there are none. The mean of
/// no samples is absent; it is not zero.
///
/// The samples are summed in one pass, in arrival order, starting from the
/// first; the sum is then divided by their count. `plus` returns the bit
/// pattern of the sum of two binary64 numbers given by their bit patterns,
/// and `divide` that of a binary64 number divided by a count.
pub fn summarize<A: Fn(u64, u64) -> u64, D: Fn(u64, usize) -> u64>(
    samples: &Vec<Observation>,
    plus: A,
    divide: D,
) -> (mean: Option<u64>)
    requires
        forall|x: u64, y: u64| plus.requires((x, y)),
        forall|x: u64, count: usize| count > 0 ==> divide.requires((x, count)),
    ensures
        samples@.len() == 0 <==> mean is None,
        mean matches Some(m) ==> is_mean_of(plus, divide, bit_patterns(samples@), m),
{
    if samples.len() == 0 {
        return None;
    }
    let ghost values = bit_patterns(samples@);
    let mut total = samples[0].bits();
    let ghost mut sums = seq![total];
    let mut i: usize = 1;
    while i < samples.len()
        invariant
            1 <= i <= samples.len(),
            values == bit_patterns(samples@),
            running_sums(plus, values.take(i as int), sums),
            sums.last() == total,
            forall|x: u64, y: u64| plus.requires((x, y)),
        decreases samples.len() - i,
    {
        let sample = samples[i].bits();
        let next = plus(total, sample);
        proof {
            let before = sums;
            sums = sums.push(next);
            let shown = values.take(i + 1);
            assert(shown[i as int] == sample);
            assert forall|k: int| 0 < k < shown.len() implies plus.ensures(
                (sums[k - 1], shown[k]),
                #[trigger] sums[k],
            ) by {
                if k < i {
                    assert(sums[k] == before[k] && sums[k - 1] == before[k - 1]);
                    assert(shown[k] == values.take(i as int)[k]);
                }
            }
        }
        total = next;
        i = i + 1;
    }
    assert(values.take(i as int) == values);
    Some(divide(total, samples.len()))
}

/// Whether an addition has at most one result for each two numbers.
pub open spec fn one_sum<A: Fn(u64, u64) -> u64>(plus: A) -> bool {
    forall|x: u64, y: u64, first: u64, second: u64|
        plus.ensures((x, y), first) && plus.ensures((x, y), second) ==> first == second
}

/// Whether a division has at most one result for each number and count.
pub open spec fn one_quotient<D: Fn(u64, usize) -> u64>(divide: D) -> bool {
    forall|x: u64, count: usize, first: u64, second: u64|
        divide.ensures((x, count), first) && divide.ensures((x, count), second) ==> first
            == second
}

/// Running sums of the same values agree, where addition has one result.
proof fn lemma_running_sums_agree<A: Fn(u64, u64) -> u64>(
    plus: A,
    values: Seq<u64>,
    first: Seq<u64>,
    second: Seq<u64>,
    upto: int,
)
    requires
        one_sum(plus),
        running_sums(plus, values, first),
        running_sums(plus, values, second),
        0 <= upto < values.len(),
    ensures
        first[upto] == second[upto],
    decreases upto,
{
    if upto > 0 {
        lemma_running_sums_agree(plus, values, first, second, upto - 1);
        assert(plus.ensures((first[upto - 1], values[upto]), first[upto]));
        assert(plus.ensures((second[upto - 1], values[upto]), second[upto]));
    } else {
        assert(first[0] == values[0] && second[0] == values[0]);
    }
}

/// The mean is a function of the samples: where addition and division each
/// have one result, as arithmetic does, values have no more than one mean.
pub proof fn lemma_mean_is_unique<A: Fn(u64, u64) -> u64, D: Fn(u64, usize) -> u64>(
    plus: A,
    divide: D,
    values: Seq<u64>,
    first: u64,
    second: u64,
)
    requires
        one_sum(plus),
        one_quotient(divide),
        is_mean_of(plus, divide, values, first),
        is_mean_of(plus, divide, values, second),
    ensures
        first == second,
{
    let sums = choose|sums: Seq<u64>|
        values.len() > 0 && #[trigger] running_sums(plus, values, sums) && divide.ensures(
            (sums.last(), values.len() as usize),
            first,
        );
    let other = choose|sums: Seq<u64>|
        values.len() > 0 && #[trigger] running_sums(plus, values, sums) && divide.ensures(
            (sums.last(), values.len() as usize),
            second,
        );
    lemma_running_sums_agree(plus, values, sums, other, values.len() - 1);
}

} // verus!
