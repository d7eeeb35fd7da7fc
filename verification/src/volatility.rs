//! The sample behind the volatility of a series: the pairs of base fees
//! whose log returns are taken.
//!
//! The volatility is the standard deviation of the log returns of adjacent
//! base fees, in basis points. The logarithms, the mean, the variance and
//! its root are computed in floating point by the caller; which pairs of
//! fees enter the sample, and when the result is zero whatever the
//! arithmetic, is decided here.

use vstd::prelude::*;
use crate::block::Block;
use crate::block::Uint256;

verus! {

/// The volatility of a series that has no returns, in basis points.
pub const ZERO_VOLATILITY: u128 = 0;

/// Two adjacent base fees whose log return, the natural logarithm of
/// `current / previous`, enters the sample.
#[derive(Clone, Copy, Debug, PartialEq, Eq, Structural)]
pub struct FeePair {
    pub previous: Uint256,
    pub current: Uint256,
}

/// The volatility of a series, as far as it is decided without arithmetic
/// on the returns.
#[derive(Debug, PartialEq, Eq)]
pub enum Volatility {
    /// The volatility, in basis points.
    BasisPoints(u128),
    /// The volatility is the standard deviation of the log returns of
    /// these pairs, of which there is at least one.
    OfReturns(Vec<FeePair>),
}

/// Whether two adjacent blocks give a return: both carry a base fee, and
/// the fee of the earlier block is greater than zero.
pub open spec fn usable(previous: Block, current: Block) -> bool {
    previous.has_positive_fee() && current.base_fee_per_gas is Some
}

/// The base fees of two adjacent blocks that give a return.
pub open spec fn pair_of(previous: Block, current: Block) -> FeePair {
    FeePair { previous: previous.base_fee_per_gas->0, current: current.base_fee_per_gas->0 }
}

/// The sample of a series: the fees of every two adjacent blocks that give
/// a return, in the order of the series. Other pairs are left out; they do
/// not count as a return of zero.
pub open spec fn return_pairs(series: Seq<Block>) -> Seq<FeePair>
    decreases series.len(),
{
    if series.len() < 2 {
        Seq::empty()
    } else {
        let earlier = return_pairs(series.drop_last());
        let previous = series[series.len() - 2];
        let current = series.last();
        if usable(previous, current) {
            earlier.push(pair_of(previous, current))
        } else {
            earlier
        }
    }
}

/// Whether `pair` holds the fees of two adjacent blocks of the series that
/// give a return.
pub open spec fn sampled_from(series: Seq<Block>, pair: FeePair) -> bool {
    exists|i: int|
        0 < i < series.len() && usable(series[i - 1], #[trigger] series[i]) && pair == pair_of(
            series[i - 1],
            series[i],
        )
}

/// Every pair of the sample comes from two adjacent blocks that give a
/// return, so no pair has an earlier fee of zero, and there are fewer pairs
/// than blocks.
pub proof fn lemma_sample_holds_usable_pairs(series: Seq<Block>)
    ensures
        return_pairs(series).len() <= series.len(),
        series.len() > 0 ==> return_pairs(series).len() < series.len(),
        forall|k: int|
            0 <= k < return_pairs(series).len() ==> sampled_from(
                series,
                #[trigger] return_pairs(series)[k],
            ),
        forall|k: int|
            0 <= k < return_pairs(series).len() ==> (#[trigger] return_pairs(series)[k]).previous@
                > 0,
    decreases series.len(),
{
    if series.len() >= 2 {
        let shorter = series.drop_last();
        lemma_sample_holds_usable_pairs(shorter);
        let sample = return_pairs(series);
        let last = series.len() - 1;
        assert forall|k: int| 0 <= k < sample.len() implies sampled_from(
            series,
            #[trigger] sample[k],
        ) by {
            if k < return_pairs(shorter).len() {
                let pair = return_pairs(shorter)[k];
                assert(sampled_from(shorter, pair));
                let i = choose|i: int|
                    0 < i < shorter.len() && usable(shorter[i - 1], #[trigger] shorter[i]) && pair
                        == pair_of(shorter[i - 1], shorter[i]);
                assert(shorter[i - 1] == series[i - 1] && shorter[i] == series[i]);
                assert(usable(series[i - 1], series[i]));
            } else {
                assert(usable(series[last - 1], series[last]));
            }
        }
        assert forall|k: int| 0 <= k < sample.len() implies (#[trigger] sample[k]).previous@
            > 0 by {
            assert(sampled_from(series, sample[k]));
        }
    }
}

/// A block that gives no return with either neighbour, and whose
/// neighbours give none with each other, can be taken out of the series:
/// the sample stays the same.
pub proof fn lemma_unsampled_block_drops_out(series: Seq<Block>, at: int)
    requires
        0 <= at < series.len(),
        0 < at ==> !usable(series[at - 1], series[at]),
        at + 1 < series.len() ==> !usable(series[at], series[at + 1]),
        0 < at && at + 1 < series.len() ==> !usable(series[at - 1], series[at + 1]),
    ensures
        return_pairs(series.remove(at)) == return_pairs(series),
    decreases series.len(),
{
    let last = series.len() - 1;
    let without = series.remove(at);
    let shorter = series.drop_last();
    if at == last {
        assert(without == shorter);
        assert(return_pairs(series) == return_pairs(shorter));
    } else if at == last - 1 {
        let shortest = shorter.drop_last();
        assert(return_pairs(series) == return_pairs(shorter));
        assert(return_pairs(shorter) == return_pairs(shortest)) by {
            if at > 0 {
                assert(shorter[shorter.len() - 2] == series[at - 1]);
                assert(shorter.last() == series[at]);
            }
        }
        assert(without.drop_last() == shortest);
        assert(return_pairs(without) == return_pairs(shortest)) by {
            if at > 0 {
                assert(without[without.len() - 2] == series[at - 1]);
                assert(without.last() == series[at + 1]);
            }
        }
    } else {
        assert(without.drop_last() == shorter.remove(at));
        assert(without.last() == series.last());
        assert(without[without.len() - 2] == series[last - 1]);
        assert(shorter[at] == series[at] && shorter[at + 1] == series[at + 1]);
        if at > 0 {
            assert(shorter[at - 1] == series[at - 1]);
        }
        lemma_unsampled_block_drops_out(shorter, at);
    }
}

/// The sample of a series.
pub fn return_sample(series: &Vec<Block>) -> (pairs: Vec<FeePair>)
    ensures
        pairs@ == return_pairs(series@),
        series.len() < 2 ==> pairs.len() == 0,
        forall|k: int| 0 <= k < pairs.len() ==> (#[trigger] pairs[k]).previous@ > 0,
{
    proof {
        lemma_sample_holds_usable_pairs(series@);
    }
    let mut pairs: Vec<FeePair> = Vec::new();
    if series.len() < 2 {
        return pairs;
    }
    assert(series@.take(1).len() == 1);
    let mut index: usize = 1;
    while index < series.len()
        invariant
            1 <= index <= series.len(),
            pairs@ == return_pairs(series@.take(index as int)),
        decreases series.len() - index,
    {
        proof {
            let longer = series@.take(index + 1);
            assert(longer.drop_last() == series@.take(index as int));
            assert(longer[longer.len() - 2] == series[index - 1]);
            assert(longer.last() == series[index as int]);
        }
        if let Some(previous) = series[index - 1].base_fee_per_gas {
            if let Some(current) = series[index].base_fee_per_gas {
                if !previous.is_zero() {
                    pairs.push(FeePair { previous, current });
                }
            }
        }
        index += 1;
    }
    assert(series@.take(index as int) == series@);
    pairs
}

/// The volatility of a series, as far as it is decided without arithmetic
/// on the returns: zero where the series gives no return, as every series
/// of fewer than two blocks does, and the standard deviation of the sample
/// otherwise.
pub fn calculate_volatility(series: &Vec<Block>) -> (volatility: Volatility)
    ensures
        match volatility {
            Volatility::BasisPoints(points) => points == ZERO_VOLATILITY && return_pairs(
                series@,
            ).len() == 0,
            Volatility::OfReturns(pairs) => pairs@ == return_pairs(series@) && pairs.len() > 0,
        },
        series.len() < 2 ==> volatility == Volatility::BasisPoints(ZERO_VOLATILITY),
{
    let pairs = return_sample(series);
    if pairs.len() == 0 {
        Volatility::BasisPoints(ZERO_VOLATILITY)
    } else {
        Volatility::OfReturns(pairs)
    }
}

} // verus!
