//! Resolving a timestamp to a block by binary search over block numbers.
//!
//! Every probe of the search is a round trip to the chain, so the search is
//! written as a machine: [`BlockSearch::step`] says which block to probe,
//! the driver fetches it, and [`BlockSearch::observe`] takes the probed
//! block's timestamp. [`get_block_closest_to_timestamp`] drives the same
//! machine over a chain that is held in memory.

use vstd::prelude::*;
use crate::block::Block;
use crate::block::timestamps;

verus! {

/// The slack, in seconds, by which a timestamp may lie past the latest block.
pub const BLOCK_PERIOD: u64 = 12;

/// The side of a timestamp on which the closest block is looked for.
#[derive(Clone, Copy, Debug, PartialEq, Eq, Structural)]
pub enum BlockDirection {
    /// The first block whose timestamp is at or after the given one.
    Above,
    /// The last block whose timestamp is at or before the given one.
    Below,
}

/// Why no block is returned for a timestamp.
#[derive(Clone, Copy, Debug, PartialEq, Eq, Structural)]
pub enum LocateError {
    /// The timestamp lies more than one block period past the latest block.
    FutureTimestamp,
    /// The chain holds no block on the requested side of the timestamp.
    OutOfRange,
}

/// What the driver of a search does next.
#[derive(Clone, Copy, Debug, PartialEq, Eq, Structural)]
pub enum SearchStep {
    /// Fetch the block with this number and hand its timestamp to `observe`.
    Probe(u64),
    /// The search has ended: the block with this number is the answer.
    Found(u64),
    /// The search has ended without a block.
    Failed(LocateError),
}

/// The state of a search, as contracts speak of it.
#[derive(Clone, Copy, Debug, PartialEq, Eq)]
pub enum SearchState {
    /// The blocks `lower..=upper` are still candidates for an exact match.
    Probing { target: u64, direction: BlockDirection, lower: u64, upper: u64, latest: u64 },
    /// The search has ended with this result.
    Ended(Result<u64, LocateError>),
}

/// The block number that a search over `lower..=upper` probes.
pub open spec fn midpoint(lower: u64, upper: u64) -> u64 {
    (lower + (upper - lower) / 2) as u64
}

/// The result of a search whose last probe, at `upper`, was older than the
/// target: the lower bound has passed `upper`.
pub open spec fn resolved_past(direction: BlockDirection, upper: u64, latest: u64) -> Result<
    u64,
    LocateError,
> {
    match direction {
        BlockDirection::Below => Ok(upper),
        BlockDirection::Above => if upper < latest {
            Ok((upper + 1) as u64)
        } else {
            Err(LocateError::OutOfRange)
        },
    }
}

/// The result of a search whose last probe, at `lower`, was younger than the
/// target: the upper bound has fallen below `lower`.
pub open spec fn resolved_before(direction: BlockDirection, lower: u64) -> Result<
    u64,
    LocateError,
> {
    match direction {
        BlockDirection::Above => Ok(lower),
        BlockDirection::Below => if lower > 0 {
            Ok((lower - 1) as u64)
        } else {
            Err(LocateError::OutOfRange)
        },
    }
}

impl SearchState {
    /// A probing state holds a non-empty interval below the latest block.
    pub open spec fn wf(self) -> bool {
        self matches SearchState::Probing { lower, upper, latest, .. } ==> lower <= upper <= latest
    }

    /// The state in which the search for `timestamp` begins, given the
    /// number and the timestamp of the latest block.
    pub open spec fn started(
        timestamp: u64,
        direction: BlockDirection,
        latest_number: u64,
        latest_timestamp: u64,
    ) -> SearchState {
        if timestamp > latest_timestamp + BLOCK_PERIOD {
            SearchState::Ended(Err(LocateError::FutureTimestamp))
        } else {
            SearchState::Probing {
                target: timestamp,
                direction,
                lower: 0,
                upper: latest_number,
                latest: latest_number,
            }
        }
    }

    /// What the driver does in this state.
    pub open spec fn pending(self) -> SearchStep {
        match self {
            SearchState::Probing { lower, upper, .. } => SearchStep::Probe(midpoint(lower, upper)),
            SearchState::Ended(Ok(number)) => SearchStep::Found(number),
            SearchState::Ended(Err(error)) => SearchStep::Failed(error),
        }
    }

    /// The state after the probed block showed `timestamp`. An exact match
    /// ends the search whatever the direction. An older block moves the lower
    /// bound past the probe, a younger one moves the upper bound below it;
    /// once the bounds have crossed, the direction picks the block.
    pub open spec fn observed(self, timestamp: u64) -> SearchState {
        match self {
            SearchState::Ended(_) => self,
            SearchState::Probing { target, direction, lower, upper, latest } => {
                let mid = midpoint(lower, upper);
                if timestamp == target {
                    SearchState::Ended(Ok(mid))
                } else if timestamp < target {
                    if mid < upper {
                        SearchState::Probing {
                            target,
                            direction,
                            lower: (mid + 1) as u64,
                            upper,
                            latest,
                        }
                    } else {
                        SearchState::Ended(resolved_past(direction, upper, latest))
                    }
                } else {
                    if lower < mid {
                        SearchState::Probing {
                            target,
                            direction,
                            lower,
                            upper: (mid - 1) as u64,
                            latest,
                        }
                    } else {
                        SearchState::Ended(resolved_before(direction, lower))
                    }
                }
            },
        }
    }

    /// The number of candidates that are left; zero once the search has ended.
    pub open spec fn remaining(self) -> nat {
        match self {
            SearchState::Probing { lower, upper, .. } => if lower <= upper {
                (upper - lower + 1) as nat
            } else {
                0
            },
            SearchState::Ended(_) => 0,
        }
    }
}

/// A probe keeps a state well formed and leaves at most half of the
/// candidates.
pub proof fn lemma_observed_shrinks(state: SearchState, timestamp: u64)
    requires
        state.wf(),
    ensures
        state.observed(timestamp).wf(),
        state is Probing ==> 2 * state.observed(timestamp).remaining() <= state.remaining(),
        state is Ended ==> state.observed(timestamp) == state,
        state matches SearchState::Probing { target, direction, latest, .. } ==> match state.observed(
            timestamp,
        ) {
            SearchState::Probing { target: t, direction: d, latest: l, .. } => t == target && d
                == direction && l == latest,
            SearchState::Ended(Ok(number)) => number <= latest,
            SearchState::Ended(Err(error)) => error == LocateError::OutOfRange,
        },
{
}

/// A search in progress.
pub struct BlockSearch {
    state: SearchState,
}

impl View for BlockSearch {
    type V = SearchState;

    closed spec fn view(&self) -> SearchState {
        self.state
    }
}

impl BlockSearch {
    #[verifier::type_invariant]
    spec fn inv(self) -> bool {
        self.state.wf()
    }

    /// Begins the search for `timestamp` on a chain whose latest block has
    /// the given number and timestamp. A timestamp more than one block
    /// period past the latest block ends the search at once.
    pub fn start(
        timestamp: u64,
        direction: BlockDirection,
        latest_number: u64,
        latest_timestamp: u64,
    ) -> (search: BlockSearch)
        ensures
            search@ == SearchState::started(timestamp, direction, latest_number, latest_timestamp),
            search@.wf(),
    {
        let state = if timestamp > latest_timestamp.saturating_add(BLOCK_PERIOD) {
            SearchState::Ended(Err(LocateError::FutureTimestamp))
        } else {
            SearchState::Probing {
                target: timestamp,
                direction,
                lower: 0,
                upper: latest_number,
                latest: latest_number,
            }
        };
        BlockSearch { state }
    }

    /// What to do next: probe a block, or take the result.
    pub fn step(&self) -> (step: SearchStep)
        ensures
            step == self@.pending(),
            self@.wf(),
    {
        proof {
            use_type_invariant(self);
        }
        match self.state {
            SearchState::Probing { lower, upper, .. } => SearchStep::Probe(
                lower + (upper - lower) / 2,
            ),
            SearchState::Ended(Ok(number)) => SearchStep::Found(number),
            SearchState::Ended(Err(error)) => SearchStep::Failed(error),
        }
    }

    /// Takes the timestamp of the block that `step` asked for. Once the
    /// search has ended, a further timestamp leaves it as it is.
    pub fn observe(self, timestamp: u64) -> (next: BlockSearch)
        ensures
            next@ == self@.observed(timestamp),
            next@.wf(),
            self@ is Probing ==> next@.remaining() < self@.remaining(),
    {
        proof {
            use_type_invariant(&self);
            lemma_observed_shrinks(self.state, timestamp);
        }
        let state = match self.state {
            SearchState::Ended(result) => SearchState::Ended(result),
            SearchState::Probing { target, direction, lower, upper, latest } => {
                let mid = lower + (upper - lower) / 2;
                if timestamp == target {
                    SearchState::Ended(Ok(mid))
                } else if timestamp < target {
                    if mid < upper {
                        SearchState::Probing { target, direction, lower: mid + 1, upper, latest }
                    } else {
                        SearchState::Ended(
                            match direction {
                                BlockDirection::Below => Ok(upper),
                                BlockDirection::Above => if upper < latest {
                                    Ok(upper + 1)
                                } else {
                                    Err(LocateError::OutOfRange)
                                },
                            },
                        )
                    }
                } else {
                    if lower < mid {
                        SearchState::Probing { target, direction, lower, upper: mid - 1, latest }
                    } else {
                        SearchState::Ended(
                            match direction {
                                BlockDirection::Above => Ok(lower),
                                BlockDirection::Below => if lower > 0 {
                                    Ok(lower - 1)
                                } else {
                                    Err(LocateError::OutOfRange)
                                },
                            },
                        )
                    }
                }
            },
        };
        BlockSearch { state }
    }
}

/// Whether the timestamps never fall from one block to the next.
pub open spec fn non_decreasing(chain: Seq<u64>) -> bool {
    forall|i: int, j: int| 0 <= i <= j < chain.len() ==> chain[i] <= chain[j]
}

/// Whether some block of the chain has exactly this timestamp.
pub open spec fn has_timestamp(chain: Seq<u64>, target: u64) -> bool {
    exists|i: int| 0 <= i < chain.len() && chain[i] == target
}

/// The result of the search that is in `state`, on the chain whose block `n`
/// has the timestamp `chain[n]`: the state after all its probes.
pub open spec fn outcome_on(state: SearchState, chain: Seq<u64>) -> Result<u64, LocateError>
    decreases state.remaining(),
{
    match state {
        SearchState::Ended(result) => result,
        SearchState::Probing { lower, upper, .. } => {
            if lower <= upper && upper < chain.len() {
                outcome_on(state.observed(chain[midpoint(lower, upper) as int]), chain)
            } else {
                Err(LocateError::OutOfRange)
            }
        },
    }
}

/// The number of the block that the search for `timestamp` ends on, on the
/// chain whose block `n` has the timestamp `chain[n]`. A chain without
/// blocks has none on either side of any timestamp.
pub open spec fn locate_on(chain: Seq<u64>, timestamp: u64, direction: BlockDirection) -> Result<
    u64,
    LocateError,
> {
    if chain.len() == 0 {
        Err(LocateError::OutOfRange)
    } else {
        outcome_on(
            SearchState::started(timestamp, direction, (chain.len() - 1) as u64, chain.last()),
            chain,
        )
    }
}

/// What the closest block is, said without the search: `result` is right for
/// `target` on this chain.
///
/// A timestamp more than one block period past the latest block is in the
/// future. Otherwise a block with exactly the target's timestamp is the
/// answer for both directions. Without one, `Above` asks for the first block
/// younger than the target and `Below` for the last block older than it, and
/// the target is out of range where the chain has no such block.
pub open spec fn is_closest(
    chain: Seq<u64>,
    target: u64,
    direction: BlockDirection,
    result: Result<u64, LocateError>,
) -> bool {
    if chain.len() == 0 {
        result == Err::<u64, LocateError>(LocateError::OutOfRange)
    } else if target > chain.last() + BLOCK_PERIOD {
        result == Err::<u64, LocateError>(LocateError::FutureTimestamp)
    } else if has_timestamp(chain, target) {
        result matches Ok(number) && number < chain.len() && chain[number as int] == target
    } else {
        match direction {
            BlockDirection::Above => if target > chain.last() {
                result == Err::<u64, LocateError>(LocateError::OutOfRange)
            } else {
                result matches Ok(number) && number < chain.len() && chain[number as int] > target
                    && (number == 0 || chain[number - 1] < target)
            },
            BlockDirection::Below => if target < chain[0] {
                result == Err::<u64, LocateError>(LocateError::OutOfRange)
            } else {
                result matches Ok(number) && number < chain.len() && chain[number as int] < target
                    && (number + 1 == chain.len() || chain[number + 1] > target)
            },
        }
    }
}

/// Every block before `lower` is older than the target and every block
/// after `upper` is younger.
pub open spec fn brackets(chain: Seq<u64>, target: u64, lower: u64, upper: u64) -> bool {
    &&& forall|i: int| 0 <= i < lower && i < chain.len() ==> chain[i] < target
    &&& forall|i: int| upper < i < chain.len() ==> chain[i] > target
}

/// On a chain whose timestamps never fall, a search whose bounds bracket the
/// target ends on the closest block.
pub proof fn lemma_search_ends_on_closest(chain: Seq<u64>, state: SearchState)
    requires
        non_decreasing(chain),
        0 < chain.len() <= u64::MAX,
        state matches SearchState::Probing { target, lower, upper, latest, .. } && lower <= upper
            <= latest && latest == chain.len() - 1 && target <= chain.last() + BLOCK_PERIOD
            && brackets(chain, target, lower, upper),
    ensures
        state matches SearchState::Probing { target, direction, .. } && is_closest(
            chain,
            target,
            direction,
            outcome_on(state, chain),
        ),
    decreases state.remaining(),
{
    if let SearchState::Probing { target, direction, lower, upper, latest } = state {
        let mid = midpoint(lower, upper);
        let seen = chain[mid as int];
        let next = state.observed(seen);
        lemma_observed_shrinks(state, seen);
        assert(outcome_on(state, chain) == outcome_on(next, chain));
        if seen == target {
            assert(has_timestamp(chain, target));
        } else if seen < target {
            assert forall|i: int| 0 <= i <= mid implies chain[i] < target by {
                assert(chain[i] <= chain[mid as int]);
            }
            if mid < upper {
                lemma_search_ends_on_closest(chain, next);
            } else {
                assert(!has_timestamp(chain, target));
            }
        } else {
            assert forall|i: int| mid <= i < chain.len() implies chain[i] > target by {
                assert(chain[mid as int] <= chain[i]);
            }
            if lower < mid {
                lemma_search_ends_on_closest(chain, next);
            } else {
                assert(!has_timestamp(chain, target));
            }
        }
    }
}

/// On a chain whose timestamps never fall, the search for a timestamp ends
/// on the closest block in the requested direction.
pub proof fn lemma_locate_is_closest(chain: Seq<u64>, timestamp: u64, direction: BlockDirection)
    requires
        non_decreasing(chain),
        chain.len() <= u64::MAX,
    ensures
        is_closest(chain, timestamp, direction, locate_on(chain, timestamp, direction)),
{
    if chain.len() > 0 && timestamp <= chain.last() + BLOCK_PERIOD {
        let state = SearchState::started(
            timestamp,
            direction,
            (chain.len() - 1) as u64,
            chain.last(),
        );
        lemma_search_ends_on_closest(chain, state);
    }
}

/// While a block with the target's timestamp lies between the bounds, the
/// search takes the same probes for both directions and ends on the same
/// block.
proof fn lemma_exact_match_same_path(
    chain: Seq<u64>,
    target: u64,
    lower: u64,
    upper: u64,
    latest: u64,
    witness: int,
)
    requires
        non_decreasing(chain),
        lower <= witness <= upper,
        upper <= latest,
        upper < chain.len(),
        chain[witness] == target,
    ensures
        outcome_on(
            SearchState::Probing { target, direction: BlockDirection::Above, lower, upper, latest },
            chain,
        ) == outcome_on(
            SearchState::Probing { target, direction: BlockDirection::Below, lower, upper, latest },
            chain,
        ),
    decreases upper - lower,
{
    let mid = midpoint(lower, upper);
    let seen = chain[mid as int];
    if seen < target {
        assert(mid < witness) by {
            if witness <= mid {
                assert(chain[witness] <= chain[mid as int]);
            }
        }
        lemma_exact_match_same_path(chain, target, (mid + 1) as u64, upper, latest, witness);
    } else if seen > target {
        assert(witness < mid) by {
            if mid <= witness {
                assert(chain[mid as int] <= chain[witness]);
            }
        }
        lemma_exact_match_same_path(chain, target, lower, (mid - 1) as u64, latest, witness);
    }
}

/// A timestamp that a block of the chain has exactly resolves to one block,
/// whatever the direction, and that block has the timestamp. Where no other
/// block shares the timestamp, it is that very block.
pub proof fn lemma_exact_match_ignores_direction(chain: Seq<u64>, number: int)
    requires
        non_decreasing(chain),
        chain.len() <= u64::MAX,
        0 <= number < chain.len(),
    ensures
        locate_on(chain, chain[number], BlockDirection::Above) == locate_on(
            chain,
            chain[number],
            BlockDirection::Below,
        ),
        locate_on(chain, chain[number], BlockDirection::Above) matches Ok(found) && found
            < chain.len() && chain[found as int] == chain[number],
        (forall|i: int| 0 <= i < chain.len() && i != number ==> chain[i] != chain[number])
            ==> locate_on(chain, chain[number], BlockDirection::Above) == Ok::<u64, LocateError>(
            number as u64,
        ),
{
    let target = chain[number];
    assert(target <= chain.last());
    assert(has_timestamp(chain, target));
    lemma_locate_is_closest(chain, target, BlockDirection::Above);
    let latest = (chain.len() - 1) as u64;
    lemma_exact_match_same_path(chain, target, 0, latest, latest, number);
}

/// A timestamp strictly between those of two adjacent blocks resolves to the
/// later block for `Above` and to the earlier block for `Below`.
pub proof fn lemma_between_adjacent_blocks(chain: Seq<u64>, earlier: int, timestamp: u64)
    requires
        non_decreasing(chain),
        chain.len() <= u64::MAX,
        0 <= earlier,
        earlier + 1 < chain.len(),
        chain[earlier] < timestamp < chain[earlier + 1],
    ensures
        locate_on(chain, timestamp, BlockDirection::Above) == Ok::<u64, LocateError>(
            (earlier + 1) as u64,
        ),
        locate_on(chain, timestamp, BlockDirection::Below) == Ok::<u64, LocateError>(
            earlier as u64,
        ),
{
    assert(chain[earlier + 1] <= chain.last());
    assert(chain[0] <= chain[earlier]);
    assert forall|i: int| 0 <= i < chain.len() implies chain[i] != timestamp by {
        if i <= earlier {
            assert(chain[i] <= chain[earlier]);
        } else {
            assert(chain[earlier + 1] <= chain[i]);
        }
    }
    assert(!has_timestamp(chain, timestamp));
    lemma_locate_is_closest(chain, timestamp, BlockDirection::Above);
    lemma_locate_is_closest(chain, timestamp, BlockDirection::Below);
    let above = locate_on(chain, timestamp, BlockDirection::Above);
    let below = locate_on(chain, timestamp, BlockDirection::Below);
    if let Ok(found) = above {
        if found < earlier + 1 {
            assert(chain[found as int] <= chain[earlier]);
        } else if found > earlier + 1 {
            assert(chain[earlier + 1] <= chain[found - 1]);
        }
    }
    if let Ok(found) = below {
        if found > earlier {
            assert(chain[earlier + 1] <= chain[found as int]);
        } else if found < earlier {
            assert(chain[found + 1] <= chain[earlier]);
        }
    }
}

/// The block of `chain` that is closest to `timestamp` in the given
/// direction, where `chain[n]` is the block with number `n`.
///
/// The result is that of the search, probe by probe. Where the chain's
/// timestamps never fall, it is the closest block as [`is_closest`] says it.
pub fn get_block_closest_to_timestamp(
    chain: &Vec<Block>,
    timestamp: u64,
    direction: BlockDirection,
) -> (result: Result<Block, LocateError>)
    ensures
        match locate_on(timestamps(chain@), timestamp, direction) {
            Ok(number) => number < chain.len() && result == Ok::<Block, LocateError>(
                chain[number as int],
            ),
            Err(error) => result == Err::<Block, LocateError>(error),
        },
        non_decreasing(timestamps(chain@)) ==> is_closest(
            timestamps(chain@),
            timestamp,
            direction,
            locate_on(timestamps(chain@), timestamp, direction),
        ),
{
    let ghost stamps = timestamps(chain@);
    let length = chain.len();
    proof {
        assert(stamps.len() == length);
        if non_decreasing(stamps) {
            lemma_locate_is_closest(stamps, timestamp, direction);
        }
    }
    if length == 0 {
        return Err(LocateError::OutOfRange);
    }
    let latest = length - 1;
    let mut search = BlockSearch::start(
        timestamp,
        direction,
        latest as u64,
        chain[latest].timestamp,
    );
    loop
        invariant
            stamps == timestamps(chain@),
            chain.len() == length,
            latest == length - 1,
            search@.wf(),
            outcome_on(search@, stamps) == locate_on(stamps, timestamp, direction),
            non_decreasing(stamps) ==> is_closest(
                stamps,
                timestamp,
                direction,
                locate_on(stamps, timestamp, direction),
            ),
            search@ matches SearchState::Probing { latest: l, .. } ==> l == latest,
            search@ matches SearchState::Ended(Ok(number)) ==> number <= latest,
        decreases search@.remaining(),
    {
        match search.step() {
            SearchStep::Probe(number) => {
                proof {
                    lemma_observed_shrinks(search@, chain[number as int].timestamp);
                }
                search = search.observe(chain[number as usize].timestamp);
            },
            SearchStep::Found(number) => {
                return Ok(chain[number as usize]);
            },
            SearchStep::Failed(error) => {
                return Err(error);
            },
        }
    }
}

/// The last block of `chain` whose timestamp is at or before `timestamp`.
pub fn get_closest_block_below(chain: &Vec<Block>, timestamp: u64) -> (result: Result<
    Block,
    LocateError,
>)
    ensures
        match locate_on(timestamps(chain@), timestamp, BlockDirection::Below) {
            Ok(number) => number < chain.len() && result == Ok::<Block, LocateError>(
                chain[number as int],
            ),
            Err(error) => result == Err::<Block, LocateError>(error),
        },
        non_decreasing(timestamps(chain@)) ==> is_closest(
            timestamps(chain@),
            timestamp,
            BlockDirection::Below,
            locate_on(timestamps(chain@), timestamp, BlockDirection::Below),
        ),
{
    get_block_closest_to_timestamp(chain, timestamp, BlockDirection::Below)
}

/// The first block of `chain` whose timestamp is at or after `timestamp`.
pub fn get_closest_block_above(chain: &Vec<Block>, timestamp: u64) -> (result: Result<
    Block,
    LocateError,
>)
    ensures
        match locate_on(timestamps(chain@), timestamp, BlockDirection::Above) {
            Ok(number) => number < chain.len() && result == Ok::<Block, LocateError>(
                chain[number as int],
            ),
            Err(error) => result == Err::<Block, LocateError>(error),
        },
        non_decreasing(timestamps(chain@)) ==> is_closest(
            timestamps(chain@),
            timestamp,
            BlockDirection::Above,
            locate_on(timestamps(chain@), timestamp, BlockDirection::Above),
        ),
{
    get_block_closest_to_timestamp(chain, timestamp, BlockDirection::Above)
}

} // verus!
