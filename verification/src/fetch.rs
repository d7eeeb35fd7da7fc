//! Fetching the blocks of a range of numbers, batch by batch.
//!
//! The range is cut into batches of neighbouring block numbers. The driver
//! fetches the blocks of one batch side by side, waits for all of them, and
//! hands the answers over in the order of the requests; between two batches
//! it pauses. Blocks that the chain does not have are left out of the
//! series, and one failed request ends the fetch without a series.
//! [`fetch_blocks`] drives the same machine over answers held in memory.

use vstd::prelude::*;
use crate::block::Block;

verus! {

/// A batch reaches from its first block to the block this many numbers on.
pub const BATCH_SPAN: u64 = 5;

/// The pause before every batch but the first, in milliseconds.
pub const BATCH_PAUSE_MS: u64 = 1000;

/// What the driver of a fetch does next.
#[derive(Clone, Copy, Debug, PartialEq, Eq, Structural)]
pub enum FetchStep {
    /// Wait for `pause_ms` milliseconds, then request the blocks
    /// `first..=last` and hand the answers to `absorb`, in that order.
    Batch { first: u64, last: u64, pause_ms: u64 },
    /// Every batch has been absorbed: take the series.
    Finished,
}

/// The part of the range that a fetch has not asked for yet.
#[derive(Clone, Copy, Debug, PartialEq, Eq, Structural)]
pub enum PlanState {
    /// The blocks `next..=last` are still to be fetched; `begun` says
    /// whether a batch went before.
    Pending { next: u64, last: u64, begun: bool },
    /// Nothing is left.
    Finished,
}

/// The last block of the batch that begins at `next`, in a range that ends
/// at `last`.
pub open spec fn batch_end(next: u64, last: u64) -> u64 {
    if last - next <= BATCH_SPAN {
        last
    } else {
        (next + BATCH_SPAN) as u64
    }
}

impl PlanState {
    /// A pending plan holds a range that is not empty.
    pub open spec fn wf(self) -> bool {
        self matches PlanState::Pending { next, last, .. } ==> next <= last
    }

    /// The plan for the range `from_block..=to_block`, which is empty where
    /// `from_block` lies past `to_block`.
    pub open spec fn planned(from_block: u64, to_block: u64) -> PlanState {
        if from_block <= to_block {
            PlanState::Pending { next: from_block, last: to_block, begun: false }
        } else {
            PlanState::Finished
        }
    }

    /// What the driver does under this plan.
    pub open spec fn pending(self) -> FetchStep {
        match self {
            PlanState::Pending { next, last, begun } => FetchStep::Batch {
                first: next,
                last: batch_end(next, last),
                pause_ms: if begun {
                    BATCH_PAUSE_MS
                } else {
                    0
                },
            },
            PlanState::Finished => FetchStep::Finished,
        }
    }

    /// The plan once the pending batch has been fetched.
    pub open spec fn advanced(self) -> PlanState {
        match self {
            PlanState::Pending { next, last, .. } => if batch_end(next, last) < last {
                PlanState::Pending { next: (batch_end(next, last) + 1) as u64, last, begun: true }
            } else {
                PlanState::Finished
            },
            PlanState::Finished => PlanState::Finished,
        }
    }

    /// The number of blocks that are still to be fetched.
    pub open spec fn remaining(self) -> nat {
        match self {
            PlanState::Pending { next, last, .. } => if next <= last {
                (last - next + 1) as nat
            } else {
                0
            },
            PlanState::Finished => 0,
        }
    }
}

/// The blocks among the answers, in the order of the answers.
pub open spec fn present(answers: Seq<Option<Block>>) -> Seq<Block>
    decreases answers.len(),
{
    if answers.len() == 0 {
        Seq::empty()
    } else {
        match answers.last() {
            Some(block) => present(answers.drop_last()).push(block),
            None => present(answers.drop_last()),
        }
    }
}

/// The number of answers that hold no block.
pub open spec fn absent_count(answers: Seq<Option<Block>>) -> nat
    decreases answers.len(),
{
    if answers.len() == 0 {
        0
    } else {
        absent_count(answers.drop_last()) + if answers.last() is None {
            1nat
        } else {
            0nat
        }
    }
}

/// What each request found, a failed request counting as no block.
pub open spec fn found<E>(answers: Seq<Result<Option<Block>, E>>) -> Seq<Option<Block>> {
    Seq::new(
        answers.len(),
        |i: int|
            match answers[i] {
                Ok(answer) => answer,
                Err(_) => None,
            },
    )
}

/// The blocks among the answers and the answers without a block make up
/// all the answers.
pub proof fn lemma_present_len(answers: Seq<Option<Block>>)
    ensures
        present(answers).len() + absent_count(answers) == answers.len(),
    decreases answers.len(),
{
    if answers.len() > 0 {
        lemma_present_len(answers.drop_last());
    }
}

/// The blocks among two runs of answers, one after the other, are the
/// blocks of the first followed by those of the second.
pub proof fn lemma_present_concat(first: Seq<Option<Block>>, second: Seq<Option<Block>>)
    ensures
        present(first + second) == present(first) + present(second),
        absent_count(first + second) == absent_count(first) + absent_count(second),
    decreases second.len(),
{
    if second.len() == 0 {
        assert(first + second == first);
        assert(present(first) + present(second) == present(first));
    } else {
        let joined = first + second;
        assert(joined.drop_last() == first + second.drop_last());
        assert(joined.last() == second.last());
        lemma_present_concat(first, second.drop_last());
        match second.last() {
            Some(block) => {
                assert(present(first + second.drop_last()).push(block) == present(first) + present(
                    second.drop_last(),
                ).push(block));
            },
            None => {},
        }
    }
}

/// Whether `error` is the error of the first request that failed.
pub open spec fn first_failure<E>(answers: Seq<Result<Option<Block>, E>>, error: E) -> bool {
    exists|i: int|
        0 <= i < answers.len() && answers[i] == Err::<Option<Block>, E>(error) && (forall|j: int|
            0 <= j < i ==> answers[j] is Ok)
}

/// What a run of requests found, one after the other, is what the first
/// requests found followed by what the later ones found.
pub proof fn lemma_found_concat<E>(
    first: Seq<Result<Option<Block>, E>>,
    second: Seq<Result<Option<Block>, E>>,
)
    ensures
        found(first + second) == found(first) + found(second),
{
}

/// A fetch as contracts speak of it: the plan and the series so far.
pub struct FetchState {
    pub plan: PlanState,
    pub series: Seq<Block>,
}

/// A fetch in progress. It owns the series that it puts together, so a
/// fetch that has failed leaves no part of a series behind.
pub struct BlockFetch {
    plan: PlanState,
    series: Vec<Block>,
}

impl View for BlockFetch {
    type V = FetchState;

    closed spec fn view(&self) -> FetchState {
        FetchState { plan: self.plan, series: self.series@ }
    }
}

impl BlockFetch {
    #[verifier::type_invariant]
    spec fn inv(self) -> bool {
        self.plan.wf()
    }

    /// Begins the fetch of the blocks `from_block..=to_block`. Where
    /// `from_block` lies past `to_block` the range is empty and the fetch
    /// has finished.
    pub fn start(from_block: u64, to_block: u64) -> (fetch: BlockFetch)
        ensures
            fetch@.plan == PlanState::planned(from_block, to_block),
            fetch@.plan.wf(),
            fetch@.series == Seq::<Block>::empty(),
    {
        let plan = if from_block <= to_block {
            PlanState::Pending { next: from_block, last: to_block, begun: false }
        } else {
            PlanState::Finished
        };
        BlockFetch { plan, series: Vec::new() }
    }

    /// What to do next: fetch a batch, or take the series.
    pub fn step(&self) -> (step: FetchStep)
        ensures
            step == self@.plan.pending(),
            self@.plan.wf(),
    {
        proof {
            use_type_invariant(self);
        }
        match self.plan {
            PlanState::Pending { next, last, begun } => FetchStep::Batch {
                first: next,
                last: if last - next <= BATCH_SPAN {
                    last
                } else {
                    next + BATCH_SPAN
                },
                pause_ms: if begun {
                    BATCH_PAUSE_MS
                } else {
                    0
                },
            },
            PlanState::Finished => FetchStep::Finished,
        }
    }

    /// Takes the answers to the requests of the pending batch, in the order
    /// of the requests. Where a request has failed, the fetch ends with the
    /// error of the first such request, as it came. Otherwise the blocks
    /// among the answers join the series, in their order, and the plan moves
    /// on to the next batch.
    pub fn absorb<E>(self, answers: Vec<Result<Option<Block>, E>>) -> (result: Result<
        BlockFetch,
        E,
    >)
        ensures
            match result {
                Ok(next) => {
                    &&& forall|i: int| 0 <= i < answers@.len() ==> answers@[i] is Ok
                    &&& next@.plan == self@.plan.advanced()
                    &&& next@.plan.wf()
                    &&& next@.series == self@.series + present(found(answers@))
                },
                Err(error) => first_failure(answers@, error),
            },
    {
        proof {
            use_type_invariant(&self);
        }
        let mut queue = answers;
        let ghost asked = queue@;
        let mut index: usize = 0;
        while index < queue.len()
            invariant
                queue@ == asked,
                answers@ == asked,
                index <= queue.len(),
                forall|j: int| 0 <= j < index ==> asked[j] is Ok,
            decreases queue.len() - index,
        {
            if queue[index].is_err() {
                let failed = queue.remove(index);
                if let Err(error) = failed {
                    assert(asked[index as int] == Err::<Option<Block>, E>(error));
                    assert(first_failure(asked, error));
                    return Err(error);
                }
            }
            index += 1;
        }
        let BlockFetch { plan, series } = self;
        let ghost before = series@;
        let mut series = series;
        index = 0;
        while index < queue.len()
            invariant
                queue@ == asked,
                index <= queue.len(),
                series@ == before + present(found(asked).take(index as int)),
            decreases queue.len() - index,
        {
            proof {
                let seen = found(asked).take(index as int);
                let more = found(asked).take(index + 1);
                assert(more.drop_last() == seen);
                assert(more.last() == found(asked)[index as int]);
                match more.last() {
                    Some(block) => {
                        assert(before + present(seen).push(block) == (before + present(seen)).push(
                            block,
                        ));
                    },
                    None => {},
                }
            }
            if let Ok(Some(block)) = &queue[index] {
                series.push(*block);
            }
            index += 1;
        }
        assert(found(asked).take(index as int) == found(asked));
        let plan = match plan {
            PlanState::Pending { next, last, .. } => {
                let end = if last - next <= BATCH_SPAN {
                    last
                } else {
                    next + BATCH_SPAN
                };
                if end < last {
                    PlanState::Pending { next: end + 1, last, begun: true }
                } else {
                    PlanState::Finished
                }
            },
            PlanState::Finished => PlanState::Finished,
        };
        Ok(BlockFetch { plan, series })
    }

    /// The series that the fetch has put together.
    pub fn into_series(self) -> (series: Vec<Block>)
        ensures
            series@ == self@.series,
    {
        self.series
    }
}

/// The recorded answer to the request for one block: `chain[n]` is the
/// answer for the block with number `n`, and the chain has no block with a
/// number past its end.
pub open spec fn answer_at<E>(chain: Seq<Result<Option<Block>, E>>, number: int) -> Result<
    Option<Block>,
    E,
> {
    if 0 <= number < chain.len() {
        chain[number]
    } else {
        Ok(None)
    }
}

/// The answers to the requests for the blocks `from_block..=to_block`, in
/// ascending order of the numbers; none where `from_block` lies past
/// `to_block`.
pub open spec fn window<E>(chain: Seq<Result<Option<Block>, E>>, from_block: int, to_block: int) -> Seq<
    Result<Option<Block>, E>,
> {
    Seq::new(
        if from_block <= to_block {
            (to_block - from_block + 1) as nat
        } else {
            0
        },
        |i: int| answer_at(chain, from_block + i),
    )
}

/// Whether no request has failed.
pub open spec fn all_answered<E>(answers: Seq<Result<Option<Block>, E>>) -> bool {
    forall|i: int| 0 <= i < answers.len() ==> answers[i] is Ok
}

/// Whether every block that the chain has answers under its own number.
pub open spec fn numbered<E>(chain: Seq<Result<Option<Block>, E>>) -> bool {
    forall|n: int|
        0 <= n < chain.len() ==> (#[trigger] chain[n] matches Ok(Some(block)) ==> block.number
            == Some(n as u64))
}

/// Whether every block of the series has a number between `low` and `high`.
pub open spec fn numbers_within(series: Seq<Block>, low: int, high: int) -> bool {
    forall|i: int|
        0 <= i < series.len() ==> (#[trigger] series[i].number matches Some(number) && low
            <= number <= high)
}

/// Whether the blocks of the series have numbers, each greater than the
/// one before.
pub open spec fn ascending(series: Seq<Block>) -> bool {
    forall|i: int, j: int|
        0 <= i < j < series.len() ==> (#[trigger] series[i].number matches Some(earlier)
            && #[trigger] series[j].number matches Some(later) && earlier < later)
}

/// The answers for a range are those for its lower part followed by those
/// for its upper part.
pub proof fn lemma_window_split<E>(
    chain: Seq<Result<Option<Block>, E>>,
    from_block: int,
    middle: int,
    to_block: int,
)
    requires
        from_block <= middle <= to_block + 1,
    ensures
        window(chain, from_block, to_block) == window(chain, from_block, middle - 1) + window(
            chain,
            middle,
            to_block,
        ),
{
}

/// On a chain whose blocks answer under their own numbers, the blocks
/// fetched for a range have numbers within the range, in strictly ascending
/// order.
pub proof fn lemma_fetched_numbers_ascend<E>(
    chain: Seq<Result<Option<Block>, E>>,
    from_block: int,
    to_block: int,
)
    requires
        numbered(chain),
        0 <= from_block,
        to_block <= u64::MAX,
    ensures
        numbers_within(present(found(window(chain, from_block, to_block))), from_block, to_block),
        ascending(present(found(window(chain, from_block, to_block)))),
    decreases to_block - from_block + 1,
{
    let asked = window(chain, from_block, to_block);
    if from_block <= to_block {
        let before = window(chain, from_block, to_block - 1);
        assert(asked.drop_last() == before);
        assert(found(asked).drop_last() == found(before));
        lemma_fetched_numbers_ascend(chain, from_block, to_block - 1);
        let earlier = present(found(before));
        match found(asked).last() {
            Some(block) => {
                assert(chain[to_block] == Ok::<Option<Block>, E>(Some(block)));
                assert(block.number == Some(to_block as u64));
                let series = earlier.push(block);
                assert(present(found(asked)) == series);
                assert forall|i: int| 0 <= i < series.len() implies (
                #[trigger] series[i].number matches Some(number) && from_block <= number
                    <= to_block) by {
                    if i < earlier.len() {
                        assert(earlier[i].number is Some);
                    }
                }
                assert forall|i: int, j: int| 0 <= i < j < series.len() implies (
                #[trigger] series[i].number matches Some(a) && #[trigger] series[j].number matches Some(
                    b,
                ) && a < b) by {
                    assert(earlier[i].number is Some);
                    if j < earlier.len() {
                        assert(earlier[j].number is Some);
                    }
                }
            },
            None => {
                assert(present(found(asked)) == earlier);
                assert forall|i: int| 0 <= i < earlier.len() implies (
                #[trigger] earlier[i].number matches Some(number) && from_block <= number
                    <= to_block) by {
                    assert(earlier[i].number is Some);
                }
            },
        }
    }
}

/// The recorded answers to the requests of one batch.
fn recorded_answers<E: Copy>(chain: &Vec<Result<Option<Block>, E>>, first: u64, last: u64) -> (answers:
    Vec<Result<Option<Block>, E>>)
    requires
        first <= last,
        last - first <= BATCH_SPAN,
    ensures
        answers@ == window(chain@, first as int, last as int),
{
    let count: u64 = last - first + 1;
    let mut answers: Vec<Result<Option<Block>, E>> = Vec::new();
    let mut offset: u64 = 0;
    while offset < count
        invariant
            first <= last,
            count == last - first + 1,
            offset <= count,
            answers@ == window(chain@, first as int, first + offset - 1),
        decreases count - offset,
    {
        let number: u64 = first + offset;
        let answer: Result<Option<Block>, E> = if number < chain.len() as u64 {
            chain[number as usize]
        } else {
            Ok(None)
        };
        answers.push(answer);
        offset += 1;
        assert(answers@ == window(chain@, first as int, first + offset - 1));
    }
    answers
}

/// Fetches the blocks `from_block..=to_block` from recorded answers, where
/// `chain[n]` is the answer to the request for block `n`.
///
/// Where a request of the range has failed, the result is the error of the
/// first such request, by block number, and no series. Otherwise it is the
/// blocks that the chain has in the range, in the order of their numbers:
/// as many as the range has numbers, less the absent ones.
pub fn fetch_blocks<E: Copy>(
    chain: &Vec<Result<Option<Block>, E>>,
    from_block: u64,
    to_block: u64,
) -> (result: Result<Vec<Block>, E>)
    ensures
        match result {
            Ok(series) => {
                &&& all_answered(window(chain@, from_block as int, to_block as int))
                &&& series@ == present(found(window(chain@, from_block as int, to_block as int)))
                &&& from_block <= to_block ==> series.len() == to_block - from_block + 1
                    - absent_count(found(window(chain@, from_block as int, to_block as int)))
                &&& from_block > to_block ==> series.len() == 0
                &&& numbered(chain@) ==> ascending(series@)
            },
            Err(error) => first_failure(window(chain@, from_block as int, to_block as int), error),
        },
{
    let ghost asked = window(chain@, from_block as int, to_block as int);
    proof {
        lemma_present_len(found(asked));
        if numbered(chain@) {
            lemma_fetched_numbers_ascend(chain@, from_block as int, to_block as int);
        }
    }
    let mut fetch = BlockFetch::start(from_block, to_block);
    loop
        invariant
            asked == window(chain@, from_block as int, to_block as int),
            present(found(asked)).len() + absent_count(found(asked)) == asked.len(),
            numbered(chain@) ==> ascending(present(found(asked))),
            fetch@.plan.wf(),
            match fetch@.plan {
                PlanState::Pending { next, last, .. } => {
                    &&& from_block <= next <= last
                    &&& last == to_block
                    &&& all_answered(window(chain@, from_block as int, next - 1))
                    &&& fetch@.series == present(
                        found(window(chain@, from_block as int, next - 1)),
                    )
                },
                PlanState::Finished => all_answered(asked) && fetch@.series == present(
                    found(asked),
                ),
            },
        decreases fetch@.plan.remaining(),
    {
        match fetch.step() {
            FetchStep::Finished => {
                return Ok(fetch.into_series());
            },
            FetchStep::Batch { first, last, .. } => {
                let answers = recorded_answers(chain, first, last);
                let ghost done = window(chain@, from_block as int, first - 1);
                let ghost batch = window(chain@, first as int, last as int);
                let ghost both = window(chain@, from_block as int, last as int);
                proof {
                    lemma_window_split(chain@, from_block as int, first as int, last as int);
                    lemma_found_concat(done, batch);
                    lemma_present_concat(found(done), found(batch));
                    assert forall|k: int| 0 <= k < both.len() implies both[k] == asked[k] by {}
                }
                match fetch.absorb(answers) {
                    Ok(next) => {
                        assert(all_answered(both)) by {
                            assert forall|k: int| 0 <= k < both.len() implies both[k] is Ok by {
                                if k < done.len() {
                                    assert(done[k] is Ok);
                                } else {
                                    assert(batch[k - done.len()] is Ok);
                                }
                            }
                        }
                        assert(last == to_block ==> both == asked);
                        fetch = next;
                    },
                    Err(error) => {
                        proof {
                            let i = choose|i: int|
                                0 <= i < batch.len() && batch[i] == Err::<Option<Block>, E>(error)
                                    && (forall|j: int| 0 <= j < i ==> batch[j] is Ok);
                            let at = done.len() + i;
                            assert(asked[at] == Err::<Option<Block>, E>(error));
                            assert forall|j: int| 0 <= j < at implies asked[j] is Ok by {
                                if j < done.len() {
                                    assert(done[j] is Ok);
                                } else {
                                    assert(batch[j - done.len()] is Ok);
                                }
                            }
                            assert(first_failure(asked, error));
                        }
                        return Err(error);
                    },
                }
            },
        }
    }
}

} // verus!
