//! Continuing a series of blocks with synthetic ones.
//!
//! Each synthetic block follows the one before it: its number is one more,
//! its timestamp one block interval later, and its base fee the earlier fee
//! moved by a step of at most an eighth, up or down. The steps are counted
//! in millionths of the fee and come from a random source that the caller
//! hands in, or from the caller itself.

use vstd::prelude::*;
use rand::Rng;
use rand::rngs::StdRng;
use crate::block::Block;
use crate::block::Uint256;
use crate::block::lemma_view_bounds;
use crate::block::to_gwei;

verus! {

/// The number of the block that seeds a series which has no usable tail.
pub const GENESIS_NUMBER: u64 = 1;

/// The timestamp of that block.
pub const GENESIS_TIMESTAMP: u64 = 123456789;

/// The base fee of that block, and the fee that a walk is reset to, in gwei.
pub const REFERENCE_GWEI: u64 = 10;

/// The same fee in wei.
pub const REFERENCE_BASE_FEE: u64 = 10_000_000_000;

/// The least base fee that a walk keeps: 0.01 gwei.
pub const MIN_BASE_FEE: u64 = 10_000_000;

/// The seconds between a synthetic block and the one before it.
pub const BLOCK_INTERVAL: u64 = 12;

/// The number of steps that make up the whole of a fee.
pub const STEP_SCALE: u64 = 1_000_000;

/// The largest step, up or down: an eighth of the fee.
pub const MAX_STEP: i64 = 125_000;

/// The number of synthetic blocks of a stress test.
pub const SYNTHETIC_BLOCKS_TO_ADD: u64 = 100;

/// The ways in which the base fee moves from one synthetic block to the next.
#[derive(Clone, Copy, Debug, PartialEq, Eq, Structural)]
pub enum BaseFeeChange {
    /// By a step drawn at random between the largest step down and the
    /// largest step up.
    Random,
}

/// Whether a step is no larger than an eighth of the fee, up or down.
pub open spec fn within_step(step: int) -> bool {
    -MAX_STEP <= step <= MAX_STEP
}

/// The fee after a step: the fee times `1 + step / STEP_SCALE`, rounded
/// down and kept within 64 bits; a fee that would fall below the least fee
/// is reset to the reference fee.
pub open spec fn stepped_fee(fee: int, step: int) -> int {
    let scaled = fee * (STEP_SCALE + step) / (STEP_SCALE as int);
    let capped = if scaled > u64::MAX {
        u64::MAX as int
    } else {
        scaled
    };
    if capped < MIN_BASE_FEE {
        REFERENCE_BASE_FEE as int
    } else {
        capped
    }
}

/// A fee of at most 64 bits as a base fee.
pub open spec fn fee_of(value: int) -> Uint256 {
    Uint256 { high: 0, low: value as u128 }
}

/// Whether `next` is the fee `fee` after some step.
pub open spec fn reachable_fee(fee: int, next: Uint256) -> bool {
    exists|step: int| #[trigger] within_step(step) && next == fee_of(stepped_fee(fee, step))
}

/// A stepped fee fits in 64 bits and is at least the least fee.
pub proof fn lemma_stepped_fee_bounds(fee: int, step: int)
    requires
        0 <= fee,
        within_step(step),
    ensures
        MIN_BASE_FEE <= stepped_fee(fee, step) <= u64::MAX,
{
    let factor = STEP_SCALE + step;
    assert(0 <= fee * factor) by (nonlinear_arith)
        requires
            0 <= fee,
            0 <= factor,
    ;
}

/// The fee after one step.
pub fn next_base_fee(fee: u64, step: i64) -> (next: u64)
    requires
        within_step(step as int),
    ensures
        next == stepped_fee(fee as int, step as int),
{
    let factor: u128 = (STEP_SCALE as i64 + step) as u128;
    assert(fee * factor <= u64::MAX * 1_125_000) by (nonlinear_arith)
        requires
            0 <= fee <= u64::MAX,
            0 <= factor <= 1_125_000,
    ;
    let scaled: u128 = (fee as u128 * factor) / (STEP_SCALE as u128);
    let capped: u64 = if scaled > u64::MAX as u128 {
        u64::MAX
    } else {
        scaled as u64
    };
    if capped < MIN_BASE_FEE {
        REFERENCE_BASE_FEE
    } else {
        capped
    }
}

/// `rand::rngs::StdRng`, the random source of a walk. The caller makes it,
/// from a seed where the walk is to be repeated.
#[verifier::external_type_specification]
#[verifier::external_body]
pub struct ExStdRng(rand::rngs::StdRng);

/// Draws an integer from `low..=high` through `rand::Rng::gen_range`.
///
/// Trusted: the drawn number lies in the range, as the documentation of
/// `gen_range` says of a range that is not empty. On an empty range
/// `gen_range` panics, so the range must hold a number. Which number is
/// drawn, and how the source moves on, is left open.
#[verifier::external_body]
fn draw_between(rng: &mut StdRng, low: i64, high: i64) -> (drawn: i64)
    requires
        low <= high,
    ensures
        low <= drawn <= high,
{
    rng.gen_range(low..=high)
}

/// The block that seeds a series which has no usable tail.
pub open spec fn genesis() -> Block {
    Block {
        number: Some(GENESIS_NUMBER),
        timestamp: GENESIS_TIMESTAMP,
        base_fee_per_gas: Some(fee_of(REFERENCE_BASE_FEE as int)),
    }
}

/// Whether a walk can start from the tail of the series: there is a tail,
/// and it has a number and a base fee.
pub open spec fn seeded(series: Seq<Block>) -> bool {
    series.len() > 0 && series.last().number is Some && series.last().base_fee_per_gas is Some
}

/// The series with a tail to walk from: the series itself where its tail
/// will do, else the series followed by the genesis block.
pub open spec fn with_seed(series: Seq<Block>) -> Seq<Block> {
    if seeded(series) {
        series
    } else {
        series.push(genesis())
    }
}

/// The block that follows `tail` after a step of the fee.
pub open spec fn next_block(tail: Block, step: int) -> Block {
    Block {
        number: Some((tail.number->0 + 1) as u64),
        timestamp: (tail.timestamp + BLOCK_INTERVAL) as u64,
        base_fee_per_gas: Some(fee_of(stepped_fee(tail.base_fee_per_gas->0@ as int, step))),
    }
}

/// The series continued by one synthetic block for each step, after a
/// genesis block where the series has no usable tail.
pub open spec fn extended(series: Seq<Block>, steps: Seq<i64>) -> Seq<Block>
    decreases steps.len(),
{
    if steps.len() == 0 {
        with_seed(series)
    } else {
        let before = extended(series, steps.drop_last());
        before.push(next_block(before.last(), steps.last() as int))
    }
}

/// Whether `count` blocks can follow `tail`: the tail has a number and a
/// base fee of at most 64 bits, and neither the numbers nor the timestamps
/// of the blocks that follow leave 64 bits.
pub open spec fn can_follow(tail: Block, count: int) -> bool {
    &&& tail.number matches Some(number) && number + count <= u64::MAX
    &&& tail.timestamp + BLOCK_INTERVAL * count <= u64::MAX
    &&& tail.base_fee_per_gas matches Some(fee) && fee@ <= u64::MAX
}

/// Whether the series can be continued by `count` synthetic blocks.
pub open spec fn can_extend(series: Seq<Block>, count: int) -> bool {
    0 <= count && can_follow(with_seed(series).last(), count)
}

/// Whether `block` follows `previous` as a synthetic block does: its number
/// is one more, its timestamp one block interval later, and its base fee
/// the earlier fee after some step.
pub open spec fn follows(previous: Block, block: Block) -> bool {
    &&& previous.number matches Some(number) && block.number == Some((number + 1) as u64)
    &&& block.timestamp == previous.timestamp + BLOCK_INTERVAL
    &&& previous.base_fee_per_gas matches Some(fee) && block.base_fee_per_gas matches Some(next)
        && reachable_fee(fee@ as int, next)
}

/// Whether `after` is `before`, seeded, and then `count` synthetic blocks
/// of which each follows the block before it.
pub open spec fn continues(before: Seq<Block>, after: Seq<Block>, count: int) -> bool {
    &&& after.len() == with_seed(before).len() + count
    &&& after.subrange(0, with_seed(before).len() as int) == with_seed(before)
    &&& forall|i: int|
        with_seed(before).len() <= i < after.len() ==> follows(after[i - 1], #[trigger] after[i])
}

/// Whether the tail of the series has a number and a base fee.
pub fn has_seed(blocks: &Vec<Block>) -> (b: bool)
    ensures
        b == seeded(blocks@),
{
    let length = blocks.len();
    if length == 0 {
        return false;
    }
    let tail = &blocks[length - 1];
    tail.number.is_some() && tail.base_fee_per_gas.is_some()
}

/// Whether `add_synthetic_blocks` can add `count` blocks to the series.
pub fn can_add_synthetic_blocks(blocks: &Vec<Block>, count: u64) -> (b: bool)
    ensures
        b == can_extend(blocks@, count as int),
{
    let tail = if has_seed(blocks) {
        blocks[blocks.len() - 1]
    } else {
        Block {
            number: Some(GENESIS_NUMBER),
            timestamp: GENESIS_TIMESTAMP,
            base_fee_per_gas: Some(to_gwei(REFERENCE_GWEI)),
        }
    };
    assert(tail == with_seed(blocks@).last());
    let numbers_fit = match tail.number {
        Some(number) => count <= u64::MAX - number,
        None => false,
    };
    let timestamps_fit = count <= (u64::MAX - tail.timestamp) / BLOCK_INTERVAL;
    let fee_fits = match tail.base_fee_per_gas {
        Some(fee) => fee.to_u64().is_some(),
        None => false,
    };
    numbers_fit && timestamps_fit && fee_fits
}

/// Moves the base fee of a block by one step. A block without a base fee
/// stays as it is.
pub fn change_base_fee(block: &mut Block, step: i64)
    requires
        within_step(step as int),
        old(block).base_fee_per_gas matches Some(fee) ==> fee@ <= u64::MAX,
    ensures
        final(block).number == old(block).number,
        final(block).timestamp == old(block).timestamp,
        final(block).base_fee_per_gas == match old(block).base_fee_per_gas {
            Some(fee) => Some(fee_of(stepped_fee(fee@ as int, step as int))),
            None => None,
        },
{
    if let Some(fee) = block.base_fee_per_gas {
        if let Some(value) = fee.to_u64() {
            block.base_fee_per_gas = Some(Uint256::from_u64(next_base_fee(value, step)));
        }
    }
}

/// Moves the base fee of a block by a step drawn from `rng`, between the
/// largest step down and the largest step up. A block without a base fee
/// stays as it is.
pub fn random_change(block: &mut Block, rng: &mut StdRng)
    requires
        old(block).base_fee_per_gas matches Some(fee) ==> fee@ <= u64::MAX,
    ensures
        final(block).number == old(block).number,
        final(block).timestamp == old(block).timestamp,
        match old(block).base_fee_per_gas {
            Some(fee) => final(block).base_fee_per_gas matches Some(next) && reachable_fee(
                fee@ as int,
                next,
            ),
            None => final(block).base_fee_per_gas is None,
        },
{
    let step = draw_between(rng, -MAX_STEP, MAX_STEP);
    assert(within_step(step as int));
    change_base_fee(block, step);
}

/// Moves the base fee of a block in the given way.
pub fn update_base_fee(block: &mut Block, change_type: BaseFeeChange, rng: &mut StdRng)
    requires
        old(block).base_fee_per_gas matches Some(fee) ==> fee@ <= u64::MAX,
    ensures
        final(block).number == old(block).number,
        final(block).timestamp == old(block).timestamp,
        match old(block).base_fee_per_gas {
            Some(fee) => final(block).base_fee_per_gas matches Some(next) && reachable_fee(
                fee@ as int,
                next,
            ),
            None => final(block).base_fee_per_gas is None,
        },
{
    match change_type {
        BaseFeeChange::Random => random_change(block, rng),
    }
}

/// A series with a usable tail is continued by no blocks where no steps
/// are taken, and by one block for each step otherwise.
pub proof fn lemma_extended_len(series: Seq<Block>, steps: Seq<i64>)
    ensures
        extended(series, steps).len() == with_seed(series).len() + steps.len(),
        extended(series, steps).subrange(0, with_seed(series).len() as int) == with_seed(series),
        seeded(series) && steps.len() == 0 ==> extended(series, steps) == series,
        seeded(series) ==> extended(series, steps).len() == series.len() + steps.len(),
    decreases steps.len(),
{
    if steps.len() > 0 {
        lemma_extended_len(series, steps.drop_last());
        let before = extended(series, steps.drop_last());
        let after = extended(series, steps);
        let kept = with_seed(series).len() as int;
        assert(after.subrange(0, kept) == before.subrange(0, kept));
    } else {
        assert(with_seed(series).subrange(0, with_seed(series).len() as int) == with_seed(series));
    }
}

/// Appends the genesis block where the series has no usable tail.
fn seed(blocks: &mut Vec<Block>)
    ensures
        final(blocks)@ == with_seed(old(blocks)@),
{
    if !has_seed(blocks) {
        blocks.push(
            Block {
                number: Some(GENESIS_NUMBER),
                timestamp: GENESIS_TIMESTAMP,
                base_fee_per_gas: Some(to_gwei(REFERENCE_GWEI)),
            },
        );
    }
}

/// The tail of a series moved on by one block, before its fee is changed.
fn successor(tail: &Block) -> (block: Block)
    requires
        can_follow(*tail, 1),
    ensures
        block.number == Some((tail.number->0 + 1) as u64),
        block.timestamp == tail.timestamp + BLOCK_INTERVAL,
        block.base_fee_per_gas == tail.base_fee_per_gas,
{
    let number = match tail.number {
        Some(number) => Some(number + 1),
        None => None,
    };
    Block {
        number,
        timestamp: tail.timestamp + BLOCK_INTERVAL,
        base_fee_per_gas: tail.base_fee_per_gas,
    }
}

/// Continues the series by one synthetic block for each of the given
/// steps, after a genesis block where the series has no usable tail.
pub fn extend_with_steps(blocks: &mut Vec<Block>, steps: &Vec<i64>)
    requires
        can_extend(old(blocks)@, steps.len() as int),
        forall|i: int| 0 <= i < steps.len() ==> within_step(#[trigger] steps[i] as int),
    ensures
        final(blocks)@ == extended(old(blocks)@, steps@),
        continues(old(blocks)@, final(blocks)@, steps.len() as int),
        seeded(old(blocks)@) && steps.len() == 0 ==> final(blocks)@ == old(blocks)@,
        seeded(old(blocks)@) ==> final(blocks).len() == old(blocks).len() + steps.len(),
{
    let ghost before = blocks@;
    seed(blocks);
    let ghost kept = blocks@.len() as int;
    assert(steps@.take(0) == Seq::<i64>::empty());
    assert(blocks@.subrange(0, kept) == blocks@);
    let mut taken: usize = 0;
    while taken < steps.len()
        invariant
            taken <= steps.len(),
            kept == with_seed(before).len(),
            forall|i: int| 0 <= i < steps.len() ==> within_step(#[trigger] steps[i] as int),
            blocks@ == extended(before, steps@.take(taken as int)),
            continues(before, blocks@, taken as int),
            blocks.len() > 0,
            can_follow(blocks@.last(), steps.len() - taken),
        decreases steps.len() - taken,
    {
        let ghost earlier = blocks@;
        let tail = &blocks[blocks.len() - 1];
        let mut block = successor(tail);
        let step = steps[taken];
        assert(within_step(step as int));
        change_base_fee(&mut block, step);
        proof {
            lemma_stepped_fee_bounds(tail.base_fee_per_gas->0@ as int, step as int);
            lemma_view_bounds(block.base_fee_per_gas->0);
            assert(steps@.take(taken + 1).drop_last() == steps@.take(taken as int));
            assert(block == next_block(*tail, step as int));
            assert(follows(*tail, block));
        }
        blocks.push(block);
        taken += 1;
        assert(blocks@.subrange(0, kept) == earlier.subrange(0, kept));
    }
    proof {
        assert(steps@.take(taken as int) == steps@);
        if taken == 0 {
            assert(blocks@.subrange(0, kept) == blocks@);
        }
    }
}

/// Continues the series by `count` synthetic blocks whose fees walk at
/// random, after a genesis block where the series has no usable tail.
///
/// A series with a usable tail comes back as it is for a count of zero and
/// grows by `count` blocks otherwise. Each added block follows the block
/// before it: by one in number, by one block interval in time, and by a
/// step of at most an eighth in its base fee.
pub fn add_synthetic_blocks(blocks: &mut Vec<Block>, count: u64, rng: &mut StdRng)
    requires
        can_extend(old(blocks)@, count as int),
    ensures
        continues(old(blocks)@, final(blocks)@, count as int),
        seeded(old(blocks)@) && count == 0 ==> final(blocks)@ == old(blocks)@,
        seeded(old(blocks)@) ==> final(blocks).len() == old(blocks).len() + count,
{
    let ghost before = blocks@;
    seed(blocks);
    let ghost kept = blocks@.len() as int;
    assert(blocks@.subrange(0, kept) == blocks@);
    let mut added: u64 = 0;
    while added < count
        invariant
            added <= count,
            kept == with_seed(before).len(),
            continues(before, blocks@, added as int),
            blocks.len() > 0,
            can_follow(blocks@.last(), count - added),
        decreases count - added,
    {
        let ghost earlier = blocks@;
        let tail = &blocks[blocks.len() - 1];
        let mut block = successor(tail);
        update_base_fee(&mut block, BaseFeeChange::Random, rng);
        proof {
            let fee = tail.base_fee_per_gas->0@ as int;
            let next = block.base_fee_per_gas->0;
            let step = choose|step: int| #[trigger]
                within_step(step) && next == fee_of(stepped_fee(fee, step));
            lemma_stepped_fee_bounds(fee, step);
            lemma_view_bounds(next);
            assert(follows(*tail, block));
        }
        blocks.push(block);
        added += 1;
        assert(blocks@.subrange(0, kept) == earlier.subrange(0, kept));
    }
    proof {
        if count == 0 {
            assert(blocks@.subrange(0, kept) == blocks@);
        }
    }
}

} // verus!
