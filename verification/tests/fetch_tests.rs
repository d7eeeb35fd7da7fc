use fee_volatility::block::{Block, Uint256};
use fee_volatility::fetch::{fetch_blocks, BlockFetch, FetchStep, BATCH_PAUSE_MS, BATCH_SPAN};

fn block(number: u64) -> Block {
    Block { number: Some(number), timestamp: 1_000 + 12 * number, base_fee_per_gas: Some(Uint256::from_u64(100 + number)) }
}

fn dense(length: u64) -> Vec<Result<Option<Block>, u32>> {
    (0..length).map(|n| Ok(Some(block(n)))).collect()
}

fn answers(first: u64, last: u64) -> Vec<Result<Option<Block>, u32>> {
    (first..=last).map(|n| Ok(Some(block(n)))).collect()
}

#[test]
fn batches_partition_the_range_in_order() {
    let mut fetch = BlockFetch::start(0, 13);
    let mut batches = Vec::new();
    loop {
        match fetch.step() {
            FetchStep::Finished => break,
            FetchStep::Batch { first, last, pause_ms } => {
                batches.push((first, last, pause_ms));
                fetch = fetch.absorb(answers(first, last)).unwrap();
            }
        }
    }
    assert_eq!(batches, vec![(0, 5, 0), (6, 11, BATCH_PAUSE_MS), (12, 13, BATCH_PAUSE_MS)]);
    let series = fetch.into_series();
    assert_eq!(series, (0..=13).map(block).collect::<Vec<Block>>());
}

#[test]
fn batch_is_no_wider_than_the_span() {
    let fetch = BlockFetch::start(100, 1_000);
    assert_eq!(fetch.step(), FetchStep::Batch { first: 100, last: 100 + BATCH_SPAN, pause_ms: 0 });
    assert_eq!(BATCH_SPAN, 5);
    assert_eq!(BATCH_PAUSE_MS, 1000);
}

#[test]
fn single_block_range_is_one_batch() {
    let fetch = BlockFetch::start(7, 7);
    assert_eq!(fetch.step(), FetchStep::Batch { first: 7, last: 7, pause_ms: 0 });
    let fetch = fetch.absorb(answers(7, 7)).unwrap();
    assert_eq!(fetch.step(), FetchStep::Finished);
    assert_eq!(fetch.into_series(), vec![block(7)]);
}

#[test]
fn reversed_range_is_empty_and_no_error() {
    let fetch = BlockFetch::start(9, 3);
    assert_eq!(fetch.step(), FetchStep::Finished);
    assert_eq!(fetch.into_series(), Vec::new());
    assert_eq!(fetch_blocks(&dense(20), 9, 3), Ok(Vec::new()));
}

#[test]
fn range_at_the_top_of_the_numbers_does_not_overflow() {
    let fetch = BlockFetch::start(u64::MAX - 7, u64::MAX);
    assert_eq!(fetch.step(), FetchStep::Batch { first: u64::MAX - 7, last: u64::MAX - 2, pause_ms: 0 });
    let fetch = fetch.absorb(Vec::<Result<Option<Block>, u32>>::new()).unwrap();
    assert_eq!(fetch.step(), FetchStep::Batch { first: u64::MAX - 1, last: u64::MAX, pause_ms: BATCH_PAUSE_MS });
    let fetch = fetch.absorb(Vec::<Result<Option<Block>, u32>>::new()).unwrap();
    assert_eq!(fetch.step(), FetchStep::Finished);
}

#[test]
fn absent_blocks_are_skipped_without_placeholders() {
    let fetch = BlockFetch::start(0, 3);
    let batch: Vec<Result<Option<Block>, u32>> = vec![Ok(Some(block(0))), Ok(None), Ok(Some(block(2))), Ok(None)];
    let fetch = fetch.absorb(batch).unwrap();
    assert_eq!(fetch.into_series(), vec![block(0), block(2)]);
}

#[test]
fn failed_request_ends_the_fetch_with_the_first_error() {
    let fetch = BlockFetch::start(0, 20);
    let fetch = fetch.absorb(answers(0, 5)).unwrap();
    let batch: Vec<Result<Option<Block>, u32>> = vec![Ok(Some(block(6))), Err(41), Ok(None), Err(42), Ok(Some(block(10))), Ok(Some(block(11)))];
    match fetch.absorb(batch) {
        Err(error) => assert_eq!(error, 41),
        Ok(_) => panic!("a failed request was absorbed"),
    }
}

#[test]
fn fetch_length_is_range_less_absent_blocks() {
    let mut chain = dense(30);
    chain[4] = Ok(None);
    chain[11] = Ok(None);
    chain[12] = Ok(None);
    chain[29] = Ok(None);
    let series = fetch_blocks(&chain, 3, 25).unwrap();
    assert_eq!(series.len(), (25 - 3 + 1) - 3);
    let all = fetch_blocks(&chain, 0, 29).unwrap();
    assert_eq!(all.len(), 30 - 4);
}

#[test]
fn fetch_is_ordered_by_ascending_block_number() {
    let mut chain = dense(40);
    chain[8] = Ok(None);
    chain[20] = Ok(None);
    let series = fetch_blocks(&chain, 2, 37).unwrap();
    for i in 1..series.len() {
        assert!(series[i - 1].number.unwrap() < series[i].number.unwrap());
    }
    assert_eq!(series.first().unwrap().number, Some(2));
    assert_eq!(series.last().unwrap().number, Some(37));
    let expected: Vec<Block> = (2..=37).filter(|n| *n != 8 && *n != 20).map(block).collect();
    assert_eq!(series, expected);
}

#[test]
fn fetch_past_the_end_of_the_chain_finds_nothing_there() {
    let chain = dense(10);
    let series = fetch_blocks(&chain, 7, 14).unwrap();
    assert_eq!(series, vec![block(7), block(8), block(9)]);
    assert_eq!(fetch_blocks(&chain, 10, 30), Ok(Vec::new()));
}

#[test]
fn fetch_aborts_on_the_first_failure_by_block_number() {
    let mut chain = dense(30);
    chain[17] = Err(170);
    chain[9] = Err(90);
    assert_eq!(fetch_blocks(&chain, 0, 29), Err(90));
    assert_eq!(fetch_blocks(&chain, 10, 29), Err(170));
    assert_eq!(fetch_blocks(&chain, 18, 29).map(|s| s.len()), Ok(12));
    assert_eq!(fetch_blocks(&chain, 0, 8).map(|s| s.len()), Ok(9));
}
