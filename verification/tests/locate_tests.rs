use fee_volatility::block::{Block, Uint256};
use fee_volatility::locate::{
    get_block_closest_to_timestamp, get_closest_block_above, get_closest_block_below,
    BlockDirection, BlockSearch, LocateError, SearchStep, BLOCK_PERIOD,
};

fn block(number: u64, timestamp: u64) -> Block {
    Block { number: Some(number), timestamp, base_fee_per_gas: Some(Uint256::from_u64(100)) }
}

fn chain_of(timestamps: &[u64]) -> Vec<Block> {
    timestamps.iter().enumerate().map(|(n, t)| block(n as u64, *t)).collect()
}

/// Drives a search the way a network driver would, counting the probes.
fn drive(timestamps: &[u64], target: u64, direction: BlockDirection) -> (Result<u64, LocateError>, usize) {
    let latest = timestamps.len() - 1;
    let mut search = BlockSearch::start(target, direction, latest as u64, timestamps[latest]);
    let mut probes = 0;
    loop {
        match search.step() {
            SearchStep::Probe(number) => {
                probes += 1;
                search = search.observe(timestamps[number as usize]);
            }
            SearchStep::Found(number) => return (Ok(number), probes),
            SearchStep::Failed(error) => return (Err(error), probes),
        }
    }
}

#[test]
fn exact_match_gives_the_block_in_both_directions() {
    let chain = chain_of(&[100, 112, 124, 136, 148, 160, 172]);
    for n in 0..chain.len() {
        let t = chain[n].timestamp;
        let above = get_block_closest_to_timestamp(&chain, t, BlockDirection::Above);
        let below = get_block_closest_to_timestamp(&chain, t, BlockDirection::Below);
        assert_eq!(above, Ok(chain[n]));
        assert_eq!(below, Ok(chain[n]));
    }
}

#[test]
fn between_two_blocks_above_is_later_and_below_is_earlier() {
    let chain = chain_of(&[100, 112, 124, 136, 148, 160, 172]);
    for n in 0..chain.len() - 1 {
        for t in chain[n].timestamp + 1..chain[n + 1].timestamp {
            assert_eq!(get_closest_block_above(&chain, t), Ok(chain[n + 1]));
            assert_eq!(get_closest_block_below(&chain, t), Ok(chain[n]));
        }
    }
}

#[test]
fn timestamp_past_the_slack_is_in_the_future() {
    let chain = chain_of(&[100, 112, 124]);
    let past = 124 + BLOCK_PERIOD + 1;
    assert_eq!(get_closest_block_below(&chain, past), Err(LocateError::FutureTimestamp));
    assert_eq!(get_closest_block_above(&chain, past), Err(LocateError::FutureTimestamp));
    assert_eq!(get_closest_block_above(&chain, u64::MAX), Err(LocateError::FutureTimestamp));
}

#[test]
fn timestamp_within_the_slack_resolves_below_to_the_latest_block() {
    let chain = chain_of(&[100, 112, 124]);
    assert_eq!(get_closest_block_below(&chain, 124 + BLOCK_PERIOD), Ok(chain[2]));
    assert_eq!(get_closest_block_below(&chain, 125), Ok(chain[2]));
    assert_eq!(get_closest_block_above(&chain, 125), Err(LocateError::OutOfRange));
    assert_eq!(get_closest_block_above(&chain, 124 + BLOCK_PERIOD), Err(LocateError::OutOfRange));
}

#[test]
fn timestamp_before_the_first_block() {
    let chain = chain_of(&[100, 112, 124]);
    assert_eq!(get_closest_block_below(&chain, 99), Err(LocateError::OutOfRange));
    assert_eq!(get_closest_block_below(&chain, 0), Err(LocateError::OutOfRange));
    assert_eq!(get_closest_block_above(&chain, 99), Ok(chain[0]));
    assert_eq!(get_closest_block_above(&chain, 0), Ok(chain[0]));
}

#[test]
fn empty_chain_has_no_block() {
    let chain: Vec<Block> = Vec::new();
    assert_eq!(get_closest_block_below(&chain, 5), Err(LocateError::OutOfRange));
    assert_eq!(get_closest_block_above(&chain, 5), Err(LocateError::OutOfRange));
}

#[test]
fn single_block_chain() {
    let chain = chain_of(&[50]);
    assert_eq!(get_closest_block_above(&chain, 50), Ok(chain[0]));
    assert_eq!(get_closest_block_below(&chain, 50), Ok(chain[0]));
    assert_eq!(get_closest_block_above(&chain, 49), Ok(chain[0]));
    assert_eq!(get_closest_block_below(&chain, 49), Err(LocateError::OutOfRange));
    assert_eq!(get_closest_block_below(&chain, 51), Ok(chain[0]));
    assert_eq!(get_closest_block_above(&chain, 51), Err(LocateError::OutOfRange));
    assert_eq!(get_closest_block_below(&chain, 63), Err(LocateError::FutureTimestamp));
}

#[test]
fn latest_timestamp_near_the_top_of_the_range_does_not_overflow() {
    let chain = chain_of(&[u64::MAX - 20, u64::MAX - 5]);
    assert_eq!(get_closest_block_below(&chain, u64::MAX), Ok(chain[1]));
    assert_eq!(get_closest_block_above(&chain, u64::MAX), Err(LocateError::OutOfRange));
    assert_eq!(get_closest_block_above(&chain, u64::MAX - 6), Ok(chain[1]));
}

#[test]
fn search_agrees_with_a_scan_on_every_target() {
    let stamps: Vec<u64> = vec![3, 7, 7, 10, 15, 15, 15, 22, 30, 31, 40];
    let chain = chain_of(&stamps);
    for target in 0..=(40 + BLOCK_PERIOD + 3) {
        let future = target > 40 + BLOCK_PERIOD;
        let exact = stamps.iter().any(|t| *t == target);
        let above = get_closest_block_above(&chain, target);
        let below = get_closest_block_below(&chain, target);
        if future {
            assert_eq!(above, Err(LocateError::FutureTimestamp));
            assert_eq!(below, Err(LocateError::FutureTimestamp));
        } else if exact {
            assert_eq!(above, below);
            assert_eq!(above.unwrap().timestamp, target);
        } else {
            match stamps.iter().position(|t| *t > target) {
                Some(n) => assert_eq!(above, Ok(chain[n])),
                None => assert_eq!(above, Err(LocateError::OutOfRange)),
            }
            match stamps.iter().rposition(|t| *t < target) {
                Some(n) => assert_eq!(below, Ok(chain[n])),
                None => assert_eq!(below, Err(LocateError::OutOfRange)),
            }
        }
    }
}

#[test]
fn machine_probes_the_midpoint_first() {
    let search = BlockSearch::start(500, BlockDirection::Above, 100, 1000);
    assert_eq!(search.step(), SearchStep::Probe(50));
    let search = search.observe(400);
    assert_eq!(search.step(), SearchStep::Probe(75));
    let search = search.observe(600);
    assert_eq!(search.step(), SearchStep::Probe(62));
    let search = search.observe(500);
    assert_eq!(search.step(), SearchStep::Found(62));
    let search = search.observe(1);
    assert_eq!(search.step(), SearchStep::Found(62));
}

#[test]
fn machine_rejects_a_future_timestamp_without_a_probe() {
    let search = BlockSearch::start(1013, BlockDirection::Below, 100, 1000);
    assert_eq!(search.step(), SearchStep::Failed(LocateError::FutureTimestamp));
    let search = BlockSearch::start(1012, BlockDirection::Below, 100, 1000);
    assert_eq!(search.step(), SearchStep::Probe(50));
}

#[test]
fn machine_takes_logarithmically_many_probes() {
    let stamps: Vec<u64> = (0..1000u64).map(|n| 1_000 + 12 * n).collect();
    for target in [0u64, 1_000, 1_005, 7_000, 12_988, 12_990, 13_000] {
        for direction in [BlockDirection::Above, BlockDirection::Below] {
            let (_, probes) = drive(&stamps, target, direction);
            assert!(probes <= 10, "{} probes", probes);
        }
    }
}

#[test]
fn machine_and_in_memory_search_agree() {
    let stamps: Vec<u64> = vec![5, 9, 14, 20, 27, 35, 44, 54];
    let chain = chain_of(&stamps);
    for target in 0..70 {
        for direction in [BlockDirection::Above, BlockDirection::Below] {
            let (driven, _) = drive(&stamps, target, direction);
            let direct = get_block_closest_to_timestamp(&chain, target, direction);
            assert_eq!(driven.map(|n| chain[n as usize]), direct);
        }
    }
}

#[test]
fn machine_handles_the_largest_block_number() {
    let search = BlockSearch::start(10, BlockDirection::Above, u64::MAX, 20);
    assert_eq!(search.step(), SearchStep::Probe(u64::MAX / 2));
    let mut search = search;
    let mut probes = 0;
    while let SearchStep::Probe(_) = search.step() {
        search = search.observe(5);
        probes += 1;
    }
    assert_eq!(probes, 65);
    assert_eq!(search.step(), SearchStep::Failed(LocateError::OutOfRange));
}
