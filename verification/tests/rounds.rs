use metaboss::batch::{
    decode_metadata_all, AskRound, FetchRound, RoundEnd, WriteRound, CACHE_FILE_NAME,
    OPEN_FILES_LIMIT,
};
use metaboss::cache::CacheItem;
use metaboss::decode::decode;
use metaboss::error::DecodeError;
use metaboss::metadata::Metadata;
use solana_program::pubkey::Pubkey;

fn account_of(mint: [u8; 32]) -> Vec<u8> {
    let mut data = vec![4u8];
    data.extend_from_slice(&[1u8; 32]);
    data.extend_from_slice(&mint);
    for text in ["N", "S", "U"] {
        data.extend_from_slice(&1u32.to_le_bytes());
        data.extend_from_slice(text.as_bytes());
    }
    data.extend_from_slice(&[0, 0, 0, 0, 0, 0]);
    data
}

fn key(n: u16) -> [u8; 32] {
    let mut bytes = [7u8; 32];
    bytes[0..2].copy_from_slice(&n.to_be_bytes());
    bytes
}

fn mint(n: u16) -> String {
    Pubkey::from(key(n)).to_string()
}

fn good(n: u16) -> Result<Metadata, DecodeError> {
    decode(&mint(n), Ok(account_of(key(n))))
}

fn bad(n: u16) -> Result<Metadata, DecodeError> {
    decode(&mint(n), Err("timeout".to_string()))
}

fn written(round: WriteRound) -> (Vec<[u8; 32]>, Vec<usize>, RoundEnd) {
    let mut round = round;
    let mut keys = Vec::new();
    let mut sizes = Vec::new();
    while !round.is_written() {
        let (batch, rest) = round.next_batch();
        sizes.push(batch.len());
        keys.extend(batch.into_iter().map(|metadata| metadata.mint));
        round = rest;
    }
    (keys, sizes, round.finish())
}

fn failed(end: RoundEnd) -> AskRound {
    match end {
        RoundEnd::Failed(round) => round,
        RoundEnd::Complete => panic!("the round is complete"),
    }
}

fn start(ns: &[u16]) -> FetchRound {
    decode_metadata_all(ns.iter().map(|n| mint(*n)).collect())
}

#[test]
fn first_round_asks_for_the_list_as_given() {
    let round = start(&[3, 1, 3]);
    assert_eq!(round.mints(), &vec![mint(3), mint(1), mint(3)]);
}

#[test]
fn round_without_failures_is_complete() {
    let round = start(&[3, 1]).try_record(vec![good(3), good(1)]).unwrap();
    let (keys, _, end) = written(round);
    assert_eq!(keys, vec![key(3), key(1)]);
    assert!(matches!(end, RoundEnd::Complete));
}

#[test]
fn empty_list_is_complete() {
    let (keys, sizes, end) = written(start(&[]).record(vec![]));
    assert!(keys.is_empty());
    assert!(sizes.is_empty());
    assert!(matches!(end, RoundEnd::Complete));
}

#[test]
fn retry_asks_for_what_is_left() {
    let round = start(&[1, 2, 3]).record(vec![bad(1), good(2), bad(3)]);
    let (keys, _, end) = written(round);
    assert_eq!(keys, vec![key(2)]);
    let ask = failed(end);
    assert_eq!(
        ask.prompt(),
        "2/3 decodes failed. Do you want to retry these ones?"
    );
    let round = ask.retry();
    assert_eq!(round.mints(), &vec![mint(1), mint(3)]);
    let ask = failed(written(round.record(vec![good(1), bad(3)])).2);
    assert_eq!(
        ask.prompt(),
        "1/2 decodes failed. Do you want to retry these ones?"
    );
    let round = ask.retry();
    assert_eq!(round.mints(), &vec![mint(3)]);
    let (_, _, end) = written(round.record(vec![good(3)]));
    assert!(matches!(end, RoundEnd::Complete));
}

#[test]
fn duplicates_are_retried_once() {
    let round = start(&[1, 1]).record(vec![bad(1), bad(1)]);
    let ask = failed(written(round).2);
    assert_eq!(ask.retry().mints(), &vec![mint(1)]);
}

#[test]
fn giving_up_reports_the_failures() {
    let mut list = vec![mint(1), mint(2)];
    list.push("nonsense".to_string());
    let round = decode_metadata_all(list).record(vec![
        bad(1),
        good(2),
        decode("nonsense", Err("unused".to_string())),
    ]);
    let report = failed(written(round).2).stop();
    assert_eq!(
        report,
        vec![
            (
                mint(1),
                CacheItem {
                    successful: false,
                    error: Some("network request failed: timeout".to_string()),
                }
            ),
            (
                "nonsense".to_string(),
                CacheItem {
                    successful: false,
                    error: Some("failed to parse string into Pubkey".to_string()),
                }
            ),
        ]
    );
}

#[test]
fn run_asks_for_the_rest_in_the_order_of_the_list() {
    let round = start(&[3, 1, 3, 2]).record(vec![bad(3), bad(1), bad(3), good(2)]);
    let round = failed(written(round).2).retry();
    assert_eq!(round.mints(), &vec![mint(3), mint(1)]);
    let round = failed(written(round.record(vec![bad(3), good(1)])).2).retry();
    assert_eq!(round.mints(), &vec![mint(3)]);
}

#[test]
fn giving_up_later_reports_the_errors_of_the_last_round() {
    let round = start(&[1, 2, 3]).record(vec![bad(1), bad(2), good(3)]);
    let round = failed(written(round).2).retry();
    let last = decode(&mint(1), Ok(vec![]));
    let report = failed(written(round.record(vec![last, good(2)])).2).stop();
    assert_eq!(
        report,
        vec![(
            mint(1),
            CacheItem {
                successful: false,
                error: Some("failed to decode metadata: Unexpected length of input".to_string()),
            }
        )]
    );
}

#[test]
fn repeated_mint_that_failed_once_is_reported() {
    let round = start(&[1, 1]).record(vec![good(1), bad(1)]);
    let report = failed(written(round).2).stop();
    assert_eq!(report.len(), 1);
    assert_eq!(report[0].0, mint(1));
    assert_eq!(
        report[0].1.error,
        Some("network request failed: timeout".to_string())
    );
}

#[test]
fn repeated_mints_are_reported_once_after_a_retry() {
    let round = start(&[3, 1, 3, 2]).record(vec![bad(3), good(1), good(3), bad(2)]);
    let round = failed(written(round).2).retry();
    assert_eq!(round.mints(), &vec![mint(2)]);
    let report = failed(written(round.record(vec![bad(2)])).2).stop();
    assert_eq!(report.len(), 1);
    assert_eq!(report[0].0, mint(2));

    let round = start(&[3, 1, 3]).record(vec![bad(3), bad(1), bad(3)]);
    let round = failed(written(round).2).retry();
    let report = failed(written(round.record(vec![bad(3), bad(1)])).2).stop();
    let mints: Vec<String> = report.into_iter().map(|(mint, _)| mint).collect();
    assert_eq!(mints, vec![mint(3), mint(1)]);
}

#[test]
fn records_are_written_in_batches() {
    let ns: Vec<u16> = (0..250).collect();
    let round = start(&ns).record(ns.iter().map(|n| good(*n)).collect());
    let (keys, sizes, end) = written(round);
    assert_eq!(OPEN_FILES_LIMIT, 100);
    assert_eq!(sizes, vec![100, 100, 50]);
    assert_eq!(keys, ns.iter().map(|n| key(*n)).collect::<Vec<_>>());
    assert!(matches!(end, RoundEnd::Complete));
}

#[test]
fn exactly_full_batch() {
    let ns: Vec<u16> = (0..100).collect();
    let round = start(&ns).record(ns.iter().map(|n| good(*n)).collect());
    let (_, sizes, _) = written(round);
    assert_eq!(sizes, vec![100]);
}

#[test]
fn foreign_records_are_not_recorded() {
    assert!(start(&[1]).try_record(vec![good(2)]).is_none());
    assert!(start(&[1, 2]).try_record(vec![good(2), good(1)]).is_some());
}

#[test]
fn results_must_answer_the_round() {
    assert!(start(&[1]).try_record(vec![]).is_none());
    assert!(start(&[1]).try_record(vec![bad(2)]).is_none());
    assert!(start(&[1]).try_record(vec![bad(1)]).is_some());
}

#[test]
fn failures_are_kept_in_the_cache_file() {
    assert_eq!(CACHE_FILE_NAME, "metaboss-cache-decode.json");
}
