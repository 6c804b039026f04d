use nfmw_backend::pipeline::{Ledger, SubmitOutcome};
use nfmw_backend::tt::{
    get_tt_version, replay_oversized, validate_upload_tt_file, SimOutcome, TtInfoOutcome,
    MAX_REPLAY_BYTES,
};

fn ok_sim(ticks: i32) -> SimOutcome {
    SimOutcome { has_error: false, elapsed_ticks: ticks, expected_ticks: ticks }
}

fn ok_info(version: i32) -> TtInfoOutcome {
    TtInfoOutcome {
        has_error: false,
        checkpoint_count: 3,
        tick_count: 0,
        replay_version: version,
        backend_version: 1,
    }
}

#[test]
fn new_triple_stores_ticks_and_bytes() {
    let mut ledger = Ledger::new();
    let bytes: Vec<u8> = vec![7, 8, 9, 10];
    let r = ledger.submit_time_trial(1, 11, 22, &bytes, &ok_sim(100), &ok_info(5), 1000);
    assert!(matches!(r, SubmitOutcome::AcceptedNew(0)));
    let entry = ledger.records.find_triple(1, 11, 22).expect("record stored");
    assert_eq!(entry.total_ticks, 100);
    assert_eq!(entry.tt_version, 5);
    assert_eq!(entry.created_at, Some(1000));
    let blob = ledger.blobs.read(entry.id).expect("blob stored");
    assert_eq!(blob, &bytes);
}

#[test]
fn equal_tie_updates_in_place() {
    let mut ledger = Ledger::new();
    let first: Vec<u8> = vec![1, 1, 1];
    let second: Vec<u8> = vec![2, 2, 2, 2];
    let r1 = ledger.submit_time_trial(1, 11, 22, &first, &ok_sim(100), &ok_info(5), 1000);
    let id = match r1 {
        SubmitOutcome::AcceptedNew(id) => id,
        other => panic!("expected AcceptedNew, got {:?}", other),
    };
    let r2 = ledger.submit_time_trial(1, 11, 22, &second, &ok_sim(100), &ok_info(6), 2000);
    assert_eq!(r2, SubmitOutcome::AcceptedImproved(id));
    let entry = ledger.records.find_triple(1, 11, 22).unwrap();
    assert_eq!(entry.id, id);
    assert_eq!(entry.total_ticks, 100);
    assert_eq!(entry.tt_version, 6);
    assert_eq!(entry.created_at, Some(2000));
    assert_eq!(ledger.blobs.read(id).unwrap(), &second);
}

#[test]
fn slower_submission_changes_nothing() {
    let mut ledger = Ledger::new();
    let first: Vec<u8> = vec![1, 1, 1];
    let slower: Vec<u8> = vec![9, 9];
    ledger.submit_time_trial(1, 11, 22, &first, &ok_sim(100), &ok_info(5), 1000);
    let r = ledger.submit_time_trial(1, 11, 22, &slower, &ok_sim(101), &ok_info(6), 2000);
    assert_eq!(r, SubmitOutcome::RejectedSlower);
    let entry = ledger.records.find_triple(1, 11, 22).unwrap();
    assert_eq!(entry.total_ticks, 100);
    assert_eq!(entry.tt_version, 5);
    assert_eq!(entry.created_at, Some(1000));
    assert_eq!(ledger.blobs.read(entry.id).unwrap(), &first);
}

#[test]
fn oversized_rejected_without_oracle() {
    // A counting stand-in for the oracle: the protocol runs it only
    // after the size screen passes.
    let mut oracle_calls: u32 = 0;
    let bytes: Vec<u8> = vec![0u8; MAX_REPLAY_BYTES + 1];
    let sim = if replay_oversized(bytes.len()) {
        None
    } else {
        oracle_calls += 1;
        Some(ok_sim(100))
    };
    assert_eq!(oracle_calls, 0);
    assert!(sim.is_none());
    let r = validate_upload_tt_file(bytes.len(), &ok_sim(100));
    assert_eq!(r.unwrap_err(), "File size exceeds 10 MB limit".to_string());
    let mut ledger = Ledger::new();
    let out = ledger.submit_time_trial(1, 11, 22, &bytes, &ok_sim(100), &ok_info(5), 1000);
    assert_eq!(out, SubmitOutcome::RejectedOversized);
    assert!(ledger.records.find_triple(1, 11, 22).is_none());
}

#[test]
fn size_boundary_is_exact() {
    assert!(!replay_oversized(MAX_REPLAY_BYTES));
    assert!(replay_oversized(MAX_REPLAY_BYTES + 1));
    assert_eq!(MAX_REPLAY_BYTES, 10 * 1024 * 1024);
}

#[test]
fn mismatched_ticks_rejected_regardless_of_magnitude() {
    let cases = [
        (100, 101),
        (101, 100),
        (1, i32::MAX),
        (i32::MAX, 1),
        (-5, 100),
        (100, -5),
        (-7, -7),
        (0, 0),
        (0, 100),
        (100, 0),
    ];
    for (elapsed, expected) in cases {
        let sim = SimOutcome { has_error: false, elapsed_ticks: elapsed, expected_ticks: expected };
        let r = validate_upload_tt_file(10, &sim);
        assert!(r.is_err(), "elapsed {} expected {} must be rejected", elapsed, expected);
        let mut ledger = Ledger::new();
        let out = ledger.submit_time_trial(1, 11, 22, &[1u8], &sim, &ok_info(5), 1000);
        assert_eq!(out, SubmitOutcome::RejectedInvalid);
        assert!(ledger.records.find_triple(1, 11, 22).is_none());
    }
}

#[test]
fn mismatch_error_messages_follow_the_gates() {
    let erring = SimOutcome { has_error: true, elapsed_ticks: 5, expected_ticks: 5 };
    assert_eq!(validate_upload_tt_file(10, &erring).unwrap_err(), "TT simulation failed");
    let nonpos = SimOutcome { has_error: false, elapsed_ticks: 0, expected_ticks: 5 };
    assert_eq!(
        validate_upload_tt_file(10, &nonpos).unwrap_err(),
        "Simulated TT has non-positive tick count, invalid TT data"
    );
    let nonpos_expected = SimOutcome { has_error: false, elapsed_ticks: 5, expected_ticks: 0 };
    assert_eq!(
        validate_upload_tt_file(10, &nonpos_expected).unwrap_err(),
        "Simulated TT has non-positive expected tick count, invalid TT data"
    );
    let mismatch = SimOutcome { has_error: false, elapsed_ticks: 5, expected_ticks: 6 };
    assert_eq!(
        validate_upload_tt_file(10, &mismatch).unwrap_err(),
        "The simulation did not succeed; either the car or stage is corrupted, or you are using an old version."
    );
    let good = SimOutcome { has_error: false, elapsed_ticks: 5, expected_ticks: 5 };
    let ok = validate_upload_tt_file(10, &good).unwrap();
    assert_eq!(ok.elapsed_ticks, 5);
}

#[test]
fn failed_metadata_query_rejects_submission() {
    let bad_info = TtInfoOutcome {
        has_error: true,
        checkpoint_count: 0,
        tick_count: 0,
        replay_version: 0,
        backend_version: 0,
    };
    assert_eq!(get_tt_version(&bad_info).unwrap_err(), "TT info fetch failed");
    assert_eq!(get_tt_version(&ok_info(9)).unwrap(), 9);
    let mut ledger = Ledger::new();
    let out = ledger.submit_time_trial(1, 11, 22, &[1u8], &ok_sim(50), &bad_info, 1000);
    assert_eq!(out, SubmitOutcome::RejectedInvalid);
    assert!(ledger.records.find_triple(1, 11, 22).is_none());
}

#[test]
fn racing_submissions_settle_on_minimum_in_any_order() {
    // Every submission is atomic on the ledger, so any interleaving of
    // concurrent submissions is some order of these calls.
    let ticks = [300, 100, 200];
    let orders = [[0, 1, 2], [0, 2, 1], [1, 0, 2], [1, 2, 0], [2, 0, 1], [2, 1, 0]];
    for order in orders {
        let mut ledger = Ledger::new();
        for k in order {
            let t = ticks[k];
            ledger.submit_time_trial(1, 11, 22, &[t as u8], &ok_sim(t), &ok_info(1), 1000);
        }
        let hits = ledger.records.filter(Some(1), Some(11), Some(22));
        assert_eq!(hits.len(), 1, "exactly one record per triple");
        assert_eq!(hits[0].total_ticks, 100, "order {:?} must settle on the minimum", order);
    }
}

#[test]
fn distinct_triples_do_not_interfere() {
    let mut ledger = Ledger::new();
    let a = ledger.submit_time_trial(1, 11, 22, &[1u8], &ok_sim(100), &ok_info(1), 10);
    let b = ledger.submit_time_trial(2, 11, 22, &[2u8], &ok_sim(90), &ok_info(1), 11);
    let c = ledger.submit_time_trial(1, 33, 22, &[3u8], &ok_sim(80), &ok_info(1), 12);
    assert!(matches!(a, SubmitOutcome::AcceptedNew(_)));
    assert!(matches!(b, SubmitOutcome::AcceptedNew(_)));
    assert!(matches!(c, SubmitOutcome::AcceptedNew(_)));
    assert_eq!(ledger.records.filter(Some(1), None, None).len(), 2);
    assert_eq!(ledger.records.filter(None, Some(11), None).len(), 2);
    assert_eq!(ledger.records.filter(None, None, Some(22)).len(), 3);
    assert_eq!(ledger.records.filter(Some(1), Some(11), Some(22)).len(), 1);
}
