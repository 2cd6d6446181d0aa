use finalized_sync::sync::{CheckedTip, DownloadSet, SyncAction, Syncer, TaskDecision, LOOKAHEAD_LIMIT};
use finalized_sync::types::BlockHash;

fn h(n: u64) -> BlockHash {
    BlockHash(n, 1, 2, 3)
}

const GARBAGE: u64 = 666;

#[test]
fn obtain_tips_with_trailing_garbage() {
    let mut s = Syncer::new(h(0));
    let mut d = DownloadSet::new();
    let response = vec![h(1), h(2), h(3), h(GARBAGE)];
    assert_eq!(Syncer::obtain_response_candidates(&response), vec![h(1), h(2), h(3)]);
    assert!(s.accept_obtained_response(&mut d, &response, Some(0)));
    assert_eq!(s.prospective_tips(), vec![CheckedTip { tip: h(2), expected_next: h(3) }]);
    assert_eq!(d.hashes(), vec![h(1), h(2), h(3)]);
    assert!(!d.contains(h(GARBAGE)));
}

#[test]
fn obtain_tips_with_prepended_garbage() {
    let mut s = Syncer::new(h(0));
    let mut d = DownloadSet::new();
    let response = vec![h(GARBAGE), h(1), h(2), h(3), h(4)];
    assert!(s.accept_obtained_response(&mut d, &response, Some(0)));
    assert_eq!(s.prospective_tips(), vec![CheckedTip { tip: h(2), expected_next: h(3) }]);
    assert!(d.contains(h(1)) && d.contains(h(2)) && d.contains(h(3)));
    assert!(!d.contains(h(4)));
}

#[test]
fn obtain_tips_skips_known_prefix() {
    let mut s = Syncer::new(h(0));
    let mut d = DownloadSet::new();
    let response = vec![h(1), h(2), h(3), h(4), h(5)];
    assert!(s.accept_obtained_response(&mut d, &response, Some(2)));
    assert_eq!(d.hashes(), vec![h(3), h(4)]);
    assert_eq!(s.prospective_tips(), vec![CheckedTip { tip: h(3), expected_next: h(4) }]);
}

#[test]
fn obtain_tips_discards_short_and_known_responses() {
    let mut s = Syncer::new(h(0));
    let mut d = DownloadSet::new();
    assert!(!s.accept_obtained_response(&mut d, &vec![h(1), h(2)], Some(0)));
    assert!(!s.accept_obtained_response(&mut d, &vec![h(1), h(2), h(3)], None));
    assert!(!s.accept_obtained_response(&mut d, &vec![], None));
    assert_eq!(d.len(), 0);
    assert!(s.prospective_tips().is_empty());
}

#[test]
fn duplicate_tip_from_second_peer_is_discarded() {
    let mut s = Syncer::new(h(0));
    let mut d = DownloadSet::new();
    let response = vec![h(1), h(2), h(3), h(9)];
    assert!(s.accept_obtained_response(&mut d, &response, Some(0)));
    assert!(!s.accept_obtained_response(&mut d, &response, Some(0)));
    assert_eq!(s.prospective_tips().len(), 1);
    assert_eq!(d.len(), 3);
}

#[test]
fn longer_response_subsumes_shorter_tip() {
    let mut s = Syncer::new(h(0));
    let mut d = DownloadSet::new();
    assert!(s.accept_obtained_response(&mut d, &vec![h(1), h(2), h(3), h(9)], Some(0)));
    let mut other = DownloadSet::new();
    assert!(s.accept_unknown_hashes(&mut other, &vec![h(1), h(2), h(3), h(4), h(5)]));
    assert_eq!(s.prospective_tips(), vec![CheckedTip { tip: h(4), expected_next: h(5) }]);
}

#[test]
fn extend_response_variants() {
    assert_eq!(Syncer::extend_response_unknown(&vec![h(5), h(6), h(7), h(8)], h(5)), Some(vec![h(6), h(7)]));
    assert_eq!(Syncer::extend_response_unknown(&vec![h(GARBAGE), h(5), h(6), h(7), h(8)], h(5)), Some(vec![h(6), h(7)]));
    assert_eq!(Syncer::extend_response_unknown(&vec![h(1), h(2), h(5)], h(5)), None);
    assert_eq!(Syncer::extend_response_unknown(&vec![h(5)], h(5)), None);
    assert_eq!(Syncer::extend_response_unknown(&vec![], h(5)), None);
    assert_eq!(Syncer::extend_response_unknown(&vec![h(1)], h(5)), None);
}

#[test]
fn extend_tips_forms_new_tip() {
    let mut s = Syncer::new(h(0));
    let mut d = DownloadSet::new();
    let tip = CheckedTip { tip: h(4), expected_next: h(5) };
    assert!(s.accept_extended_response(&mut d, tip, &vec![h(5), h(6), h(7), h(8), h(GARBAGE)]));
    assert_eq!(s.prospective_tips(), vec![CheckedTip { tip: h(7), expected_next: h(8) }]);
    assert_eq!(d.hashes(), vec![h(6), h(7), h(8)]);
    assert!(!s.accept_extended_response(&mut d, tip, &vec![h(1), h(2), h(3)]));
    let taken = s.take_tips();
    assert_eq!(taken.len(), 1);
    assert!(s.prospective_tips().is_empty());
}

#[test]
fn lookahead_cap() {
    let mut s = Syncer::new(h(0));
    let mut d = DownloadSet::new();
    s.accept_unknown_hashes(&mut d, &vec![h(1), h(2)]);
    assert_eq!(s.next_action(), SyncAction::ExtendTips);
    for _ in 0..LOOKAHEAD_LIMIT + 5 {
        s.block_requested();
    }
    assert_eq!(s.pending_blocks(), LOOKAHEAD_LIMIT + 5);
    let mut completions = 0;
    while s.next_action() == SyncAction::AwaitPending {
        assert_eq!(s.task_finished(false, false), TaskDecision::Continue);
        completions += 1;
    }
    assert_eq!(completions, 5);
    assert_eq!(s.next_action(), SyncAction::ExtendTips);
}

#[test]
fn error_triggered_restart() {
    let mut s = Syncer::new(h(0));
    let mut d = DownloadSet::new();
    s.accept_unknown_hashes(&mut d, &vec![h(1), h(2), h(3)]);
    s.block_requested();
    s.block_requested();
    assert_eq!(s.task_finished(true, true), TaskDecision::Continue);
    assert_eq!(s.pending_blocks(), 1);
    assert_eq!(s.task_finished(true, false), TaskDecision::Restart);
    assert!(s.prospective_tips().is_empty());
    assert_eq!(s.pending_blocks(), 0);
    assert_eq!(s.next_action(), SyncAction::WaitAndRestart);
    assert_eq!(s.genesis_hash(), h(0));
}

#[test]
fn restart_matches_fresh_syncer() {
    let mut s = Syncer::new(h(0));
    let mut d = DownloadSet::new();
    s.accept_unknown_hashes(&mut d, &vec![h(1), h(2)]);
    s.block_requested();
    s.restart();
    let fresh = Syncer::new(h(0));
    assert_eq!(s.prospective_tips(), fresh.prospective_tips());
    assert_eq!(s.pending_blocks(), fresh.pending_blocks());
    assert_eq!(s.genesis_hash(), fresh.genesis_hash());
}

#[test]
fn download_set_keeps_first_order_without_repeats() {
    let mut d = DownloadSet::new();
    d.extend(&vec![h(3), h(1), h(3)]);
    d.extend(&vec![h(2), h(1)]);
    assert_eq!(d.hashes(), vec![h(3), h(1), h(2)]);
}
