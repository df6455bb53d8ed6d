use txflow::dag::DagStore;
use txflow::epoch::{choose_representative, select_epoch_representative, EpochPhase, EpochState};
use txflow::reporter::{MisbehaviorReporter, DAGMisbehaviorReporter};
use txflow::signatures::sign;
use txflow::types::{Endorsement, Message, ViolationType};

const REP_HASH: u64 = 500;

fn endorsement(epoch: u64, target: u64, validator: u64, key: u64) -> Endorsement {
    Endorsement {
        epoch,
        target,
        validator,
        signature: sign(target, key),
    }
}

#[test]
fn representative_is_selected_exactly_once() {
    let mut st = EpochState::new(3, 2);
    let mut rep = DAGMisbehaviorReporter::new();
    assert_eq!(st.phase(), EpochPhase::Collecting);
    assert!(st.select_representative(REP_HASH));
    assert_eq!(st.phase(), EpochPhase::RepresentativeSelected);
    assert_eq!(st.representative(), Some(REP_HASH));
    // A second selection does not act.
    assert!(!st.select_representative(999));
    assert_eq!(st.representative(), Some(REP_HASH));
    assert_eq!(rep.next(), None);
}

#[test]
fn threshold_is_crossed_by_the_last_distinct_endorsement() {
    let threshold = 3;
    let mut st = EpochState::new(7, threshold);
    let mut rep = DAGMisbehaviorReporter::new();
    assert!(st.select_representative(REP_HASH));
    // threshold - 1 distinct valid endorsements: still only selected.
    assert!(st.supply_endorsement(endorsement(7, REP_HASH, 1, 10), 10, &mut rep));
    assert!(st.supply_endorsement(endorsement(7, REP_HASH, 2, 20), 20, &mut rep));
    assert_eq!(st.phase(), EpochPhase::RepresentativeSelected);
    assert_eq!(st.endorsement_count(), 2);
    // The threshold-th one makes the epoch final, exactly once.
    assert!(st.supply_endorsement(endorsement(7, REP_HASH, 3, 30), 30, &mut rep));
    assert_eq!(st.phase(), EpochPhase::Endorsed);
    assert_eq!(st.endorsement_count(), 3);
    // Endorsed is terminal: nothing more is counted.
    assert!(!st.supply_endorsement(endorsement(7, REP_HASH, 4, 40), 40, &mut rep));
    assert_eq!(st.endorsement_count(), 3);
    assert_eq!(rep.next(), None);
}

#[test]
fn duplicate_endorsements_do_not_count_twice() {
    let mut st = EpochState::new(7, 2);
    let mut rep = DAGMisbehaviorReporter::new();
    assert!(st.select_representative(REP_HASH));
    assert!(st.supply_endorsement(endorsement(7, REP_HASH, 1, 10), 10, &mut rep));
    // The same validator again: ignored, the epoch stays unendorsed.
    assert!(!st.supply_endorsement(endorsement(7, REP_HASH, 1, 10), 10, &mut rep));
    assert_eq!(st.endorsement_count(), 1);
    assert_eq!(st.phase(), EpochPhase::RepresentativeSelected);
    // A second distinct validator crosses the threshold.
    assert!(st.supply_endorsement(endorsement(7, REP_HASH, 2, 20), 20, &mut rep));
    assert_eq!(st.phase(), EpochPhase::Endorsed);
    assert_eq!(rep.next(), None);
}

#[test]
fn invalid_endorsement_is_reported_and_excluded() {
    let mut st = EpochState::new(7, 1);
    let mut rep = DAGMisbehaviorReporter::new();
    assert!(st.select_representative(REP_HASH));
    // A signature share under the wrong key fails verification.
    let bad = Endorsement {
        epoch: 7,
        target: REP_HASH,
        validator: 1,
        signature: sign(REP_HASH, 999),
    };
    assert!(!st.supply_endorsement(bad, 10, &mut rep));
    assert_eq!(st.endorsement_count(), 0);
    assert_eq!(st.phase(), EpochPhase::RepresentativeSelected);
    assert_eq!(rep.next(), Some(ViolationType::InvalidEndorsement(REP_HASH)));
    assert_eq!(rep.next(), None);
}

#[test]
fn mismatched_epoch_or_target_is_ignored() {
    let mut st = EpochState::new(7, 1);
    let mut rep = DAGMisbehaviorReporter::new();
    assert!(st.select_representative(REP_HASH));
    assert!(!st.supply_endorsement(endorsement(8, REP_HASH, 1, 10), 10, &mut rep));
    assert!(!st.supply_endorsement(endorsement(7, 501, 1, 10), 10, &mut rep));
    assert_eq!(st.endorsement_count(), 0);
    assert_eq!(rep.next(), None);
}

#[test]
fn endorsement_before_selection_is_ignored() {
    let mut st = EpochState::new(7, 1);
    let mut rep = DAGMisbehaviorReporter::new();
    assert!(!st.supply_endorsement(endorsement(7, REP_HASH, 1, 10), 10, &mut rep));
    assert_eq!(st.phase(), EpochPhase::Collecting);
    assert_eq!(rep.next(), None);
}

#[test]
fn stall_is_terminal_and_reported_once() {
    let mut st = EpochState::new(7, 2);
    let mut rep = DAGMisbehaviorReporter::new();
    assert!(st.select_representative(REP_HASH));
    assert!(st.supply_endorsement(endorsement(7, REP_HASH, 1, 10), 10, &mut rep));
    assert!(st.mark_stalled(&mut rep));
    assert_eq!(st.phase(), EpochPhase::Stalled);
    // Stalled is terminal: a second signal does not act or report again.
    assert!(!st.mark_stalled(&mut rep));
    assert!(!st.supply_endorsement(endorsement(7, REP_HASH, 2, 20), 20, &mut rep));
    assert_eq!(rep.next(), Some(ViolationType::MissingEndorsement(REP_HASH)));
    assert_eq!(rep.next(), None);
}

#[test]
fn stall_before_selection_does_not_act() {
    let mut st = EpochState::new(7, 2);
    let mut rep = DAGMisbehaviorReporter::new();
    assert!(!st.mark_stalled(&mut rep));
    assert_eq!(st.phase(), EpochPhase::Collecting);
    assert_eq!(rep.next(), None);
}

#[test]
fn representative_is_selected_from_the_dag_candidates() {
    let mut dag = DagStore::new();
    assert!(dag.register_key(3, 30));
    assert!(dag.register_key(1, 10));
    let mut rep = DAGMisbehaviorReporter::new();
    let m1 = Message {
        hash: 900,
        epoch: 0,
        author: 3,
        parents: vec![],
        payload: vec![],
        signature: sign(900, 30),
    };
    let m2 = Message {
        hash: 800,
        epoch: 0,
        author: 1,
        parents: vec![],
        payload: vec![],
        signature: sign(800, 10),
    };
    assert_eq!(dag.ingest(m1, &mut rep), Ok(()));
    assert_eq!(dag.ingest(m2, &mut rep), Ok(()));
    // The lowest author among epoch-0 messages wins.
    assert_eq!(select_epoch_representative(&dag, 0), Some((1, 800)));
    // An epoch with no admitted message has no representative yet.
    assert_eq!(select_epoch_representative(&dag, 5), None);
}

#[test]
fn selection_policy_picks_lowest_author_then_lowest_hash() {
    let candidates = vec![(5, 900), (2, 800), (2, 700), (9, 100)];
    assert_eq!(choose_representative(&candidates), Some((2, 700)));
    let single = vec![(4, 400)];
    assert_eq!(choose_representative(&single), Some((4, 400)));
    let none: Vec<(u64, u64)> = vec![];
    assert_eq!(choose_representative(&none), None);
}
