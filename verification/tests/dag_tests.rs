use txflow::dag::DagStore;
use txflow::reporter::{MisbehaviorReporter, DAGMisbehaviorReporter, NoopMisbehaviorReporter};
use txflow::signatures::sign;
use txflow::types::{AdmissionError, Message, ViolationType};

fn message(hash: u64, epoch: u64, author: u64, parents: Vec<u64>, key: u64) -> Message {
    Message {
        hash,
        epoch,
        author,
        parents,
        payload: vec![],
        signature: sign(hash, key),
    }
}

const KEY_A: u64 = 0x1111;
const KEY_B: u64 = 0x2222;

fn store_with_keys() -> DagStore {
    let mut dag = DagStore::new();
    assert!(dag.register_key(1, KEY_A));
    assert!(dag.register_key(2, KEY_B));
    dag
}

#[test]
fn register_key_refuses_second_key() {
    let mut dag = DagStore::new();
    assert!(dag.register_key(1, KEY_A));
    assert!(!dag.register_key(1, KEY_B));
    assert_eq!(dag.key_lookup(1), Some(KEY_A));
    assert_eq!(dag.key_lookup(2), None);
}

#[test]
fn ingest_stores_a_valid_message() {
    let mut dag = store_with_keys();
    let mut rep = DAGMisbehaviorReporter::new();
    let a = message(100, 0, 1, vec![], KEY_A);
    assert_eq!(dag.ingest(a, &mut rep), Ok(()));
    assert_eq!(dag.len(), 1);
    let stored = dag.get(100).expect("admitted message must be retrievable");
    assert_eq!(stored.hash, 100);
    assert_eq!(stored.author, 1);
    assert_eq!(rep.next(), None);
}

#[test]
fn ingest_rejects_duplicate_hash() {
    let mut dag = store_with_keys();
    let mut rep = DAGMisbehaviorReporter::new();
    assert_eq!(dag.ingest(message(100, 0, 1, vec![], KEY_A), &mut rep), Ok(()));
    let again = message(100, 1, 2, vec![], KEY_B);
    assert_eq!(dag.ingest(again, &mut rep), Err(AdmissionError::DuplicateHash));
    assert_eq!(dag.len(), 1);
    assert_eq!(rep.next(), None);
}

#[test]
fn ingest_rejects_dangling_parent() {
    let mut dag = store_with_keys();
    let mut rep = DAGMisbehaviorReporter::new();
    // The signature is valid; the admission still fails and stores nothing.
    let orphan = message(200, 0, 1, vec![999], KEY_A);
    assert_eq!(dag.ingest(orphan, &mut rep), Err(AdmissionError::UnknownParent));
    assert_eq!(dag.len(), 0);
    assert!(dag.get(200).is_none());
    // A bookkeeping error, not a remote-peer violation: nothing reported.
    assert_eq!(rep.next(), None);
}

#[test]
fn ingest_rejects_and_reports_bad_signature() {
    let mut dag = store_with_keys();
    let mut rep = DAGMisbehaviorReporter::new();
    // Signed under the wrong key: someone pretending to be author 1.
    let forged = message(300, 0, 1, vec![], KEY_B);
    assert_eq!(dag.ingest(forged, &mut rep), Err(AdmissionError::InvalidSignature));
    assert_eq!(dag.len(), 0);
    assert_eq!(rep.next(), Some(ViolationType::InvalidSignature(300)));
    assert_eq!(rep.next(), None);
}

#[test]
fn ingest_rejects_unregistered_author() {
    let mut dag = store_with_keys();
    let mut rep = DAGMisbehaviorReporter::new();
    let unknown = message(400, 0, 77, vec![], KEY_A);
    assert_eq!(dag.ingest(unknown, &mut rep), Err(AdmissionError::InvalidSignature));
    assert_eq!(rep.next(), Some(ViolationType::InvalidSignature(400)));
}

#[test]
fn ingest_reports_bad_epoch_but_admits() {
    let mut dag = store_with_keys();
    let mut rep = DAGMisbehaviorReporter::new();
    assert_eq!(dag.ingest(message(100, 5, 1, vec![], KEY_A), &mut rep), Ok(()));
    // Epoch 3 is below its parent's epoch 5: inconsistent with DAG position.
    assert_eq!(dag.ingest(message(101, 3, 1, vec![100], KEY_A), &mut rep), Ok(()));
    assert_eq!(dag.len(), 2);
    assert!(dag.get(101).is_some());
    assert_eq!(rep.next(), Some(ViolationType::BadEpoch(101)));
    assert_eq!(rep.next(), None);
}

#[test]
fn fork_by_one_author_is_reported_once_in_admission_order() {
    let mut dag = store_with_keys();
    let mut rep = DAGMisbehaviorReporter::new();
    // Two messages from author 1, neither an ancestor of the other.
    let a = message(100, 0, 1, vec![], KEY_A);
    let b = message(101, 0, 1, vec![], KEY_A);
    assert_eq!(dag.ingest(a, &mut rep), Ok(()));
    assert_eq!(dag.ingest(b, &mut rep), Ok(()));
    // Exactly one fork, its evidence pair in admission order.
    assert_eq!(rep.next(), Some(ViolationType::ForkAttempt(100, 101)));
    assert_eq!(rep.next(), None);
    // Both messages remain admitted: history is recorded, not dropped.
    assert!(dag.get(100).is_some());
    assert!(dag.get(101).is_some());
}

#[test]
fn no_fork_reported_on_a_linear_chain() {
    let mut dag = store_with_keys();
    let mut rep = DAGMisbehaviorReporter::new();
    assert_eq!(dag.ingest(message(100, 0, 1, vec![], KEY_A), &mut rep), Ok(()));
    assert_eq!(dag.ingest(message(101, 1, 1, vec![100], KEY_A), &mut rep), Ok(()));
    assert_eq!(dag.ingest(message(102, 2, 1, vec![101], KEY_A), &mut rep), Ok(()));
    assert_eq!(rep.next(), None);
}

#[test]
fn no_fork_across_different_authors() {
    let mut dag = store_with_keys();
    let mut rep = DAGMisbehaviorReporter::new();
    assert_eq!(dag.ingest(message(100, 0, 1, vec![], KEY_A), &mut rep), Ok(()));
    assert_eq!(dag.ingest(message(200, 0, 2, vec![], KEY_B), &mut rep), Ok(()));
    assert_eq!(rep.next(), None);
}

#[test]
fn descending_from_the_head_through_another_author_is_no_fork() {
    let mut dag = store_with_keys();
    let mut rep = DAGMisbehaviorReporter::new();
    // Author 1's second message descends from its first only transitively,
    // through a message of author 2: still no fork.
    assert_eq!(dag.ingest(message(100, 0, 1, vec![], KEY_A), &mut rep), Ok(()));
    assert_eq!(dag.ingest(message(200, 1, 2, vec![100], KEY_B), &mut rep), Ok(()));
    assert_eq!(dag.ingest(message(101, 2, 1, vec![200], KEY_A), &mut rep), Ok(()));
    assert_eq!(rep.next(), None);
}

#[test]
fn violations_ignored_by_discarding_reporter() {
    let mut dag = store_with_keys();
    let mut rep = NoopMisbehaviorReporter::new();
    let a = message(100, 0, 1, vec![], KEY_A);
    let b = message(101, 0, 1, vec![], KEY_A);
    assert_eq!(dag.ingest(a, &mut rep), Ok(()));
    assert_eq!(dag.ingest(b, &mut rep), Ok(()));
    assert_eq!(rep.next(), None);
}

#[test]
fn ancestor_queries_follow_transitive_edges_only() {
    let mut dag = store_with_keys();
    let mut rep = DAGMisbehaviorReporter::new();
    assert_eq!(dag.ingest(message(100, 0, 1, vec![], KEY_A), &mut rep), Ok(()));
    assert_eq!(dag.ingest(message(200, 1, 2, vec![100], KEY_B), &mut rep), Ok(()));
    assert_eq!(dag.ingest(message(101, 2, 1, vec![200], KEY_A), &mut rep), Ok(()));
    assert_eq!(dag.ingest(message(201, 0, 2, vec![], KEY_B), &mut rep), Ok(()));
    assert!(dag.is_ancestor_of(100, 101));
    assert!(dag.is_ancestor_of(200, 101));
    assert!(!dag.is_ancestor_of(101, 100));
    assert!(!dag.is_ancestor_of(201, 101));
    assert!(!dag.is_ancestor_of(100, 100));
    assert!(!dag.is_ancestor_of(999, 101));
    assert!(!dag.is_ancestor_of(100, 999));
}

#[test]
fn ancestors_follow_all_parent_edges() {
    let mut dag = store_with_keys();
    let mut rep = DAGMisbehaviorReporter::new();
    assert_eq!(dag.ingest(message(100, 0, 1, vec![], KEY_A), &mut rep), Ok(()));
    assert_eq!(dag.ingest(message(200, 0, 2, vec![], KEY_B), &mut rep), Ok(()));
    assert_eq!(dag.ingest(message(101, 1, 1, vec![100, 200], KEY_A), &mut rep), Ok(()));
    assert_eq!(dag.ingest(message(102, 2, 1, vec![101], KEY_A), &mut rep), Ok(()));
    assert_eq!(dag.ancestors_of(100), Vec::<u64>::new());
    assert_eq!(dag.ancestors_of(101), vec![100, 200]);
    assert_eq!(dag.ancestors_of(102), vec![100, 200, 101]);
    assert_eq!(dag.ancestors_of(999), Vec::<u64>::new());
}
