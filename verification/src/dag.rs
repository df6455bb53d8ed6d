//! The DAG store: holds all admitted messages keyed by content hash, tracks
//! parent edges, and exposes the ancestor traversal that the fork-detection
//! and epoch-monotonicity checks need. Admission refuses duplicates,
//! dangling parents and bad signatures; every protocol violation detected on
//! the way is classified and handed to the misbehavior reporter.
//!
//! Messages are held in an arena in admission order; parent references are
//! resolved to arena indices at admission, so every parent index is smaller
//! than the index of its child and traversal is well-founded.

use vstd::prelude::*;
use crate::types::{Message, TxFlowHash, EpochId, ValidatorId, ViolationType, AdmissionError};
use crate::reporter::MisbehaviorReporter;
use crate::signatures::spec_sig_matches;

verus! {

/// The mathematical value of an admitted message: its plain fields, with
/// the parent references resolved to arena indices.
#[verifier::ext_equal]
pub ghost struct MessageModel {
    pub hash: u64,
    pub epoch: u64,
    pub author: u64,
    pub parents: Seq<int>,
    pub payload: Seq<u8>,
    pub signature: u64,
}

/// Whether some admitted message has hash `h`.
pub open spec fn contains_hash(s: Seq<MessageModel>, h: u64) -> bool {
    exists|i: int| 0 <= i < s.len() && s[i].hash == h
}

/// The arena index of the message with hash `h` (well-defined when the
/// hashes of `s` are distinct and `h` is present).
pub open spec fn idx_of(s: Seq<MessageModel>, h: u64) -> int {
    choose|i: int| 0 <= i < s.len() && s[i].hash == h
}

/// No two admitted messages share a hash.
pub open spec fn hashes_distinct(s: Seq<MessageModel>) -> bool {
    forall|i: int, j: int| 0 <= i < j < s.len() ==> s[i].hash != s[j].hash
}

/// Every parent index points at an earlier arena slot.
pub open spec fn parents_wf(s: Seq<MessageModel>) -> bool {
    forall|i: int, j: int|
        0 <= i < s.len() && 0 <= j < s[i].parents.len() ==> 0 <= #[trigger] s[i].parents[j] < i
}

/// Well-formed store contents: distinct hashes and well-founded edges.
pub open spec fn dag_wf(s: Seq<MessageModel>) -> bool {
    hashes_distinct(s) && parents_wf(s)
}

/// Transitive ancestor relation over arena indices: `a` is an ancestor of
/// `d` when it is a parent of `d` or an ancestor of one of `d`'s parents.
pub open spec fn is_ancestor(s: Seq<MessageModel>, a: int, d: int) -> bool
    decreases d,
        when dag_wf(s) && 0 <= d < s.len()
{
    exists|j: int|
        0 <= j < s[d].parents.len() && (#[trigger] s[d].parents[j] == a
            || is_ancestor(s, a, s[d].parents[j]))
}

/// The key registered for validator `v`: the first matching entry.
pub open spec fn key_of(keys: Seq<(u64, u64)>, v: u64) -> Option<u64>
    decreases keys.len(),
{
    if keys.len() == 0 {
        None
    } else if keys[0].0 == v {
        Some(keys[0].1)
    } else {
        key_of(keys.drop_first(), v)
    }
}

/// An admitted message, with its parent references resolved to indices.
struct Record {
    msg: Message,
    parent_idxs: Vec<usize>,
}

/// The DAG store. Owns all admitted messages for the lifetime of the node;
/// all mutation goes through `ingest` and `register_key`.
pub struct DagStore {
    records: Vec<Record>,
    keys: Vec<(ValidatorId, u64)>,
}

impl View for DagStore {
    type V = Seq<MessageModel>;

    closed spec fn view(&self) -> Seq<MessageModel> {
        models_of(self.records@)
    }
}

spec fn models_of(rs: Seq<Record>) -> Seq<MessageModel> {
    rs.map_values(|r: Record| record_model(r))
}

/// Internal consistency of the arena: well-formed contents, and each
/// record's stored parent indices resolve exactly its parent hashes.
spec fn records_wf(rs: Seq<Record>) -> bool {
    &&& dag_wf(models_of(rs))
    &&& forall|i: int|
        0 <= i < rs.len() ==> (#[trigger] rs[i]).parent_idxs@.len() == rs[i].msg.parents@.len()
    &&& forall|i: int, j: int|
        0 <= i < rs.len() && 0 <= j < rs[i].parent_idxs@.len() ==> (
        #[trigger] rs[i].parent_idxs@[j]) < i && rs[i].msg.parents@[j] == models_of(rs)[rs[
            i
        ].parent_idxs@[j] as int].hash
}

spec fn record_model(r: Record) -> MessageModel {
    MessageModel {
        hash: r.msg.hash,
        epoch: r.msg.epoch,
        author: r.msg.author,
        parents: Seq::new(r.parent_idxs@.len(), |j: int| r.parent_idxs@[j] as int),
        payload: r.msg.payload@,
        signature: r.msg.signature,
    }
}

impl DagStore {
    /// The registered validator keys, in registration order.
    pub closed spec fn keys_view(&self) -> Seq<(u64, u64)> {
        self.keys@
    }

    /// Internal consistency: well-formed contents, and each record's stored
    /// parent indices resolve exactly its message's parent hashes.
    pub closed spec fn wf(&self) -> bool {
        records_wf(self.records@)
    }

    /// An empty store with no registered keys.
    pub fn new() -> (r: DagStore)
        ensures
            r.wf(),
            r@ == Seq::<MessageModel>::empty(),
            r.keys_view() == Seq::<(u64, u64)>::empty(),
    {
        DagStore { records: Vec::new(), keys: Vec::new() }
    }

    /// Register the public key of a validator. Returns `false`, leaving the
    /// registry unchanged, when the validator already has a key.
    pub fn register_key(&mut self, validator: ValidatorId, key: u64) -> (r: bool)
        ensures
            final(self)@ == old(self)@,
            old(self).wf() ==> final(self).wf(),
            r == (key_of(old(self).keys_view(), validator) is None),
            r ==> final(self).keys_view() == old(self).keys_view().push((validator, key)),
            !r ==> final(self).keys_view() == old(self).keys_view(),
            key_of(final(self).keys_view(), validator) is Some,
    {
        let existing = self.key_lookup(validator);
        if existing.is_some() {
            return false;
        }
        self.keys.push((validator, key));
        proof {
            lemma_key_of_push(old(self).keys@, validator, key);
        }
        true
    }

    /// Look up the registered key of a validator.
    pub fn key_lookup(&self, validator: ValidatorId) -> (r: Option<u64>)
        ensures
            r == key_of(self.keys_view(), validator),
    {
        let ghost keys = self.keys@;
        proof {
            assert(keys.skip(0) =~= keys);
        }
        let n = self.keys.len();
        let mut i: usize = 0;
        while i < n
            invariant
                n == keys.len(),
                0 <= i <= n,
                keys == self.keys@,
                key_of(keys, validator) == key_of(keys.skip(i as int), validator),
            decreases n - i,
        {
            let entry = self.keys[i];
            proof {
                assert(keys.skip(i as int)[0] == keys[i as int]);
                assert(keys.skip(i as int).drop_first() =~= keys.skip(i as int + 1));
            }
            if entry.0 == validator {
                return Some(entry.1);
            }
            i += 1;
        }
        proof {
            assert(keys.skip(n as int) =~= Seq::<(u64, u64)>::empty());
        }
        None
    }

    /// The number of admitted messages.
    pub fn len(&self) -> (r: usize)
        ensures
            r == self@.len(),
    {
        self.records.len()
    }

    /// The arena index of the message with hash `h`, if admitted.
    pub fn index_of(&self, h: TxFlowHash) -> (r: Option<usize>)
        requires
            self.wf(),
        ensures
            r is Some ==> 0 <= r->0 < self@.len() && self@[r->0 as int].hash == h
                && r->0 == idx_of(self@, h),
            r is None ==> !contains_hash(self@, h),
    {
        let n = self.records.len();
        let mut i: usize = 0;
        while i < n
            invariant
                n == self@.len(),
                0 <= i <= n,
                self.wf(),
                forall|k: int| 0 <= k < i ==> self@[k].hash != h,
            decreases n - i,
        {
            if self.records[i].msg.hash == h {
                proof {
                    assert(self@[i as int].hash == h);
                    let w = idx_of(self@, h);
                    assert(0 <= w < self@.len() && self@[w].hash == h);
                    assert(w == i as int);
                }
                return Some(i);
            }
            i += 1;
        }
        None
    }

    /// Whether a message with hash `h` has been admitted.
    pub fn contains(&self, h: TxFlowHash) -> (r: bool)
        requires
            self.wf(),
        ensures
            r == contains_hash(self@, h),
    {
        self.index_of(h).is_some()
    }

    /// The admitted message with hash `h`, if any.
    pub fn get(&self, h: TxFlowHash) -> (r: Option<&Message>)
        requires
            self.wf(),
        ensures
            contains_hash(self@, h) ==> r is Some && message_model(*r->0, self@)
                == self@[idx_of(self@, h)],
            !contains_hash(self@, h) ==> r is None,
    {
        match self.index_of(h) {
            Some(i) => {
                proof {
                    assert(record_model(self.records@[i as int]).parents
                        =~= message_model(self.records@[i as int].msg, self@).parents);
                }
                Some(&self.records[i].msg)
            },
            None => None,
        }
    }
}

/// The index of the most recently admitted message by `author`, if any:
/// the head the fork check compares a new admission against.
pub open spec fn head_of(s: Seq<MessageModel>, author: u64) -> Option<int>
    decreases s.len(),
{
    if s.len() == 0 {
        None
    } else if s.last().author == author {
        Some(s.len() - 1)
    } else {
        head_of(s.drop_last(), author)
    }
}

impl DagStore {
    /// Whether the message at arena index `a` is a (transitive) ancestor of
    /// the one at index `d`.
    pub fn ancestor_query(&self, a: usize, d: usize) -> (r: bool)
        requires
            self.wf(),
            a < self@.len(),
            d < self@.len(),
        ensures
            r == is_ancestor(self@, a as int, d as int),
        decreases d,
    {
        let n = self.records[d].parent_idxs.len();
        let mut j: usize = 0;
        while j < n
            invariant
                self.wf(),
                a < self@.len(),
                d < self@.len(),
                n == self@[d as int].parents.len(),
                n == self.records@[d as int].parent_idxs@.len(),
                0 <= j <= n,
                forall|k: int|
                    0 <= k < j ==> !(#[trigger] self@[d as int].parents[k] == a
                        || is_ancestor(self@, a as int, self@[d as int].parents[k])),
            decreases n - j,
        {
            let p = self.records[d].parent_idxs[j];
            proof {
                assert(self@[d as int].parents[j as int] == p as int);
                assert(0 <= self@[d as int].parents[j as int] < d as int);
            }
            if p == a {
                return true;
            }
            if self.ancestor_query(a, p) {
                return true;
            }
            j += 1;
        }
        false
    }

    /// Whether the admitted message with hash `a` is a (transitive)
    /// ancestor of the admitted message with hash `b`. `false` when either
    /// hash is absent from the store.
    pub fn is_ancestor_of(&self, a: TxFlowHash, b: TxFlowHash) -> (r: bool)
        requires
            self.wf(),
        ensures
            r == (contains_hash(self@, a) && contains_hash(self@, b) && is_ancestor(
                self@,
                idx_of(self@, a),
                idx_of(self@, b),
            )),
    {
        let ai = match self.index_of(a) {
            Some(i) => i,
            None => {
                return false;
            },
        };
        let bi = match self.index_of(b) {
            Some(i) => i,
            None => {
                return false;
            },
        };
        self.ancestor_query(ai, bi)
    }

    /// The most recently admitted message by `author`, as an arena index.
    pub fn author_head(&self, author: ValidatorId) -> (r: Option<usize>)
        requires
            self.wf(),
        ensures
            r is Some ==> head_of(self@, author) == Some(r->0 as int) && r->0 < self@.len(),
            r is None ==> head_of(self@, author) is None,
    {
        let ghost s = self@;
        proof {
            assert(s.take(s.len() as int) =~= s);
        }
        let mut i: usize = self.records.len();
        while i > 0
            invariant
                s == self@,
                self.wf(),
                0 <= i <= s.len(),
                head_of(s, author) == head_of(s.take(i as int), author),
            decreases i,
        {
            i -= 1;
            proof {
                assert(s.take(i as int + 1).last() == s[i as int]);
                assert(s.take(i as int + 1).drop_last() =~= s.take(i as int));
            }
            if self.records[i].msg.author == author {
                return Some(i);
            }
        }
        None
    }
}

impl DagStore {
    /// Admit a message into the DAG. Refuses a duplicate hash, a dangling
    /// parent reference and a bad signature; a refused message is not
    /// stored. A refused signature is reported as a violation; a duplicate
    /// or dangling reference is local bookkeeping and is not. An admitted
    /// message additionally passes the epoch-monotonicity check and the
    /// fork check against its author's head; failing either is reported to
    /// the misbehavior reporter, but the message stays admitted: the DAG
    /// records history, it does not drop evidence.
    #[verifier::loop_isolation(false)]
    pub fn ingest<R: MisbehaviorReporter>(&mut self, msg: Message, reporter: &mut R) -> (r:
        Result<(), AdmissionError>)
        requires
            old(self).wf(),
        ensures
            final(self).wf(),
            final(self).keys_view() == old(self).keys_view(),
            contains_hash(old(self)@, msg.hash) ==> {
                &&& r == Err::<(), AdmissionError>(AdmissionError::DuplicateHash)
                &&& final(self)@ == old(self)@
                &&& final(reporter).log() == old(reporter).log()
            },
            !contains_hash(old(self)@, msg.hash) && !parents_present(old(self)@, msg.parents@)
                ==> {
                &&& r == Err::<(), AdmissionError>(AdmissionError::UnknownParent)
                &&& final(self)@ == old(self)@
                &&& final(reporter).log() == old(reporter).log()
            },
            !contains_hash(old(self)@, msg.hash) && parents_present(old(self)@, msg.parents@)
                && !sig_ok(old(self).keys_view(), msg.author, msg.hash, msg.signature) ==> {
                &&& r == Err::<(), AdmissionError>(AdmissionError::InvalidSignature)
                &&& final(self)@ == old(self)@
                &&& final(reporter).log() == (if R::records() {
                    old(reporter).log().push(ViolationType::InvalidSignature(msg.hash))
                } else {
                    old(reporter).log()
                })
            },
            !contains_hash(old(self)@, msg.hash) && parents_present(old(self)@, msg.parents@)
                && sig_ok(old(self).keys_view(), msg.author, msg.hash, msg.signature) ==> {
                &&& r == Ok::<(), AdmissionError>(())
                &&& final(self)@ == old(self)@.push(message_model(msg, old(self)@))
                &&& final(reporter).log() == (if R::records() {
                    old(reporter).log() + emitted_violations(
                        old(self)@,
                        message_model(msg, old(self)@),
                    )
                } else {
                    old(reporter).log()
                })
            },
    {
        let ghost s = self@;

        // Structural checks: a duplicate hash or a dangling parent is a
        // local bookkeeping error, refused without a violation report.
        if self.contains(msg.hash) {
            return Err(AdmissionError::DuplicateHash);
        }

        let np = msg.parents.len();
        let mut parent_idxs: Vec<usize> = Vec::new();
        let mut j: usize = 0;
        while j < np
            invariant
                self.wf(),
                s == self@,
                np == msg.parents@.len(),
                0 <= j <= np,
                parent_idxs@.len() == j,
                forall|k: int| 0 <= k < j ==> contains_hash(s, #[trigger] msg.parents@[k]),
                forall|k: int|
                    0 <= k < j ==> (#[trigger] parent_idxs@[k]) as int == idx_of(
                        s,
                        msg.parents@[k],
                    ) && 0 <= parent_idxs@[k] < s.len() && s[parent_idxs@[k] as int].hash
                        == msg.parents@[k],
            decreases np - j,
        {
            match self.index_of(msg.parents[j]) {
                Some(p) => {
                    parent_idxs.push(p);
                },
                None => {
                    return Err(AdmissionError::UnknownParent);
                },
            }
            j += 1;
        }
        assert(parents_present(s, msg.parents@));

        // Signature verification: a failure is a statement about the remote
        // peer, so it is both refused and reported.
        let signature_good = match self.key_lookup(msg.author) {
            Some(k) => crate::signatures::verify(&msg, k),
            None => false,
        };
        if !signature_good {
            reporter.report(ViolationType::InvalidSignature(msg.hash));
            return Err(AdmissionError::InvalidSignature);
        }

        let ghost mm = message_model(msg, s);
        proof {
            assert forall|k: int|
                0 <= k < np implies #[trigger] mm.parents[k] == parent_idxs@[k] as int && 0
                <= mm.parents[k] < s.len() by {
                assert(parent_idxs@[k] as int == idx_of(s, msg.parents@[k]));
            }
        }

        // Epoch monotonicity: an admitted message's epoch must be at least
        // the epoch of each of its parents.
        let mut bad_epoch = false;
        let mut e: usize = 0;
        while e < np
            invariant
                self.wf(),
                s == self@,
                np == parent_idxs@.len(),
                np == mm.parents.len(),
                0 <= e <= np,
                forall|k: int|
                    0 <= k < np ==> #[trigger] mm.parents[k] == parent_idxs@[k] as int
                        && 0 <= mm.parents[k] < s.len(),
                mm.epoch == msg.epoch,
                bad_epoch == exists|k: int|
                    0 <= k < e && s[#[trigger] mm.parents[k]].epoch > mm.epoch,
            decreases np - e,
        {
            let p = parent_idxs[e];
            if self.records[p].msg.epoch > msg.epoch {
                assert(s[mm.parents[e as int]].epoch > mm.epoch);
                bad_epoch = true;
            }
            e += 1;
        }
        assert(bad_epoch == !epoch_ok(s, mm));
        if bad_epoch {
            reporter.report(ViolationType::BadEpoch(msg.hash));
        }

        // Fork check: the new message must descend from its author's head;
        // if it does not, the pair is reported, and both stay admitted.
        let ghost log_after_epoch = reporter.log();
        let head = self.author_head(msg.author);
        match head {
            Some(h) => {
                let mut linked = false;
                let mut f: usize = 0;
                while f < np
                    invariant
                        self.wf(),
                        s == self@,
                        h < s.len(),
                        np == parent_idxs@.len(),
                        np == mm.parents.len(),
                        0 <= f <= np,
                        forall|k: int|
                            0 <= k < np ==> #[trigger] mm.parents[k] == parent_idxs@[k] as int
                                && 0 <= mm.parents[k] < s.len(),
                        linked == exists|k: int|
                            0 <= k < f && (#[trigger] mm.parents[k] == h as int || is_ancestor(
                                s,
                                h as int,
                                mm.parents[k],
                            )),
                    decreases np - f,
                {
                    let p = parent_idxs[f];
                    if p == h || self.ancestor_query(h, p) {
                        assert(mm.parents[f as int] == h as int || is_ancestor(
                            s,
                            h as int,
                            mm.parents[f as int],
                        ));
                        linked = true;
                    }
                    f += 1;
                }
                assert(linked == reaches(s, mm, h as int));
                if !linked {
                    let head_hash = self.records[h].msg.hash;
                    assert(head_hash == s[h as int].hash);
                    reporter.report(ViolationType::ForkAttempt(head_hash, msg.hash));
                }
            },
            None => {
            },
        }

        // Everything is resolved: the message becomes immutable and
        // visible to traversal.
        let ghost old_records = self.records@;
        let rec = Record { msg, parent_idxs };
        let ghost rec_snap = rec;
        self.records.push(rec);
        proof {
            assert(self.records@ == old_records.push(rec_snap));
            assert(record_model(rec_snap) =~= mm) by {
                assert(record_model(rec_snap).parents =~= mm.parents);
            }
            assert(self@ =~= s.push(mm));
            lemma_records_wf_push(old_records, rec_snap);
            assert(self.wf());
            let epoch_part = if epoch_ok(s, mm) {
                Seq::<ViolationType>::empty()
            } else {
                seq![ViolationType::BadEpoch(mm.hash)]
            };
            let fork_part = match fork_evidence(s, mm) {
                Some(p) => seq![ViolationType::ForkAttempt(p.0, p.1)],
                None => Seq::<ViolationType>::empty(),
            };
            if R::records() {
                assert(log_after_epoch =~= old(reporter).log() + epoch_part);
                assert(reporter.log() =~= old(reporter).log() + emitted_violations(s, mm));
            } else {
                assert(reporter.log() == old(reporter).log());
            }
        }
        Ok(())
    }
}

/// The hashes, in arena order, of the ancestors of the message at index
/// `d` that sit among the first `n` arena slots.
pub open spec fn ancestor_hashes_upto(s: Seq<MessageModel>, d: int, n: nat) -> Seq<TxFlowHash>
    decreases n,
{
    if n == 0 {
        Seq::empty()
    } else {
        let prefix = ancestor_hashes_upto(s, d, (n - 1) as nat);
        if is_ancestor(s, n - 1, d) {
            prefix.push(s[n - 1].hash)
        } else {
            prefix
        }
    }
}

/// The hashes of all (transitive) ancestors of the message at index `d`,
/// in arena order.
pub open spec fn ancestor_hashes(s: Seq<MessageModel>, d: int) -> Seq<TxFlowHash> {
    ancestor_hashes_upto(s, d, s.len())
}

impl DagStore {
    /// The hashes of the transitive ancestors of the message with hash
    /// `h`, in admission order; empty when `h` is not admitted.
    #[verifier::loop_isolation(false)]
    pub fn ancestors_of(&self, h: TxFlowHash) -> (r: Vec<TxFlowHash>)
        requires
            self.wf(),
        ensures
            contains_hash(self@, h) ==> r@ == ancestor_hashes(self@, idx_of(self@, h)),
            !contains_hash(self@, h) ==> r@ == Seq::<TxFlowHash>::empty(),
    {
        let mut r: Vec<TxFlowHash> = Vec::new();
        match self.index_of(h) {
            Some(d) => {
                let n = self.records.len();
                let mut i: usize = 0;
                while i < n
                    invariant
                        0 <= i <= n,
                        r@ == ancestor_hashes_upto(self@, d as int, i as nat),
                    decreases n - i,
                {
                    if self.ancestor_query(i, d) {
                        r.push(self.records[i].msg.hash);
                    }
                    i += 1;
                }
                r
            },
            None => r,
        }
    }
}

/// The candidates of epoch `e` among the first `n` arena slots: each
/// message of that epoch as its (author, hash) pair, in admission order.
pub open spec fn epoch_candidates_upto(s: Seq<MessageModel>, e: EpochId, n: nat) -> Seq<
    (ValidatorId, TxFlowHash),
>
    decreases n,
{
    if n == 0 {
        Seq::empty()
    } else {
        let prefix = epoch_candidates_upto(s, e, (n - 1) as nat);
        if s[n - 1].epoch == e {
            prefix.push((s[n - 1].author, s[n - 1].hash))
        } else {
            prefix
        }
    }
}

/// All candidates of epoch `e`: the admitted messages of that epoch, as
/// (author, hash) pairs in admission order.
pub open spec fn epoch_candidates(s: Seq<MessageModel>, e: EpochId) -> Seq<
    (ValidatorId, TxFlowHash),
> {
    epoch_candidates_upto(s, e, s.len())
}

impl DagStore {
    /// The candidate messages of epoch `e`, as (author, hash) pairs in
    /// admission order: what the epoch engine's selection policy runs on.
    #[verifier::loop_isolation(false)]
    pub fn candidates_of_epoch(&self, e: EpochId) -> (r: Vec<(ValidatorId, TxFlowHash)>)
        ensures
            r@ == epoch_candidates(self@, e),
    {
        let mut r: Vec<(ValidatorId, TxFlowHash)> = Vec::new();
        let n = self.records.len();
        let mut i: usize = 0;
        while i < n
            invariant
                0 <= i <= n,
                r@ == epoch_candidates_upto(self@, e, i as nat),
            decreases n - i,
        {
            if self.records[i].msg.epoch == e {
                r.push((self.records[i].msg.author, self.records[i].msg.hash));
            }
            i += 1;
        }
        r
    }
}

/// The pushed record keeps the arena well-formed: its hash is fresh, and
/// its parent indices are in range and resolve its parent hashes.
proof fn lemma_records_wf_push(rs: Seq<Record>, rec: Record)
    requires
        records_wf(rs),
        !contains_hash(models_of(rs), rec.msg.hash),
        rec.parent_idxs@.len() == rec.msg.parents@.len(),
        forall|k: int|
            0 <= k < rec.parent_idxs@.len() ==> 0 <= #[trigger] rec.parent_idxs@[k] < rs.len()
                && models_of(rs)[rec.parent_idxs@[k] as int].hash == rec.msg.parents@[k],
    ensures
        records_wf(rs.push(rec)),
{
    let s = models_of(rs);
    let mm = record_model(rec);
    let rsp = rs.push(rec);
    let sp = models_of(rsp);
    let n = s.len() as int;
    assert(sp =~= s.push(mm));
    assert forall|k: int|
        0 <= k < mm.parents.len() implies #[trigger] mm.parents[k] == rec.parent_idxs@[k] as int by {
        assert(0 <= rec.parent_idxs@[k]);
    }
    assert forall|i: int, j: int|
        0 <= i < sp.len() && 0 <= j < sp[i].parents.len() implies 0 <= #[trigger] sp[i].parents[j]
        < i by {
        if i < n {
            assert(sp[i] == s[i]);
        } else {
            assert(sp[i] == mm);
            assert(mm.parents[j] == rec.parent_idxs@[j] as int);
        }
    }
    assert forall|i: int, j: int| 0 <= i < j < sp.len() implies sp[i].hash != sp[j].hash by {
        assert(sp[i] == s[i]);
        if j < n {
            assert(sp[j] == s[j]);
        } else {
            assert(sp[j] == mm);
            assert(!(s[i].hash == mm.hash));
        }
    }
    assert(dag_wf(sp));
    assert forall|i: int|
        0 <= i < rsp.len() implies (#[trigger] rsp[i]).parent_idxs@.len()
        == rsp[i].msg.parents@.len() by {
        if i < n {
            assert(rsp[i] == rs[i]);
        } else {
            assert(rsp[i] == rec);
        }
    }
    assert forall|i: int, j: int|
        0 <= i < rsp.len() && 0 <= j < rsp[i].parent_idxs@.len() implies (#[trigger] rsp[
            i
        ].parent_idxs@[j]) < i && rsp[i].msg.parents@[j] == sp[rsp[i].parent_idxs@[j] as int].hash by {
        if i < n {
            assert(rsp[i] == rs[i]);
            assert(rs[i].parent_idxs@[j] < i);
            assert(sp[rs[i].parent_idxs@[j] as int] == s[rs[i].parent_idxs@[j] as int]);
        } else {
            assert(rsp[i] == rec);
            assert(sp[rec.parent_idxs@[j] as int] == s[rec.parent_idxs@[j] as int]);
        }
    }
}

/// The model that admitting `msg` into a store with contents `s` produces:
/// the message's plain fields with each parent hash resolved to its index.
pub open spec fn message_model(msg: Message, s: Seq<MessageModel>) -> MessageModel {
    MessageModel {
        hash: msg.hash,
        epoch: msg.epoch,
        author: msg.author,
        parents: Seq::new(msg.parents@.len(), |j: int| idx_of(s, msg.parents@[j])),
        payload: msg.payload@,
        signature: msg.signature,
    }
}

/// Every listed parent hash names an admitted message.
pub open spec fn parents_present(s: Seq<MessageModel>, parents: Seq<u64>) -> bool {
    forall|j: int| 0 <= j < parents.len() ==> contains_hash(s, #[trigger] parents[j])
}

/// The signature authenticates the hash under the author's registered key;
/// an author without a registered key never verifies.
pub open spec fn sig_ok(keys: Seq<(u64, u64)>, author: u64, hash: u64, signature: u64) -> bool {
    match key_of(keys, author) {
        Some(k) => spec_sig_matches(hash, signature, k),
        None => false,
    }
}

/// The message's epoch is at least the epoch of each of its parents.
pub open spec fn epoch_ok(s: Seq<MessageModel>, m: MessageModel) -> bool {
    forall|j: int| 0 <= j < m.parents.len() ==> s[#[trigger] m.parents[j]].epoch <= m.epoch
}

/// Whether the message modelled by `m` has the message at index `a` among
/// its ancestors: `a` is one of its parents or an ancestor of one.
pub open spec fn reaches(s: Seq<MessageModel>, m: MessageModel, a: int) -> bool {
    exists|j: int|
        0 <= j < m.parents.len() && (#[trigger] m.parents[j] == a
            || is_ancestor(s, a, m.parents[j]))
}

/// The fork the admission of `m` exposes, if any: the author has a head and
/// the new message does not descend from it. The evidence pair carries the
/// earlier admitted hash first.
pub open spec fn fork_evidence(s: Seq<MessageModel>, m: MessageModel) -> Option<(u64, u64)> {
    match head_of(s, m.author) {
        Some(h) => if reaches(s, m, h) {
            None
        } else {
            Some((s[h].hash, m.hash))
        },
        None => None,
    }
}

/// The violations that admitting `m` into a store holding `s` reports, in
/// order: the epoch check first, then the fork check.
pub open spec fn emitted_violations(s: Seq<MessageModel>, m: MessageModel) -> Seq<ViolationType> {
    (if epoch_ok(s, m) {
        Seq::<ViolationType>::empty()
    } else {
        seq![ViolationType::BadEpoch(m.hash)]
    }) + (match fork_evidence(s, m) {
        Some(p) => seq![ViolationType::ForkAttempt(p.0, p.1)],
        None => Seq::<ViolationType>::empty(),
    })
}

/// A well-formed store stays well-formed when its last admission is taken
/// away again.
pub proof fn lemma_wf_prefix(s: Seq<MessageModel>, m: MessageModel)
    requires
        dag_wf(s.push(m)),
    ensures
        dag_wf(s),
{
    assert forall|i: int, j: int|
        0 <= i < s.len() && 0 <= j < s[i].parents.len() implies 0 <= #[trigger] s[i].parents[j]
        < i by {
        assert(s.push(m)[i] == s[i]);
        assert(0 <= s.push(m)[i].parents[j] < i);
    }
    assert forall|i: int, j: int| 0 <= i < j < s.len() implies s[i].hash != s[j].hash by {
        assert(s.push(m)[i] == s[i]);
        assert(s.push(m)[j] == s[j]);
    }
}

/// Admitting a new message leaves the ancestor relation among the already
/// admitted messages as it was.
pub proof fn lemma_push_preserves_ancestor(s: Seq<MessageModel>, m: MessageModel, a: int, d: int)
    requires
        dag_wf(s.push(m)),
        0 <= d < s.len(),
    ensures
        is_ancestor(s.push(m), a, d) == is_ancestor(s, a, d),
    decreases d,
{
    lemma_wf_prefix(s, m);
    let sp = s.push(m);
    assert(sp[d] == s[d]);
    if is_ancestor(sp, a, d) {
        let j = choose|j: int|
            0 <= j < sp[d].parents.len() && (#[trigger] sp[d].parents[j] == a
                || is_ancestor(sp, a, sp[d].parents[j]));
        let p = s[d].parents[j];
        assert(0 <= p < d);
        if p != a {
            lemma_push_preserves_ancestor(s, m, a, p);
        }
        assert(0 <= j < s[d].parents.len() && (s[d].parents[j] == a
            || is_ancestor(s, a, s[d].parents[j])));
        assert(is_ancestor(s, a, d));
    }
    if is_ancestor(s, a, d) {
        let j = choose|j: int|
            0 <= j < s[d].parents.len() && (#[trigger] s[d].parents[j] == a
                || is_ancestor(s, a, s[d].parents[j]));
        let p = s[d].parents[j];
        assert(0 <= p < d);
        if p != a {
            lemma_push_preserves_ancestor(s, m, a, p);
        }
        assert(0 <= j < sp[d].parents.len() && (sp[d].parents[j] == a
            || is_ancestor(sp, a, sp[d].parents[j])));
        assert(is_ancestor(sp, a, d));
    }
}

/// The ancestors of a newly admitted message are exactly its parents and
/// their ancestors in the store it was admitted into.
pub proof fn lemma_new_node_ancestor(s: Seq<MessageModel>, m: MessageModel, a: int)
    requires
        dag_wf(s.push(m)),
    ensures
        is_ancestor(s.push(m), a, s.len() as int) == reaches(s, m, a),
{
    let sp = s.push(m);
    let d = s.len() as int;
    assert(sp[d] == m);
    assert forall|j: int| 0 <= j < m.parents.len() implies 0 <= #[trigger] m.parents[j] < d by {
        assert(0 <= sp[d].parents[j] < d);
    }
    if is_ancestor(sp, a, d) {
        let j = choose|j: int|
            0 <= j < sp[d].parents.len() && (#[trigger] sp[d].parents[j] == a
                || is_ancestor(sp, a, sp[d].parents[j]));
        let p = m.parents[j];
        if p != a {
            lemma_push_preserves_ancestor(s, m, a, p);
        }
        assert(0 <= j < m.parents.len() && (m.parents[j] == a || is_ancestor(s, a, m.parents[j])));
        assert(reaches(s, m, a));
    }
    if reaches(s, m, a) {
        let j = choose|j: int|
            0 <= j < m.parents.len() && (#[trigger] m.parents[j] == a
                || is_ancestor(s, a, m.parents[j]));
        let p = m.parents[j];
        if p != a {
            lemma_push_preserves_ancestor(s, m, a, p);
        }
        assert(0 <= j < sp[d].parents.len() && (sp[d].parents[j] == a
            || is_ancestor(sp, a, sp[d].parents[j])));
        assert(is_ancestor(sp, a, d));
    }
}

/// The listed ancestor hashes among the first `n` slots name exactly the
/// messages in those slots that are ancestors of the one at `d`.
proof fn lemma_ancestor_hashes_upto_membership(s: Seq<MessageModel>, d: int, n: nat, i: int)
    requires
        dag_wf(s),
        0 <= i < s.len(),
        n <= s.len(),
    ensures
        ancestor_hashes_upto(s, d, n).contains(s[i].hash) <==> (i < n && is_ancestor(s, i, d)),
    decreases n,
{
    if n == 0 {
    } else {
        let prefix = ancestor_hashes_upto(s, d, (n - 1) as nat);
        lemma_ancestor_hashes_upto_membership(s, d, (n - 1) as nat, i);
        if is_ancestor(s, n - 1, d) {
            vstd::seq_lib::lemma_seq_contains_after_push(prefix, s[n - 1].hash, s[i].hash);
            if s[i].hash == s[n - 1].hash && i != n - 1 {
                // Distinct hashes: a hash match across slots is an index match.
                assert(false);
            }
        }
    }
}

/// The ancestor traversal is sound and complete: a message's hash appears
/// among the listed ancestors of the message at `d` exactly when it is an
/// ancestor of it.
pub proof fn lemma_ancestor_hashes_complete(s: Seq<MessageModel>, d: int, i: int)
    requires
        dag_wf(s),
        0 <= i < s.len(),
    ensures
        ancestor_hashes(s, d).contains(s[i].hash) <==> is_ancestor(s, i, d),
{
    lemma_ancestor_hashes_upto_membership(s, d, s.len(), i);
}

/// An ancestor always sits at an earlier arena slot than its descendant:
/// admission order is a topological order of the DAG, so a message can
/// never be an ancestor of one admitted before it.
pub proof fn lemma_ancestor_index_lt(s: Seq<MessageModel>, a: int, d: int)
    requires
        dag_wf(s),
        0 <= d < s.len(),
        is_ancestor(s, a, d),
    ensures
        a < d,
    decreases d,
{
    let j = choose|j: int|
        0 <= j < s[d].parents.len() && (#[trigger] s[d].parents[j] == a
            || is_ancestor(s, a, s[d].parents[j]));
    let p = s[d].parents[j];
    assert(0 <= p < d);
    if p != a {
        lemma_ancestor_index_lt(s, a, p);
    }
}

/// A newly admitted message becomes its author's head.
pub proof fn lemma_head_after_push(s: Seq<MessageModel>, m: MessageModel)
    ensures
        head_of(s.push(m), m.author) == Some(s.len() as int),
{
    assert(s.push(m).last() == m);
}

/// Fork detection law: when an author's first two messages `a` and `b` are
/// admitted in that order and `b` does not descend from `a`, admitting `a`
/// reports no fork, admitting `b` reports exactly one
/// `ForkAttempt(a.hash, b.hash)` — the evidence pair in admission order —
/// and both messages remain in the store.
pub proof fn lemma_fork_detection(s: Seq<MessageModel>, a: MessageModel, b: MessageModel)
    requires
        dag_wf(s.push(a).push(b)),
        a.author == b.author,
        head_of(s, a.author) is None,
        !is_ancestor(s.push(a).push(b), s.len() as int, s.len() as int + 1),
    ensures
        !is_ancestor(s.push(a).push(b), s.len() as int + 1, s.len() as int),
        fork_evidence(s, a) is None,
        emitted_violations(s, a) == (if epoch_ok(s, a) {
            Seq::<ViolationType>::empty()
        } else {
            seq![ViolationType::BadEpoch(a.hash)]
        }),
        fork_evidence(s.push(a), b) == Some((a.hash, b.hash)),
        emitted_violations(s.push(a), b) == (if epoch_ok(s.push(a), b) {
            Seq::<ViolationType>::empty()
        } else {
            seq![ViolationType::BadEpoch(b.hash)]
        }) + seq![ViolationType::ForkAttempt(a.hash, b.hash)],
        contains_hash(s.push(a).push(b), a.hash),
        contains_hash(s.push(a).push(b), b.hash),
    {
        let sa = s.push(a);
        let sab = sa.push(b);
        if is_ancestor(sab, s.len() as int + 1, s.len() as int) {
            lemma_ancestor_index_lt(sab, s.len() as int + 1, s.len() as int);
        }
        assert(fork_evidence(s, a) is None);
        assert(emitted_violations(s, a) =~= (if epoch_ok(s, a) {
            Seq::<ViolationType>::empty()
        } else {
            seq![ViolationType::BadEpoch(a.hash)]
        }));
        lemma_head_after_push(s, a);
        assert(head_of(sa, b.author) == Some(s.len() as int)) by {
            assert(sa.last() == a);
        }
        lemma_new_node_ancestor(sa, b, s.len() as int);
        assert(!reaches(sa, b, s.len() as int));
        assert(sa[s.len() as int] == a);
        assert(fork_evidence(sa, b) == Some((a.hash, b.hash)));
        assert(emitted_violations(sa, b) == (if epoch_ok(sa, b) {
            Seq::<ViolationType>::empty()
        } else {
            seq![ViolationType::BadEpoch(b.hash)]
        }) + seq![ViolationType::ForkAttempt(a.hash, b.hash)]);
        assert(sab[s.len() as int] == a);
        assert(sab[s.len() as int + 1] == b);
        assert(contains_hash(sab, a.hash));
        assert(contains_hash(sab, b.hash));
    }

/// No false positive on a linear chain: a message that lists its author's
/// current head among its parents is never reported as a fork. Along a
/// chain where each message is a direct child of the previous one, this
/// holds at every step, so no `ForkAttempt` is ever reported.
pub proof fn lemma_no_fork_on_linear_extension(s: Seq<MessageModel>, m: MessageModel, j: int)
    requires
        0 <= j < m.parents.len(),
        head_of(s, m.author) == Some(m.parents[j]),
    ensures
        fork_evidence(s, m) is None,
        emitted_violations(s, m) == (if epoch_ok(s, m) {
            Seq::<ViolationType>::empty()
        } else {
            seq![ViolationType::BadEpoch(m.hash)]
        }),
{
    let h = m.parents[j];
    assert(reaches(s, m, h));
    assert(emitted_violations(s, m) =~= (if epoch_ok(s, m) {
        Seq::<ViolationType>::empty()
    } else {
        seq![ViolationType::BadEpoch(m.hash)]
    }));
}

/// Registering a key for `v` does not disturb earlier registrations and
/// makes a key for `v` available.
proof fn lemma_key_of_push(keys: Seq<(u64, u64)>, v: u64, k: u64)
    requires
        key_of(keys, v) is None,
    ensures
        key_of(keys.push((v, k)), v) == Some(k),
    decreases keys.len(),
{
    if keys.len() == 0 {
        assert(keys.push((v, k))[0] == (v, k));
    } else {
        assert(keys.push((v, k))[0] == keys[0]);
        assert(keys.push((v, k)).drop_first() =~= keys.drop_first().push((v, k)));
        lemma_key_of_push(keys.drop_first(), v, k);
    }
}

} // verus!
