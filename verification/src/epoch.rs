//! The epoch and representative engine: per epoch, a representative message
//! is selected exactly once by a deterministic policy, valid endorsements
//! over it are collected (each verified, duplicates from one validator
//! never counted twice), and the epoch becomes final — endorsed — the
//! moment the threshold number of distinct valid endorsements is reached.
//! A stall signalled from outside before that point is terminal-with-fault
//! and reported once as a missing endorsement.

use vstd::prelude::*;
use vstd::pervasive::unreached;
use crate::types::{TxFlowHash, EpochId, ValidatorId, Endorsement, ViolationType};
use crate::reporter::MisbehaviorReporter;
use crate::signatures::spec_sig_matches;
use crate::dag::{DagStore, epoch_candidates};

verus! {

/// The phase of one epoch's state machine. `Endorsed` and `Stalled` are
/// terminal.
#[derive(Clone, Copy, Debug, PartialEq, Eq, Structural)]
pub enum EpochPhase {
    /// No representative selected yet; messages accumulate.
    Collecting,
    /// The representative is fixed; endorsements are being aggregated.
    RepresentativeSelected,
    /// The endorsement threshold was reached; the epoch is final.
    Endorsed,
    /// Signalled from outside before the threshold was reached.
    Stalled,
}

/// The state one epoch moves through, from collecting messages to a final
/// (endorsed) or stalled end.
pub struct EpochState {
    epoch: EpochId,
    threshold: usize,
    representative: Option<TxFlowHash>,
    endorsers: Vec<ValidatorId>,
    phase: EpochPhase,
}

impl EpochState {
    /// The epoch this state belongs to.
    pub closed spec fn spec_epoch(&self) -> EpochId {
        self.epoch
    }

    /// How many distinct valid endorsements make the epoch final.
    pub closed spec fn spec_threshold(&self) -> usize {
        self.threshold
    }

    /// The selected representative's hash, once one is selected.
    pub closed spec fn spec_representative(&self) -> Option<TxFlowHash> {
        self.representative
    }

    /// The distinct validators whose endorsements have been counted, in
    /// arrival order.
    pub closed spec fn spec_endorsers(&self) -> Seq<ValidatorId> {
        self.endorsers@
    }

    /// The current phase.
    pub closed spec fn spec_phase(&self) -> EpochPhase {
        self.phase
    }

    /// State-machine invariant: counted endorsers are distinct, a
    /// representative exists from selection on, and the phase agrees with
    /// the count — below the threshold until `Endorsed`, which is entered
    /// exactly when the threshold is reached.
    pub closed spec fn wf(&self) -> bool {
        &&& self.threshold >= 1
        &&& self.endorsers@.no_duplicates()
        &&& (self.phase is Collecting ==> self.representative is None && self.endorsers@.len()
            == 0)
        &&& (self.phase is RepresentativeSelected ==> self.representative is Some
            && self.endorsers@.len() < self.threshold)
        &&& (self.phase is Endorsed ==> self.representative is Some && self.endorsers@.len()
            >= self.threshold)
        &&& (self.phase is Stalled ==> self.representative is Some && self.endorsers@.len()
            < self.threshold)
    }

    /// A fresh epoch in the collecting phase.
    pub fn new(epoch: EpochId, threshold: usize) -> (r: EpochState)
        requires
            threshold >= 1,
        ensures
            r.wf(),
            r.spec_epoch() == epoch,
            r.spec_threshold() == threshold,
            r.spec_representative() is None,
            r.spec_endorsers() == Seq::<ValidatorId>::empty(),
            r.spec_phase() is Collecting,
    {
        EpochState {
            epoch,
            threshold,
            representative: None,
            endorsers: Vec::new(),
            phase: EpochPhase::Collecting,
        }
    }

    /// The current phase.
    pub fn phase(&self) -> (r: EpochPhase)
        ensures
            r == self.spec_phase(),
    {
        self.phase
    }

    /// The selected representative's hash, once one is selected.
    pub fn representative(&self) -> (r: Option<TxFlowHash>)
        ensures
            r == self.spec_representative(),
    {
        self.representative
    }

    /// How many distinct valid endorsements have been counted.
    pub fn endorsement_count(&self) -> (r: usize)
        ensures
            r == self.spec_endorsers().len(),
    {
        self.endorsers.len()
    }

    /// Fix the representative for this epoch. Acts exactly once: only a
    /// collecting epoch takes a representative; any later call leaves the
    /// state unchanged and returns `false`.
    pub fn select_representative(&mut self, rep: TxFlowHash) -> (r: bool)
        requires
            old(self).wf(),
        ensures
            final(self).wf(),
            final(self).spec_epoch() == old(self).spec_epoch(),
            final(self).spec_threshold() == old(self).spec_threshold(),
            r == (old(self).spec_phase() is Collecting),
            old(self).spec_phase() is Collecting ==> {
                &&& final(self).spec_phase() is RepresentativeSelected
                &&& final(self).spec_representative() == Some(rep)
                &&& final(self).spec_endorsers() == old(self).spec_endorsers()
            },
            !(old(self).spec_phase() is Collecting) ==> *final(self) == *old(self),
    {
        match self.phase {
            EpochPhase::Collecting => {
                self.representative = Some(rep);
                self.phase = EpochPhase::RepresentativeSelected;
                true
            },
            _ => false,
        }
    }

    /// Whether `v` is already among the counted endorsers.
    fn has_endorser(&self, v: ValidatorId) -> (r: bool)
        ensures
            r == self.spec_endorsers().contains(v),
    {
        let n = self.endorsers.len();
        let mut i: usize = 0;
        while i < n
            invariant
                n == self.endorsers@.len(),
                0 <= i <= n,
                forall|k: int| 0 <= k < i ==> self.endorsers@[k] != v,
            decreases n - i,
        {
            if self.endorsers[i] == v {
                return true;
            }
            i += 1;
        }
        false
    }

    /// Supply one endorsement, verified against the endorser's key
    /// material. Counted — returns `true` — exactly when the epoch has a
    /// selected, not yet endorsed representative, the endorsement names
    /// this epoch and that representative, its signature share verifies,
    /// and its validator has not been counted before. The moment the
    /// threshold is reached the epoch becomes endorsed, once and finally.
    /// A failing signature share is reported as an invalid endorsement and
    /// excluded from the aggregate; nothing else is reported.
    pub fn supply_endorsement<R: MisbehaviorReporter>(
        &mut self,
        e: Endorsement,
        key: u64,
        reporter: &mut R,
    ) -> (r: bool)
        requires
            old(self).wf(),
        ensures
            final(self).wf(),
            final(self).spec_epoch() == old(self).spec_epoch(),
            final(self).spec_threshold() == old(self).spec_threshold(),
            final(self).spec_representative() == old(self).spec_representative(),
            r == {
                &&& old(self).spec_phase() is RepresentativeSelected
                &&& e.epoch == old(self).spec_epoch()
                &&& Some(e.target) == old(self).spec_representative()
                &&& spec_sig_matches(e.target, e.signature, key)
                &&& !old(self).spec_endorsers().contains(e.validator)
            },
            r ==> {
                &&& final(self).spec_endorsers() == old(self).spec_endorsers().push(e.validator)
                &&& final(self).spec_phase() == (if old(self).spec_endorsers().len() + 1
                    >= old(self).spec_threshold() {
                    EpochPhase::Endorsed
                } else {
                    EpochPhase::RepresentativeSelected
                })
            },
            !r ==> *final(self) == *old(self),
            final(reporter).log() == (if old(self).spec_phase() is RepresentativeSelected
                && e.epoch == old(self).spec_epoch() && Some(e.target) == old(
                self,
            ).spec_representative() && !spec_sig_matches(e.target, e.signature, key)
                && R::records() {
                old(reporter).log().push(
                    ViolationType::InvalidEndorsement(old(self).spec_representative()->0),
                )
            } else {
                old(reporter).log()
            }),
    {
        match self.phase {
            EpochPhase::RepresentativeSelected => {
                let rep = match self.representative {
                    Some(h) => h,
                    // wf: a selected epoch always has a representative.
                    None => unreached(),
                };
                if e.epoch != self.epoch || e.target != rep {
                    return false;
                }
                if !crate::signatures::sig_matches(e.target, e.signature, key) {
                    reporter.report(ViolationType::InvalidEndorsement(rep));
                    return false;
                }
                if self.has_endorser(e.validator) {
                    return false;
                }
                self.endorsers.push(e.validator);
                if self.endorsers.len() >= self.threshold {
                    self.phase = EpochPhase::Endorsed;
                }
                true
            },
            _ => false,
        }
    }

    /// Signal from the surrounding view-change logic that this epoch timed
    /// out. Acts only on a selected, not yet endorsed representative: the
    /// epoch becomes terminally stalled, and the missing endorsement is
    /// reported — once, since a stalled epoch never acts again.
    pub fn mark_stalled<R: MisbehaviorReporter>(&mut self, reporter: &mut R) -> (r: bool)
        requires
            old(self).wf(),
        ensures
            final(self).wf(),
            final(self).spec_epoch() == old(self).spec_epoch(),
            final(self).spec_threshold() == old(self).spec_threshold(),
            r == (old(self).spec_phase() is RepresentativeSelected),
            r ==> {
                &&& final(self).spec_phase() is Stalled
                &&& final(self).spec_representative() == old(self).spec_representative()
                &&& final(self).spec_endorsers() == old(self).spec_endorsers()
                &&& final(reporter).log() == (if R::records() {
                    old(reporter).log().push(
                        ViolationType::MissingEndorsement(old(self).spec_representative()->0),
                    )
                } else {
                    old(reporter).log()
                })
            },
            !r ==> *final(self) == *old(self) && final(reporter).log() == old(reporter).log(),
    {
        match self.phase {
            EpochPhase::RepresentativeSelected => {
                let rep = match self.representative {
                    Some(h) => h,
                    // wf: a selected epoch always has a representative.
                    None => unreached(),
                };
                self.phase = EpochPhase::Stalled;
                reporter.report(ViolationType::MissingEndorsement(rep));
                true
            },
            _ => false,
        }
    }
}

/// The selection policy's preference order over candidates, each a pair of
/// author and message hash: lexicographic, author first. Total, so the
/// minimum is unique as a value and the selection deterministic.
pub open spec fn sel_le(x: (ValidatorId, TxFlowHash), y: (ValidatorId, TxFlowHash)) -> bool {
    x.0 < y.0 || (x.0 == y.0 && x.1 <= y.1)
}

/// The deterministic representative selection policy: among the candidate
/// messages of an epoch, each given as (author, hash), pick the candidate
/// with the lexicographically smallest (author, hash) pair. Yields nothing
/// exactly when there is no candidate.
pub fn choose_representative(candidates: &Vec<(ValidatorId, TxFlowHash)>) -> (r: Option<
    (ValidatorId, TxFlowHash),
>)
    ensures
        (r is Some) == (candidates@.len() > 0),
        r is Some ==> candidates@.contains(r->0),
        r is Some ==> forall|i: int|
            0 <= i < candidates@.len() ==> sel_le(r->0, #[trigger] candidates@[i]),
{
    if candidates.len() == 0 {
        return None;
    }
    let mut best = candidates[0];
    let mut i: usize = 1;
    while i < candidates.len()
        invariant
            1 <= i <= candidates@.len(),
            candidates@.contains(best),
            forall|k: int| 0 <= k < i ==> sel_le(best, #[trigger] candidates@[k]),
        decreases candidates@.len() - i,
    {
        let c = candidates[i];
        if c.0 < best.0 || (c.0 == best.0 && c.1 < best.1) {
            best = c;
        }
        i += 1;
    }
    Some(best)
}

/// Select the representative of epoch `e` from the DAG's admitted messages
/// of that epoch: the engine consumes the store's candidates and applies
/// the deterministic policy. Yields nothing exactly when the epoch has no
/// admitted message yet.
pub fn select_epoch_representative(dag: &DagStore, e: EpochId) -> (r: Option<
    (ValidatorId, TxFlowHash),
>)
    requires
        dag.wf(),
    ensures
        (r is Some) == (epoch_candidates(dag@, e).len() > 0),
        r is Some ==> epoch_candidates(dag@, e).contains(r->0),
        r is Some ==> forall|i: int|
            0 <= i < epoch_candidates(dag@, e).len() ==> sel_le(
                r->0,
                #[trigger] epoch_candidates(dag@, e)[i],
            ),
{
    let candidates = dag.candidates_of_epoch(e);
    choose_representative(&candidates)
}

/// Endorsement threshold law: under the state-machine invariant, an epoch
/// is endorsed exactly when the counted endorsers reach the threshold; the
/// counted endorsers are pairwise distinct validators, so as a set they
/// number the same — duplicate endorsements from one validator can never
/// make up the threshold.
pub proof fn lemma_endorsement_threshold(st: &EpochState)
    requires
        st.wf(),
    ensures
        (st.spec_phase() is Endorsed) <==> st.spec_endorsers().len() >= st.spec_threshold(),
        st.spec_endorsers().no_duplicates(),
        st.spec_endorsers().to_set().len() == st.spec_endorsers().len(),
{
    st.spec_endorsers().unique_seq_to_set();
}

} // verus!
