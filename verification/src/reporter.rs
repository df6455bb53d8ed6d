//! The misbehavior reporter: the sink that records classified protocol
//! violations detected during DAG ingestion. Two conforming variants share
//! one capability set: a recording variant backed by an ordered sequence,
//! and a discarding variant for deployments where violation auditing is
//! unnecessary. Callers are written against the capability set, never
//! against a concrete variant.

use vstd::prelude::*;
use crate::types::ViolationType;

verus! {

/// Capability set of a violation sink. `report` takes ownership of a
/// violation and never fails; `next` removes and returns the most recently
/// reported stored violation (LIFO), or nothing when the store is empty.
pub trait MisbehaviorReporter: Sized {
    /// The violations currently stored, in the order they were reported.
    spec fn log(&self) -> Seq<ViolationType>;

    /// Whether this variant stores what is reported to it.
    spec fn records() -> bool;

    fn new() -> (r: Self)
        ensures
            r.log() == Seq::<ViolationType>::empty(),
    ;

    fn report(&mut self, violation: ViolationType)
        ensures
            final(self).log() == (if Self::records() {
                old(self).log().push(violation)
            } else {
                old(self).log()
            }),
    ;

    fn next(&mut self) -> (r: Option<ViolationType>)
        ensures
            old(self).log().len() == 0 ==> {
                &&& r is None
                &&& final(self).log() == old(self).log()
            },
            old(self).log().len() > 0 ==> {
                &&& r == Some(old(self).log().last())
                &&& final(self).log() == old(self).log().drop_last()
            },
    ;
}

/// The recording reporter: stores every reported violation, duplicates and
/// implausible ones included; deduplication is a collaborator's concern.
#[derive(Debug)]
pub struct DAGMisbehaviorReporter {
    pub violations: Vec<ViolationType>,
}

impl MisbehaviorReporter for DAGMisbehaviorReporter {
    open spec fn log(&self) -> Seq<ViolationType> {
        self.violations@
    }

    open spec fn records() -> bool {
        true
    }

    fn new() -> (r: Self) {
        DAGMisbehaviorReporter { violations: Vec::new() }
    }

    fn report(&mut self, violation: ViolationType) {
        self.violations.push(violation);
    }

    fn next(&mut self) -> (r: Option<ViolationType>) {
        self.violations.pop()
    }
}

/// The discarding reporter: ignores everything reported to it.
pub struct NoopMisbehaviorReporter {
}

impl MisbehaviorReporter for NoopMisbehaviorReporter {
    open spec fn log(&self) -> Seq<ViolationType> {
        Seq::empty()
    }

    open spec fn records() -> bool {
        false
    }

    fn new() -> (r: Self) {
        NoopMisbehaviorReporter {}
    }

    fn report(&mut self, _violation: ViolationType) {
    }

    fn next(&mut self) -> (r: Option<ViolationType>) {
        None
    }
}

/// No-op law of the discarding reporter: it never stores anything, so
/// whatever sequence of `report` calls precedes it, every `next` call
/// finds an empty store and yields nothing.
pub proof fn lemma_noop_discards(n: &NoopMisbehaviorReporter)
    ensures
        n.log() == Seq::<ViolationType>::empty(),
        !NoopMisbehaviorReporter::records(),
{
}

/// The stored sequence after reporting each violation of `reports`, in
/// order, onto a recording store holding `s`.
pub open spec fn after_reports(s: Seq<ViolationType>, reports: Seq<ViolationType>) -> Seq<ViolationType>
    decreases reports.len(),
{
    if reports.len() == 0 {
        s
    } else {
        after_reports(s.push(reports[0]), reports.drop_first())
    }
}

/// The values returned by draining a recording store holding `s` with
/// repeated `next` calls until it is empty, in the order they come out.
pub open spec fn drain_order(s: Seq<ViolationType>) -> Seq<ViolationType>
    decreases s.len(),
{
    if s.len() == 0 {
        Seq::empty()
    } else {
        seq![s.last()] + drain_order(s.drop_last())
    }
}

/// Reporting a sequence of violations appends it to the store.
pub proof fn lemma_after_reports_appends(s: Seq<ViolationType>, reports: Seq<ViolationType>)
    ensures
        after_reports(s, reports) == s + reports,
    decreases reports.len(),
{
    if reports.len() == 0 {
        assert(after_reports(s, reports) == s);
        assert(s + reports == s);
    } else {
        lemma_after_reports_appends(s.push(reports[0]), reports.drop_first());
        assert(s.push(reports[0]) + reports.drop_first() == s + reports);
    }
}

/// Draining a store returns its contents most-recent-first.
pub proof fn lemma_drain_order_reverses(s: Seq<ViolationType>)
    ensures
        drain_order(s) == s.reverse(),
    decreases s.len(),
{
    if s.len() == 0 {
        assert(s.reverse() == Seq::<ViolationType>::empty());
    } else {
        lemma_drain_order_reverses(s.drop_last());
        assert(seq![s.last()] + s.drop_last().reverse() =~= s.reverse());
    }
}

/// LIFO law of the recording reporter: reporting violations
/// `v1, v2, ..., vn` in order onto an empty store and then draining it with
/// `next` yields `vn, ..., v1`; after those `n` values the store is empty,
/// so one more `next` yields nothing.
pub proof fn lemma_reporter_lifo(reports: Seq<ViolationType>)
    ensures
        after_reports(Seq::empty(), reports) == reports,
        drain_order(reports) == reports.reverse(),
        drain_order(reports).len() == reports.len(),
{
    lemma_after_reports_appends(Seq::empty(), reports);
    assert(Seq::<ViolationType>::empty() + reports =~= reports);
    lemma_drain_order_reverses(reports);
}

} // verus!
