//! The data model of the consensus core: hashes, identifiers, messages,
//! endorsements, network packages, admission errors and classified
//! protocol violations.

use vstd::prelude::*;

verus! {

/// Content-addressing identifier of a message; equality is value equality.
pub type TxFlowHash = u64;

/// A monotonically increasing logical round boundary.
pub type EpochId = u64;

/// Identifier of a validator (a message author or endorser).
pub type ValidatorId = u64;

/// A DAG node: immutable once admitted. Every parent hash must already be
/// present in the store before the message is admitted.
#[derive(Debug)]
pub struct Message {
    pub hash: TxFlowHash,
    pub epoch: EpochId,
    pub author: ValidatorId,
    pub parents: Vec<TxFlowHash>,
    pub payload: Vec<u8>,
    pub signature: u64,
}

/// A validator's attestation over a representative message's hash for a
/// given epoch. Meaningful only when `epoch` and `target` match the
/// representative it is supplied to.
#[derive(Clone, Copy, Debug, PartialEq, Eq, Structural)]
pub struct Endorsement {
    pub epoch: EpochId,
    pub target: TxFlowHash,
    pub validator: ValidatorId,
    pub signature: u64,
}

/// The network-level envelope carried through the proxy chain: an opaque
/// payload plus routing metadata.
#[derive(Clone, Debug, PartialEq, Eq)]
pub struct Package {
    pub source: u64,
    pub destination: u64,
    pub body: Vec<u8>,
}

/// The mathematical value of a `Package`.
pub ghost struct PackageModel {
    pub source: u64,
    pub destination: u64,
    pub body: Seq<u8>,
}

impl Package {
    pub open spec fn model(self) -> PackageModel {
        PackageModel { source: self.source, destination: self.destination, body: self.body@ }
    }
}

/// The models of a sequence of packages, in order.
pub open spec fn package_models(s: Seq<Package>) -> Seq<PackageModel> {
    s.map_values(|p: Package| p.model())
}

/// Classified protocol violations, each carrying the evidence (one or two
/// message hashes) needed to audit the fault.
#[derive(Clone, Copy, Debug, PartialEq, Eq, Structural)]
pub enum ViolationType {
    /// Message epoch inconsistent with its DAG position (smaller than a
    /// parent's epoch).
    BadEpoch(TxFlowHash),
    /// A representative lacks a required endorsement.
    MissingEndorsement(TxFlowHash),
    /// An endorsement's signature share fails verification.
    InvalidEndorsement(TxFlowHash),
    /// Two messages from the same author with no ancestor relationship
    /// between them; the first hash is the earlier admitted message.
    ForkAttempt(TxFlowHash, TxFlowHash),
    /// Message signature does not verify against the claimed author's key.
    InvalidSignature(TxFlowHash),
}

/// Structural admission failures: local-node bookkeeping errors, surfaced to
/// the caller and never added to the misbehavior reporter by themselves.
#[derive(Clone, Copy, Debug, PartialEq, Eq, Structural)]
pub enum AdmissionError {
    /// A message with this hash is already stored.
    DuplicateHash,
    /// Some parent hash is absent from the store.
    UnknownParent,
    /// The signature does not verify against the claimed author's key.
    InvalidSignature,
}

} // verus!
