//! The identity and signature verifier: a stateless, pure check that a
//! message's signature matches its claimed author's key material. The
//! admission path is the only consumer; the concrete matching rule is kept
//! deliberately simple (a key-derived authentication code over the content
//! hash) and lives in this one module so a deployment can swap it.

use vstd::prelude::*;
use crate::types::Message;

verus! {

/// Whether `signature` authenticates content hash `hash` under `key`.
pub open spec fn spec_sig_matches(hash: u64, signature: u64, key: u64) -> bool {
    signature == hash ^ key
}

/// Produce the signature over content hash `hash` under `key`.
pub fn sign(hash: u64, key: u64) -> (r: u64)
    ensures
        spec_sig_matches(hash, r, key),
{
    hash ^ key
}

/// Check a signature share over `hash` against the endorser's key.
pub fn sig_matches(hash: u64, signature: u64, key: u64) -> (r: bool)
    ensures
        r == spec_sig_matches(hash, signature, key),
{
    signature == hash ^ key
}

/// Check a message's signature against its author's key.
pub fn verify(msg: &Message, key: u64) -> (r: bool)
    ensures
        r == spec_sig_matches(msg.hash, msg.signature, key),
{
    msg.signature == msg.hash ^ key
}

} // verus!
