//! The network proxy chain: composable stream transformers sitting between
//! the raw transport and DAG ingestion. A stage maps a stream of packages
//! to a stream of packages; stages compose by feeding one stage's output to
//! the next, and a chain of stages has the same shape as a single stage, so
//! chains compose into larger chains transparently. The diagnostic stage
//! logs every package it observes, one line each, and forwards it
//! unchanged.

use std::io::Write;
use vstd::prelude::*;
use crate::types::{Package, PackageModel, package_models};

verus! {

/// A proxy stage: a transformer from a package stream to a package stream.
/// `stage_model` is the stage's whole observable behaviour on a burst of
/// packages; `pipe_stream` must realise exactly it. A stage may forward,
/// transform, reorder or drop packages — whatever its model says.
pub trait ProxyHandler: Sized {
    /// What the stage does, as a function on the models of the packages.
    spec fn stage_model(&self, input: Seq<PackageModel>) -> Seq<PackageModel>;

    /// Transform one burst of in-flight packages. The pull-based transport
    /// loop feeds bursts through here as they arrive.
    fn pipe_stream(&self, input: Vec<Package>) -> (out: Vec<Package>)
        ensures
            package_models(out@) == self.stage_model(package_models(input@)),
    ;
}

/// The diagnostic stage: logs every observed package, one human-readable
/// line each, and forwards it unchanged — protocol debugging that never
/// alters behaviour.
pub struct DebugHandler {
}

impl DebugHandler {
    pub fn new() -> (r: DebugHandler) {
        DebugHandler {}
    }

    /// Observe one package: log it and pass on an identical one.
    pub fn handle(&self, package: &Package) -> (r: Package)
        ensures
            r.model() == package.model(),
    {
        log_package(package);
        Package {
            source: package.source,
            destination: package.destination,
            body: clone_bytes(&package.body),
        }
    }
}

impl ProxyHandler for DebugHandler {
    /// Pure observation: the stream passes through identically.
    open spec fn stage_model(&self, input: Seq<PackageModel>) -> Seq<PackageModel> {
        input
    }

    fn pipe_stream(&self, input: Vec<Package>) -> (out: Vec<Package>) {
        let mut out: Vec<Package> = Vec::new();
        let n = input.len();
        let mut i: usize = 0;
        while i < n
            invariant
                n == input@.len(),
                0 <= i <= n,
                out@.len() == i,
                forall|k: int| 0 <= k < i ==> (#[trigger] out@[k]).model() == input@[k].model(),
            decreases n - i,
        {
            let forwarded = self.handle(&input[i]);
            out.push(forwarded);
            i += 1;
        }
        proof {
            assert(package_models(out@) =~= package_models(input@));
        }
        out
    }
}

/// Two stages in a fixed order, itself a stage: the output stream of
/// `first` is the input stream of `second`. Chains therefore nest, and a
/// chain of chains needs no type of its own.
pub struct ChainHandler<A: ProxyHandler, B: ProxyHandler> {
    pub first: A,
    pub second: B,
}

impl<A: ProxyHandler, B: ProxyHandler> ChainHandler<A, B> {
    pub fn new(first: A, second: B) -> (r: ChainHandler<A, B>)
        ensures
            r.first == first,
            r.second == second,
    {
        ChainHandler { first, second }
    }
}

impl<A: ProxyHandler, B: ProxyHandler> ProxyHandler for ChainHandler<A, B> {
    /// Composition of the stages' behaviours, in stage order.
    open spec fn stage_model(&self, input: Seq<PackageModel>) -> Seq<PackageModel> {
        self.second.stage_model(self.first.stage_model(input))
    }

    fn pipe_stream(&self, input: Vec<Package>) -> (out: Vec<Package>) {
        let mid = self.first.pipe_stream(input);
        self.second.pipe_stream(mid)
    }
}

/// The packages of `s` that are not addressed to `destination`, in order:
/// what a blackhole stage for that destination lets through.
pub open spec fn surviving(s: Seq<PackageModel>, destination: u64) -> Seq<PackageModel>
    decreases s.len(),
{
    if s.len() == 0 {
        Seq::empty()
    } else {
        let prefix = surviving(s.drop_last(), destination);
        if s.last().destination == destination {
            prefix
        } else {
            prefix.push(s.last())
        }
    }
}

/// A fault-injection stage simulating message loss: every package
/// addressed to the configured destination is deliberately dropped; all
/// other packages pass through unchanged, in order.
pub struct BlackholeHandler {
    pub destination: u64,
}

impl BlackholeHandler {
    pub fn new(destination: u64) -> (r: BlackholeHandler)
        ensures
            r.destination == destination,
    {
        BlackholeHandler { destination }
    }
}

impl ProxyHandler for BlackholeHandler {
    /// Drop what is addressed to the blackholed destination, keep the rest.
    open spec fn stage_model(&self, input: Seq<PackageModel>) -> Seq<PackageModel> {
        surviving(input, self.destination)
    }

    #[verifier::loop_isolation(false)]
    fn pipe_stream(&self, input: Vec<Package>) -> (out: Vec<Package>) {
        let mut out: Vec<Package> = Vec::new();
        let n = input.len();
        let mut i: usize = 0;
        while i < n
            invariant
                0 <= i <= n,
                package_models(out@) == surviving(
                    package_models(input@.take(i as int)),
                    self.destination,
                ),
            decreases n - i,
        {
            let ghost prev = package_models(input@.take(i as int));
            let ghost cur = package_models(input@.take(i as int + 1));
            proof {
                assert(cur.drop_last() =~= prev);
                assert(cur.last() == input@[i as int].model());
            }
            if input[i].destination != self.destination {
                let ghost out_before = out@;
                let forwarded = Package {
                    source: input[i].source,
                    destination: input[i].destination,
                    body: clone_bytes(&input[i].body),
                };
                out.push(forwarded);
                proof {
                    assert(package_models(out@) =~= package_models(out_before).push(
                        forwarded.model(),
                    ));
                    assert(package_models(out@) == surviving(cur, self.destination));
                }
            } else {
                proof {
                    assert(package_models(out@) == surviving(cur, self.destination));
                }
            }
            i += 1;
        }
        proof {
            assert(input@.take(n as int) =~= input@);
        }
        out
    }
}

/// An exact copy of a byte payload.
fn clone_bytes(v: &Vec<u8>) -> (r: Vec<u8>)
    ensures
        r@ == v@,
{
    let mut r: Vec<u8> = Vec::new();
    let n = v.len();
    let mut i: usize = 0;
    while i < n
        invariant
            n == v@.len(),
            0 <= i <= n,
            r@ == v@.take(i as int),
        decreases n - i,
    {
        r.push(v[i]);
        proof {
            assert(v@.take(i as int).push(v@[i as int]) =~= v@.take(i as int + 1));
        }
        i += 1;
    }
    proof {
        assert(v@.take(n as int) =~= v@);
    }
    r
}

/// Relies on std::io::Stdout::write_fmt, reached through `writeln!`: emits
/// one human-readable line for the observed package. Diagnostic output
/// only; a write failure is ignored, so logging can never fail the stage.
#[verifier::external_body]
fn log_package(package: &Package) {
    let mut out = std::io::stdout();
    let _ = writeln!(out, "{:?}", package);
}

} // verus!
