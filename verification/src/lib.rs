//! Consensus core of a DAG-based agreement protocol: signed messages form a
//! directed acyclic graph, each epoch elects a representative message whose
//! finality is decided by threshold endorsements, and protocol violations
//! observed during ingestion are classified and handed to a misbehavior
//! reporter. A composable proxy chain of stream transformers sits between the
//! transport and the admission path.

pub mod types;
pub mod reporter;
pub mod signatures;
pub mod dag;
pub mod epoch;
pub mod proxy;
