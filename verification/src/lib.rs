//! Dynamic DNS reconciliation: resolve the caller's public address through a
//! chain of echo oracles and converge a provider's records on it.

pub mod cli;
pub mod model;
pub mod reconciler;
pub mod resolver;

pub use cli::{run, Args, Pass};
pub use model::{
    IpType, Outcome, ProviderRecord, ReconcileError, RecordRequest, ResolutionFailed,
    ResolvedAddress,
};
pub use reconciler::{conclude, decide, upsert, Step, Write};
pub use resolver::{resolve, Oracle, Query, Resolution};
