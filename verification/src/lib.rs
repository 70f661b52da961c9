//! Ephemeral, isolated PostgreSQL instances for automated tests, backed by a
//! container runtime.
//!
//! The library holds the logic of the launch protocol: building the runtime
//! commands, digesting their captured output, extracting the published
//! network endpoint from loosely formatted text, and sequencing the steps
//! that take a fresh container to a ready, connectable handle.  Spawning the
//! runtime's processes themselves is left to a thin unverified shell around
//! this crate, which feeds every captured output back in as plain bytes.

pub mod command;
pub mod endpoint;
pub mod laws;
pub mod lifecycle;
pub mod text;

pub use command::run_cmd;
pub use command::run_cmd_to_output;
pub use command::Error;
pub use endpoint::parse_first_endpoint;
pub use endpoint::Endpoint;
pub use lifecycle::LaunchAction;
pub use lifecycle::LaunchStep;
pub use lifecycle::Postgres;
