//! Fleet inventory and policy enforcement: agents report machine state to a
//! collector, which keeps a reconciled view of the fleet and answers with the
//! policies each agent enforces locally.
//!
//! Collector side:
//! - `store`: the fleet state, keyed by each agent's stable machine identity.
//! - `report`: the report an agent submits, and what a stored row must hold for it.
//! - `reconcile`: applying one report (upsert, full replace, retention, history).
//! - `policy`: which policies reach which machine.
//! - `admin`: policy administration, each change recorded in the audit log.
//! - `credentials`: issuing and validating bearer credentials, stored as digests.
//! - `transport`: admission control in front of reconciliation.
//! - `fleet`, `snapshot`: read-only queries for the presentation layer.
//!
//! Agent side:
//! - `enforce`: which processes to terminate, and what each termination records.
//! - `hosts`: the managed section of the hosts file.
//! - `probe`: hardware, network and security facts read from query outputs.
//! - `screen_time`: foreground time per application.
//! - `software`: the installed-program list, sorted with one entry per name.
//! - `agent`: settings, identity and the decision after each submission.
//!
//! Shared: `model` (data types), `text` (character-level helpers),
//! `compliance` (compliance controls).

pub mod text;
pub mod model;
pub mod policy;
pub mod report;
pub mod store;
pub mod reconcile;
pub mod admin;
pub mod credentials;
pub mod transport;
pub mod enforce;
pub mod hosts;
pub mod compliance;
pub mod probe;
pub mod fleet;
pub mod screen_time;
pub mod agent;
pub mod software;
pub mod snapshot;
