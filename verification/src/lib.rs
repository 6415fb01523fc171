//! Task orchestration and autonomy-gating engine.
//!
//! The crate turns declarative schedules, event triggers and manual requests
//! into units of work, while enforcing a risk-based human-approval policy
//! before autonomous actions run.  The pieces are:
//!
//! * [`tasks`] — task state machine, risk classification and the approval
//!   matrix;
//! * [`timepoint`] — civil time at minute resolution, the unit the due-time
//!   engine works in;
//! * [`cron`] — canonical five-field cron expressions: parsing, rendering
//!   and matching;
//! * [`scheduler`] — the natural-language schedule translator and the
//!   due-time engine;
//! * [`triggers`] — event triggers and their condition language;
//! * [`database`] — the store that owns all durable state;
//! * [`manager`] — the task lifecycle manager where the components converge;
//! * [`credentials`] — credential requirements for tools;
//! * [`payload`] — structured string-keyed payloads;
//! * [`strutil`] — verified string primitives;
//! * [`external`] — the trusted declarations for the outside crates.

pub mod credentials;
pub mod cron;
pub mod database;
pub mod external;
pub mod manager;
pub mod payload;
pub mod scheduler;
pub mod strutil;
pub mod tasks;
pub mod timepoint;
pub mod triggers;

pub use tasks::{RiskLevel, TaskStatus};
