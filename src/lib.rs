//! Migration runner for SQL scripts kept in an object-storage bucket.
//!
//! The library decides everything about a run: which keys are migrations,
//! in which order they are applied, which are skipped and when a run stops.
//! The listing, fetching and SQL execution themselves are performed by the
//! caller, who feeds their outcomes back as events.

pub mod keys;
pub mod migration;
pub mod run;

pub use keys::{select_down, select_up};
pub use migration::Migration;
pub use run::{Action, Direction, Event, MigrationRun, Phase, RawSql, RunError};
