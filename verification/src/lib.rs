//! A file-backed record store for a small project-management domain:
//! goals decomposed into tasks with explicit dependencies.
//!
//! The library owns the in-memory arena of goal and task records, the
//! task and goal state machines with their compare-and-swap transition
//! guards, the dependency resolver that unblocks downstream tasks when a
//! blocker completes, and the text codec that persists single records.
//! File and terminal I/O live outside the library; callers hand in the
//! current time and freshly generated identifiers, and persist the
//! records that each operation returns.

pub mod codec;
pub mod comment;
pub mod contract;
pub mod db;
pub mod errors;
pub mod goal;
pub mod goal_ops;
pub mod helpers;
pub mod laws;
pub mod metrics;
pub mod outcome;
pub mod ready;
pub mod state;
pub mod status;
pub mod task;
pub mod task_ops;
pub mod text;

pub use comment::Comment;
pub use contract::Contract;
pub use db::Database;
pub use errors::StoreError;
pub use goal::Goal;
pub use metrics::Metrics;
pub use metrics::TaskMetrics;
pub use outcome::Outcome;
pub use state::GoalState;
pub use state::TaskState;
pub use status::GoalStatus;
pub use status::GoalSummary;
pub use status::StatusResult;
pub use task::Task;
pub use task_ops::CompleteResult;
