use vstd::prelude::*;

verus! {

/// Why a store operation was refused. No variant is ever produced after a
/// partial mutation: an operation that fails leaves the store unchanged.
#[derive(Debug, Clone, Copy, PartialEq, Eq, Structural)]
pub enum StoreError {
    /// A goal with the given ID already exists.
    GoalExists,
    /// A task with the given ID already exists.
    TaskExists,
    /// The referenced goal ID has no record.
    GoalNotFound,
    /// The referenced task ID has no record.
    TaskNotFound,
    /// An entry of `blocked_by` names no task of the same goal.
    BlockerNotFound,
    /// The task has no contract, which starting requires.
    MissingContract,
    /// The task still has unsatisfied blockers.
    TaskBlocked,
    /// The expected-state guard of a transition did not match the record's
    /// current state; the state may have been changed by a concurrent
    /// invocation.
    WrongState,
}

} // verus!
