use vstd::prelude::*;

use crate::metrics::Metrics;
use crate::state::GoalState;

verus! {

/// The view of an optional string: the contents, if present.
pub open spec fn opt_string_view(o: Option<String>) -> Option<Seq<char>> {
    match o {
        Option::Some(s) => Option::Some(s@),
        Option::None => Option::None,
    }
}

/// The view of an optional millisecond timestamp.
pub open spec fn opt_time_view(o: Option<i64>) -> Option<int> {
    match o {
        Option::Some(t) => Option::Some(t as int),
        Option::None => Option::None,
    }
}

/// The contents of a goal record.
pub ghost struct GoalView {
    pub id: Seq<char>,
    pub parent_id: Option<Seq<char>>,
    pub description: Seq<char>,
    pub state: GoalState,
    pub created_at: int,
    pub updated_at: int,
    pub completed_at: Option<int>,
    pub metrics: Metrics,
}

/// A top-level objective containing zero or more tasks.
/// Timestamps are milliseconds since the epoch.
pub struct Goal {
    pub id: String,
    pub parent_id: Option<String>,
    pub description: String,
    pub state: GoalState,
    pub created_at: i64,
    pub updated_at: i64,
    pub completed_at: Option<i64>,
    pub metrics: Metrics,
}

impl View for Goal {
    type V = GoalView;

    open spec fn view(&self) -> GoalView {
        GoalView {
            id: self.id@,
            parent_id: opt_string_view(self.parent_id),
            description: self.description@,
            state: self.state,
            created_at: self.created_at as int,
            updated_at: self.updated_at as int,
            completed_at: opt_time_view(self.completed_at),
            metrics: self.metrics,
        }
    }
}

impl Clone for Goal {
    fn clone(&self) -> (r: Self)
        ensures
            r@ == self@,
    {
        Goal {
            id: self.id.clone(),
            parent_id: match &self.parent_id {
                Option::Some(p) => Option::Some(p.clone()),
                Option::None => Option::None,
            },
            description: self.description.clone(),
            state: self.state,
            created_at: self.created_at,
            updated_at: self.updated_at,
            completed_at: self.completed_at,
            metrics: self.metrics,
        }
    }
}

impl GoalView {
    /// A well-formed goal carries a completion time exactly when it is
    /// completed.
    pub open spec fn wf(self) -> bool {
        self.completed_at is Some <==> self.state == GoalState::Completed
    }
}

impl Goal {
    pub fn new(
        id: String,
        parent_id: Option<String>,
        description: String,
        state: GoalState,
        created_at: i64,
        updated_at: i64,
        completed_at: Option<i64>,
        metrics: Metrics,
    ) -> (r: Self)
        ensures
            r@ == (GoalView {
                id: id@,
                parent_id: opt_string_view(parent_id),
                description: description@,
                state,
                created_at: created_at as int,
                updated_at: updated_at as int,
                completed_at: opt_time_view(completed_at),
                metrics,
            }),
    {
        Goal { id, parent_id, description, state, created_at, updated_at, completed_at, metrics }
    }

    pub fn id(&self) -> (r: &str)
        ensures
            r@ == self@.id,
    {
        self.id.as_str()
    }

    pub fn parent_id(&self) -> (r: Option<&str>)
        ensures
            match r {
                Option::Some(p) => self@.parent_id == Option::Some(p@),
                Option::None => self@.parent_id is None,
            },
    {
        match &self.parent_id {
            Option::Some(p) => Option::Some(p.as_str()),
            Option::None => Option::None,
        }
    }

    pub fn description(&self) -> (r: &str)
        ensures
            r@ == self@.description,
    {
        self.description.as_str()
    }

    pub fn state(&self) -> (r: GoalState)
        ensures
            r == self@.state,
    {
        self.state
    }

    pub fn created_at(&self) -> (r: i64)
        ensures
            r as int == self@.created_at,
    {
        self.created_at
    }

    pub fn updated_at(&self) -> (r: i64)
        ensures
            r as int == self@.updated_at,
    {
        self.updated_at
    }

    pub fn completed_at(&self) -> (r: Option<i64>)
        ensures
            opt_time_view(r) == self@.completed_at,
    {
        self.completed_at
    }

    pub fn metrics(&self) -> (r: &Metrics)
        ensures
            *r == self@.metrics,
    {
        &self.metrics
    }

    /// Refresh the update timestamp without changing any other field.
    pub fn touch(&mut self, now_ms: i64)
        ensures
            final(self)@ == (GoalView { updated_at: now_ms as int, ..old(self)@ }),
    {
        self.updated_at = now_ms;
    }

    /// Enter InProgress, as happens when the goal's first task is created.
    pub fn mark_in_progress(&mut self, now_ms: i64)
        ensures
            final(self)@ == (GoalView {
                state: GoalState::InProgress,
                updated_at: now_ms as int,
                ..old(self)@
            }),
    {
        self.state = GoalState::InProgress;
        self.updated_at = now_ms;
    }

    /// Enter Completed; records the completion time.
    pub fn mark_completed(&mut self, now_ms: i64)
        ensures
            final(self)@ == (GoalView {
                state: GoalState::Completed,
                updated_at: now_ms as int,
                completed_at: Option::Some(now_ms as int),
                ..old(self)@
            }),
            final(self)@.wf(),
    {
        self.state = GoalState::Completed;
        self.updated_at = now_ms;
        self.completed_at = Option::Some(now_ms);
    }

    /// Enter Failed.
    pub fn mark_failed(&mut self, now_ms: i64)
        ensures
            final(self)@ == (GoalView {
                state: GoalState::Failed,
                updated_at: now_ms as int,
                ..old(self)@
            }),
    {
        self.state = GoalState::Failed;
        self.updated_at = now_ms;
    }
}

} // verus!
