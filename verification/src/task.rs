use vstd::prelude::*;

use crate::comment::clone_comments;
use crate::comment::comments_view;
use crate::comment::Comment;
use crate::comment::CommentView;
use crate::contract::Contract;
use crate::contract::ContractView;
use crate::goal::opt_time_view;
use crate::metrics::TaskMetrics;
use crate::outcome::clone_strings;
use crate::outcome::strings_view;
use crate::outcome::Outcome;
use crate::outcome::OutcomeView;
use crate::state::TaskState;

verus! {

/// The view of an optional contract.
pub open spec fn opt_contract_view(o: Option<Contract>) -> Option<ContractView> {
    match o {
        Option::Some(c) => Option::Some(c@),
        Option::None => Option::None,
    }
}

/// The view of an optional outcome.
pub open spec fn opt_outcome_view(o: Option<Outcome>) -> Option<OutcomeView> {
    match o {
        Option::Some(v) => Option::Some(v@),
        Option::None => Option::None,
    }
}

/// The contents of a task record.
pub ghost struct TaskView {
    pub id: Seq<char>,
    pub goal_id: Seq<char>,
    pub description: Seq<char>,
    pub contract: Option<ContractView>,
    pub state: TaskState,
    pub blocked_by: Seq<Seq<char>>,
    pub result: Option<OutcomeView>,
    pub created_at: int,
    pub updated_at: int,
    pub completed_at: Option<int>,
    pub metrics: TaskMetrics,
    pub comments: Seq<CommentView>,
}

/// A unit of work under one goal, with an optional contract and an
/// ordered list of blocking task IDs fixed at creation.
/// Timestamps are milliseconds since the epoch.
pub struct Task {
    pub id: String,
    pub goal_id: String,
    pub description: String,
    pub contract: Option<Contract>,
    pub state: TaskState,
    pub blocked_by: Vec<String>,
    pub result: Option<Outcome>,
    pub created_at: i64,
    pub updated_at: i64,
    pub completed_at: Option<i64>,
    pub metrics: TaskMetrics,
    pub comments: Vec<Comment>,
}

impl View for Task {
    type V = TaskView;

    open spec fn view(&self) -> TaskView {
        TaskView {
            id: self.id@,
            goal_id: self.goal_id@,
            description: self.description@,
            contract: opt_contract_view(self.contract),
            state: self.state,
            blocked_by: strings_view(self.blocked_by@),
            result: opt_outcome_view(self.result),
            created_at: self.created_at as int,
            updated_at: self.updated_at as int,
            completed_at: opt_time_view(self.completed_at),
            metrics: self.metrics,
            comments: comments_view(self.comments@),
        }
    }
}

impl Clone for Task {
    fn clone(&self) -> (r: Self)
        ensures
            r@ == self@,
    {
        let r = Task {
            id: self.id.clone(),
            goal_id: self.goal_id.clone(),
            description: self.description.clone(),
            contract: match &self.contract {
                Option::Some(c) => Option::Some(c.clone()),
                Option::None => Option::None,
            },
            state: self.state,
            blocked_by: clone_strings(&self.blocked_by),
            result: match &self.result {
                Option::Some(o) => Option::Some(o.clone()),
                Option::None => Option::None,
            },
            created_at: self.created_at,
            updated_at: self.updated_at,
            completed_at: self.completed_at,
            metrics: self.metrics,
            comments: clone_comments(&self.comments),
        };
        assert(r@ == self@);
        r
    }
}

impl Task {
    pub fn new(
        id: String,
        goal_id: String,
        description: String,
        contract: Option<Contract>,
        state: TaskState,
        blocked_by: Vec<String>,
        created_at: i64,
        updated_at: i64,
    ) -> (r: Self)
        ensures
            r@ == (TaskView {
                id: id@,
                goal_id: goal_id@,
                description: description@,
                contract: opt_contract_view(contract),
                state,
                blocked_by: strings_view(blocked_by@),
                result: Option::None,
                created_at: created_at as int,
                updated_at: updated_at as int,
                completed_at: Option::None,
                metrics: TaskMetrics { tokens: 0i64, elapsed_ms: 0i64, retry_count: 0i64 },
                comments: Seq::empty(),
            }),
    {
        let r = Task {
            id,
            goal_id,
            description,
            contract,
            state,
            blocked_by,
            result: Option::None,
            created_at,
            updated_at,
            completed_at: Option::None,
            metrics: TaskMetrics::zero(),
            comments: Vec::new(),
        };
        assert(comments_view(r.comments@) =~= Seq::<CommentView>::empty());
        r
    }

    /// Replace the task's metrics, keeping every other field.
    pub fn with_metrics(self, metrics: TaskMetrics) -> (r: Self)
        ensures
            r@ == (TaskView { metrics, ..self@ }),
    {
        Task { metrics, ..self }
    }

    pub fn id(&self) -> (r: &str)
        ensures
            r@ == self@.id,
    {
        self.id.as_str()
    }

    pub fn goal_id(&self) -> (r: &str)
        ensures
            r@ == self@.goal_id,
    {
        self.goal_id.as_str()
    }

    pub fn description(&self) -> (r: &str)
        ensures
            r@ == self@.description,
    {
        self.description.as_str()
    }

    pub fn contract(&self) -> (r: Option<&Contract>)
        ensures
            match r {
                Option::Some(c) => self@.contract == Option::Some(c@),
                Option::None => self@.contract is None,
            },
    {
        match &self.contract {
            Option::Some(c) => Option::Some(c),
            Option::None => Option::None,
        }
    }

    pub fn state(&self) -> (r: TaskState)
        ensures
            r == self@.state,
    {
        self.state
    }

    pub fn blocked_by(&self) -> (r: &Vec<String>)
        ensures
            strings_view(r@) == self@.blocked_by,
    {
        &self.blocked_by
    }

    pub fn result(&self) -> (r: Option<&Outcome>)
        ensures
            match r {
                Option::Some(o) => self@.result == Option::Some(o@),
                Option::None => self@.result is None,
            },
    {
        match &self.result {
            Option::Some(o) => Option::Some(o),
            Option::None => Option::None,
        }
    }

    pub fn created_at(&self) -> (r: i64)
        ensures
            r as int == self@.created_at,
    {
        self.created_at
    }

    pub fn updated_at(&self) -> (r: i64)
        ensures
            r as int == self@.updated_at,
    {
        self.updated_at
    }

    pub fn completed_at(&self) -> (r: Option<i64>)
        ensures
            opt_time_view(r) == self@.completed_at,
    {
        self.completed_at
    }

    pub fn metrics(&self) -> (r: &TaskMetrics)
        ensures
            *r == self@.metrics,
    {
        &self.metrics
    }

    pub fn comments(&self) -> (r: &Vec<Comment>)
        ensures
            comments_view(r@) == self@.comments,
    {
        &self.comments
    }

    /// Move from `from` to `to` exactly when the current state equals
    /// `from`; a mismatch leaves the task untouched.
    pub fn transition(&mut self, from: TaskState, to: TaskState, now_ms: i64) -> (r: bool)
        ensures
            r == (old(self)@.state == from),
            r ==> final(self)@ == (TaskView { state: to, updated_at: now_ms as int, ..old(self)@ }),
            !r ==> final(self)@ == old(self)@,
    {
        if !(self.state == from) {
            return false;
        }
        self.state = to;
        self.updated_at = now_ms;
        true
    }

    /// Move to `to` exactly when the current state is one of `from`;
    /// a mismatch leaves the task untouched.
    pub fn transition_from_any(&mut self, from: &Vec<TaskState>, to: TaskState, now_ms: i64) -> (r:
        bool)
        ensures
            r == from@.contains(old(self)@.state),
            r ==> final(self)@ == (TaskView { state: to, updated_at: now_ms as int, ..old(self)@ }),
            !r ==> final(self)@ == old(self)@,
    {
        let mut found = false;
        let mut i: usize = 0;
        while i < from.len()
            invariant
                i <= from.len(),
                found == from@.take(i as int).contains(self@.state),
                self == old(self),
            decreases from.len() - i,
        {
            if self.state == from[i] {
                found = true;
            }
            proof {
                assert(from@.take(i as int + 1).drop_last() =~= from@.take(i as int));
                assert(from@.take(i as int + 1).last() == from@[i as int]);
                if from@.take(i as int + 1).contains(self@.state)
                    && from@[i as int] != self@.state {
                    assert(from@.take(i as int).contains(self@.state));
                }
                if from@.take(i as int).contains(self@.state) {
                    assert(from@.take(i as int + 1).contains(self@.state));
                }
                if from@[i as int] == self@.state {
                    assert(from@.take(i as int + 1)[i as int] == self@.state);
                    assert(from@.take(i as int + 1).contains(self@.state));
                }
            }
            i = i + 1;
        }
        proof {
            assert(from@.take(from@.len() as int) =~= from@);
        }
        if !found {
            return false;
        }
        self.state = to;
        self.updated_at = now_ms;
        true
    }

    /// Complete an InProgress task: records the outcome, overwrites the
    /// token and elapsed-time metrics while keeping the retry count, and
    /// stamps the completion time. Any other state is left untouched.
    pub fn complete(&mut self, outcome: Outcome, tokens: i64, elapsed_ms: i64, now_ms: i64) -> (r:
        bool)
        ensures
            r == (old(self)@.state == TaskState::InProgress),
            r ==> final(self)@ == (TaskView {
                state: TaskState::Completed,
                result: Option::Some(outcome@),
                metrics: TaskMetrics {
                    tokens,
                    elapsed_ms,
                    retry_count: old(self)@.metrics.retry_count,
                },
                updated_at: now_ms as int,
                completed_at: Option::Some(now_ms as int),
                ..old(self)@
            }),
            !r ==> final(self)@ == old(self)@,
    {
        if !(self.state == TaskState::InProgress) {
            return false;
        }
        self.state = TaskState::Completed;
        self.result = Option::Some(outcome);
        self.metrics = TaskMetrics::new(tokens, elapsed_ms, self.metrics.retry_count);
        self.updated_at = now_ms;
        self.completed_at = Option::Some(now_ms);
        true
    }

    /// Retry a Failed task: back to InProgress with the retry counter
    /// bumped. Any other state is left untouched.
    pub fn retry(&mut self, now_ms: i64) -> (r: bool)
        requires
            old(self)@.metrics.retry_count < i64::MAX,
        ensures
            r == (old(self)@.state == TaskState::Failed),
            r ==> final(self)@ == (TaskView {
                state: TaskState::InProgress,
                metrics: TaskMetrics {
                    retry_count: (old(self)@.metrics.retry_count + 1) as i64,
                    ..old(self)@.metrics
                },
                updated_at: now_ms as int,
                ..old(self)@
            }),
            !r ==> final(self)@ == old(self)@,
    {
        if !(self.state == TaskState::Failed) {
            return false;
        }
        self.state = TaskState::InProgress;
        self.metrics = TaskMetrics::new(
            self.metrics.tokens,
            self.metrics.elapsed_ms,
            self.metrics.retry_count + 1,
        );
        self.updated_at = now_ms;
        true
    }

    /// Unconditionally move to Pending; used by the dependency resolver
    /// once every blocker of the task has completed.
    pub fn unblock(&mut self, now_ms: i64)
        ensures
            final(self)@ == (TaskView {
                state: TaskState::Pending,
                updated_at: now_ms as int,
                ..old(self)@
            }),
    {
        self.state = TaskState::Pending;
        self.updated_at = now_ms;
    }

    /// Append a comment; allowed in every state, always bumps the update
    /// timestamp.
    pub fn add_comment(&mut self, comment: Comment, now_ms: i64)
        ensures
            final(self)@ == (TaskView {
                comments: old(self)@.comments.push(comment@),
                updated_at: now_ms as int,
                ..old(self)@
            }),
    {
        self.comments.push(comment);
        self.updated_at = now_ms;
        assert(comments_view(self.comments@) =~= old(self)@.comments.push(comment@));
    }
}

} // verus!
