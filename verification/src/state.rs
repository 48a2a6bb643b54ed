use vstd::prelude::*;

verus! {

/// The lifecycle state of a task.
#[derive(Debug, Clone, Copy, PartialEq, Eq, Structural)]
pub enum TaskState {
    Pending,
    Blocked,
    InProgress,
    Verifying,
    Completed,
    Failed,
}

/// The lifecycle state of a goal.
#[derive(Debug, Clone, Copy, PartialEq, Eq, Structural)]
pub enum GoalState {
    Pending,
    InProgress,
    Completed,
    Failed,
}

/// The snake_case token a task state is written as in record files.
pub open spec fn spec_task_state_token(s: TaskState) -> Seq<char> {
    match s {
        TaskState::Pending => "pending"@,
        TaskState::Blocked => "blocked"@,
        TaskState::InProgress => "in_progress"@,
        TaskState::Verifying => "verifying"@,
        TaskState::Completed => "completed"@,
        TaskState::Failed => "failed"@,
    }
}

/// The snake_case token a goal state is written as in record files.
pub open spec fn spec_goal_state_token(s: GoalState) -> Seq<char> {
    match s {
        GoalState::Pending => "pending"@,
        GoalState::InProgress => "in_progress"@,
        GoalState::Completed => "completed"@,
        GoalState::Failed => "failed"@,
    }
}

/// Distinct task states have distinct tokens.
pub proof fn lemma_task_state_token_injective(a: TaskState, b: TaskState)
    ensures
        spec_task_state_token(a) == spec_task_state_token(b) ==> a == b,
{
    reveal_strlit("pending");
    reveal_strlit("blocked");
    reveal_strlit("in_progress");
    reveal_strlit("verifying");
    reveal_strlit("completed");
    reveal_strlit("failed");
    if spec_task_state_token(a) == spec_task_state_token(b) && a != b {
        assert("pending"@[0] == 'p' && "blocked"@[0] == 'b' && "in_progress"@[0] == 'i'
            && "verifying"@[0] == 'v' && "completed"@[0] == 'c' && "failed"@[0] == 'f');
        assert(false);
    }
}

/// Distinct goal states have distinct tokens.
pub proof fn lemma_goal_state_token_injective(a: GoalState, b: GoalState)
    ensures
        spec_goal_state_token(a) == spec_goal_state_token(b) ==> a == b,
{
    reveal_strlit("pending");
    reveal_strlit("in_progress");
    reveal_strlit("completed");
    reveal_strlit("failed");
    if spec_goal_state_token(a) == spec_goal_state_token(b) && a != b {
        assert("pending"@[0] == 'p' && "in_progress"@[0] == 'i' && "completed"@[0] == 'c'
            && "failed"@[0] == 'f');
        assert(false);
    }
}

impl TaskState {
    /// The token this state is written as.
    pub fn as_token(&self) -> (r: &'static str)
        ensures
            r@ == spec_task_state_token(*self),
    {
        match self {
            TaskState::Pending => "pending",
            TaskState::Blocked => "blocked",
            TaskState::InProgress => "in_progress",
            TaskState::Verifying => "verifying",
            TaskState::Completed => "completed",
            TaskState::Failed => "failed",
        }
    }
}

impl GoalState {
    /// The token this state is written as.
    pub fn as_token(&self) -> (r: &'static str)
        ensures
            r@ == spec_goal_state_token(*self),
    {
        match self {
            GoalState::Pending => "pending",
            GoalState::InProgress => "in_progress",
            GoalState::Completed => "completed",
            GoalState::Failed => "failed",
        }
    }
}

} // verus!
