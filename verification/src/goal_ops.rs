use vstd::prelude::*;

use crate::db::goals_view;
use crate::db::sorted_desc_goals;
use crate::db::spec_has_goal;
use crate::db::Database;
use crate::errors::StoreError;
use crate::goal::Goal;
use crate::goal::GoalView;
use crate::metrics::Metrics;
use crate::state::GoalState;

verus! {

/// The record a freshly created goal holds: Pending, no parent, no
/// completion time, zero metrics, both timestamps at creation time.
pub open spec fn spec_new_goal(id: Seq<char>, description: Seq<char>, now: int) -> GoalView {
    GoalView {
        id: id,
        parent_id: None,
        description: description,
        state: GoalState::Pending,
        created_at: now,
        updated_at: now,
        completed_at: None,
        metrics: Metrics {
            total_tokens: 0i64,
            prompt_tokens: 0i64,
            completion_tokens: 0i64,
            elapsed_ms: 0i64,
            task_count: 0i64,
            tasks_completed: 0i64,
            tasks_failed: 0i64,
        },
    }
}

/// Create a goal with a fresh ID and insert it into the store; refused
/// when the ID is already taken.
pub fn create(id: String, description: String, now_ms: i64, db: &mut Database) -> (r: Result<
    Goal,
    StoreError,
>)
    ensures
        match r {
            Ok(g) => !spec_has_goal(old(db)@, id@) && g@ == spec_new_goal(
                id@,
                description@,
                now_ms as int,
            ) && final(db)@.goals == old(db)@.goals.push(g@) && final(db)@.tasks == old(db)@.tasks,
            Err(e) => e == StoreError::GoalExists && spec_has_goal(old(db)@, id@) && *final(db)
                == *old(db),
        },
{
    let goal = Goal::new(
        id,
        None,
        description,
        GoalState::Pending,
        now_ms,
        now_ms,
        None,
        Metrics::zero(),
    );
    let ret = goal.clone();
    match db.create_goal(goal) {
        Ok(_) => Ok(ret),
        Err(e) => Err(e),
    }
}

/// All goals, newest first.
pub fn list(db: &Database) -> (r: Vec<Goal>)
    ensures
        goals_view(r@).to_multiset() == db@.goals.to_multiset(),
        sorted_desc_goals(goals_view(r@)),
{
    db.list_goals()
}

} // verus!
