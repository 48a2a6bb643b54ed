use vstd::prelude::*;

use crate::db::goals_view;
use crate::db::sorted_asc_tasks;
use crate::db::sorted_desc_goals;
use crate::db::spec_get_goal;
use crate::db::spec_get_task;
use crate::db::spec_goal_metrics;
use crate::db::spec_has_goal;
use crate::db::spec_has_task;
use crate::db::tasks_of;
use crate::db::tasks_view;
use crate::db::Database;
use crate::errors::StoreError;
use crate::goal::Goal;
use crate::goal::GoalView;
use crate::metrics::Metrics;
use crate::task::Task;

verus! {

/// One goal with its tasks and derived metrics, as a status query
/// reports it.
pub struct GoalStatus {
    pub goal: Goal,
    pub tasks: Vec<Task>,
    pub metrics: Metrics,
}

impl GoalStatus {
    pub fn goal(&self) -> (r: &Goal)
        ensures
            r@ == self.goal@,
    {
        &self.goal
    }

    pub fn tasks(&self) -> (r: &Vec<Task>)
        ensures
            tasks_view(r@) == tasks_view(self.tasks@),
    {
        &self.tasks
    }

    pub fn metrics(&self) -> (r: &Metrics)
        ensures
            *r == self.metrics,
    {
        &self.metrics
    }
}

/// One goal with its derived metrics, as the all-goals overview reports
/// it.
pub struct GoalSummary {
    pub goal: Goal,
    pub computed_metrics: Metrics,
}

impl GoalSummary {
    pub fn goal(&self) -> (r: &Goal)
        ensures
            r@ == self.goal@,
    {
        &self.goal
    }

    pub fn computed_metrics(&self) -> (r: &Metrics)
        ensures
            *r == self.computed_metrics,
    {
        &self.computed_metrics
    }
}

/// The result of a status query: a single task, a single goal with its
/// tasks, or the overview of all goals.
pub enum StatusResult {
    Task(Task),
    Goal(GoalStatus),
    AllGoals(Vec<GoalSummary>),
}

/// The goal views of an overview, in report order.
pub open spec fn summary_goals(s: Seq<GoalSummary>) -> Seq<GoalView> {
    s.map_values(|x: GoalSummary| x.goal@)
}

/// Answer a status query. A task ID takes precedence over a goal ID;
/// with neither, the overview of all goals is reported, newest first,
/// each with metrics recomputed from its tasks.
pub fn run(goal_id: Option<String>, task_id: Option<String>, db: &Database) -> (r: Result<
    StatusResult,
    StoreError,
>)
    ensures
        match r {
            Ok(sr) => match sr {
                StatusResult::Task(t) => (match task_id {
                    Some(tid) => spec_get_task(db@, tid@) == Some(t@),
                    None => false,
                }),
                StatusResult::Goal(gs) => task_id is None && (match goal_id {
                    Some(gid) => spec_get_goal(db@, gid@) == Some(gs.goal@) && tasks_view(
                        gs.tasks@,
                    ).to_multiset() == tasks_of(db@.tasks, gid@).to_multiset() && sorted_asc_tasks(
                        tasks_view(gs.tasks@),
                    ) && gs.metrics == spec_goal_metrics(db@.tasks, gid@),
                    None => false,
                }),
                StatusResult::AllGoals(v) => task_id is None && goal_id is None && summary_goals(
                    v@,
                ).to_multiset() == db@.goals.to_multiset() && sorted_desc_goals(summary_goals(v@))
                    && (forall|k: int| 0 <= k < v@.len() ==> v@[k].computed_metrics
                    == spec_goal_metrics(db@.tasks, summary_goals(v@)[k].id)),
            },
            Err(e) => (task_id is Some && e == StoreError::TaskNotFound && !spec_has_task(
                db@,
                or_view(task_id),
            )) || (task_id is None && goal_id is Some && e == StoreError::GoalNotFound
                && !spec_has_goal(db@, or_view(goal_id))),
        },
{
    match task_id {
        Some(tid) => {
            match db.get_task(tid.as_str()) {
                Some(t) => Ok(StatusResult::Task(t.clone())),
                None => Err(StoreError::TaskNotFound),
            }
        },
        None => {
            match goal_id {
                Some(gid) => {
                    match db.get_goal(gid.as_str()) {
                        Some(g) => {
                            let goal = g.clone();
                            let tasks = db.list_tasks(gid.as_str());
                            let metrics = db.compute_goal_metrics(gid.as_str());
                            Ok(StatusResult::Goal(GoalStatus { goal, tasks, metrics }))
                        },
                        None => Err(StoreError::GoalNotFound),
                    }
                },
                None => Ok(StatusResult::AllGoals(all_goals(db))),
            }
        },
    }
}

/// The view of an optional ID that is known to be present.
pub open spec fn or_view(o: Option<String>) -> Seq<char> {
    match o {
        Some(s) => s@,
        None => Seq::empty(),
    }
}

/// The overview of all goals, newest first, each with recomputed
/// metrics.
fn all_goals(db: &Database) -> (r: Vec<GoalSummary>)
    ensures
        summary_goals(r@).to_multiset() == db@.goals.to_multiset(),
        sorted_desc_goals(summary_goals(r@)),
        forall|k: int| 0 <= k < r@.len() ==> r@[k].computed_metrics == spec_goal_metrics(
            db@.tasks,
            summary_goals(r@)[k].id,
        ),
{
    let goals = db.list_goals();
    let mut out: Vec<GoalSummary> = Vec::new();
    let mut i: usize = 0;
    while i < goals.len()
        invariant
            i <= goals.len(),
            out@.len() == i,
            forall|k: int| 0 <= k < i ==> out@[k].goal@ == goals_view(goals@)[k]
                && out@[k].computed_metrics == spec_goal_metrics(db@.tasks, goals_view(goals@)[k].id),
        decreases goals.len() - i,
    {
        let computed_metrics = db.compute_goal_metrics(goals[i].id.as_str());
        let goal = goals[i].clone();
        out.push(GoalSummary { goal, computed_metrics });
        i = i + 1;
    }
    proof {
        assert(summary_goals(out@) =~= goals_view(goals@));
    }
    out
}

} // verus!
