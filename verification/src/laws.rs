use vstd::prelude::*;

use crate::db::find_task;
use crate::db::tasks_of;
use crate::db::lemma_find_task_from;
use crate::db::lemma_find_task_from_exact;
use crate::db::spec_get_task;
use crate::db::DbView;
use crate::errors::StoreError;
use crate::goal::GoalView;
use crate::state::GoalState;
use crate::state::TaskState;
use crate::task::TaskView;
use crate::task_ops::spec_blocker_completed;
use crate::task_ops::spec_blockers_done;
use crate::task_ops::spec_new_task;
use crate::task_ops::spec_recomputed_goal;
use crate::task_ops::spec_resolve;
use crate::task_ops::spec_should_unblock;
use crate::task_ops::spec_start_error;
use crate::task_ops::spec_started;
use crate::task_ops::spec_unblocked;
use crate::contract::ContractView;

verus! {

/// A freshly created task starts Blocked exactly when its blocker list
/// is non-empty, and Pending otherwise.
pub proof fn lemma_initial_state(
    id: Seq<char>,
    goal_id: Seq<char>,
    description: Seq<char>,
    contract: Option<ContractView>,
    blocked_by: Seq<Seq<char>>,
    now: int,
)
    ensures
        spec_new_task(id, goal_id, description, contract, blocked_by, now).state == (
        if blocked_by.len() == 0 {
            TaskState::Pending
        } else {
            TaskState::Blocked
        }),
{
}

/// The store a successful start leaves behind: the found task started,
/// everything else untouched.
pub open spec fn spec_db_after_start(db: DbView, id: Seq<char>, now: int) -> DbView {
    match find_task(db.tasks, id) {
        Some(i) => DbView {
            goals: db.goals,
            tasks: db.tasks.update(i, spec_started(db.tasks[i], now)),
        },
        None => db,
    }
}

/// The compare-and-swap guard of starting a task: once one start has
/// succeeded, the task is InProgress, and a second start of the same
/// task is refused with the state-guard error — and by the start
/// operation's contract a refused start changes nothing, so the task
/// keeps the state the first start produced.
pub proof fn lemma_start_cas(db: DbView, id: Seq<char>, now: int)
    requires
        spec_start_error(db, id) is None,
    ensures
        ({
            let db1 = spec_db_after_start(db, id, now);
            spec_start_error(db1, id) == Some(StoreError::WrongState) && (match spec_get_task(
                db1,
                id,
            ) {
                Some(t) => t.state == TaskState::InProgress,
                None => false,
            })
        }),
{
    lemma_find_task_from(db.tasks, id, 0);
    let i = find_task(db.tasks, id)->Some_0;
    let db1 = spec_db_after_start(db, id, now);
    assert(db1.tasks[i].id == id);
    assert(forall|k: int| 0 <= k < i ==> db1.tasks[k].id != id);
    lemma_find_task_from_exact(db1.tasks, id, 0, i);
    assert(spec_get_task(db1, id) == Some(spec_started(db.tasks[i], now)));
}

/// The resolver is blocker-count-correct. A Blocked task with any
/// blocker not yet Completed in the snapshot comes out of the pass
/// unchanged, still Blocked; one that waited on the completed task and
/// whose blockers are now all Completed comes out Pending. So a task
/// with several blockers stays Blocked until its last outstanding
/// blocker completes, whatever the order of the completions.
pub proof fn lemma_resolver_blocker_count(
    tasks: Seq<TaskView>,
    completed_id: Seq<char>,
    goal_id: Seq<char>,
    now: int,
    j: int,
)
    requires
        0 <= j < tasks.len(),
    ensures
        (exists|k: int|
            0 <= k < tasks[j].blocked_by.len() && !spec_blocker_completed(
                tasks,
                goal_id,
                tasks[j].blocked_by[k],
            )) ==> spec_resolve(tasks, completed_id, goal_id, now)[j] == tasks[j],
        spec_should_unblock(tasks, tasks[j], completed_id, goal_id) ==> spec_resolve(
            tasks,
            completed_id,
            goal_id,
            now,
        )[j].state == TaskState::Pending,
{
    if exists|k: int|
        0 <= k < tasks[j].blocked_by.len() && !spec_blocker_completed(
            tasks,
            goal_id,
            tasks[j].blocked_by[k],
        ) {
        assert(!spec_blockers_done(tasks, goal_id, tasks[j].blocked_by));
        assert(!spec_should_unblock(tasks, tasks[j], completed_id, goal_id));
        assert(spec_resolve(tasks, completed_id, goal_id, now)[j] == tasks[j]);
    }
    if spec_should_unblock(tasks, tasks[j], completed_id, goal_id) {
        assert(spec_resolve(tasks, completed_id, goal_id, now)[j] == spec_unblocked(
            tasks[j],
            now,
        ));
    }
}

/// The resolver does not cascade: a pass leaves every task that it does
/// not unblock exactly as the snapshot had it, and only direct
/// dependents of the completed task are unblocked.
pub proof fn lemma_resolver_no_cascade(
    tasks: Seq<TaskView>,
    completed_id: Seq<char>,
    goal_id: Seq<char>,
    now: int,
    j: int,
)
    requires
        0 <= j < tasks.len(),
        !tasks[j].blocked_by.contains(completed_id),
    ensures
        spec_resolve(tasks, completed_id, goal_id, now)[j] == tasks[j],
{
    assert(!spec_should_unblock(tasks, tasks[j], completed_id, goal_id));
}

/// Goal recomputation is idempotent: recomputing again from the same
/// task snapshot keeps the classification, whatever times are stamped.
pub proof fn lemma_recompute_idempotent(
    g: GoalView,
    tasks: Seq<TaskView>,
    now1: int,
    now2: int,
)
    ensures
        spec_recomputed_goal(spec_recomputed_goal(g, tasks, now1), tasks, now2).state
            == spec_recomputed_goal(g, tasks, now1).state,
{
    let g1 = spec_recomputed_goal(g, tasks, now1);
    assert(g1.id == g.id);
    if g.state == GoalState::Completed || g.state == GoalState::Failed {
        assert(g1.state == g.state);
    }
}

/// A goal never regresses through recomputation: a Completed or Failed
/// goal keeps its state and its completion time.
pub proof fn lemma_recompute_absorbing(g: GoalView, tasks: Seq<TaskView>, now: int)
    requires
        g.state == GoalState::Completed || g.state == GoalState::Failed,
    ensures
        spec_recomputed_goal(g, tasks, now).state == g.state,
        spec_recomputed_goal(g, tasks, now).completed_at == g.completed_at,
{
}

/// Listing the tasks of a goal that no task belongs to yields the empty
/// listing — an unknown goal ID is answered with an empty list, not an
/// error.
pub proof fn lemma_list_tasks_unknown_goal(tasks: Seq<TaskView>, goal_id: Seq<char>)
    requires
        forall|j: int| 0 <= j < tasks.len() ==> tasks[j].goal_id != goal_id,
    ensures
        tasks_of(tasks, goal_id) == Seq::<TaskView>::empty(),
    decreases tasks.len(),
{
    reveal(Seq::filter);
    if tasks.len() == 0 {
        assert(tasks_of(tasks, goal_id) =~= Seq::<TaskView>::empty());
    } else {
        lemma_list_tasks_unknown_goal(tasks.drop_last(), goal_id);
        assert(tasks.last().goal_id != goal_id);
        assert(tasks_of(tasks, goal_id) =~= Seq::<TaskView>::empty());
    }
}

} // verus!
