use vstd::prelude::*;

use crate::comment::Comment;
use crate::contract::Contract;
use crate::contract::ContractView;
use crate::db::find_goal;
use crate::db::find_task;
use crate::db::lemma_find_goal_from;
use crate::db::lemma_find_task_from;
use crate::db::sorted_asc_tasks;
use crate::db::spec_get_goal;
use crate::db::spec_get_task;
use crate::db::spec_has_goal;
use crate::db::spec_has_task;
use crate::db::tasks_of;
use crate::db::tasks_view;
use crate::db::Database;
use crate::errors::StoreError;
use crate::goal::GoalView;
use crate::metrics::TaskMetrics;
use crate::outcome::strings_view;
use crate::state::GoalState;
use crate::state::TaskState;
use crate::task::Task;
use crate::task::TaskView;
use crate::text::str_eq;
use vstd::pervasive::VecAdditionalExecFns;

verus! {

/// The string a missing optional argument defaults to: empty.
pub open spec fn or_empty(o: Option<Seq<char>>) -> Seq<char> {
    match o {
        Some(s) => s,
        None => Seq::empty(),
    }
}

/// The view of an optional string argument.
pub open spec fn opt_arg_view(o: Option<String>) -> Option<Seq<char>> {
    match o {
        Some(s) => Some(s@),
        None => None,
    }
}

/// The view of an optional string-list argument; absent means empty.
pub open spec fn opt_list_view(o: Option<Vec<String>>) -> Seq<Seq<char>> {
    match o {
        Some(v) => strings_view(v@),
        None => Seq::empty(),
    }
}

/// The contract a creation request carries: present as soon as any of
/// the three fields is given, with the absent ones empty.
pub open spec fn spec_new_contract(
    receives: Option<Seq<char>>,
    produces: Option<Seq<char>>,
    verify: Option<Seq<char>>,
) -> Option<ContractView> {
    if receives is Some || produces is Some || verify is Some {
        Some(
            ContractView {
                receives: or_empty(receives),
                produces: or_empty(produces),
                verify: or_empty(verify),
            },
        )
    } else {
        None
    }
}

/// The record a freshly created task holds. Its initial state is Blocked
/// exactly when the blocker list is non-empty, else Pending.
pub open spec fn spec_new_task(
    id: Seq<char>,
    goal_id: Seq<char>,
    description: Seq<char>,
    contract: Option<ContractView>,
    blocked_by: Seq<Seq<char>>,
    now: int,
) -> TaskView {
    TaskView {
        id: id,
        goal_id: goal_id,
        description: description,
        contract,
        state: if blocked_by.len() == 0 {
            TaskState::Pending
        } else {
            TaskState::Blocked
        },
        blocked_by,
        result: None,
        created_at: now,
        updated_at: now,
        completed_at: None,
        metrics: TaskMetrics { tokens: 0i64, elapsed_ms: 0i64, retry_count: 0i64 },
        comments: Seq::empty(),
    }
}

/// How creating a task changes its goal: the update time is refreshed,
/// and a Pending goal enters InProgress with its first task.
pub open spec fn spec_goal_after_task_create(g: GoalView, now: int) -> GoalView {
    if g.state == GoalState::Pending {
        GoalView { state: GoalState::InProgress, updated_at: now, ..g }
    } else {
        GoalView { updated_at: now, ..g }
    }
}

/// Whether some task of the given goal has the given ID.
pub open spec fn spec_blocker_exists(tasks: Seq<TaskView>, goal_id: Seq<char>, bid: Seq<char>) -> bool {
    exists|j: int| 0 <= j < tasks.len() && tasks[j].goal_id == goal_id && tasks[j].id == bid
}

/// Whether every entry of a blocker list names a task of the goal.
pub open spec fn spec_blockers_exist(
    tasks: Seq<TaskView>,
    goal_id: Seq<char>,
    bids: Seq<Seq<char>>,
) -> bool {
    forall|k: int| 0 <= k < bids.len() ==> spec_blocker_exists(tasks, goal_id, bids[k])
}

/// Which refusal creating a task meets, if any: the goal must exist,
/// every blocker must name a task of that goal, and the task ID must be
/// fresh.
pub open spec fn spec_create_task_error(
    db: crate::db::DbView,
    goal_id: Seq<char>,
    bids: Seq<Seq<char>>,
    task_id: Seq<char>,
) -> Option<StoreError> {
    if !spec_has_goal(db, goal_id) {
        Some(StoreError::GoalNotFound)
    } else if !spec_blockers_exist(db.tasks, goal_id, bids) {
        Some(StoreError::BlockerNotFound)
    } else if spec_has_task(db, task_id) {
        Some(StoreError::TaskExists)
    } else {
        None
    }
}

/// Whether some task of the goal has the given ID.
fn blocker_exists_exec(tasks: &Vec<Task>, goal_id: &str, bid: &str) -> (r: bool)
    ensures
        r == spec_blocker_exists(tasks_view(tasks@), goal_id@, bid@),
{
    let mut j: usize = 0;
    while j < tasks.len()
        invariant
            j <= tasks.len(),
            forall|k: int| 0 <= k < j ==> !(tasks_view(tasks@)[k].goal_id == goal_id@
                && tasks_view(tasks@)[k].id == bid@),
        decreases tasks.len() - j,
    {
        if str_eq(tasks[j].goal_id.as_str(), goal_id) && str_eq(tasks[j].id.as_str(), bid) {
            assert(tasks_view(tasks@)[j as int].goal_id == goal_id@);
            return true;
        }
        j = j + 1;
    }
    false
}

/// Whether every blocker entry names a task of the goal.
fn blockers_exist_exec(tasks: &Vec<Task>, goal_id: &str, bids: &Vec<String>) -> (r: bool)
    ensures
        r == spec_blockers_exist(tasks_view(tasks@), goal_id@, strings_view(bids@)),
{
    let mut k: usize = 0;
    while k < bids.len()
        invariant
            k <= bids.len(),
            forall|q: int| 0 <= q < k ==> spec_blocker_exists(
                tasks_view(tasks@),
                goal_id@,
                strings_view(bids@)[q],
            ),
        decreases bids.len() - k,
    {
        if !blocker_exists_exec(tasks, goal_id, bids[k].as_str()) {
            assert(strings_view(bids@)[k as int] == bids@[k as int]@);
            return false;
        }
        k = k + 1;
    }
    true
}

/// Create a task under an existing goal, with optional contract fields
/// and an optional list of blocking task IDs that must name tasks of the
/// same goal. On success the task is inserted and the goal is refreshed,
/// entering InProgress if it was still Pending.
pub fn create(
    goal_id: &str,
    description: String,
    receives: Option<String>,
    produces: Option<String>,
    verify: Option<String>,
    blocked_by: Option<Vec<String>>,
    task_id: String,
    now_ms: i64,
    db: &mut Database,
) -> (r: Result<Task, StoreError>)
    ensures
        match r {
            Ok(t) => spec_create_task_error(
                old(db)@,
                goal_id@,
                opt_list_view(blocked_by),
                task_id@,
            ) is None && t@ == spec_new_task(
                task_id@,
                goal_id@,
                description@,
                spec_new_contract(opt_arg_view(receives), opt_arg_view(produces), opt_arg_view(verify)),
                opt_list_view(blocked_by),
                now_ms as int,
            ) && final(db)@.tasks == old(db)@.tasks.push(t@) && (match find_goal(
                old(db)@.goals,
                goal_id@,
            ) {
                Some(gi) => final(db)@.goals == old(db)@.goals.update(
                    gi,
                    spec_goal_after_task_create(old(db)@.goals[gi], now_ms as int),
                ),
                None => false,
            }),
            Err(e) => spec_create_task_error(
                old(db)@,
                goal_id@,
                opt_list_view(blocked_by),
                task_id@,
            ) == Some(e) && *final(db) == *old(db),
        },
{
    let gi = match db.find_goal_index(goal_id) {
        Some(i) => i,
        None => {
            return Err(StoreError::GoalNotFound);
        },
    };
    proof {
        lemma_find_goal_from(db@.goals, goal_id@, 0);
    }
    let bids: Vec<String> = match blocked_by {
        Some(v) => v,
        None => Vec::new(),
    };
    proof {
        assert(strings_view(bids@) =~= opt_list_view(blocked_by));
    }
    if !blockers_exist_exec(&db.tasks, goal_id, &bids) {
        return Err(StoreError::BlockerNotFound);
    }
    let contract: Option<Contract> = if receives.is_some() || produces.is_some()
        || verify.is_some() {
        let r_s = match receives {
            Some(s) => s,
            None => String::new(),
        };
        let p_s = match produces {
            Some(s) => s,
            None => String::new(),
        };
        let v_s = match verify {
            Some(s) => s,
            None => String::new(),
        };
        Some(Contract::new(r_s, p_s, v_s))
    } else {
        None
    };
    let state = if bids.len() == 0 {
        TaskState::Pending
    } else {
        TaskState::Blocked
    };
    let mut gid_string = String::new();
    gid_string.append(goal_id);
    let task = Task::new(task_id, gid_string, description, contract, state, bids, now_ms, now_ms);
    let ret = task.clone();
    match db.create_task(task) {
        Ok(_) => {},
        Err(_) => {
            return Err(StoreError::TaskExists);
        },
    }
    let mut g = db.goals[gi].clone();
    if g.state == GoalState::Pending {
        g.mark_in_progress(now_ms);
    } else {
        g.touch(now_ms);
    }
    let ghost goals0 = db@.goals;
    db.goals.set(gi, g);
    proof {
        assert(db@.goals =~= goals0.update(
            gi as int,
            spec_goal_after_task_create(old(db)@.goals[gi as int], now_ms as int),
        ));
    }
    Ok(ret)
}

/// The tasks of one goal, oldest first; the goal must exist.
pub fn list(goal_id: &str, db: &Database) -> (r: Result<Vec<Task>, StoreError>)
    ensures
        match r {
            Ok(v) => spec_has_goal(db@, goal_id@) && tasks_view(v@).to_multiset() == tasks_of(
                db@.tasks,
                goal_id@,
            ).to_multiset() && sorted_asc_tasks(tasks_view(v@)),
            Err(e) => e == StoreError::GoalNotFound && !spec_has_goal(db@, goal_id@),
        },
{
    if !db.has_goal(goal_id) {
        return Err(StoreError::GoalNotFound);
    }
    Ok(db.list_tasks(goal_id))
}

/// A started task: InProgress with a fresh update time.
pub open spec fn spec_started(t: TaskView, now: int) -> TaskView {
    TaskView { state: TaskState::InProgress, updated_at: now, ..t }
}

/// Which refusal starting a task meets, if any: the task must exist,
/// carry a contract, not sit Blocked behind unfinished blockers, and be
/// Pending.
pub open spec fn spec_start_error(db: crate::db::DbView, id: Seq<char>) -> Option<StoreError> {
    match spec_get_task(db, id) {
        None => Some(StoreError::TaskNotFound),
        Some(t) => if t.contract is None {
            Some(StoreError::MissingContract)
        } else if t.state == TaskState::Blocked && t.blocked_by.len() > 0 {
            Some(StoreError::TaskBlocked)
        } else if t.state != TaskState::Pending {
            Some(StoreError::WrongState)
        } else {
            None
        },
    }
}

/// Start a Pending task: the compare-and-swap transition into
/// InProgress. A task whose current state is not Pending is refused and
/// left unchanged, so a lost race is reported, never overwritten.
pub fn start(task_id: &str, now_ms: i64, db: &mut Database) -> (r: Result<Task, StoreError>)
    ensures
        match r {
            Ok(t) => spec_start_error(old(db)@, task_id@) is None && (match find_task(
                old(db)@.tasks,
                task_id@,
            ) {
                Some(i) => t@ == spec_started(old(db)@.tasks[i], now_ms as int) && final(db)@.tasks
                    == old(db)@.tasks.update(i, t@),
                None => false,
            }) && final(db)@.goals == old(db)@.goals,
            Err(e) => spec_start_error(old(db)@, task_id@) == Some(e) && *final(db) == *old(db),
        },
{
    let ti = match db.find_task_index(task_id) {
        Some(i) => i,
        None => {
            return Err(StoreError::TaskNotFound);
        },
    };
    proof {
        lemma_find_task_from(db@.tasks, task_id@, 0);
    }
    if db.tasks[ti].contract.is_none() {
        return Err(StoreError::MissingContract);
    }
    if db.tasks[ti].state == TaskState::Blocked && db.tasks[ti].blocked_by.len() > 0 {
        return Err(StoreError::TaskBlocked);
    }
    if !(db.tasks[ti].state == TaskState::Pending) {
        return Err(StoreError::WrongState);
    }
    let mut t = db.tasks[ti].clone();
    let ok = t.transition(TaskState::Pending, TaskState::InProgress, now_ms);
    assert(ok);
    let ret = t.clone();
    let ghost tasks0 = db@.tasks;
    db.tasks.set(ti, t);
    proof {
        assert(db@.tasks =~= tasks0.update(ti as int, ret@));
    }
    Ok(ret)
}

/// A failed task: Failed with a fresh update time.
pub open spec fn spec_failed(t: TaskView, now: int) -> TaskView {
    TaskView { state: TaskState::Failed, updated_at: now, ..t }
}

/// Which refusal failing a task meets, if any: the task must exist and
/// be InProgress or Verifying.
pub open spec fn spec_fail_error(db: crate::db::DbView, id: Seq<char>) -> Option<StoreError> {
    match spec_get_task(db, id) {
        None => Some(StoreError::TaskNotFound),
        Some(t) => if t.state != TaskState::InProgress && t.state != TaskState::Verifying {
            Some(StoreError::WrongState)
        } else {
            None
        },
    }
}

/// Fail a task: the compare-and-swap transition from InProgress or
/// Verifying into Failed; any other current state is refused and left
/// unchanged.
pub fn fail(task_id: &str, now_ms: i64, db: &mut Database) -> (r: Result<Task, StoreError>)
    ensures
        match r {
            Ok(t) => spec_fail_error(old(db)@, task_id@) is None && (match find_task(
                old(db)@.tasks,
                task_id@,
            ) {
                Some(i) => t@ == spec_failed(old(db)@.tasks[i], now_ms as int) && final(db)@.tasks
                    == old(db)@.tasks.update(i, t@),
                None => false,
            }) && final(db)@.goals == old(db)@.goals,
            Err(e) => spec_fail_error(old(db)@, task_id@) == Some(e) && *final(db) == *old(db),
        },
{
    let ti = match db.find_task_index(task_id) {
        Some(i) => i,
        None => {
            return Err(StoreError::TaskNotFound);
        },
    };
    proof {
        lemma_find_task_from(db@.tasks, task_id@, 0);
    }
    let st = db.tasks[ti].state;
    if !(st == TaskState::InProgress) && !(st == TaskState::Verifying) {
        return Err(StoreError::WrongState);
    }
    let mut t = db.tasks[ti].clone();
    let mut from: Vec<TaskState> = Vec::new();
    from.push(TaskState::InProgress);
    from.push(TaskState::Verifying);
    proof {
        assert(from@.contains(t@.state)) by {
            assert(from@[0] == TaskState::InProgress && from@[1] == TaskState::Verifying);
        }
    }
    let ok = t.transition_from_any(&from, TaskState::Failed, now_ms);
    assert(ok);
    let ret = t.clone();
    let ghost tasks0 = db@.tasks;
    db.tasks.set(ti, t);
    proof {
        assert(db@.tasks =~= tasks0.update(ti as int, ret@));
    }
    Ok(ret)
}

/// A retried task: back to InProgress, the retry counter bumped, token
/// and elapsed-time metrics kept.
pub open spec fn spec_retried(t: TaskView, now: int) -> TaskView {
    TaskView {
        state: TaskState::InProgress,
        metrics: TaskMetrics {
            retry_count: (t.metrics.retry_count + 1) as i64,
            ..t.metrics
        },
        updated_at: now,
        ..t
    }
}

/// Which refusal retrying a task meets, if any: the task must exist and
/// be Failed.
pub open spec fn spec_retry_error(db: crate::db::DbView, id: Seq<char>) -> Option<StoreError> {
    match spec_get_task(db, id) {
        None => Some(StoreError::TaskNotFound),
        Some(t) => if t.state != TaskState::Failed {
            Some(StoreError::WrongState)
        } else {
            None
        },
    }
}

/// Retry a Failed task: the compare-and-swap transition back into
/// InProgress, bumping the retry counter and keeping the other metrics.
pub fn retry(task_id: &str, now_ms: i64, db: &mut Database) -> (r: Result<Task, StoreError>)
    requires
        match spec_get_task(old(db)@, task_id@) {
            Some(t) => t.metrics.retry_count < i64::MAX,
            None => true,
        },
    ensures
        match r {
            Ok(t) => spec_retry_error(old(db)@, task_id@) is None && (match find_task(
                old(db)@.tasks,
                task_id@,
            ) {
                Some(i) => t@ == spec_retried(old(db)@.tasks[i], now_ms as int) && final(db)@.tasks
                    == old(db)@.tasks.update(i, t@),
                None => false,
            }) && final(db)@.goals == old(db)@.goals,
            Err(e) => spec_retry_error(old(db)@, task_id@) == Some(e) && *final(db) == *old(db),
        },
{
    let ti = match db.find_task_index(task_id) {
        Some(i) => i,
        None => {
            return Err(StoreError::TaskNotFound);
        },
    };
    proof {
        lemma_find_task_from(db@.tasks, task_id@, 0);
    }
    if !(db.tasks[ti].state == TaskState::Failed) {
        return Err(StoreError::WrongState);
    }
    let mut t = db.tasks[ti].clone();
    let ok = t.retry(now_ms);
    assert(ok);
    let ret = t.clone();
    let ghost tasks0 = db@.tasks;
    db.tasks.set(ti, t);
    proof {
        assert(db@.tasks =~= tasks0.update(ti as int, ret@));
    }
    Ok(ret)
}

/// A commented task: one more comment, a fresh update time, all else
/// untouched.
pub open spec fn spec_commented(
    t: TaskView,
    comment_id: Seq<char>,
    text: Seq<char>,
    now: int,
) -> TaskView {
    TaskView {
        comments: t.comments.push(
            crate::comment::CommentView { id: comment_id, text: text, created_at: now },
        ),
        updated_at: now,
        ..t
    }
}

/// Append a comment to a task; allowed in every state. Only an unknown
/// task ID is refused.
pub fn comment(task_id: &str, text: String, comment_id: String, now_ms: i64, db: &mut Database) -> (r:
    Result<Task, StoreError>)
    ensures
        match r {
            Ok(t) => (match find_task(old(db)@.tasks, task_id@) {
                Some(i) => t@ == spec_commented(
                    old(db)@.tasks[i],
                    comment_id@,
                    text@,
                    now_ms as int,
                ) && final(db)@.tasks == old(db)@.tasks.update(i, t@),
                None => false,
            }) && final(db)@.goals == old(db)@.goals,
            Err(e) => e == StoreError::TaskNotFound && !spec_has_task(old(db)@, task_id@) && *final(db)
                == *old(db),
        },
{
    let ti = match db.find_task_index(task_id) {
        Some(i) => i,
        None => {
            return Err(StoreError::TaskNotFound);
        },
    };
    proof {
        lemma_find_task_from(db@.tasks, task_id@, 0);
    }
    let mut t = db.tasks[ti].clone();
    let c = Comment::new(comment_id, text, now_ms);
    t.add_comment(c, now_ms);
    let ret = t.clone();
    let ghost tasks0 = db@.tasks;
    db.tasks.set(ti, t);
    proof {
        assert(db@.tasks =~= tasks0.update(ti as int, ret@));
    }
    Ok(ret)
}

/// The result of completing a task: the updated record and the IDs of
/// the sibling tasks the resolver newly unblocked, in store order.
pub struct CompleteResult {
    pub task: Task,
    pub unblocked_task_ids: Vec<String>,
}

/// A plain integer argument that defaults to zero when absent.
pub open spec fn or_zero(o: Option<i64>) -> i64 {
    match o {
        Some(x) => x,
        None => 0i64,
    }
}

/// A completed task record: Completed, carrying the outcome, its token
/// and elapsed-time metrics overwritten while the retry count is kept,
/// and the completion time stamped.
pub open spec fn spec_completed(
    t: TaskView,
    summary: Seq<char>,
    artifacts: Seq<Seq<char>>,
    tokens: i64,
    elapsed_ms: i64,
    now: int,
) -> TaskView {
    TaskView {
        state: TaskState::Completed,
        result: Some(crate::outcome::OutcomeView { summary, artifacts }),
        metrics: TaskMetrics { tokens, elapsed_ms, retry_count: t.metrics.retry_count },
        updated_at: now,
        completed_at: Some(now),
        ..t
    }
}

/// Whether the goal has a Completed task with the given ID.
pub open spec fn spec_blocker_completed(
    tasks: Seq<TaskView>,
    goal_id: Seq<char>,
    bid: Seq<char>,
) -> bool {
    exists|j: int| 0 <= j < tasks.len() && tasks[j].goal_id == goal_id && tasks[j].id == bid
        && tasks[j].state == TaskState::Completed
}

/// Whether every entry of a blocker list is a Completed task of the goal.
pub open spec fn spec_blockers_done(
    tasks: Seq<TaskView>,
    goal_id: Seq<char>,
    bids: Seq<Seq<char>>,
) -> bool {
    forall|k: int| 0 <= k < bids.len() ==> spec_blocker_completed(tasks, goal_id, bids[k])
}

/// Whether the resolver unblocks this sibling after the given task
/// completed: Blocked, in the same goal, waiting on the completed task,
/// and with every one of its blockers now Completed. The check is
/// re-derived from the full snapshot, so a task with several blockers
/// only unblocks once its last outstanding blocker completes.
pub open spec fn spec_should_unblock(
    tasks: Seq<TaskView>,
    t: TaskView,
    completed_id: Seq<char>,
    goal_id: Seq<char>,
) -> bool {
    t.goal_id == goal_id && t.state == TaskState::Blocked && t.blocked_by.contains(completed_id)
        && spec_blockers_done(tasks, goal_id, t.blocked_by)
}

/// An unblocked task record: Pending with a fresh update time.
pub open spec fn spec_unblocked(t: TaskView, now: int) -> TaskView {
    TaskView { state: TaskState::Pending, updated_at: now, ..t }
}

/// The task set after one resolver pass over the snapshot `tasks`.
/// The pass does not cascade: it unblocks only direct dependents of the
/// completed task.
pub open spec fn spec_resolve(
    tasks: Seq<TaskView>,
    completed_id: Seq<char>,
    goal_id: Seq<char>,
    now: int,
) -> Seq<TaskView> {
    tasks.map_values(
        |t: TaskView|
            if spec_should_unblock(tasks, t, completed_id, goal_id) {
                spec_unblocked(t, now)
            } else {
                t
            },
    )
}

/// The IDs of the tasks the resolver unblocks among the first `n`
/// entries of the snapshot, in store order.
pub open spec fn spec_unblocked_ids_upto(
    tasks: Seq<TaskView>,
    completed_id: Seq<char>,
    goal_id: Seq<char>,
    n: int,
) -> Seq<Seq<char>>
    decreases n,
    when 0 <= n <= tasks.len()
{
    if n <= 0 {
        Seq::empty()
    } else {
        spec_unblocked_ids_upto(tasks, completed_id, goal_id, n - 1) + if spec_should_unblock(
            tasks,
            tasks[n - 1],
            completed_id,
            goal_id,
        ) {
            seq![tasks[n - 1].id]
        } else {
            Seq::empty()
        }
    }
}

/// The IDs of all tasks the resolver unblocks, in store order.
pub open spec fn spec_unblocked_ids(
    tasks: Seq<TaskView>,
    completed_id: Seq<char>,
    goal_id: Seq<char>,
) -> Seq<Seq<char>> {
    spec_unblocked_ids_upto(tasks, completed_id, goal_id, tasks.len() as int)
}

/// Whether every task of the goal is Completed.
pub open spec fn spec_all_completed(tasks: Seq<TaskView>, goal_id: Seq<char>) -> bool {
    forall|j: int| 0 <= j < tasks.len() && tasks[j].goal_id == goal_id ==> tasks[j].state
        == TaskState::Completed
}

/// Whether some task of the goal is Failed.
pub open spec fn spec_any_failed(tasks: Seq<TaskView>, goal_id: Seq<char>) -> bool {
    exists|j: int| 0 <= j < tasks.len() && tasks[j].goal_id == goal_id && tasks[j].state
        == TaskState::Failed
}

/// The goal record recomputed from the current task snapshot: Completed
/// once every task is Completed, Failed as soon as one task is Failed,
/// otherwise only touched. Completed and Failed are absorbing: a goal
/// already terminal is only touched. The classification is a pure
/// function of the snapshot, so recomputing it again from the same
/// snapshot gives the same state.
pub open spec fn spec_recomputed_goal(g: GoalView, tasks: Seq<TaskView>, now: int) -> GoalView {
    if g.state == GoalState::Completed || g.state == GoalState::Failed {
        GoalView { updated_at: now, ..g }
    } else if spec_all_completed(tasks, g.id) {
        GoalView {
            state: GoalState::Completed,
            updated_at: now,
            completed_at: Some(now),
            ..g
        }
    } else if spec_any_failed(tasks, g.id) {
        GoalView { state: GoalState::Failed, updated_at: now, ..g }
    } else {
        GoalView { updated_at: now, ..g }
    }
}

/// Which refusal completing a task meets, if any: the task must exist,
/// be InProgress, and its goal must exist. All checks precede any
/// mutation.
pub open spec fn spec_complete_error(db: crate::db::DbView, id: Seq<char>) -> Option<StoreError> {
    match spec_get_task(db, id) {
        None => Some(StoreError::TaskNotFound),
        Some(t) => if t.state != TaskState::InProgress {
            Some(StoreError::WrongState)
        } else if spec_get_goal(db, t.goal_id) is None {
            Some(StoreError::GoalNotFound)
        } else {
            None
        },
    }
}

/// Whether the list holds the given string.
fn contains_str(v: &Vec<String>, s: &str) -> (r: bool)
    ensures
        r == strings_view(v@).contains(s@),
{
    let mut j: usize = 0;
    while j < v.len()
        invariant
            j <= v.len(),
            forall|k: int| 0 <= k < j ==> strings_view(v@)[k] != s@,
        decreases v.len() - j,
    {
        if str_eq(v[j].as_str(), s) {
            assert(strings_view(v@)[j as int] == s@);
            return true;
        }
        j = j + 1;
    }
    false
}

/// Whether the goal has a Completed task with the given ID.
fn blocker_completed_exec(tasks: &Vec<Task>, goal_id: &str, bid: &str) -> (r: bool)
    ensures
        r == spec_blocker_completed(tasks_view(tasks@), goal_id@, bid@),
{
    let mut j: usize = 0;
    while j < tasks.len()
        invariant
            j <= tasks.len(),
            forall|k: int| 0 <= k < j ==> !(tasks_view(tasks@)[k].goal_id == goal_id@
                && tasks_view(tasks@)[k].id == bid@ && tasks_view(tasks@)[k].state
                == TaskState::Completed),
        decreases tasks.len() - j,
    {
        if tasks[j].state == TaskState::Completed && str_eq(tasks[j].goal_id.as_str(), goal_id)
            && str_eq(tasks[j].id.as_str(), bid) {
            assert(tasks_view(tasks@)[j as int].goal_id == goal_id@);
            return true;
        }
        j = j + 1;
    }
    false
}

/// Whether every blocker entry is a Completed task of the goal.
fn blockers_done_exec(tasks: &Vec<Task>, goal_id: &str, bids: &Vec<String>) -> (r: bool)
    ensures
        r == spec_blockers_done(tasks_view(tasks@), goal_id@, strings_view(bids@)),
{
    let mut k: usize = 0;
    while k < bids.len()
        invariant
            k <= bids.len(),
            forall|q: int| 0 <= q < k ==> spec_blocker_completed(
                tasks_view(tasks@),
                goal_id@,
                strings_view(bids@)[q],
            ),
        decreases bids.len() - k,
    {
        if !blocker_completed_exec(tasks, goal_id, bids[k].as_str()) {
            assert(strings_view(bids@)[k as int] == bids@[k as int]@);
            return false;
        }
        k = k + 1;
    }
    true
}

/// Whether every task of the goal is Completed.
fn all_completed_exec(tasks: &Vec<Task>, goal_id: &str) -> (r: bool)
    ensures
        r == spec_all_completed(tasks_view(tasks@), goal_id@),
{
    let mut j: usize = 0;
    while j < tasks.len()
        invariant
            j <= tasks.len(),
            forall|k: int| 0 <= k < j && tasks_view(tasks@)[k].goal_id == goal_id@
                ==> tasks_view(tasks@)[k].state == TaskState::Completed,
        decreases tasks.len() - j,
    {
        if str_eq(tasks[j].goal_id.as_str(), goal_id) && !(tasks[j].state
            == TaskState::Completed) {
            assert(tasks_view(tasks@)[j as int].goal_id == goal_id@);
            return false;
        }
        j = j + 1;
    }
    true
}

/// Whether some task of the goal is Failed.
fn any_failed_exec(tasks: &Vec<Task>, goal_id: &str) -> (r: bool)
    ensures
        r == spec_any_failed(tasks_view(tasks@), goal_id@),
{
    let mut j: usize = 0;
    while j < tasks.len()
        invariant
            j <= tasks.len(),
            forall|k: int| 0 <= k < j ==> !(tasks_view(tasks@)[k].goal_id == goal_id@
                && tasks_view(tasks@)[k].state == TaskState::Failed),
        decreases tasks.len() - j,
    {
        if str_eq(tasks[j].goal_id.as_str(), goal_id) && tasks[j].state == TaskState::Failed {
            assert(tasks_view(tasks@)[j as int].goal_id == goal_id@);
            return true;
        }
        j = j + 1;
    }
    false
}

/// The resolver's blocker check depends only on which IDs of the goal
/// are Completed in the snapshot — not on the order in which they got
/// there, and not on Blocked siblings turning Pending. A resolver pass
/// preserves exactly these observations.
pub proof fn lemma_blockers_done_stable(
    cur: Seq<TaskView>,
    mid: Seq<TaskView>,
    goal_id: Seq<char>,
    bids: Seq<Seq<char>>,
)
    requires
        cur.len() == mid.len(),
        forall|k: int| 0 <= k < mid.len() ==> cur[k].id == mid[k].id && cur[k].goal_id
            == mid[k].goal_id && (cur[k].state == TaskState::Completed <==> mid[k].state
            == TaskState::Completed),
    ensures
        spec_blockers_done(cur, goal_id, bids) == spec_blockers_done(mid, goal_id, bids),
{
    assert forall|b: Seq<char>|
        spec_blocker_completed(cur, goal_id, b) implies spec_blocker_completed(
        mid,
        goal_id,
        b,
    ) by {
        let j = choose|j: int|
            0 <= j < cur.len() && cur[j].goal_id == goal_id && cur[j].id == b && cur[j].state
                == TaskState::Completed;
        assert(mid[j].goal_id == goal_id && mid[j].id == b && mid[j].state
            == TaskState::Completed);
    }
    assert forall|b: Seq<char>|
        spec_blocker_completed(mid, goal_id, b) implies spec_blocker_completed(
        cur,
        goal_id,
        b,
    ) by {
        let j = choose|j: int|
            0 <= j < mid.len() && mid[j].goal_id == goal_id && mid[j].id == b && mid[j].state
                == TaskState::Completed;
        assert(cur[j].goal_id == goal_id && cur[j].id == b && cur[j].state
            == TaskState::Completed);
    }
    if spec_blockers_done(cur, goal_id, bids) {
        assert forall|k: int| 0 <= k < bids.len() implies spec_blocker_completed(
            mid,
            goal_id,
            bids[k],
        ) by {
            assert(spec_blocker_completed(cur, goal_id, bids[k]));
        }
    }
    if spec_blockers_done(mid, goal_id, bids) {
        assert forall|k: int| 0 <= k < bids.len() implies spec_blocker_completed(
            cur,
            goal_id,
            bids[k],
        ) by {
            assert(spec_blocker_completed(mid, goal_id, bids[k]));
        }
    }
}

/// Complete an InProgress task: the compare-and-swap transition into
/// Completed with the outcome recorded, followed by one resolver pass
/// that unblocks every sibling whose last outstanding blocker this was,
/// and a recomputation of the goal from the resulting task set. Any
/// other current state is refused and nothing changes.
pub fn complete(
    task_id: &str,
    result_summary: String,
    artifacts: Option<Vec<String>>,
    tokens: Option<i64>,
    elapsed: Option<i64>,
    now_ms: i64,
    db: &mut Database,
) -> (r: Result<CompleteResult, StoreError>)
    ensures
        match r {
            Ok(cr) => spec_complete_error(old(db)@, task_id@) is None && (match find_task(
                old(db)@.tasks,
                task_id@,
            ) {
                Some(i) => {
                    let done = spec_completed(
                        old(db)@.tasks[i],
                        result_summary@,
                        opt_list_view(artifacts),
                        or_zero(tokens),
                        or_zero(elapsed),
                        now_ms as int,
                    );
                    let gid = old(db)@.tasks[i].goal_id;
                    let mid = old(db)@.tasks.update(i, done);
                    let post = spec_resolve(mid, task_id@, gid, now_ms as int);
                    cr.task@ == done && strings_view(cr.unblocked_task_ids@)
                        == spec_unblocked_ids(mid, task_id@, gid) && final(db)@.tasks == post
                        && (match find_goal(old(db)@.goals, gid) {
                        Some(gi) => final(db)@.goals == old(db)@.goals.update(
                            gi,
                            spec_recomputed_goal(old(db)@.goals[gi], post, now_ms as int),
                        ),
                        None => false,
                    })
                },
                None => false,
            }),
            Err(e) => spec_complete_error(old(db)@, task_id@) == Some(e) && *final(db)
                == *old(db),
        },
{
    let ti = match db.find_task_index(task_id) {
        Some(i) => i,
        None => {
            return Err(StoreError::TaskNotFound);
        },
    };
    proof {
        lemma_find_task_from(db@.tasks, task_id@, 0);
    }
    if !(db.tasks[ti].state == TaskState::InProgress) {
        return Err(StoreError::WrongState);
    }
    let gid = db.tasks[ti].goal_id.clone();
    let gi = match db.find_goal_index(gid.as_str()) {
        Some(i) => i,
        None => {
            return Err(StoreError::GoalNotFound);
        },
    };
    proof {
        lemma_find_goal_from(db@.goals, gid@, 0);
    }
    let arts: Vec<String> = match artifacts {
        Some(v) => v,
        None => Vec::new(),
    };
    proof {
        assert(strings_view(arts@) =~= opt_list_view(artifacts));
    }
    let tk: i64 = match tokens {
        Some(x) => x,
        None => 0,
    };
    let el: i64 = match elapsed {
        Some(x) => x,
        None => 0,
    };

    // Persisted first: the task's own transition.
    let mut t = db.tasks[ti].clone();
    let ok = t.complete(crate::outcome::Outcome::new(result_summary, arts), tk, el, now_ms);
    assert(ok);
    let done_task = t.clone();
    let ghost tasks0 = db@.tasks;
    db.tasks.set(ti, t);
    let ghost mid = db@.tasks;
    proof {
        assert(mid =~= tasks0.update(ti as int, done_task@));
    }

    // One resolver pass over the snapshot taken after the completion.
    let ghost goals_before = db@.goals;
    let mut unblocked: Vec<String> = Vec::new();
    let mut j: usize = 0;
    while j < db.tasks.len()
        invariant
            j <= db.tasks.len(),
            db@.tasks.len() == mid.len(),
            db@.goals == goals_before,
            forall|k: int| 0 <= k < mid.len() ==> db@.tasks[k] == (if k < j
                && spec_should_unblock(mid, mid[k], task_id@, gid@) {
                spec_unblocked(mid[k], now_ms as int)
            } else {
                mid[k]
            }),
            strings_view(unblocked@) == spec_unblocked_ids_upto(mid, task_id@, gid@, j as int),
        decreases db.tasks.len() - j,
    {
        let ghost cur = db@.tasks;
        proof {
            assert(cur[j as int] == mid[j as int]);
            assert forall|k: int| 0 <= k < mid.len() implies cur[k].id == mid[k].id
                && cur[k].goal_id == mid[k].goal_id && (cur[k].state == TaskState::Completed
                <==> mid[k].state == TaskState::Completed) by {
                if k < j && spec_should_unblock(mid, mid[k], task_id@, gid@) {
                    assert(cur[k] == spec_unblocked(mid[k], now_ms as int));
                    assert(mid[k].state == TaskState::Blocked);
                } else {
                    assert(cur[k] == mid[k]);
                }
            }
        }
        let is_candidate = db.tasks[j].state == TaskState::Blocked && str_eq(
            db.tasks[j].goal_id.as_str(),
            gid.as_str(),
        ) && contains_str(&db.tasks[j].blocked_by, task_id);
        let cond = is_candidate && blockers_done_exec(&db.tasks, gid.as_str(), &db.tasks[j].blocked_by);
        proof {
            lemma_blockers_done_stable(cur, mid, gid@, mid[j as int].blocked_by);
            assert(cond == spec_should_unblock(mid, mid[j as int], task_id@, gid@));
        }
        if cond {
            let mut s = db.tasks[j].clone();
            s.unblock(now_ms);
            unblocked.push(s.id.clone());
            let ghost cur2 = db@.tasks;
            db.tasks.set(j, s);
            proof {
                assert(db@.tasks =~= cur2.update(j as int, spec_unblocked(
                    mid[j as int],
                    now_ms as int,
                )));
                assert(strings_view(unblocked@) =~= spec_unblocked_ids_upto(
                    mid,
                    task_id@,
                    gid@,
                    j as int + 1,
                ));
            }
        } else {
            proof {
                assert(strings_view(unblocked@) =~= spec_unblocked_ids_upto(
                    mid,
                    task_id@,
                    gid@,
                    j as int + 1,
                ));
            }
        }
        j = j + 1;
    }
    proof {
        assert(db@.tasks =~= spec_resolve(mid, task_id@, gid@, now_ms as int));
    }

    // Persisted last: the goal recomputed from the resolved task set.
    let all_done = all_completed_exec(&db.tasks, gid.as_str());
    let any_fail = any_failed_exec(&db.tasks, gid.as_str());
    let mut g = db.goals[gi].clone();
    proof {
        assert(g@.id == gid@);
    }
    if g.state == GoalState::Completed || g.state == GoalState::Failed {
        g.touch(now_ms);
    } else if all_done {
        g.mark_completed(now_ms);
    } else if any_fail {
        g.mark_failed(now_ms);
    } else {
        g.touch(now_ms);
    }
    let ghost goals1 = db@.goals;
    db.goals.set(gi, g);
    proof {
        assert(db@.goals =~= goals1.update(
            gi as int,
            spec_recomputed_goal(
                old(db)@.goals[gi as int],
                spec_resolve(mid, task_id@, gid@, now_ms as int),
                now_ms as int,
            ),
        ));
    }
    Ok(CompleteResult { task: done_task, unblocked_task_ids: unblocked })
}

} // verus!
