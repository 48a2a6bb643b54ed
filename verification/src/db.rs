use vstd::multiset::Multiset;
use vstd::pervasive::VecAdditionalExecFns;
use vstd::prelude::*;

use crate::errors::StoreError;
use crate::goal::Goal;
use crate::goal::GoalView;
use crate::metrics::Metrics;
use crate::state::TaskState;
use crate::task::Task;
use crate::task::TaskView;
use crate::text::str_eq;

verus! {

/// The per-element views of a sequence of goals.
pub open spec fn goals_view(s: Seq<Goal>) -> Seq<GoalView> {
    s.map_values(|g: Goal| g@)
}

/// The per-element views of a sequence of tasks.
pub open spec fn tasks_view(s: Seq<Task>) -> Seq<TaskView> {
    s.map_values(|t: Task| t@)
}

/// The contents of the store: every goal and task record it holds, in
/// insertion order.
pub ghost struct DbView {
    pub goals: Seq<GoalView>,
    pub tasks: Seq<TaskView>,
}

/// The position of the first goal with the given ID at or after `i`.
pub open spec fn find_goal_from(goals: Seq<GoalView>, id: Seq<char>, i: int) -> Option<int>
    decreases goals.len() - i,
    when 0 <= i <= goals.len()
{
    if i >= goals.len() {
        None
    } else if goals[i].id == id {
        Some(i)
    } else {
        find_goal_from(goals, id, i + 1)
    }
}

/// The position of the first goal with the given ID.
pub open spec fn find_goal(goals: Seq<GoalView>, id: Seq<char>) -> Option<int> {
    find_goal_from(goals, id, 0)
}

/// The position of the first task with the given ID at or after `i`.
pub open spec fn find_task_from(tasks: Seq<TaskView>, id: Seq<char>, i: int) -> Option<int>
    decreases tasks.len() - i,
    when 0 <= i <= tasks.len()
{
    if i >= tasks.len() {
        None
    } else if tasks[i].id == id {
        Some(i)
    } else {
        find_task_from(tasks, id, i + 1)
    }
}

/// The position of the first task with the given ID.
pub open spec fn find_task(tasks: Seq<TaskView>, id: Seq<char>) -> Option<int> {
    find_task_from(tasks, id, 0)
}

/// What `find_goal_from` returns: the first match at or after `i`.
pub proof fn lemma_find_goal_from(goals: Seq<GoalView>, id: Seq<char>, i: int)
    requires
        0 <= i <= goals.len(),
    ensures
        match find_goal_from(goals, id, i) {
            Some(j) => i <= j < goals.len() && goals[j].id == id && forall|k: int|
                i <= k < j ==> goals[k].id != id,
            None => forall|k: int| i <= k < goals.len() ==> goals[k].id != id,
        },
    decreases goals.len() - i,
{
    if i < goals.len() && goals[i].id != id {
        lemma_find_goal_from(goals, id, i + 1);
    }
}

/// What `find_task_from` returns: the first match at or after `i`.
pub proof fn lemma_find_task_from(tasks: Seq<TaskView>, id: Seq<char>, i: int)
    requires
        0 <= i <= tasks.len(),
    ensures
        match find_task_from(tasks, id, i) {
            Some(j) => i <= j < tasks.len() && tasks[j].id == id && forall|k: int|
                i <= k < j ==> tasks[k].id != id,
            None => forall|k: int| i <= k < tasks.len() ==> tasks[k].id != id,
        },
    decreases tasks.len() - i,
{
    if i < tasks.len() && tasks[i].id != id {
        lemma_find_task_from(tasks, id, i + 1);
    }
}

/// A forward search that skips only mismatches lands on the match.
pub proof fn lemma_find_task_from_exact(tasks: Seq<TaskView>, id: Seq<char>, j: int, i: int)
    requires
        0 <= j <= i < tasks.len(),
        forall|k: int| j <= k < i ==> tasks[k].id != id,
        tasks[i].id == id,
    ensures
        find_task_from(tasks, id, j) == Some(i),
    decreases i - j,
{
    if j < i {
        lemma_find_task_from_exact(tasks, id, j + 1, i);
    }
}

/// Whether the store holds a goal with this ID.
pub open spec fn spec_has_goal(db: DbView, id: Seq<char>) -> bool {
    find_goal(db.goals, id) is Some
}

/// Whether the store holds a task with this ID.
pub open spec fn spec_has_task(db: DbView, id: Seq<char>) -> bool {
    find_task(db.tasks, id) is Some
}

/// The first goal with this ID, if any.
pub open spec fn spec_get_goal(db: DbView, id: Seq<char>) -> Option<GoalView> {
    match find_goal(db.goals, id) {
        Some(i) => Some(db.goals[i]),
        None => None,
    }
}

/// The first task with this ID, if any.
pub open spec fn spec_get_task(db: DbView, id: Seq<char>) -> Option<TaskView> {
    match find_task(db.tasks, id) {
        Some(i) => Some(db.tasks[i]),
        None => None,
    }
}

/// The tasks that belong to the given goal, in store order.
pub open spec fn tasks_of(tasks: Seq<TaskView>, goal_id: Seq<char>) -> Seq<TaskView> {
    tasks.filter(|t: TaskView| t.goal_id == goal_id)
}

/// Newest-first ordering on goal records.
pub open spec fn sorted_desc_goals(s: Seq<GoalView>) -> bool {
    forall|i: int, j: int| 0 <= i <= j < s.len() ==> s[i].created_at >= s[j].created_at
}

/// Oldest-first ordering on task records.
pub open spec fn sorted_asc_tasks(s: Seq<TaskView>) -> bool {
    forall|i: int, j: int| 0 <= i <= j < s.len() ==> s[i].created_at <= s[j].created_at
}

/// An integer clamped to the `i64` range.
pub open spec fn clamp_i64(x: int) -> int {
    if x > i64::MAX {
        i64::MAX as int
    } else if x < i64::MIN {
        i64::MIN as int
    } else {
        x
    }
}

/// A count reported as `i64`: counts beyond the range report zero.
pub open spec fn count_as_i64(x: int) -> int {
    if x <= i64::MAX {
        x
    } else {
        0
    }
}

/// Total tokens over the tasks of one goal.
pub open spec fn sum_tokens(tasks: Seq<TaskView>, goal_id: Seq<char>) -> int
    decreases tasks.len(),
{
    if tasks.len() == 0 {
        0
    } else {
        sum_tokens(tasks.drop_last(), goal_id) + if tasks.last().goal_id == goal_id {
            tasks.last().metrics.tokens as int
        } else {
            0int
        }
    }
}

/// Total elapsed milliseconds over the tasks of one goal.
pub open spec fn sum_elapsed(tasks: Seq<TaskView>, goal_id: Seq<char>) -> int
    decreases tasks.len(),
{
    if tasks.len() == 0 {
        0
    } else {
        sum_elapsed(tasks.drop_last(), goal_id) + if tasks.last().goal_id == goal_id {
            tasks.last().metrics.elapsed_ms as int
        } else {
            0int
        }
    }
}

/// How many tasks belong to one goal.
pub open spec fn count_tasks(tasks: Seq<TaskView>, goal_id: Seq<char>) -> int
    decreases tasks.len(),
{
    if tasks.len() == 0 {
        0
    } else {
        count_tasks(tasks.drop_last(), goal_id) + if tasks.last().goal_id == goal_id {
            1int
        } else {
            0int
        }
    }
}

/// How many tasks of one goal are in the given state.
pub open spec fn count_tasks_in_state(
    tasks: Seq<TaskView>,
    goal_id: Seq<char>,
    state: TaskState,
) -> int
    decreases tasks.len(),
{
    if tasks.len() == 0 {
        0
    } else {
        count_tasks_in_state(tasks.drop_last(), goal_id, state) + if tasks.last().goal_id
            == goal_id && tasks.last().state == state {
            1int
        } else {
            0int
        }
    }
}

/// The aggregate a metrics query reports for one goal: token and time
/// totals clamped to the `i64` range, and task counts overall, completed,
/// and failed. Prompt and completion tokens are not tracked per task and
/// report zero.
pub open spec fn spec_goal_metrics(tasks: Seq<TaskView>, goal_id: Seq<char>) -> Metrics {
    Metrics {
        total_tokens: clamp_i64(sum_tokens(tasks, goal_id)) as i64,
        prompt_tokens: 0i64,
        completion_tokens: 0i64,
        elapsed_ms: clamp_i64(sum_elapsed(tasks, goal_id)) as i64,
        task_count: count_as_i64(count_tasks(tasks, goal_id)) as i64,
        tasks_completed: count_as_i64(
            count_tasks_in_state(tasks, goal_id, TaskState::Completed),
        ) as i64,
        tasks_failed: count_as_i64(count_tasks_in_state(tasks, goal_id, TaskState::Failed)) as i64,
    }
}

/// Whether no two goals share an ID.
pub open spec fn goal_ids_distinct(goals: Seq<GoalView>) -> bool {
    forall|i: int, j: int| 0 <= i < j < goals.len() ==> goals[i].id != goals[j].id
}

/// Whether no two tasks share an ID.
pub open spec fn task_ids_distinct(tasks: Seq<TaskView>) -> bool {
    forall|i: int, j: int| 0 <= i < j < tasks.len() ==> tasks[i].id != tasks[j].id
}

/// The in-memory store: every goal and task record, in insertion order.
/// Lookups return the first record with a matching ID; the create
/// operations refuse duplicate IDs, so a store built through them holds
/// at most one record per ID.
pub struct Database {
    pub goals: Vec<Goal>,
    pub tasks: Vec<Task>,
}

impl View for Database {
    type V = DbView;

    open spec fn view(&self) -> DbView {
        DbView { goals: goals_view(self.goals@), tasks: tasks_view(self.tasks@) }
    }
}

impl Database {
    /// An empty store.
    pub fn new() -> (r: Self)
        ensures
            r@.goals.len() == 0,
            r@.tasks.len() == 0,
    {
        let r = Database { goals: Vec::new(), tasks: Vec::new() };
        assert(r@.goals =~= Seq::<GoalView>::empty());
        assert(r@.tasks =~= Seq::<TaskView>::empty());
        r
    }

    /// Rebuild a store from persisted records, as opening a directory
    /// does: every record is inserted in the order given. Succeeds
    /// exactly when no two goals and no two tasks share an ID, and then
    /// holds exactly the given records, so reopening a store from the
    /// records a previous process persisted reconstructs its index.
    pub fn from_records(goals: Vec<Goal>, tasks: Vec<Task>) -> (r: Result<Database, StoreError>)
        ensures
            match r {
                Ok(db) => goal_ids_distinct(goals_view(goals@)) && task_ids_distinct(
                    tasks_view(tasks@),
                ) && db@.goals == goals_view(goals@) && db@.tasks == tasks_view(tasks@),
                Err(e) => (e == StoreError::GoalExists && !goal_ids_distinct(goals_view(goals@)))
                    || (e == StoreError::TaskExists && goal_ids_distinct(goals_view(goals@))
                    && !task_ids_distinct(tasks_view(tasks@))),
            },
    {
        let ghost gv = goals_view(goals@);
        let ghost tv = tasks_view(tasks@);
        let mut db = Database::new();
        let mut i: usize = 0;
        while i < goals.len()
            invariant
                i <= goals.len(),
                gv == goals_view(goals@),
                gv.len() == goals.len(),
                db@.goals == gv.take(i as int),
                db@.tasks.len() == 0,
                forall|a: int, b: int| 0 <= a < b < i ==> gv[a].id != gv[b].id,
            decreases goals.len() - i,
        {
            let g = goals[i].clone();
            match db.create_goal(g) {
                Ok(_) => {},
                Err(e) => {
                    proof {
                        lemma_find_goal_from(db@.goals, gv[i as int].id, 0);
                        assert(!goal_ids_distinct(gv));
                    }
                    return Err(e);
                },
            }
            proof {
                assert(db@.goals =~= gv.take(i as int + 1));
                lemma_find_goal_from(gv.take(i as int), gv[i as int].id, 0);
                assert(forall|k: int| 0 <= k < i ==> gv.take(i as int)[k] == gv[k]);
                assert(forall|k: int| 0 <= k < i ==> gv[k].id != gv[i as int].id);
            }
            i = i + 1;
        }
        proof {
            assert(gv.take(gv.len() as int) =~= gv);
        }
        let mut j: usize = 0;
        while j < tasks.len()
            invariant
                j <= tasks.len(),
                gv == goals_view(goals@),
                tv == tasks_view(tasks@),
                tv.len() == tasks.len(),
                db@.goals == gv,
                goal_ids_distinct(gv),
                db@.tasks == tv.take(j as int),
                forall|a: int, b: int| 0 <= a < b < j ==> tv[a].id != tv[b].id,
            decreases tasks.len() - j,
        {
            let t = tasks[j].clone();
            match db.create_task(t) {
                Ok(_) => {},
                Err(e) => {
                    proof {
                        lemma_find_task_from(db@.tasks, tv[j as int].id, 0);
                        assert(!task_ids_distinct(tv));
                    }
                    return Err(e);
                },
            }
            proof {
                assert(db@.tasks =~= tv.take(j as int + 1));
                lemma_find_task_from(tv.take(j as int), tv[j as int].id, 0);
                assert(forall|k: int| 0 <= k < j ==> tv.take(j as int)[k] == tv[k]);
                assert(forall|k: int| 0 <= k < j ==> tv[k].id != tv[j as int].id);
            }
            j = j + 1;
        }
        proof {
            assert(tv.take(tv.len() as int) =~= tv);
        }
        Ok(db)
    }

    /// Whether a goal with this ID exists.
    pub fn has_goal(&self, id: &str) -> (r: bool)
        ensures
            r == spec_has_goal(self@, id@),
    {
        self.get_goal(id).is_some()
    }

    /// Whether a task with this ID exists.
    pub fn has_task(&self, id: &str) -> (r: bool)
        ensures
            r == spec_has_task(self@, id@),
    {
        self.get_task(id).is_some()
    }

    /// The position of the first goal with this ID.
    pub fn find_goal_index(&self, id: &str) -> (r: Option<usize>)
        ensures
            match r {
                Some(i) => find_goal(self@.goals, id@) == Some(i as int),
                None => find_goal(self@.goals, id@) is None,
            },
    {
        let ghost gs = self@.goals;
        let mut i: usize = 0;
        while i < self.goals.len()
            invariant
                i <= self.goals.len(),
                gs == self@.goals,
                gs.len() == self.goals.len(),
                find_goal(gs, id@) == find_goal_from(gs, id@, i as int),
            decreases self.goals.len() - i,
        {
            if str_eq(self.goals[i].id.as_str(), id) {
                return Some(i);
            }
            i = i + 1;
        }
        None
    }

    /// The position of the first task with this ID.
    pub fn find_task_index(&self, id: &str) -> (r: Option<usize>)
        ensures
            match r {
                Some(i) => find_task(self@.tasks, id@) == Some(i as int),
                None => find_task(self@.tasks, id@) is None,
            },
    {
        let ghost ts = self@.tasks;
        let mut i: usize = 0;
        while i < self.tasks.len()
            invariant
                i <= self.tasks.len(),
                ts == self@.tasks,
                ts.len() == self.tasks.len(),
                find_task(ts, id@) == find_task_from(ts, id@, i as int),
            decreases self.tasks.len() - i,
        {
            if str_eq(self.tasks[i].id.as_str(), id) {
                return Some(i);
            }
            i = i + 1;
        }
        None
    }

    /// Look up a goal by ID; absence is a normal empty result.
    pub fn get_goal(&self, id: &str) -> (r: Option<&Goal>)
        ensures
            match r {
                Some(g) => spec_get_goal(self@, id@) == Some(g@),
                None => spec_get_goal(self@, id@) is None,
            },
    {
        let ghost gs = self@.goals;
        let mut i: usize = 0;
        while i < self.goals.len()
            invariant
                i <= self.goals.len(),
                gs == self@.goals,
                gs.len() == self.goals.len(),
                find_goal(gs, id@) == find_goal_from(gs, id@, i as int),
            decreases self.goals.len() - i,
        {
            if str_eq(self.goals[i].id.as_str(), id) {
                return Some(&self.goals[i]);
            }
            i = i + 1;
        }
        None
    }

    /// Look up a task by ID; absence is a normal empty result.
    pub fn get_task(&self, id: &str) -> (r: Option<&Task>)
        ensures
            match r {
                Some(t) => spec_get_task(self@, id@) == Some(t@),
                None => spec_get_task(self@, id@) is None,
            },
    {
        let ghost ts = self@.tasks;
        let mut i: usize = 0;
        while i < self.tasks.len()
            invariant
                i <= self.tasks.len(),
                ts == self@.tasks,
                ts.len() == self.tasks.len(),
                find_task(ts, id@) == find_task_from(ts, id@, i as int),
            decreases self.tasks.len() - i,
        {
            if str_eq(self.tasks[i].id.as_str(), id) {
                return Some(&self.tasks[i]);
            }
            i = i + 1;
        }
        None
    }

    /// Insert a new goal; refused when its ID is already taken, in which
    /// case the store is unchanged.
    pub fn create_goal(&mut self, goal: Goal) -> (r: Result<(), StoreError>)
        ensures
            match r {
                Ok(_) => !spec_has_goal(old(self)@, goal@.id) && final(self)@.goals == old(
                    self,
                )@.goals.push(goal@) && final(self)@.tasks == old(self)@.tasks,
                Err(e) => e == StoreError::GoalExists && spec_has_goal(old(self)@, goal@.id)
                    && *final(self) == *old(self),
            },
    {
        if self.has_goal(goal.id.as_str()) {
            return Err(StoreError::GoalExists);
        }
        self.goals.push(goal);
        assert(self@.goals =~= old(self)@.goals.push(goal@));
        assert(self@.tasks =~= old(self)@.tasks);
        Ok(())
    }

    /// Insert a new task; refused when its ID is already taken, in which
    /// case the store is unchanged. Like the original store layer, this
    /// does not validate the goal reference: the creating operation does.
    pub fn create_task(&mut self, task: Task) -> (r: Result<(), StoreError>)
        ensures
            match r {
                Ok(_) => !spec_has_task(old(self)@, task@.id) && final(self)@.tasks == old(
                    self,
                )@.tasks.push(task@) && final(self)@.goals == old(self)@.goals,
                Err(e) => e == StoreError::TaskExists && spec_has_task(old(self)@, task@.id)
                    && *final(self) == *old(self),
            },
    {
        if self.has_task(task.id.as_str()) {
            return Err(StoreError::TaskExists);
        }
        self.tasks.push(task);
        assert(self@.tasks =~= old(self)@.tasks.push(task@));
        assert(self@.goals =~= old(self)@.goals);
        Ok(())
    }

    /// Replace the goal record with this ID wholesale; refused when the
    /// ID is unknown, in which case the store is unchanged.
    pub fn update_goal(&mut self, goal: Goal) -> (r: Result<(), StoreError>)
        ensures
            match r {
                Ok(_) => (match find_goal(old(self)@.goals, goal@.id) {
                    Some(i) => final(self)@.goals == old(self)@.goals.update(i, goal@),
                    None => false,
                }) && final(self)@.tasks == old(self)@.tasks,
                Err(e) => e == StoreError::GoalNotFound && !spec_has_goal(old(self)@, goal@.id)
                    && *final(self) == *old(self),
            },
    {
        let gi = match self.find_goal_index(goal.id.as_str()) {
            Some(i) => i,
            None => {
                return Err(StoreError::GoalNotFound);
            },
        };
        proof {
            lemma_find_goal_from(self@.goals, goal@.id, 0);
        }
        let ghost goals0 = self@.goals;
        self.goals.set(gi, goal);
        proof {
            assert(self@.goals =~= goals0.update(gi as int, goal@));
            assert(self@.tasks =~= old(self)@.tasks);
        }
        Ok(())
    }

    /// Replace the task record with this ID wholesale; refused when the
    /// ID is unknown, in which case the store is unchanged.
    pub fn update_task(&mut self, task: Task) -> (r: Result<(), StoreError>)
        ensures
            match r {
                Ok(_) => (match find_task(old(self)@.tasks, task@.id) {
                    Some(i) => final(self)@.tasks == old(self)@.tasks.update(i, task@),
                    None => false,
                }) && final(self)@.goals == old(self)@.goals,
                Err(e) => e == StoreError::TaskNotFound && !spec_has_task(old(self)@, task@.id)
                    && *final(self) == *old(self),
            },
    {
        let ti = match self.find_task_index(task.id.as_str()) {
            Some(i) => i,
            None => {
                return Err(StoreError::TaskNotFound);
            },
        };
        proof {
            lemma_find_task_from(self@.tasks, task@.id, 0);
        }
        let ghost tasks0 = self@.tasks;
        self.tasks.set(ti, task);
        proof {
            assert(self@.tasks =~= tasks0.update(ti as int, task@));
            assert(self@.goals =~= old(self)@.goals);
        }
        Ok(())
    }

    /// All goals, newest first.
    pub fn list_goals(&self) -> (r: Vec<Goal>)
        ensures
            goals_view(r@).to_multiset() == self@.goals.to_multiset(),
            sorted_desc_goals(goals_view(r@)),
    {
        let mut copy: Vec<Goal> = Vec::new();
        let mut i: usize = 0;
        while i < self.goals.len()
            invariant
                i <= self.goals.len(),
                copy@.len() == i,
                forall|k: int| 0 <= k < i ==> copy@[k]@ == self.goals@[k]@,
            decreases self.goals.len() - i,
        {
            copy.push(self.goals[i].clone());
            i = i + 1;
        }
        assert(goals_view(copy@) =~= self@.goals);
        sort_goals_desc(copy)
    }

    /// The tasks of one goal, oldest first. An unknown goal ID yields an
    /// empty list, not an error.
    pub fn list_tasks(&self, goal_id: &str) -> (r: Vec<Task>)
        ensures
            tasks_view(r@).to_multiset() == tasks_of(self@.tasks, goal_id@).to_multiset(),
            sorted_asc_tasks(tasks_view(r@)),
    {
        let mut sel: Vec<Task> = Vec::new();
        let mut i: usize = 0;
        proof {
            reveal(Seq::filter);
            assert(self@.tasks.take(0).filter(|t: TaskView| t.goal_id == goal_id@)
                =~= Seq::<TaskView>::empty());
            assert(tasks_view(sel@) =~= Seq::<TaskView>::empty());
        }
        while i < self.tasks.len()
            invariant
                i <= self.tasks.len(),
                self@.tasks.len() == self.tasks.len(),
                tasks_view(sel@) == tasks_of(self@.tasks.take(i as int), goal_id@),
            decreases self.tasks.len() - i,
        {
            let ghost sel0 = tasks_view(sel@);
            proof {
                reveal(Seq::filter);
                assert(self@.tasks.take(i as int + 1).drop_last() =~= self@.tasks.take(i as int));
                assert(self@.tasks.take(i as int + 1).last() == self@.tasks[i as int]);
            }
            if str_eq(self.tasks[i].goal_id.as_str(), goal_id) {
                sel.push(self.tasks[i].clone());
                proof {
                    reveal(Seq::filter);
                    assert(tasks_view(sel@) =~= sel0.push(self@.tasks[i as int]));
                    assert(tasks_view(sel@) =~= tasks_of(
                        self@.tasks.take(i as int + 1),
                        goal_id@,
                    ));
                }
            } else {
                proof {
                    reveal(Seq::filter);
                    assert(tasks_view(sel@) =~= tasks_of(
                        self@.tasks.take(i as int + 1),
                        goal_id@,
                    ));
                }
            }
            i = i + 1;
        }
        proof {
            assert(self@.tasks.take(self@.tasks.len() as int) =~= self@.tasks);
        }
        sort_tasks_asc(sel)
    }

    /// The derived aggregate over one goal's tasks; all-zero for an
    /// unknown goal ID.
    pub fn compute_goal_metrics(&self, goal_id: &str) -> (r: Metrics)
        ensures
            r == spec_goal_metrics(self@.tasks, goal_id@),
    {
        let n = self.tasks.len();
        let mut tokens: i128 = 0;
        let mut elapsed: i128 = 0;
        let mut cnt: usize = 0;
        let mut done: usize = 0;
        let mut failed: usize = 0;
        let mut i: usize = 0;
        while i < n
            invariant
                i <= n,
                n == self@.tasks.len(),
                tokens as int == sum_tokens(self@.tasks.take(i as int), goal_id@),
                elapsed as int == sum_elapsed(self@.tasks.take(i as int), goal_id@),
                cnt as int == count_tasks(self@.tasks.take(i as int), goal_id@),
                done as int == count_tasks_in_state(
                    self@.tasks.take(i as int),
                    goal_id@,
                    TaskState::Completed,
                ),
                failed as int == count_tasks_in_state(
                    self@.tasks.take(i as int),
                    goal_id@,
                    TaskState::Failed,
                ),
                cnt <= i && done <= i && failed <= i,
                -(i as int) * 0x8000_0000_0000_0000 <= tokens as int <= (i as int)
                    * 0x7fff_ffff_ffff_ffff,
                -(i as int) * 0x8000_0000_0000_0000 <= elapsed as int <= (i as int)
                    * 0x7fff_ffff_ffff_ffff,
            decreases n - i,
        {
            proof {
                assert(self@.tasks.take(i as int + 1).drop_last() =~= self@.tasks.take(i as int));
                assert(self@.tasks.take(i as int + 1).last() == self@.tasks[i as int]);
            }
            if str_eq(self.tasks[i].goal_id.as_str(), goal_id) {
                tokens = tokens + self.tasks[i].metrics.tokens as i128;
                elapsed = elapsed + self.tasks[i].metrics.elapsed_ms as i128;
                cnt = cnt + 1;
                let st = self.tasks[i].state;
                if st == TaskState::Completed {
                    done = done + 1;
                }
                if st == TaskState::Failed {
                    failed = failed + 1;
                }
            }
            i = i + 1;
        }
        proof {
            assert(self@.tasks.take(n as int) =~= self@.tasks);
        }
        let task_count: i64 = if (cnt as u64) <= i64::MAX as u64 {
            cnt as i64
        } else {
            0
        };
        let tasks_completed: i64 = if (done as u64) <= i64::MAX as u64 {
            done as i64
        } else {
            0
        };
        let tasks_failed: i64 = if (failed as u64) <= i64::MAX as u64 {
            failed as i64
        } else {
            0
        };
        Metrics::new(
            clamp_to_i64(tokens),
            0,
            0,
            clamp_to_i64(elapsed),
            task_count,
            tasks_completed,
            tasks_failed,
        )
    }
}

/// Clamp a wide intermediate sum to the `i64` range.
fn clamp_to_i64(x: i128) -> (r: i64)
    ensures
        r as int == clamp_i64(x as int),
{
    if x > i64::MAX as i128 {
        i64::MAX
    } else if x < i64::MIN as i128 {
        i64::MIN
    } else {
        x as i64
    }
}

/// Sort goals newest first by selection of the earliest maximum.
fn sort_goals_desc(v: Vec<Goal>) -> (r: Vec<Goal>)
    ensures
        goals_view(r@).to_multiset() == goals_view(v@).to_multiset(),
        sorted_desc_goals(goals_view(r@)),
{
    broadcast use vstd::seq_lib::group_to_multiset_ensures;
    broadcast use vstd::multiset::group_multiset_axioms;

    let mut src = v;
    let mut out: Vec<Goal> = Vec::new();
    while src.len() > 0
        invariant
            goals_view(out@).to_multiset().add(goals_view(src@).to_multiset()) == goals_view(
                v@,
            ).to_multiset(),
            sorted_desc_goals(goals_view(out@)),
            forall|a: int, b: int| 0 <= a < out@.len() && 0 <= b < src@.len() ==> goals_view(
                out@,
            )[a].created_at >= goals_view(src@)[b].created_at,
        decreases src.len(),
    {
        let mut m: usize = 0;
        let mut k: usize = 1;
        while k < src.len()
            invariant
                src@.len() > 0,
                m < k <= src@.len(),
                forall|t: int| 0 <= t < k ==> goals_view(src@)[m as int].created_at >= goals_view(
                    src@,
                )[t].created_at,
            decreases src.len() - k,
        {
            if src[k].created_at > src[m].created_at {
                m = k;
            }
            k = k + 1;
        }
        let ghost srcv0 = goals_view(src@);
        let ghost outv0 = goals_view(out@);
        let g = src.remove(m);
        out.push(g);
        proof {
            let gv = g@;
            let srcv = goals_view(src@);
            let outv = goals_view(out@);
            assert(srcv =~= srcv0.remove(m as int));
            assert(outv =~= outv0.push(gv));
            assert(srcv0[m as int] == gv);
            assert((m as int) < srcv0.len());
            assert(srcv0.contains(gv)) by {
                assert(srcv0[m as int] == gv);
            }
            assert(srcv == srcv0.remove(m as int));
            vstd::seq_lib::to_multiset_remove(srcv0, m as int);
            vstd::seq_lib::to_multiset_contains(srcv0, gv);
            assert(srcv.to_multiset() == srcv0.to_multiset().remove(gv));
            assert(srcv0.to_multiset().count(gv) > 0);
            assert(outv == outv0.push(gv));
            vstd::seq_lib::to_multiset_build(outv0, gv);
            assert(outv.to_multiset() =~= outv0.to_multiset().insert(gv));
            assert(outv.to_multiset().add(srcv.to_multiset()) =~= outv0.to_multiset().add(
                srcv0.to_multiset(),
            ));
            assert(forall|b: int| 0 <= b < m ==> srcv[b] == srcv0[b]);
            assert(forall|b: int| m <= b < srcv.len() ==> srcv[b] == srcv0[b + 1]);
            assert(forall|u: int| 0 <= u < srcv0.len() ==> gv.created_at >= srcv0[u].created_at);
            assert(sorted_desc_goals(outv));
        }
    }
    proof {
        assert(goals_view(src@).to_multiset() =~= Multiset::<GoalView>::empty());
        assert(goals_view(out@).to_multiset().add(Multiset::<GoalView>::empty()) =~= goals_view(
            out@,
        ).to_multiset());
    }
    out
}

/// Sort tasks oldest first by selection of the earliest minimum.
pub(crate) fn sort_tasks_asc(v: Vec<Task>) -> (r: Vec<Task>)
    ensures
        tasks_view(r@).to_multiset() == tasks_view(v@).to_multiset(),
        sorted_asc_tasks(tasks_view(r@)),
{
    broadcast use vstd::seq_lib::group_to_multiset_ensures;
    broadcast use vstd::multiset::group_multiset_axioms;

    let mut src = v;
    let mut out: Vec<Task> = Vec::new();
    while src.len() > 0
        invariant
            tasks_view(out@).to_multiset().add(tasks_view(src@).to_multiset()) == tasks_view(
                v@,
            ).to_multiset(),
            sorted_asc_tasks(tasks_view(out@)),
            forall|a: int, b: int| 0 <= a < out@.len() && 0 <= b < src@.len() ==> tasks_view(
                out@,
            )[a].created_at <= tasks_view(src@)[b].created_at,
        decreases src.len(),
    {
        let mut m: usize = 0;
        let mut k: usize = 1;
        while k < src.len()
            invariant
                src@.len() > 0,
                m < k <= src@.len(),
                forall|t: int| 0 <= t < k ==> tasks_view(src@)[m as int].created_at <= tasks_view(
                    src@,
                )[t].created_at,
            decreases src.len() - k,
        {
            if src[k].created_at < src[m].created_at {
                m = k;
            }
            k = k + 1;
        }
        let ghost srcv0 = tasks_view(src@);
        let ghost outv0 = tasks_view(out@);
        let t = src.remove(m);
        out.push(t);
        proof {
            let tv = t@;
            let srcv = tasks_view(src@);
            let outv = tasks_view(out@);
            assert(srcv =~= srcv0.remove(m as int));
            assert(outv =~= outv0.push(tv));
            assert(srcv0[m as int] == tv);
            assert((m as int) < srcv0.len());
            assert(srcv0.contains(tv)) by {
                assert(srcv0[m as int] == tv);
            }
            assert(srcv == srcv0.remove(m as int));
            vstd::seq_lib::to_multiset_remove(srcv0, m as int);
            vstd::seq_lib::to_multiset_contains(srcv0, tv);
            assert(srcv.to_multiset() == srcv0.to_multiset().remove(tv));
            assert(srcv0.to_multiset().count(tv) > 0);
            assert(outv == outv0.push(tv));
            vstd::seq_lib::to_multiset_build(outv0, tv);
            assert(outv.to_multiset() =~= outv0.to_multiset().insert(tv));
            assert(outv.to_multiset().add(srcv.to_multiset()) =~= outv0.to_multiset().add(
                srcv0.to_multiset(),
            ));
            assert(forall|b: int| 0 <= b < m ==> srcv[b] == srcv0[b]);
            assert(forall|b: int| m <= b < srcv.len() ==> srcv[b] == srcv0[b + 1]);
            assert(forall|u: int| 0 <= u < srcv0.len() ==> tv.created_at <= srcv0[u].created_at);
            assert(sorted_asc_tasks(outv));
        }
    }
    proof {
        assert(tasks_view(src@).to_multiset() =~= Multiset::<TaskView>::empty());
        assert(tasks_view(out@).to_multiset().add(Multiset::<TaskView>::empty()) =~= tasks_view(
            out@,
        ).to_multiset());
    }
    out
}

} // verus!
