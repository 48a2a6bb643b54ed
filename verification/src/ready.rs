use vstd::prelude::*;

use crate::db::sorted_asc_tasks;
use crate::db::spec_has_goal;
use crate::db::tasks_view;
use crate::db::Database;
use crate::errors::StoreError;
use crate::state::TaskState;
use crate::task::Task;
use crate::task::TaskView;

verus! {

/// The tasks of a goal that are ready to be worked on: Pending with a
/// contract set.
pub open spec fn spec_ready_tasks(tasks: Seq<TaskView>, goal_id: Seq<char>) -> Seq<TaskView> {
    tasks.filter(
        |t: TaskView|
            t.goal_id == goal_id && t.state == TaskState::Pending && t.contract is Some,
    )
}

/// The ready tasks of one goal, oldest first; the goal must exist.
pub fn run(goal_id: &str, db: &Database) -> (r: Result<Vec<Task>, StoreError>)
    ensures
        match r {
            Ok(v) => spec_has_goal(db@, goal_id@) && tasks_view(v@).to_multiset()
                == spec_ready_tasks(db@.tasks, goal_id@).to_multiset() && sorted_asc_tasks(
                tasks_view(v@),
            ),
            Err(e) => e == StoreError::GoalNotFound && !spec_has_goal(db@, goal_id@),
        },
{
    if !db.has_goal(goal_id) {
        return Err(StoreError::GoalNotFound);
    }
    let mut sel: Vec<Task> = Vec::new();
    let mut i: usize = 0;
    proof {
        reveal(Seq::filter);
        assert(spec_ready_tasks(db@.tasks.take(0), goal_id@) =~= Seq::<TaskView>::empty());
        assert(tasks_view(sel@) =~= Seq::<TaskView>::empty());
    }
    while i < db.tasks.len()
        invariant
            i <= db.tasks.len(),
            db@.tasks.len() == db.tasks.len(),
            tasks_view(sel@) == spec_ready_tasks(db@.tasks.take(i as int), goal_id@),
        decreases db.tasks.len() - i,
    {
        let ghost sel0 = tasks_view(sel@);
        proof {
            reveal(Seq::filter);
            assert(db@.tasks.take(i as int + 1).drop_last() =~= db@.tasks.take(i as int));
            assert(db@.tasks.take(i as int + 1).last() == db@.tasks[i as int]);
        }
        if crate::text::str_eq(db.tasks[i].goal_id.as_str(), goal_id) && db.tasks[i].state
            == TaskState::Pending && db.tasks[i].contract.is_some() {
            sel.push(db.tasks[i].clone());
            proof {
                reveal(Seq::filter);
                assert(tasks_view(sel@) =~= sel0.push(db@.tasks[i as int]));
                assert(tasks_view(sel@) =~= spec_ready_tasks(
                    db@.tasks.take(i as int + 1),
                    goal_id@,
                ));
            }
        } else {
            proof {
                reveal(Seq::filter);
                assert(tasks_view(sel@) =~= spec_ready_tasks(
                    db@.tasks.take(i as int + 1),
                    goal_id@,
                ));
            }
        }
        i = i + 1;
    }
    proof {
        assert(db@.tasks.take(db@.tasks.len() as int) =~= db@.tasks);
    }
    Ok(crate::db::sort_tasks_asc(sel))
}

} // verus!
