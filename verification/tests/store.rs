use radial::goal_ops;
use radial::helpers::find_similar_id;
use radial::ready;
use radial::status;
use radial::task_ops;
use radial::Database;
use radial::Goal;
use radial::GoalState;
use radial::Metrics;
use radial::StatusResult;
use radial::StoreError;
use radial::Task;
use radial::TaskMetrics;
use radial::TaskState;

fn new_goal(db: &mut Database, id: &str, now: i64) -> Goal {
    goal_ops::create(id.to_string(), "a goal".to_string(), now, db).unwrap()
}

fn new_task(
    db: &mut Database,
    goal_id: &str,
    task_id: &str,
    blocked_by: Option<Vec<String>>,
    now: i64,
) -> Task {
    task_ops::create(
        goal_id,
        "a task".to_string(),
        Some("in".to_string()),
        Some("out".to_string()),
        Some("check".to_string()),
        blocked_by,
        task_id.to_string(),
        now,
        db,
    )
    .unwrap()
}

#[test]
fn test_find_similar_id() {
    let candidates = vec!["t8zwaROl", "xYz9Kp2m", "V1StGXR8"];

    assert_eq!(find_similar_id("t8zwaRO1", &candidates), Some("t8zwaROl"));

    assert_eq!(find_similar_id("xYz9Kp2n", &candidates), Some("xYz9Kp2m"));

    // Very different ID should return None
    assert_eq!(find_similar_id("zzzzz", &candidates), None);
}

#[test]
fn initial_state_blocked_iff_blockers() {
    let mut db = Database::new();
    new_goal(&mut db, "g1", 1);
    let free = new_task(&mut db, "g1", "t1", None, 2);
    assert_eq!(free.state, TaskState::Pending);
    let empty = new_task(&mut db, "g1", "t2", Some(Vec::new()), 3);
    assert_eq!(empty.state, TaskState::Pending);
    let blocked = new_task(&mut db, "g1", "t3", Some(vec!["t1".to_string()]), 4);
    assert_eq!(blocked.state, TaskState::Blocked);
}

#[test]
fn start_requires_contract() {
    let mut db = Database::new();
    new_goal(&mut db, "g1", 1);
    let t = task_ops::create(
        "g1",
        "no contract".to_string(),
        None,
        None,
        None,
        None,
        "t1".to_string(),
        2,
        &mut db,
    )
    .unwrap();
    assert!(t.contract.is_none());
    assert!(matches!(task_ops::start("t1", 3, &mut db), Err(StoreError::MissingContract)));
    assert_eq!(db.get_task("t1").unwrap().state, TaskState::Pending);
    assert_eq!(db.get_task("t1").unwrap().updated_at, 2);
}

#[test]
fn start_twice_reports_cas_failure() {
    let mut db = Database::new();
    new_goal(&mut db, "g1", 1);
    new_task(&mut db, "g1", "t1", None, 2);
    let started = task_ops::start("t1", 3, &mut db).unwrap();
    assert_eq!(started.state, TaskState::InProgress);
    // The second start must fail and the state must stay what the first
    // start produced.
    assert!(matches!(task_ops::start("t1", 4, &mut db), Err(StoreError::WrongState)));
    assert_eq!(db.get_task("t1").unwrap().state, TaskState::InProgress);
    assert_eq!(db.get_task("t1").unwrap().updated_at, 3);
}

#[test]
fn start_blocked_task_refused() {
    let mut db = Database::new();
    new_goal(&mut db, "g1", 1);
    new_task(&mut db, "g1", "a", None, 2);
    new_task(&mut db, "g1", "c", Some(vec!["a".to_string()]), 3);
    assert!(matches!(task_ops::start("c", 4, &mut db), Err(StoreError::TaskBlocked)));
    assert_eq!(db.get_task("c").unwrap().state, TaskState::Blocked);
}

fn complete(db: &mut Database, id: &str, now: i64) -> Vec<String> {
    task_ops::complete(id, "done".to_string(), None, None, None, now, db)
        .unwrap()
        .unblocked_task_ids
}

#[test]
fn resolver_unblocks_after_last_blocker() {
    let mut db = Database::new();
    new_goal(&mut db, "g1", 1);
    new_task(&mut db, "g1", "a", None, 2);
    new_task(&mut db, "g1", "b", None, 3);
    new_task(&mut db, "g1", "c", Some(vec!["a".to_string(), "b".to_string()]), 4);
    task_ops::start("a", 5, &mut db).unwrap();
    task_ops::start("b", 6, &mut db).unwrap();
    let unblocked = complete(&mut db, "a", 7);
    assert!(unblocked.is_empty());
    assert_eq!(db.get_task("c").unwrap().state, TaskState::Blocked);
    let unblocked = complete(&mut db, "b", 8);
    assert_eq!(unblocked, vec!["c".to_string()]);
    assert_eq!(db.get_task("c").unwrap().state, TaskState::Pending);
}

#[test]
fn resolver_is_order_independent() {
    // Symmetric to resolver_unblocks_after_last_blocker: complete b
    // first, then a; same end state.
    let mut db = Database::new();
    new_goal(&mut db, "g1", 1);
    new_task(&mut db, "g1", "a", None, 2);
    new_task(&mut db, "g1", "b", None, 3);
    new_task(&mut db, "g1", "c", Some(vec!["a".to_string(), "b".to_string()]), 4);
    task_ops::start("a", 5, &mut db).unwrap();
    task_ops::start("b", 6, &mut db).unwrap();
    let unblocked = complete(&mut db, "b", 7);
    assert!(unblocked.is_empty());
    assert_eq!(db.get_task("c").unwrap().state, TaskState::Blocked);
    let unblocked = complete(&mut db, "a", 8);
    assert_eq!(unblocked, vec!["c".to_string()]);
    assert_eq!(db.get_task("c").unwrap().state, TaskState::Pending);
}

#[test]
fn goal_fails_when_a_task_failed() {
    // Tasks [completed, failed, pending] classify the goal as Failed.
    let mut db = Database::new();
    new_goal(&mut db, "g1", 1);
    new_task(&mut db, "g1", "t1", None, 2);
    new_task(&mut db, "g1", "t2", None, 3);
    new_task(&mut db, "g1", "t3", None, 4);
    task_ops::start("t2", 5, &mut db).unwrap();
    task_ops::fail("t2", 6, &mut db).unwrap();
    task_ops::start("t1", 7, &mut db).unwrap();
    complete(&mut db, "t1", 8);
    assert_eq!(db.get_task("t1").unwrap().state, TaskState::Completed);
    assert_eq!(db.get_task("t2").unwrap().state, TaskState::Failed);
    assert_eq!(db.get_task("t3").unwrap().state, TaskState::Pending);
    assert_eq!(db.get_goal("g1").unwrap().state, GoalState::Failed);
}

#[test]
fn goal_completes_only_when_all_tasks_do() {
    let mut db = Database::new();
    new_goal(&mut db, "g1", 1);
    new_task(&mut db, "g1", "t1", None, 2);
    new_task(&mut db, "g1", "t2", None, 3);
    new_task(&mut db, "g1", "t3", None, 4);
    for (id, now) in [("t1", 5), ("t2", 7), ("t3", 9)] {
        task_ops::start(id, now, &mut db).unwrap();
        complete(&mut db, id, now + 1);
        let g = db.get_goal("g1").unwrap();
        if id == "t3" {
            assert_eq!(g.state, GoalState::Completed);
            assert_eq!(g.completed_at, Some(10));
        } else {
            assert_eq!(g.state, GoalState::InProgress);
            assert_eq!(g.completed_at, None);
        }
    }
}

#[test]
fn metrics_aggregation_exact() {
    let mut db = Database::new();
    db.create_goal(Goal::new(
        "g1".to_string(),
        None,
        "g".to_string(),
        GoalState::Pending,
        1,
        1,
        None,
        Metrics::zero(),
    ))
    .unwrap();
    let t1 = Task::new(
        "t1".to_string(),
        "g1".to_string(),
        "t".to_string(),
        None,
        TaskState::Completed,
        Vec::new(),
        2,
        2,
    )
    .with_metrics(TaskMetrics::new(100, 500, 0));
    let t2 = Task::new(
        "t2".to_string(),
        "g1".to_string(),
        "t".to_string(),
        None,
        TaskState::Failed,
        Vec::new(),
        3,
        3,
    )
    .with_metrics(TaskMetrics::new(200, 300, 0));
    let t3 = Task::new(
        "t3".to_string(),
        "g1".to_string(),
        "t".to_string(),
        None,
        TaskState::Pending,
        Vec::new(),
        4,
        4,
    );
    db.create_task(t1).unwrap();
    db.create_task(t2).unwrap();
    db.create_task(t3).unwrap();
    let m = db.compute_goal_metrics("g1");
    assert_eq!(m.total_tokens, 300);
    assert_eq!(m.elapsed_ms, 800);
    assert_eq!(m.task_count, 3);
    assert_eq!(m.tasks_completed, 1);
    assert_eq!(m.tasks_failed, 1);
}

#[test]
fn metrics_zero_for_unknown_goal() {
    let db = Database::new();
    let m = db.compute_goal_metrics("nope");
    assert_eq!(m.task_count, 0);
    assert_eq!(m.total_tokens, 0);
    assert_eq!(m.tasks_completed, 0);
}

#[test]
fn list_tasks_unknown_goal_is_empty() {
    let mut db = Database::new();
    new_goal(&mut db, "g1", 1);
    new_task(&mut db, "g1", "t1", None, 2);
    assert!(db.list_tasks("nonexistent").is_empty());
}

#[test]
fn list_goals_newest_first() {
    let mut db = Database::new();
    new_goal(&mut db, "g1", 10);
    new_goal(&mut db, "g2", 20);
    new_goal(&mut db, "g3", 15);
    let ids: Vec<String> = db.list_goals().into_iter().map(|g| g.id).collect();
    assert_eq!(ids, vec!["g2".to_string(), "g3".to_string(), "g1".to_string()]);
}

#[test]
fn list_tasks_oldest_first() {
    let mut db = Database::new();
    new_goal(&mut db, "g1", 1);
    new_task(&mut db, "g1", "t1", None, 30);
    new_task(&mut db, "g1", "t2", None, 10);
    new_task(&mut db, "g1", "t3", None, 20);
    let ids: Vec<String> = db.list_tasks("g1").into_iter().map(|t| t.id).collect();
    assert_eq!(ids, vec!["t2".to_string(), "t3".to_string(), "t1".to_string()]);
}

#[test]
fn error_variants_cover_refusals() {
    let mut db = Database::new();
    new_goal(&mut db, "g1", 1);
    assert!(matches!(
        goal_ops::create("g1".to_string(), "again".to_string(), 2, &mut db),
        Err(StoreError::GoalExists)
    ));
    assert!(matches!(
        task_ops::create(
            "missing",
            "t".to_string(),
            None,
            None,
            None,
            None,
            "t1".to_string(),
            3,
            &mut db
        ),
        Err(StoreError::GoalNotFound)
    ));
    assert!(matches!(
        task_ops::create(
            "g1",
            "t".to_string(),
            None,
            None,
            None,
            Some(vec!["ghost".to_string()]),
            "t1".to_string(),
            4,
            &mut db
        ),
        Err(StoreError::BlockerNotFound)
    ));
    new_task(&mut db, "g1", "t1", None, 5);
    assert!(matches!(
        task_ops::create(
            "g1",
            "t".to_string(),
            None,
            None,
            None,
            None,
            "t1".to_string(),
            6,
            &mut db
        ),
        Err(StoreError::TaskExists)
    ));
    assert!(matches!(task_ops::start("ghost", 7, &mut db), Err(StoreError::TaskNotFound)));
    assert!(matches!(
        task_ops::complete("t1", "done".to_string(), None, None, None, 8, &mut db),
        Err(StoreError::WrongState)
    ));
    assert!(matches!(task_ops::fail("t1", 9, &mut db), Err(StoreError::WrongState)));
    assert!(matches!(task_ops::retry("t1", 10, &mut db), Err(StoreError::WrongState)));
}

#[test]
fn goal_enters_in_progress_with_first_task() {
    let mut db = Database::new();
    let g = new_goal(&mut db, "g1", 1);
    assert_eq!(g.state, GoalState::Pending);
    new_task(&mut db, "g1", "t1", None, 2);
    assert_eq!(db.get_goal("g1").unwrap().state, GoalState::InProgress);
    assert_eq!(db.get_goal("g1").unwrap().updated_at, 2);
}

#[test]
fn retry_increments_counter_and_restarts() {
    let mut db = Database::new();
    new_goal(&mut db, "g1", 1);
    new_task(&mut db, "g1", "t1", None, 2);
    task_ops::start("t1", 3, &mut db).unwrap();
    task_ops::fail("t1", 4, &mut db).unwrap();
    assert_eq!(db.get_task("t1").unwrap().state, TaskState::Failed);
    let t = task_ops::retry("t1", 5, &mut db).unwrap();
    assert_eq!(t.state, TaskState::InProgress);
    assert_eq!(t.metrics.retry_count, 1);
    task_ops::fail("t1", 6, &mut db).unwrap();
    let t = task_ops::retry("t1", 7, &mut db).unwrap();
    assert_eq!(t.metrics.retry_count, 2);
}

#[test]
fn complete_records_outcome_and_keeps_retries() {
    let mut db = Database::new();
    new_goal(&mut db, "g1", 1);
    new_task(&mut db, "g1", "t1", None, 2);
    task_ops::start("t1", 3, &mut db).unwrap();
    task_ops::fail("t1", 4, &mut db).unwrap();
    task_ops::retry("t1", 5, &mut db).unwrap();
    let r = task_ops::complete(
        "t1",
        "all done".to_string(),
        Some(vec!["out.txt".to_string(), "src/x.rs".to_string()]),
        Some(120),
        Some(4500),
        6,
        &mut db,
    )
    .unwrap();
    assert_eq!(r.task.state, TaskState::Completed);
    assert_eq!(r.task.completed_at, Some(6));
    let o = r.task.result.as_ref().unwrap();
    assert_eq!(o.summary, "all done");
    assert_eq!(o.artifacts, vec!["out.txt".to_string(), "src/x.rs".to_string()]);
    assert_eq!(r.task.metrics.tokens, 120);
    assert_eq!(r.task.metrics.elapsed_ms, 4500);
    assert_eq!(r.task.metrics.retry_count, 1);
}

#[test]
fn comments_append_in_order() {
    let mut db = Database::new();
    new_goal(&mut db, "g1", 1);
    new_task(&mut db, "g1", "t1", None, 2);
    task_ops::comment("t1", "first".to_string(), "c1".to_string(), 3, &mut db).unwrap();
    let t = task_ops::comment("t1", "second".to_string(), "c2".to_string(), 4, &mut db).unwrap();
    assert_eq!(t.comments.len(), 2);
    assert_eq!(t.comments[0].text, "first");
    assert_eq!(t.comments[1].text, "second");
    assert_eq!(t.updated_at, 4);
    assert!(matches!(
        task_ops::comment("nope", "x".to_string(), "c3".to_string(), 5, &mut db),
        Err(StoreError::TaskNotFound)
    ));
}

#[test]
fn ready_lists_pending_tasks_with_contract() {
    let mut db = Database::new();
    new_goal(&mut db, "g1", 1);
    new_task(&mut db, "g1", "t1", None, 2);
    task_ops::create(
        "g1",
        "bare".to_string(),
        None,
        None,
        None,
        None,
        "t2".to_string(),
        3,
        &mut db,
    )
    .unwrap();
    new_task(&mut db, "g1", "t3", Some(vec!["t1".to_string()]), 4);
    let ready_ids: Vec<String> =
        ready::run("g1", &db).unwrap().into_iter().map(|t| t.id).collect();
    assert_eq!(ready_ids, vec!["t1".to_string()]);
    assert!(matches!(ready::run("nope", &db), Err(StoreError::GoalNotFound)));
}

#[test]
fn status_reports_task_goal_and_overview() {
    let mut db = Database::new();
    new_goal(&mut db, "g1", 1);
    new_task(&mut db, "g1", "t1", None, 2);
    match status::run(None, Some("t1".to_string()), &db).unwrap() {
        StatusResult::Task(t) => assert_eq!(t.id, "t1"),
        _ => panic!("expected a task"),
    }
    match status::run(Some("g1".to_string()), None, &db).unwrap() {
        StatusResult::Goal(gs) => {
            assert_eq!(gs.goal.id, "g1");
            assert_eq!(gs.tasks.len(), 1);
            assert_eq!(gs.metrics.task_count, 1);
        },
        _ => panic!("expected a goal"),
    }
    match status::run(None, None, &db).unwrap() {
        StatusResult::AllGoals(v) => {
            assert_eq!(v.len(), 1);
            assert_eq!(v[0].goal.id, "g1");
            assert_eq!(v[0].computed_metrics.task_count, 1);
        },
        _ => panic!("expected the overview"),
    }
    assert!(matches!(
        status::run(None, Some("nope".to_string()), &db),
        Err(StoreError::TaskNotFound)
    ));
    assert!(matches!(
        status::run(Some("nope".to_string()), None, &db),
        Err(StoreError::GoalNotFound)
    ));
}

#[test]
fn rebuild_from_records_reconstructs_index() {
    let mut db = Database::new();
    new_goal(&mut db, "g1", 1);
    new_goal(&mut db, "g2", 2);
    new_task(&mut db, "g1", "t1", None, 3);
    new_task(&mut db, "g1", "t2", Some(vec!["t1".to_string()]), 4);
    task_ops::start("t1", 5, &mut db).unwrap();
    complete_for_rebuild(&mut db);
    let goals = db.list_goals();
    let mut all_tasks = db.list_tasks("g1");
    all_tasks.extend(db.list_tasks("g2"));
    let reopened = Database::from_records(goals, all_tasks).unwrap();
    assert_eq!(reopened.get_goal("g1").unwrap().state, db.get_goal("g1").unwrap().state);
    assert_eq!(reopened.get_task("t1").unwrap().state, TaskState::Completed);
    assert_eq!(reopened.get_task("t2").unwrap().state, TaskState::Pending);
    assert_eq!(reopened.list_tasks("g1").len(), 2);
    assert_eq!(reopened.list_goals().len(), 2);
}

fn complete_for_rebuild(db: &mut Database) {
    task_ops::complete("t1", "done".to_string(), None, None, None, 6, db).unwrap();
}

#[test]
fn from_records_rejects_duplicate_ids() {
    let g = Goal::new(
        "g1".to_string(),
        None,
        "g".to_string(),
        GoalState::Pending,
        1,
        1,
        None,
        Metrics::zero(),
    );
    let g2 = Goal::new(
        "g1".to_string(),
        None,
        "again".to_string(),
        GoalState::Pending,
        2,
        2,
        None,
        Metrics::zero(),
    );
    assert!(matches!(
        Database::from_records(vec![g, g2], Vec::new()),
        Err(StoreError::GoalExists)
    ));
}

#[test]
fn update_replaces_whole_records() {
    let mut db = Database::new();
    new_goal(&mut db, "g1", 1);
    new_task(&mut db, "g1", "t1", None, 2);
    let mut g = db.get_goal("g1").unwrap().clone();
    g.description = "renamed".to_string();
    db.update_goal(g).unwrap();
    assert_eq!(db.get_goal("g1").unwrap().description, "renamed");
    let mut t = db.get_task("t1").unwrap().clone();
    t.description = "reworded".to_string();
    db.update_task(t).unwrap();
    assert_eq!(db.get_task("t1").unwrap().description, "reworded");
    let ghost_goal = Goal::new(
        "nope".to_string(),
        None,
        "g".to_string(),
        GoalState::Pending,
        1,
        1,
        None,
        Metrics::zero(),
    );
    assert!(matches!(db.update_goal(ghost_goal), Err(StoreError::GoalNotFound)));
    let ghost_task = Task::new(
        "nope".to_string(),
        "g1".to_string(),
        "t".to_string(),
        None,
        TaskState::Pending,
        Vec::new(),
        1,
        1,
    );
    assert!(matches!(db.update_task(ghost_task), Err(StoreError::TaskNotFound)));
}
