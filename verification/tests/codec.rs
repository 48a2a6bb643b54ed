use radial::codec::decode_goal;
use radial::codec::decode_task;
use radial::codec::encode_goal;
use radial::codec::encode_task;
use radial::Comment;
use radial::Contract;
use radial::Goal;
use radial::GoalState;
use radial::Metrics;
use radial::Outcome;
use radial::Task;
use radial::TaskMetrics;
use radial::TaskState;

fn full_goal() -> Goal {
    Goal::new(
        "g_abc".to_string(),
        Some("g_parent".to_string()),
        "multi\nline \\ description".to_string(),
        GoalState::Completed,
        1_700_000_000_000,
        1_700_000_001_000,
        Some(1_700_000_001_000),
        Metrics::new(10, 0, 0, 99, 3, 2, 1),
    )
}

fn bare_goal() -> Goal {
    Goal::new(
        "g".to_string(),
        None,
        String::new(),
        GoalState::Pending,
        -5,
        0,
        None,
        Metrics::zero(),
    )
}

fn assert_goal_eq(a: &Goal, b: &Goal) {
    assert_eq!(a.id, b.id);
    assert_eq!(a.parent_id, b.parent_id);
    assert_eq!(a.description, b.description);
    assert_eq!(a.state, b.state);
    assert_eq!(a.created_at, b.created_at);
    assert_eq!(a.updated_at, b.updated_at);
    assert_eq!(a.completed_at, b.completed_at);
    assert_eq!(a.metrics, b.metrics);
}

#[test]
fn goal_round_trip_all_fields() {
    let g = full_goal();
    let text = encode_goal(&g);
    let back = decode_goal(&text).expect("the record must decode");
    assert_goal_eq(&g, &back);
}

#[test]
fn goal_round_trip_absent_optionals() {
    let g = bare_goal();
    let text = encode_goal(&g);
    let back = decode_goal(&text).expect("the record must decode");
    assert_goal_eq(&g, &back);
    assert_eq!(back.parent_id, None);
    assert_eq!(back.completed_at, None);
}

#[test]
fn goal_record_is_line_structured() {
    let g = bare_goal();
    let text: String = encode_goal(&g).into_iter().collect();
    assert!(text.starts_with("id g\n"));
    assert!(text.contains("state pending\n"));
    assert!(text.contains("created_at -0000000000000000005\n"));
    assert!(!text.contains("parent_id"));
}

#[test]
fn goal_decode_rejects_malformed() {
    assert!(decode_goal(&"nonsense".chars().collect()).is_none());
    assert!(decode_goal(&Vec::new()).is_none());
    let mut text = encode_goal(&bare_goal());
    text.push('x');
    assert!(decode_goal(&text).is_none());
}

fn full_task() -> Task {
    let mut t = Task::new(
        "t_1".to_string(),
        "g_abc".to_string(),
        "do the work\nwith care".to_string(),
        Some(Contract::new(
            "input data".to_string(),
            "output data".to_string(),
            "checked \\ twice".to_string(),
        )),
        TaskState::Completed,
        vec!["t_0".to_string(), "t_x".to_string()],
        5,
        9,
    );
    t.result = Some(Outcome::new(
        "finished".to_string(),
        vec!["a.txt".to_string(), "b\nc.txt".to_string()],
    ));
    t.completed_at = Some(9);
    t.metrics = TaskMetrics::new(i64::MAX, i64::MIN, 2);
    t.comments = vec![
        Comment::new("c1".to_string(), "first note".to_string(), 6),
        Comment::new("c2".to_string(), "second\nnote".to_string(), 7),
    ];
    t
}

fn bare_task() -> Task {
    Task::new(
        "t".to_string(),
        "g".to_string(),
        String::new(),
        None,
        TaskState::Pending,
        Vec::new(),
        0,
        0,
    )
}

fn assert_task_eq(a: &Task, b: &Task) {
    assert_eq!(a.id, b.id);
    assert_eq!(a.goal_id, b.goal_id);
    assert_eq!(a.description, b.description);
    match (&a.contract, &b.contract) {
        (None, None) => {},
        (Some(x), Some(y)) => {
            assert_eq!(x.receives, y.receives);
            assert_eq!(x.produces, y.produces);
            assert_eq!(x.verify, y.verify);
        },
        _ => panic!("contracts differ"),
    }
    assert_eq!(a.state, b.state);
    assert_eq!(a.blocked_by, b.blocked_by);
    match (&a.result, &b.result) {
        (None, None) => {},
        (Some(x), Some(y)) => {
            assert_eq!(x.summary, y.summary);
            assert_eq!(x.artifacts, y.artifacts);
        },
        _ => panic!("results differ"),
    }
    assert_eq!(a.created_at, b.created_at);
    assert_eq!(a.updated_at, b.updated_at);
    assert_eq!(a.completed_at, b.completed_at);
    assert_eq!(a.metrics, b.metrics);
    assert_eq!(a.comments.len(), b.comments.len());
    for (x, y) in a.comments.iter().zip(b.comments.iter()) {
        assert_eq!(x.id, y.id);
        assert_eq!(x.text, y.text);
        assert_eq!(x.created_at, y.created_at);
    }
}

#[test]
fn task_round_trip_all_fields() {
    let t = full_task();
    let text = encode_task(&t);
    let back = decode_task(&text).expect("the record must decode");
    assert_task_eq(&t, &back);
}

#[test]
fn task_round_trip_absent_optionals() {
    let t = bare_task();
    let text = encode_task(&t);
    let back = decode_task(&text).expect("the record must decode");
    assert_task_eq(&t, &back);
    assert!(back.contract.is_none());
    assert!(back.result.is_none());
    assert!(back.completed_at.is_none());
    assert!(back.blocked_by.is_empty());
    assert!(back.comments.is_empty());
}

#[test]
fn task_decode_rejects_malformed() {
    assert!(decode_task(&Vec::new()).is_none());
    let mut text = encode_task(&bare_task());
    text.pop();
    assert!(decode_task(&text).is_none());
}

#[test]
fn escaping_keeps_newlines_and_backslashes() {
    let mut g = bare_goal();
    g.description = "a\\nb\nliteral \\\\ two".to_string();
    let text = encode_goal(&g);
    let back = decode_goal(&text).expect("the record must decode");
    assert_eq!(back.description, g.description);
}
