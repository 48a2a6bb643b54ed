use vstd::prelude::*;

verus! {

/// The aggregate metrics of a goal, derived from its tasks.
#[derive(Clone, Copy, PartialEq, Eq, Structural, Debug)]
pub struct Metrics {
    pub total_tokens: i64,
    pub prompt_tokens: i64,
    pub completion_tokens: i64,
    pub elapsed_ms: i64,
    pub task_count: i64,
    pub tasks_completed: i64,
    pub tasks_failed: i64,
}

impl Metrics {
    pub fn new(
        total_tokens: i64,
        prompt_tokens: i64,
        completion_tokens: i64,
        elapsed_ms: i64,
        task_count: i64,
        tasks_completed: i64,
        tasks_failed: i64,
    ) -> (r: Self)
        ensures
            r == (Metrics {
                total_tokens,
                prompt_tokens,
                completion_tokens,
                elapsed_ms,
                task_count,
                tasks_completed,
                tasks_failed,
            }),
    {
        Metrics {
            total_tokens,
            prompt_tokens,
            completion_tokens,
            elapsed_ms,
            task_count,
            tasks_completed,
            tasks_failed,
        }
    }

    /// The all-zero aggregate, reported for goals without tasks.
    pub fn zero() -> (r: Self)
        ensures
            r == (Metrics {
                total_tokens: 0i64,
                prompt_tokens: 0i64,
                completion_tokens: 0i64,
                elapsed_ms: 0i64,
                task_count: 0i64,
                tasks_completed: 0i64,
                tasks_failed: 0i64,
            }),
    {
        Metrics {
            total_tokens: 0,
            prompt_tokens: 0,
            completion_tokens: 0,
            elapsed_ms: 0,
            task_count: 0,
            tasks_completed: 0,
            tasks_failed: 0,
        }
    }

    pub fn total_tokens(&self) -> (r: i64)
        ensures
            r == self.total_tokens,
    {
        self.total_tokens
    }

    pub fn prompt_tokens(&self) -> (r: i64)
        ensures
            r == self.prompt_tokens,
    {
        self.prompt_tokens
    }

    pub fn completion_tokens(&self) -> (r: i64)
        ensures
            r == self.completion_tokens,
    {
        self.completion_tokens
    }

    pub fn elapsed_ms(&self) -> (r: i64)
        ensures
            r == self.elapsed_ms,
    {
        self.elapsed_ms
    }

    pub fn task_count(&self) -> (r: i64)
        ensures
            r == self.task_count,
    {
        self.task_count
    }

    pub fn tasks_completed(&self) -> (r: i64)
        ensures
            r == self.tasks_completed,
    {
        self.tasks_completed
    }

    pub fn tasks_failed(&self) -> (r: i64)
        ensures
            r == self.tasks_failed,
    {
        self.tasks_failed
    }
}

/// The work metrics of a single task.
#[derive(Clone, Copy, PartialEq, Eq, Structural, Debug)]
pub struct TaskMetrics {
    pub tokens: i64,
    pub elapsed_ms: i64,
    pub retry_count: i64,
}

impl TaskMetrics {
    pub fn new(tokens: i64, elapsed_ms: i64, retry_count: i64) -> (r: Self)
        ensures
            r == (TaskMetrics { tokens, elapsed_ms, retry_count }),
    {
        TaskMetrics { tokens, elapsed_ms, retry_count }
    }

    /// The all-zero metrics a fresh task starts with.
    pub fn zero() -> (r: Self)
        ensures
            r == (TaskMetrics { tokens: 0i64, elapsed_ms: 0i64, retry_count: 0i64 }),
    {
        TaskMetrics { tokens: 0, elapsed_ms: 0, retry_count: 0 }
    }

    pub fn tokens(&self) -> (r: i64)
        ensures
            r == self.tokens,
    {
        self.tokens
    }

    pub fn elapsed_ms(&self) -> (r: i64)
        ensures
            r == self.elapsed_ms,
    {
        self.elapsed_ms
    }

    pub fn retry_count(&self) -> (r: i64)
        ensures
            r == self.retry_count,
    {
        self.retry_count
    }
}

} // verus!
