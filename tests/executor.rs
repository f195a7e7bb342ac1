use poll_executor::combinators::AndThenFut;
use poll_executor::executor::{Executor, Resumed, Resumption, SpawnError};
use poll_executor::poll::WakeHandle;
use poll_executor::timer::TimerFuture;

fn finished(log: &[Resumed]) -> Vec<usize> {
    log.iter().filter(|e| e.outcome == Resumption::Finished).map(|e| e.task).collect()
}

#[test]
fn lib_run_main() {
    // One task that waits for a timer; the spawner is dropped; the executor
    // runs until the queue is drained and closed.
    let mut executor: Executor<TimerFuture> = Executor::new();
    let delay = TimerFuture::new();
    let timer = delay.signal_handle();
    assert_eq!(executor.spawn(delay), Ok(0));
    executor.drop_spawner();
    let log = executor.run_ready();
    assert_eq!(log, vec![Resumed { task: 0, outcome: Resumption::Pending }]);
    assert!(!executor.is_closed());
    let wake = timer.signal().expect("the task registered its wake handle");
    assert_eq!(wake, WakeHandle { task: 0 });
    assert!(executor.wake(wake));
    let log = executor.run_ready();
    assert_eq!(log, vec![Resumed { task: 0, outcome: Resumption::Finished }]);
    assert!(executor.is_closed());
}

#[test]
fn two_delayed_tasks_each_logged_exactly_once() {
    let mut executor: Executor<TimerFuture> = Executor::new();
    let a = TimerFuture::new();
    let b = TimerFuture::new();
    let ta = a.signal_handle();
    let tb = b.signal_handle();
    assert_eq!(executor.spawn(a), Ok(0));
    assert_eq!(executor.spawn(b), Ok(1));
    executor.drop_spawner();
    let mut record = Vec::new();
    record.extend(finished(&executor.run_ready()));
    assert!(record.is_empty());
    for timer in [tb, ta] {
        let wake = timer.signal().expect("registered");
        assert!(executor.wake(wake));
        record.extend(finished(&executor.run_ready()));
    }
    assert!(executor.is_closed());
    record.sort();
    assert_eq!(record, vec![0, 1]);
}

#[test]
fn run_returns_when_spawners_dropped_and_queue_empty() {
    let mut executor: Executor<TimerFuture> = Executor::new();
    assert!(!executor.is_closed());
    executor.add_spawner();
    assert_eq!(executor.spawners(), 2);
    executor.drop_spawner();
    assert!(!executor.is_closed());
    executor.drop_spawner();
    assert_eq!(executor.run_ready(), Vec::new());
    assert!(executor.is_closed());
    executor.drop_spawner();
    assert_eq!(executor.spawners(), 0);
}

#[test]
fn spawn_after_receiver_destroyed_is_rejected() {
    let mut executor: Executor<TimerFuture> = Executor::new();
    executor.shut_down();
    assert_eq!(executor.spawn(TimerFuture::new()), Err(SpawnError::ExecutorGone));
    assert_eq!(executor.task_count(), 0);
    assert!(!executor.wake(WakeHandle { task: 0 }));
    assert_eq!(executor.run_ready(), Vec::new());
}

#[test]
fn shut_down_drops_queued_entries() {
    let mut executor: Executor<TimerFuture> = Executor::new();
    assert_eq!(executor.spawn(TimerFuture::new()), Ok(0));
    executor.shut_down();
    assert_eq!(executor.run_ready(), Vec::new());
}

#[test]
fn tasks_are_served_in_arrival_order() {
    let mut executor: Executor<TimerFuture> = Executor::new();
    assert_eq!(executor.spawn(TimerFuture::new()), Ok(0));
    assert_eq!(executor.spawn(TimerFuture::new()), Ok(1));
    assert_eq!(executor.spawn(TimerFuture::new()), Ok(2));
    assert!(executor.wake(WakeHandle { task: 2 }));
    assert!(executor.wake(WakeHandle { task: 0 }));
    let order: Vec<usize> = executor.run_ready().iter().map(|e| e.task).collect();
    assert_eq!(order, vec![0, 1, 2, 2, 0]);
}

#[test]
fn double_wake_does_not_rerun_finished_task() {
    let mut executor: Executor<TimerFuture> = Executor::new();
    let delay = TimerFuture::new();
    let timer = delay.signal_handle();
    assert_eq!(executor.spawn(delay), Ok(0));
    assert_eq!(executor.run_ready(), vec![Resumed { task: 0, outcome: Resumption::Pending }]);
    let wake = timer.signal().expect("registered");
    assert!(executor.wake(wake));
    assert!(executor.wake(wake));
    assert_eq!(
        executor.run_ready(),
        vec![
            Resumed { task: 0, outcome: Resumption::Finished },
            Resumed { task: 0, outcome: Resumption::Skipped },
        ]
    );
    assert!(executor.wake(wake));
    assert_eq!(executor.run_ready(), vec![Resumed { task: 0, outcome: Resumption::Skipped }]);
}

#[test]
fn double_wake_of_pending_task_only_polls_again() {
    let mut executor: Executor<TimerFuture> = Executor::new();
    assert_eq!(executor.spawn(TimerFuture::new()), Ok(0));
    assert!(executor.wake(WakeHandle { task: 0 }));
    assert_eq!(
        executor.run_ready(),
        vec![
            Resumed { task: 0, outcome: Resumption::Pending },
            Resumed { task: 0, outcome: Resumption::Pending },
        ]
    );
}

#[test]
fn wake_of_unknown_task_is_skipped() {
    let mut executor: Executor<TimerFuture> = Executor::new();
    assert!(executor.wake(WakeHandle { task: 5 }));
    assert_eq!(executor.run_ready(), vec![Resumed { task: 5, outcome: Resumption::Skipped }]);
}

#[test]
fn run_step_serves_front_entry_only() {
    let mut executor: Executor<TimerFuture> = Executor::new();
    assert_eq!(executor.run_step(), None);
    assert_eq!(executor.spawn(TimerFuture::new()), Ok(0));
    assert_eq!(executor.spawn(TimerFuture::new()), Ok(1));
    assert_eq!(executor.run_step(), Some(Resumed { task: 0, outcome: Resumption::Pending }));
    assert_eq!(executor.run_step(), Some(Resumed { task: 1, outcome: Resumption::Pending }));
    assert_eq!(executor.run_step(), None);
}

#[test]
fn composed_computation_runs_its_parts_in_order() {
    type Chain = AndThenFut<TimerFuture, TimerFuture>;
    let mut executor: Executor<Chain> = Executor::new();
    let first = TimerFuture::new();
    let second = TimerFuture::new();
    let t1 = first.signal_handle();
    let t2 = second.signal_handle();
    assert_eq!(executor.spawn(AndThenFut::new(first, second)), Ok(0));
    assert_eq!(executor.run_ready(), vec![Resumed { task: 0, outcome: Resumption::Pending }]);
    let wake = t1.signal().expect("first part registered");
    assert!(executor.wake(wake));
    assert_eq!(executor.run_ready(), vec![Resumed { task: 0, outcome: Resumption::Pending }]);
    let wake = t2.signal().expect("second part registered");
    assert!(executor.wake(wake));
    assert_eq!(executor.run_ready(), vec![Resumed { task: 0, outcome: Resumption::Finished }]);
    executor.drop_spawner();
    assert!(executor.is_closed());
}
