use coop_sched::executor::StepResult;
use coop_sched::executor::new_executor_and_spawner;
use coop_sched::future::CountdownFuture;
use coop_sched::future::ForkFuture;
use coop_sched::future::Fut;
use coop_sched::future::TwoPhaseFuture;
use coop_sched::future::almost_ready;
use coop_sched::future::new_timer;

#[test]
fn spawn_and_run_a_single_future() {
    let (mut ex, spawner) = new_executor_and_spawner();
    let id = spawner.spawn(&mut ex, Fut::Almost(almost_ready(5))).unwrap();
    assert_eq!(id, 0);
    ex.run();
    assert_eq!(ex.finished, vec![(0, 5)]);
    assert!(ex.tasks[0].slot.is_none());
}

// A future that suspends without ever waking is polled exactly once and
// never re-polled: no progress without a wake.
#[test]
fn unwoken_future_is_not_repolled() {
    let (mut ex, spawner) = new_executor_and_spawner();
    spawner.spawn(&mut ex, Fut::Timer(new_timer())).unwrap();
    assert_eq!(ex.step(), StepResult::Suspended(0));
    assert_eq!(ex.step(), StepResult::Idle);
    ex.run();
    assert_eq!(ex.step(), StepResult::Idle);
    assert!(ex.is_pending(0));
    assert!(ex.finished.is_empty());
}

// A future that wakes itself once per poll completes after exactly as many
// poll cycles as it needs self-wakes.
#[test]
fn self_waking_future_completes_in_bounded_cycles() {
    let (mut ex, spawner) = new_executor_and_spawner();
    spawner.spawn(&mut ex, Fut::Countdown(CountdownFuture { remaining: 3 })).unwrap();
    let mut suspensions = 0;
    loop {
        match ex.step() {
            StepResult::Suspended(0) => suspensions += 1,
            StepResult::Completed(0, v) => {
                assert_eq!(v, 0);
                break;
            },
            other => panic!("unexpected step result {:?}", other),
        }
    }
    assert_eq!(suspensions, 3);
    assert_eq!(ex.step(), StepResult::Idle);
    assert_eq!(ex.finished, vec![(0, 0)]);
}

// Waking a completed task must not panic, poll it again, or disturb state.
#[test]
fn wake_after_completion_is_a_silent_skip() {
    let (mut ex, spawner) = new_executor_and_spawner();
    spawner.spawn(&mut ex, Fut::Almost(almost_ready(9))).unwrap();
    ex.run();
    assert_eq!(ex.finished, vec![(0, 9)]);
    ex.wake(0);
    ex.wake(0);
    assert_eq!(ex.step(), StepResult::Skipped(0));
    assert_eq!(ex.step(), StepResult::Skipped(0));
    assert_eq!(ex.step(), StepResult::Idle);
    assert_eq!(ex.finished, vec![(0, 9)]);
}

// Multiple wakes for the same still-pending task give at least one — and
// possibly more than one — subsequent poll, never zero.
#[test]
fn duplicate_wakes_of_pending_task_poll_it() {
    let (mut ex, spawner) = new_executor_and_spawner();
    spawner.spawn(&mut ex, Fut::Timer(new_timer())).unwrap();
    ex.run();
    assert!(ex.tasks[0].slot.is_some());
    ex.wake(0);
    ex.wake(0);
    assert_eq!(ex.step(), StepResult::Suspended(0));
    assert_eq!(ex.step(), StepResult::Suspended(0));
    assert_eq!(ex.step(), StepResult::Idle);
}

// Work spawned from inside a running future lands on the same scheduler
// and is polled without waiting for the outer future to complete.
#[test]
fn spawning_from_inside_a_future_is_visible() {
    let (mut ex, spawner) = new_executor_and_spawner();
    let child = Box::new(Fut::Almost(almost_ready(7)));
    spawner.spawn(&mut ex, Fut::Fork(ForkFuture { child: Some(child) })).unwrap();
    assert_eq!(ex.step(), StepResult::Suspended(0));
    assert_eq!(ex.task_count(), 2);
    assert_eq!(ex.queued(), 2);
    assert_eq!(ex.step(), StepResult::Suspended(1));
    assert!(ex.tasks[0].slot.is_some());
    ex.run();
    assert_eq!(ex.finished, vec![(0, 0), (1, 7)]);
}

// End to end: a future that emits its first value, suspends once by waking
// itself, then emits its second value and completes.
#[test]
fn two_phase_output_comes_in_order_and_run_terminates() {
    let (mut ex, spawner) = new_executor_and_spawner();
    spawner.spawn(
        &mut ex,
        Fut::TwoPhase(TwoPhaseFuture { first: 65, second: 66, advanced: false }),
    ).unwrap();
    ex.run();
    assert_eq!(ex.log, vec![65, 66]);
    assert_eq!(ex.finished, vec![(0, 0)]);
    assert_eq!(ex.step(), StepResult::Idle);
}

// The timer pattern with a deadline of zero: the deadline event arrives
// right after the first poll, and completion still happens only on the
// poll that follows the wake, never synchronously on the first poll.
#[test]
fn timer_with_immediate_deadline_still_needs_a_second_poll() {
    let (mut ex, spawner) = new_executor_and_spawner();
    spawner.spawn(&mut ex, Fut::Timer(new_timer())).unwrap();
    ex.run();
    assert!(ex.finished.is_empty());
    assert!(ex.tasks[0].slot.is_some());
    assert!(ex.fire_timer(0));
    assert!(!ex.fire_timer(0));
    ex.run();
    assert_eq!(ex.finished, vec![(0, 0)]);
}

// Two independently spawned futures, woken by their own deadline events at
// different times, each complete exactly once, with no cross-talk.
#[test]
fn two_timers_complete_independently() {
    let (mut ex, spawner) = new_executor_and_spawner();
    spawner.spawn(&mut ex, Fut::Timer(new_timer())).unwrap();
    spawner.spawn(&mut ex, Fut::Timer(new_timer())).unwrap();
    ex.run();
    assert!(ex.tasks[0].slot.is_some());
    assert!(ex.tasks[1].slot.is_some());
    assert!(ex.fire_timer(1));
    ex.run();
    assert_eq!(ex.finished, vec![(1, 0)]);
    assert!(ex.tasks[0].slot.is_some());
    assert!(ex.tasks[1].slot.is_none());
    assert!(ex.fire_timer(0));
    ex.run();
    assert_eq!(ex.finished, vec![(1, 0), (0, 0)]);
}

// The only externally observable failure: spawning after the consumer side
// has shut down reports shutdown and hands the future back.
#[test]
fn spawn_after_shutdown_reports_shutdown() {
    let (mut ex, spawner) = new_executor_and_spawner();
    ex.shutdown();
    let err = spawner.spawn(&mut ex, Fut::Almost(almost_ready(1))).unwrap_err();
    assert!(matches!(err.future, Fut::Almost(a) if a.value == 1 && !a.ready));
    assert!(ex.tasks.is_empty());
}

#[test]
fn wake_is_dropped_after_shutdown() {
    let (mut ex, spawner) = new_executor_and_spawner();
    spawner.spawn(&mut ex, Fut::Timer(new_timer())).unwrap();
    ex.run();
    ex.shutdown();
    ex.wake(0);
    assert_eq!(ex.step(), StepResult::Idle);
}

// A cloned spawner feeds the same ready queue.
#[test]
fn cloned_spawner_feeds_the_same_queue() {
    let (mut ex, spawner) = new_executor_and_spawner();
    let clone = spawner;
    spawner.spawn(&mut ex, Fut::Almost(almost_ready(1))).unwrap();
    clone.spawn(&mut ex, Fut::Almost(almost_ready(2))).unwrap();
    ex.run();
    assert_eq!(ex.finished, vec![(0, 1), (1, 2)]);
}

#[test]
fn spawn_obj_matches_spawn() {
    let (mut ex, spawner) = new_executor_and_spawner();
    let id = spawner.spawn_obj(&mut ex, Fut::Almost(almost_ready(4))).unwrap();
    assert_eq!(id, 0);
    ex.run();
    assert_eq!(ex.finished, vec![(0, 4)]);
}
