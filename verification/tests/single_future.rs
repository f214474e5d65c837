use coop_sched::future::CountdownFuture;
use coop_sched::future::Fut;
use coop_sched::future::TwoPhaseFuture;
use coop_sched::future::almost_ready;
use coop_sched::future::new_timer;
use coop_sched::harness::RunOutcome;
use coop_sched::harness::run_future;

#[test]
fn run_future_drives_a_self_waker_to_completion() {
    let report = run_future(Fut::Almost(almost_ready(3)));
    assert!(matches!(report.outcome, RunOutcome::Finished(3)));
    assert!(report.emitted.is_empty());
}

#[test]
fn run_future_collects_emitted_output() {
    let report = run_future(Fut::TwoPhase(TwoPhaseFuture { first: 1, second: 2, advanced: false }));
    assert!(matches!(report.outcome, RunOutcome::Finished(0)));
    assert_eq!(report.emitted, vec![1, 2]);
}

#[test]
fn run_future_re_polls_once_per_self_wake() {
    let report = run_future(Fut::Countdown(CountdownFuture { remaining: 4 }));
    assert!(matches!(report.outcome, RunOutcome::Finished(0)));
}

// A timer stalls until its deadline event is delivered; driving it again
// afterwards completes it.
#[test]
fn run_future_hands_back_a_stalled_timer() {
    let report = run_future(Fut::Timer(new_timer()));
    let mut stalled = match report.outcome {
        RunOutcome::Stalled(f) => f,
        RunOutcome::Finished(v) => panic!("timer finished early with {}", v),
    };
    assert!(stalled.fire());
    let second = run_future(stalled);
    assert!(matches!(second.outcome, RunOutcome::Finished(0)));
}
