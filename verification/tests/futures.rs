use coop_sched::future::AlmostReady;
use coop_sched::future::Context;
use coop_sched::future::CountdownFuture;
use coop_sched::future::ForkFuture;
use coop_sched::future::Fut;
use coop_sched::future::Poll;
use coop_sched::future::TimerFuture;
use coop_sched::future::TwoPhaseFuture;
use coop_sched::future::almost_ready;
use coop_sched::future::new_timer;

#[test]
fn almost_ready_wakes_itself_then_completes() {
    let mut f = almost_ready(5);
    let mut cx = Context::new();
    assert_eq!(f.poll(&mut cx), Poll::Pending);
    assert!(cx.woke);
    assert!(f.ready);
    let mut cx2 = Context::new();
    assert_eq!(f.poll(&mut cx2), Poll::Ready(5));
    assert!(!cx2.woke);
}

#[test]
fn almost_ready_keeps_negative_values() {
    let mut f = Fut::Almost(almost_ready(-3));
    let mut cx = Context::new();
    assert_eq!(f.poll(&mut cx), Poll::Pending);
    let mut cx2 = Context::new();
    assert_eq!(f.poll(&mut cx2), Poll::Ready(-3));
}

#[test]
fn countdown_wakes_once_per_poll() {
    let mut f = Fut::Countdown(CountdownFuture { remaining: 2 });
    for _ in 0..2 {
        let mut cx = Context::new();
        assert_eq!(f.poll(&mut cx), Poll::Pending);
        assert!(cx.woke);
    }
    let mut cx = Context::new();
    assert_eq!(f.poll(&mut cx), Poll::Ready(0));
    assert!(!cx.woke);
}

#[test]
fn two_phase_emits_in_order() {
    let mut f = Fut::TwoPhase(TwoPhaseFuture { first: 65, second: 66, advanced: false });
    let mut cx = Context::new();
    assert_eq!(f.poll(&mut cx), Poll::Pending);
    assert_eq!(cx.emitted, vec![65]);
    assert!(cx.woke);
    let mut cx2 = Context::new();
    assert_eq!(f.poll(&mut cx2), Poll::Ready(0));
    assert_eq!(cx2.emitted, vec![66]);
}

#[test]
fn timer_is_never_ready_before_its_deadline_event() {
    let mut f = Fut::Timer(new_timer());
    let mut cx = Context::new();
    assert_eq!(f.poll(&mut cx), Poll::Pending);
    assert!(!cx.woke);
    let mut cx2 = Context::new();
    assert_eq!(f.poll(&mut cx2), Poll::Pending);
    assert!(f.fire());
    assert!(!f.fire());
    let mut cx3 = Context::new();
    assert_eq!(f.poll(&mut cx3), Poll::Ready(0));
}

#[test]
fn firing_a_non_timer_is_a_no_op() {
    let mut f = Fut::Almost(almost_ready(1));
    assert!(!f.fire());
    let mut cx = Context::new();
    assert_eq!(f.poll(&mut cx), Poll::Pending);
}

#[test]
fn fork_hands_its_child_to_the_context() {
    let child = Box::new(Fut::Almost(almost_ready(7)));
    let mut f = Fut::Fork(ForkFuture { child: Some(child) });
    let mut cx = Context::new();
    assert_eq!(f.poll(&mut cx), Poll::Pending);
    assert!(cx.woke);
    assert_eq!(cx.spawned.len(), 1);
    let mut cx2 = Context::new();
    assert_eq!(f.poll(&mut cx2), Poll::Ready(0));
    assert!(cx2.spawned.is_empty());
}

#[test]
fn timer_arming_is_recorded() {
    let mut t = TimerFuture { armed: false, completed: false };
    let mut f = Fut::Timer(t);
    let mut cx = Context::new();
    assert_eq!(f.poll(&mut cx), Poll::Pending);
    match f {
        Fut::Timer(tm) => {
            t = tm;
        },
        _ => unreachable!(),
    }
    assert!(t.armed);
    assert!(!t.completed);
}

#[test]
fn almost_ready_fields() {
    let f = almost_ready(42);
    assert_eq!(f, AlmostReady { ready: false, value: 42 });
}
