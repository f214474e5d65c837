//! The scheduling protocol's guarantees, proved over the same spec
//! functions that the executor's contracts use.
//!
//! The heart of the protocol is that polling never implies progress: a
//! task is re-examined only because something asked for it.  The laws
//! below pin that down from both sides — no re-poll without a wake, a poll
//! for every wake of a live task — and show that waking is safe at any
//! time: after completion it is an exact no-op, and duplicates at worst
//! cause harmless extra polls.

use vstd::prelude::*;

use crate::executor::SchedState;
use crate::executor::TaskModel;
use crate::executor::spawned_task;
use crate::executor::state_wf;
use crate::executor::step_spec;
use crate::executor::run_n;
use crate::executor::wake_spec;
use crate::executor::lemma_step_preserves_wf;
use crate::executor::lemma_step_grows;
use crate::future::CountdownFuture;
use crate::future::ForkFuture;
use crate::future::Fut;
use crate::future::poll_eff;

verus! {

/// Running for `1 + n` steps is one step and then running for `n`.
pub proof fn lemma_run_n_shift(s: SchedState, n: nat)
    ensures
        run_n(s, n + 1) == run_n(step_spec(s), n),
    decreases n,
{
    assert(run_n(s, 0) == s);
    assert(run_n(step_spec(s), 0) == step_spec(s));
    if n > 0 {
        lemma_run_n_shift(s, (n - 1) as nat);
        assert(run_n(s, n + 1) == step_spec(run_n(s, n)));
        assert(run_n(step_spec(s), n) == step_spec(run_n(step_spec(s), (n - 1) as nat)));
    } else {
        assert(run_n(s, 1) == step_spec(run_n(s, 0)));
    }
}

/// One step leaves every task other than the dequeued one untouched.
proof fn lemma_step_other_task(s: SchedState, t: int)
    requires
        state_wf(s),
        0 <= t < s.tasks.len(),
        s.queue.len() > 0 ==> s.queue.first() != t,
    ensures
        step_spec(s).tasks[t] == s.tasks[t],
{
    if s.queue.len() > 0 {
        let h = s.queue.first();
        assert(0 <= h < s.tasks.len());
    }
}

/// A task that is not in the queue is not polled by a step, and the step
/// does not put it there: entries are added only for the dequeued task's
/// own wake and for freshly spawned siblings.
proof fn lemma_step_unqueued(s: SchedState, t: int)
    requires
        state_wf(s),
        0 <= t < s.tasks.len(),
        !s.queue.contains(t),
    ensures
        step_spec(s).tasks[t] == s.tasks[t],
        !step_spec(s).queue.contains(t),
        state_wf(step_spec(s)),
        step_spec(s).tasks.len() >= s.tasks.len(),
{
    lemma_step_preserves_wf(s);
    lemma_step_grows(s);
    let r = step_spec(s);
    if s.queue.len() > 0 {
        let h = s.queue.first();
        assert(s.queue.contains(h)) by {
            assert(s.queue[0] == h);
        }
        lemma_step_other_task(s, t);
        assert forall|k: int| 0 <= k < r.queue.len() implies r.queue[k] != t by {
            if k < s.queue.len() - 1 {
                assert(s.queue[k + 1] != t) by {
                    assert(!s.queue.contains(t));
                }
            }
        }
    }
}

/// NO PROGRESS WITHOUT A WAKE, iterated: a task that is not in the ready
/// queue is never polled and never changes, however long the scheduler
/// runs — nothing else can put it back.
pub proof fn lemma_untouched_while_unqueued(s: SchedState, t: int, n: nat)
    requires
        state_wf(s),
        0 <= t < s.tasks.len(),
        !s.queue.contains(t),
    ensures
        run_n(s, n).tasks[t] == s.tasks[t],
        !run_n(s, n).queue.contains(t),
        state_wf(run_n(s, n)),
        run_n(s, n).tasks.len() >= s.tasks.len(),
    decreases n,
{
    if n > 0 {
        lemma_untouched_while_unqueued(s, t, (n - 1) as nat);
        lemma_step_unqueued(run_n(s, (n - 1) as nat), t);
    }
}

/// NO PROGRESS WITHOUT A WAKE.  A future that returns not-ready without
/// invoking its waker (and without spawning) is polled exactly once and
/// then never again, no matter how long the scheduler keeps running: its
/// poll count rises by one and its slot keeps the suspended state forever.
pub proof fn lemma_no_progress_without_wake(s: SchedState, n: nat)
    requires
        state_wf(s),
        s.queue.len() > 0,
        !s.queue.drop_first().contains(s.queue.first()),
        s.tasks[s.queue.first()].slot is Some,
        poll_eff(s.tasks[s.queue.first()].slot->Some_0).result is Pending,
        !poll_eff(s.tasks[s.queue.first()].slot->Some_0).wakes,
        poll_eff(s.tasks[s.queue.first()].slot->Some_0).spawns.len() == 0,
    ensures
        ({
            let t = s.queue.first();
            let e = poll_eff(s.tasks[t].slot->Some_0);
            &&& run_n(s, 1 + n).tasks[t].polls == s.tasks[t].polls + 1
            &&& run_n(s, 1 + n).tasks[t].slot == Some(e.next)
        }),
{
    let t = s.queue.first();
    let e = poll_eff(s.tasks[t].slot->Some_0);
    let s1 = step_spec(s);
    assert(0 <= t < s.tasks.len()) by {
        assert(s.queue[0] == t);
    }
    assert(s1.queue =~= s.queue.drop_first());
    assert(s1.tasks[t] == TaskModel { slot: Some(e.next), polls: s.tasks[t].polls + 1 });
    lemma_step_preserves_wf(s);
    lemma_untouched_while_unqueued(s1, t, n);
    lemma_run_n_shift(s, n);
}

/// One step cannot disturb a completed task: if its slot is empty it stays
/// empty and its poll count does not move (a dequeue of it is skipped).
proof fn lemma_step_done_stays(s: SchedState, t: int)
    requires
        state_wf(s),
        0 <= t < s.tasks.len(),
        s.tasks[t].slot is None,
    ensures
        step_spec(s).tasks[t] == s.tasks[t],
{
    if s.queue.len() > 0 && s.queue.first() != t {
        lemma_step_other_task(s, t);
    }
}

/// Completion is final: once a task's slot is empty it stays empty and the
/// task is never polled again, however long the scheduler runs.
pub proof fn lemma_done_stays_done(s: SchedState, t: int, n: nat)
    requires
        state_wf(s),
        0 <= t < s.tasks.len(),
        s.tasks[t].slot is None,
    ensures
        run_n(s, n).tasks[t] == s.tasks[t],
        state_wf(run_n(s, n)),
        run_n(s, n).tasks.len() >= s.tasks.len(),
    decreases n,
{
    if n > 0 {
        lemma_done_stays_done(s, t, (n - 1) as nat);
        lemma_step_done_stays(run_n(s, (n - 1) as nat), t);
        lemma_step_preserves_wf(run_n(s, (n - 1) as nat));
        lemma_step_grows(run_n(s, (n - 1) as nat));
    }
}

/// WAKE AFTER COMPLETION IS HARMLESS.  Waking a task whose future has
/// already completed only queues an entry that is later skipped: the
/// task's slot stays empty, it is never polled again, and no state of any
/// other task is touched by the wake itself.
pub proof fn lemma_wake_after_done_harmless(s: SchedState, t: int, n: nat)
    requires
        state_wf(s),
        0 <= t < s.tasks.len(),
        s.tasks[t].slot is None,
    ensures
        wake_spec(s, t).tasks == s.tasks,
        wake_spec(s, t).log == s.log,
        wake_spec(s, t).finished == s.finished,
        state_wf(wake_spec(s, t)),
        run_n(wake_spec(s, t), n).tasks[t] == s.tasks[t],
    decreases n,
{
    let s2 = wake_spec(s, t);
    assert(state_wf(s2)) by {
        if !s.closed {
            assert forall|i: int|
                0 <= i < s2.queue.len() implies 0 <= #[trigger] s2.queue[i] < s2.tasks.len() by {
                if i < s.queue.len() {
                    assert(0 <= s.queue[i] < s.tasks.len());
                }
            }
        }
    }
    lemma_done_stays_done(s2, t, n);
}

/// After running `i` steps, when none of the first `i` queue entries named
/// task `t`: the entries past them have moved to the front of the queue
/// unchanged, and `t` itself is untouched.
proof fn lemma_prefix_preserved(s: SchedState, t: int, i: nat)
    requires
        state_wf(s),
        0 <= t < s.tasks.len(),
        i <= s.queue.len(),
        forall|j: int| 0 <= j < i ==> #[trigger] s.queue[j] != t,
    ensures
        ({
            let r = run_n(s, i);
            &&& state_wf(r)
            &&& r.tasks.len() >= s.tasks.len()
            &&& r.tasks[t] == s.tasks[t]
            &&& r.queue.len() >= s.queue.len() - i
            &&& forall|j: int|
                0 <= j < s.queue.len() - i ==> #[trigger] r.queue[j] == s.queue[i + j]
        }),
    decreases i,
{
    if i > 0 {
        lemma_prefix_preserved(s, t, (i - 1) as nat);
        let p = run_n(s, (i - 1) as nat);
        assert(p.queue[0] == s.queue[i - 1]);
        assert(s.queue[i - 1] != t);
        lemma_step_other_task(p, t);
        lemma_step_preserves_wf(p);
        lemma_step_grows(p);
        let r = step_spec(p);
        assert forall|j: int|
            0 <= j < s.queue.len() - i implies #[trigger] r.queue[j] == s.queue[i + j] by {
            assert(p.queue[j + 1] == s.queue[(i - 1) + (j + 1)]);
        }
    }
}

/// EVERY WAKE OF A LIVE TASK IS ANSWERED.  If a still-pending task sits in
/// the ready queue, then by the time the scheduler has worked through the
/// entries in front of its first occurrence it polls that task — the poll
/// count goes up.  Combined with [`lemma_wake_after_done_harmless`], any
/// number of concurrent wakes of a pending task yields at least one, and
/// possibly more than one, subsequent poll — never zero.
pub proof fn lemma_queued_pending_task_polled(s: SchedState, k: int)
    requires
        state_wf(s),
        0 <= k < s.queue.len(),
        s.tasks[s.queue[k]].slot is Some,
        forall|j: int| 0 <= j < k ==> #[trigger] s.queue[j] != s.queue[k],
    ensures
        run_n(s, (k + 1) as nat).tasks[s.queue[k]].polls == s.tasks[s.queue[k]].polls + 1,
{
    let t = s.queue[k];
    assert(0 <= t < s.tasks.len());
    lemma_prefix_preserved(s, t, k as nat);
    let p = run_n(s, k as nat);
    assert(p.queue[0] == s.queue[k]);
    assert(step_spec(p).tasks[t].polls == p.tasks[t].polls + 1);
    assert(run_n(s, (k + 1) as nat) == step_spec(p));
}

/// DUPLICATE WAKES, AT LEAST ONE POLL.  Two wakes delivered for the same
/// still-pending, not-yet-queued task put two entries in the queue; once
/// the scheduler reaches the first of them the task is polled.  Never zero
/// polls; the surplus entry at worst causes one more harmless poll or is
/// skipped.
pub proof fn lemma_concurrent_wakes_get_polled(s: SchedState, t: int)
    requires
        state_wf(s),
        0 <= t < s.tasks.len(),
        s.tasks[t].slot is Some,
        !s.closed,
        !s.queue.contains(t),
    ensures
        ({
            let s2 = wake_spec(wake_spec(s, t), t);
            run_n(s2, (s.queue.len() + 1) as nat).tasks[t].polls == s.tasks[t].polls + 1
        }),
{
    let s2 = wake_spec(wake_spec(s, t), t);
    assert(s2.queue =~= s.queue.push(t).push(t));
    assert(state_wf(s2)) by {
        assert forall|i: int|
            0 <= i < s2.queue.len() implies 0 <= #[trigger] s2.queue[i] < s2.tasks.len() by {
            if i < s.queue.len() {
                assert(0 <= s.queue[i] < s.tasks.len());
            }
        }
    }
    let k = s.queue.len() as int;
    assert(s2.queue[k] == t);
    assert forall|j: int| 0 <= j < k implies #[trigger] s2.queue[j] != t by {
        assert(s2.queue[j] == s.queue[j]);
        assert(!s.queue.contains(t));
    }
    lemma_queued_pending_task_polled(s2, k);
}

/// BOUNDED SELF-WAKING COMPLETION.  A future that wakes itself on every
/// poll before returning not-ready is driven to completion in exactly as
/// many poll cycles as it needs self-wakes, plus the final completing
/// poll: a lone countdown task is done — slot empty, queue drained, its
/// completion recorded — after `remaining + 1` steps.
pub proof fn lemma_self_waker_completes(s: SchedState, cd: CountdownFuture)
    requires
        s.tasks.len() == 1,
        s.tasks[0].slot == Some(Fut::Countdown(cd)),
        s.queue == seq![0int],
    ensures
        ({
            let r = run_n(s, (cd.remaining + 1) as nat);
            &&& r.tasks == seq![
                TaskModel { slot: None, polls: (s.tasks[0].polls + cd.remaining + 1) as nat },
            ]
            &&& r.queue.len() == 0
            &&& r.log == s.log
            &&& r.finished == s.finished.push((0int, 0i64))
            &&& r.closed == s.closed
        }),
    decreases cd.remaining,
{
    let s1 = step_spec(s);
    assert(run_n(s, 0) == s);
    assert(run_n(s, 1) == step_spec(run_n(s, 0)));
    if cd.remaining == 0 {
        assert(s1.tasks =~= seq![TaskModel { slot: None, polls: s.tasks[0].polls + 1 }]);
        assert(s1.queue =~= Seq::<int>::empty());
        assert(run_n(s, 1) == s1);
    } else {
        let cd1 = CountdownFuture { remaining: (cd.remaining - 1) as u32 };
        assert(s1.tasks =~= seq![
            TaskModel { slot: Some(Fut::Countdown(cd1)), polls: s.tasks[0].polls + 1 },
        ]);
        assert(s1.queue =~= seq![0int]);
        lemma_self_waker_completes(s1, cd1);
        lemma_run_n_shift(s, cd.remaining as nat);
        let r1 = run_n(s1, (cd1.remaining + 1) as nat);
        let r = run_n(s, (cd.remaining + 1) as nat);
        assert(r == r1);
        assert(r.tasks =~= seq![
            TaskModel { slot: None, polls: (s.tasks[0].polls + cd.remaining + 1) as nat },
        ]);
    }
}

/// COMPLETION IS RECORDED, EXACTLY ONCE.  Whenever a run empties a task's
/// future slot, the completion record holds an entry for that task — and
/// well-formedness ([`state_wf`]) already guarantees there is never more
/// than one, so a task reaches "done" exactly once.
pub proof fn lemma_completion_recorded(s: SchedState, t: int, n: nat)
    requires
        state_wf(s),
        0 <= t < s.tasks.len(),
        s.tasks[t].slot is Some,
        run_n(s, n).tasks[t].slot is None,
    ensures
        exists|i: int|
            0 <= i < run_n(s, n).finished.len() && (#[trigger] run_n(s, n).finished[i]).0 == t,
    decreases n,
{
    if n > 0 {
        let p = run_n(s, (n - 1) as nat);
        let r = run_n(s, n);
        crate::executor::lemma_run_n_preserves_wf(s, (n - 1) as nat);
        crate::executor::lemma_run_n_grows(s, (n - 1) as nat);
        assert(r == step_spec(p));
        if p.tasks[t].slot is None {
            lemma_completion_recorded(s, t, (n - 1) as nat);
            let i = choose|i: int|
                0 <= i < p.finished.len() && (#[trigger] p.finished[i]).0 == t;
            assert(r.finished[i] == p.finished[i]);
        } else {
            assert(p.queue.len() > 0 && p.queue.first() == t) by {
                if p.queue.len() > 0 && p.queue.first() != t {
                    lemma_step_other_task(p, t);
                }
            }
            assert(r.finished[p.finished.len() as int].0 == t);
        }
    }
}

/// HISTORY IS APPEND-ONLY.  However long the scheduler runs, the output
/// log and the completion record only grow: what one task emitted or
/// completed with is never disturbed by the scheduling of any other task.
pub proof fn lemma_run_n_appends(s: SchedState, n: nat)
    ensures
        run_n(s, n).log.len() >= s.log.len(),
        forall|i: int| 0 <= i < s.log.len() ==> #[trigger] run_n(s, n).log[i] == s.log[i],
        run_n(s, n).finished.len() >= s.finished.len(),
        forall|i: int|
            0 <= i < s.finished.len() ==> #[trigger] run_n(s, n).finished[i] == s.finished[i],
    decreases n,
{
    if n > 0 {
        lemma_run_n_appends(s, (n - 1) as nat);
    }
}

/// SPAWNED WORK IS VISIBLE AND SCHEDULED.  A future that spawns a sibling
/// from inside its own poll makes that sibling a task of the same
/// scheduler at once — it is in the arena and in the ready queue ahead of
/// the parent's self-wake — and the sibling is polled on the very next
/// step, before the outer future has completed.
pub proof fn lemma_spawned_sibling_polled(s: SchedState, child: Box<Fut>)
    requires
        state_wf(s),
        s.tasks.len() == 1,
        s.tasks[0].slot == Some(Fut::Fork(ForkFuture { child: Some(child) })),
        s.queue == seq![0int],
    ensures
        ({
            let r1 = run_n(s, 1);
            let r2 = run_n(s, 2);
            &&& r1.tasks.len() == 2
            &&& r1.tasks[1] == spawned_task(*child)
            &&& r1.queue == seq![1int, 0int]
            &&& r2.tasks[1].polls == 1
            &&& r2.tasks[0].slot == Some(Fut::Fork(ForkFuture { child: None }))
        }),
{
    let s1 = step_spec(s);
    assert(run_n(s, 0) == s);
    assert(run_n(s, 1) == step_spec(run_n(s, 0)));
    assert(run_n(s, 2) == step_spec(run_n(s, 1)));
    assert(s1.tasks =~= seq![
        TaskModel { slot: Some(Fut::Fork(ForkFuture { child: None })), polls: s.tasks[0].polls + 1 },
        spawned_task(*child),
    ]);
    assert(s1.queue =~= seq![1int, 0int]);
    let r2 = step_spec(s1);
    assert(r2.tasks[1].polls == s1.tasks[1].polls + 1);
    assert(r2.tasks[0].slot == s1.tasks[0].slot);
}

} // verus!
