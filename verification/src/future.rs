//! The unit-of-work abstraction.
//!
//! A future is an opaque state machine with one operation,
//! `poll(context) -> Ready(value) | Pending`.  It may hold internal state
//! that survives across polls.  During a poll it can ask, through the
//! [`Context`], for itself to be re-examined (wake), for sibling work to be
//! enqueued (spawn), and it can emit observable output.
//!
//! The library models "any future type" as a closed set of variant
//! computations, [`Fut`].  The spec-level function [`poll_eff`] describes
//! exactly what one polling step of each variant does; the executable
//! `poll` methods are proved against it.

use vstd::prelude::*;

verus! {

/// The outcome of one polling step: completion with a value, or not ready.
#[derive(Clone, Copy, PartialEq, Eq, Structural, Debug)]
pub enum Poll {
    Ready(i64),
    Pending,
}

/// The per-poll bundle handed to a future: the current poll's wake
/// capability, a spawn capability, and an output channel.  It is
/// constructed fresh for each poll and read back by the caller afterwards;
/// nothing in it persists across polls.
#[derive(Debug)]
pub struct Context {
    /// The future asked to be re-enqueued (it invoked its own waker).
    pub woke: bool,
    /// Sibling futures the future asked to have enqueued, in request order.
    pub spawned: Vec<Fut>,
    /// Observable output produced during this poll, in emission order.
    pub emitted: Vec<i64>,
}

impl Context {
    /// A fresh context: nothing woken, spawned or emitted yet.
    pub fn new() -> (cx: Context)
        ensures
            !cx.woke,
            cx.spawned@ == Seq::<Fut>::empty(),
            cx.emitted@ == Seq::<i64>::empty(),
    {
        Context { woke: false, spawned: Vec::new(), emitted: Vec::new() }
    }

    /// Invoke this poll's waker: request that the task being polled be
    /// re-enqueued once the poll returns.
    pub fn wake(&mut self)
        ensures
            final(self).woke,
            final(self).spawned@ == old(self).spawned@,
            final(self).emitted@ == old(self).emitted@,
    {
        self.woke = true;
    }

    /// Request that `f` be enqueued as a sibling task on the same scheduler.
    pub fn spawn(&mut self, f: Fut)
        ensures
            final(self).woke == old(self).woke,
            final(self).spawned@ == old(self).spawned@.push(f),
            final(self).emitted@ == old(self).emitted@,
    {
        self.spawned.push(f);
    }

    /// Emit one unit of observable output.
    pub fn emit(&mut self, v: i64)
        ensures
            final(self).woke == old(self).woke,
            final(self).spawned@ == old(self).spawned@,
            final(self).emitted@ == old(self).emitted@.push(v),
    {
        self.emitted.push(v);
    }
}

/// A future that reports not-ready exactly once, waking itself so that the
/// very next poll finds it ready with its value.
#[derive(Clone, Copy, PartialEq, Eq, Structural, Debug)]
pub struct AlmostReady {
    pub ready: bool,
    pub value: i32,
}

/// A new [`AlmostReady`] that will complete with `value` on its second poll.
pub fn almost_ready(value: i32) -> (f: AlmostReady)
    ensures
        !f.ready,
        f.value == value,
{
    AlmostReady { ready: false, value }
}

impl AlmostReady {
    pub fn poll(&mut self, cx: &mut Context) -> (r: Poll)
        ensures
            old(self).ready ==> {
                &&& r == Poll::Ready(old(self).value as i64)
                &&& *final(self) == *old(self)
                &&& final(cx).woke == old(cx).woke
            },
            !old(self).ready ==> {
                &&& r == Poll::Pending
                &&& *final(self) == (AlmostReady { ready: true, value: old(self).value })
                &&& final(cx).woke
            },
            final(cx).spawned@ == old(cx).spawned@,
            final(cx).emitted@ == old(cx).emitted@,
    {
        if self.ready {
            Poll::Ready(self.value as i64)
        } else {
            self.ready = true;
            cx.wake();
            Poll::Pending
        }
    }
}

/// A future that wakes itself on every poll and completes after `remaining`
/// self-wakes: it is polled exactly `remaining + 1` times in total.
#[derive(Clone, Copy, PartialEq, Eq, Structural, Debug)]
pub struct CountdownFuture {
    pub remaining: u32,
}

/// A future that emits `first` on its initial poll, suspends once by waking
/// itself, then emits `second` and completes on the following poll.
#[derive(Clone, Copy, PartialEq, Eq, Structural, Debug)]
pub struct TwoPhaseFuture {
    pub first: i64,
    pub second: i64,
    pub advanced: bool,
}

/// The timer reference pattern.  Two states: fresh (`armed` is false, never
/// polled) and armed (background activity started, waiting).  The first
/// poll arms it and returns `Pending` without waking: from then on only the
/// external deadline event — [`Fut::fire`], the model of the background
/// activity setting the shared done flag and invoking the stored waker —
/// makes progress possible.  A timer never completes on the poll that arms
/// it, only on a poll that observes `completed`.
#[derive(Clone, Copy, PartialEq, Eq, Structural, Debug)]
pub struct TimerFuture {
    pub armed: bool,
    pub completed: bool,
}

/// A fresh, unarmed timer.
pub fn new_timer() -> (t: TimerFuture)
    ensures
        !t.armed,
        !t.completed,
{
    TimerFuture { armed: false, completed: false }
}

/// A future that, on its first poll, spawns a sibling future from inside
/// its own poll and wakes itself; it completes on its second poll.  The
/// spawned sibling is handed to the same scheduler's ready queue.
#[derive(Debug)]
pub struct ForkFuture {
    pub child: Option<Box<Fut>>,
}

/// The closed set of future variants the scheduler drives.
#[derive(Debug)]
pub enum Fut {
    Almost(AlmostReady),
    Countdown(CountdownFuture),
    TwoPhase(TwoPhaseFuture),
    Timer(TimerFuture),
    Fork(ForkFuture),
}

/// Everything one polling step of a future does, as one mathematical value:
/// the poll result, the future's state after the poll (equal to the polled
/// state when the result is `Ready`), whether the future invoked its own
/// waker, the siblings it asked to spawn, and the output it emitted.
#[verifier::ext_equal]
pub ghost struct PollEffect {
    pub result: Poll,
    pub next: Fut,
    pub wakes: bool,
    pub spawns: Seq<Fut>,
    pub emits: Seq<i64>,
}

/// The exact effect of polling `f` once.
pub open spec fn poll_eff(f: Fut) -> PollEffect {
    match f {
        Fut::Almost(a) => if a.ready {
            PollEffect {
                result: Poll::Ready(a.value as i64),
                next: f,
                wakes: false,
                spawns: Seq::empty(),
                emits: Seq::empty(),
            }
        } else {
            PollEffect {
                result: Poll::Pending,
                next: Fut::Almost(AlmostReady { ready: true, value: a.value }),
                wakes: true,
                spawns: Seq::empty(),
                emits: Seq::empty(),
            }
        },
        Fut::Countdown(c) => if c.remaining == 0 {
            PollEffect {
                result: Poll::Ready(0),
                next: f,
                wakes: false,
                spawns: Seq::empty(),
                emits: Seq::empty(),
            }
        } else {
            PollEffect {
                result: Poll::Pending,
                next: Fut::Countdown(CountdownFuture { remaining: (c.remaining - 1) as u32 }),
                wakes: true,
                spawns: Seq::empty(),
                emits: Seq::empty(),
            }
        },
        Fut::TwoPhase(tp) => if tp.advanced {
            PollEffect {
                result: Poll::Ready(0),
                next: f,
                wakes: false,
                spawns: Seq::empty(),
                emits: seq![tp.second],
            }
        } else {
            PollEffect {
                result: Poll::Pending,
                next: Fut::TwoPhase(TwoPhaseFuture { first: tp.first, second: tp.second, advanced: true }),
                wakes: true,
                spawns: Seq::empty(),
                emits: seq![tp.first],
            }
        },
        Fut::Timer(tm) => if tm.completed {
            PollEffect {
                result: Poll::Ready(0),
                next: f,
                wakes: false,
                spawns: Seq::empty(),
                emits: Seq::empty(),
            }
        } else {
            PollEffect {
                result: Poll::Pending,
                next: Fut::Timer(TimerFuture { armed: true, completed: false }),
                wakes: false,
                spawns: Seq::empty(),
                emits: Seq::empty(),
            }
        },
        Fut::Fork(fk) => match fk.child {
            Some(c) => PollEffect {
                result: Poll::Pending,
                next: Fut::Fork(ForkFuture { child: None }),
                wakes: true,
                spawns: seq![*c],
                emits: Seq::empty(),
            },
            None => PollEffect {
                result: Poll::Ready(0),
                next: f,
                wakes: false,
                spawns: Seq::empty(),
                emits: Seq::empty(),
            },
        },
    }
}

/// What the deadline event does to a future: an uncompleted timer gains its
/// done flag; every other future is left untouched.
pub open spec fn fire_fut(f: Fut) -> Fut {
    match f {
        Fut::Timer(tm) => if tm.completed {
            f
        } else {
            Fut::Timer(TimerFuture { armed: tm.armed, completed: true })
        },
        _ => f,
    }
}

/// Whether the deadline event has any effect on `f`.
pub open spec fn fut_fireable(f: Fut) -> bool {
    match f {
        Fut::Timer(tm) => !tm.completed,
        _ => false,
    }
}

impl Fut {
    /// One polling step.  When the result is `Pending` the future is left
    /// in its successor state; when it is `Ready` the future's state is
    /// unchanged and the caller must not poll it again.
    pub fn poll(&mut self, cx: &mut Context) -> (r: Poll)
        ensures
            ({
                let e = poll_eff(*old(self));
                &&& r == e.result
                &&& *final(self) == e.next
                &&& final(cx).woke == (old(cx).woke || e.wakes)
                &&& final(cx).spawned@ == old(cx).spawned@ + e.spawns
                &&& final(cx).emitted@ == old(cx).emitted@ + e.emits
            }),
    {
        let r = match self {
            Fut::Almost(a) => a.poll(cx),
            Fut::Countdown(c) => {
                if c.remaining == 0 {
                    Poll::Ready(0)
                } else {
                    c.remaining = c.remaining - 1;
                    cx.wake();
                    Poll::Pending
                }
            },
            Fut::TwoPhase(tp) => {
                if tp.advanced {
                    cx.emit(tp.second);
                    Poll::Ready(0)
                } else {
                    tp.advanced = true;
                    cx.emit(tp.first);
                    cx.wake();
                    Poll::Pending
                }
            },
            Fut::Timer(tm) => {
                if tm.completed {
                    Poll::Ready(0)
                } else {
                    tm.armed = true;
                    Poll::Pending
                }
            },
            Fut::Fork(fk) => {
                match fk.child.take() {
                    Some(c) => {
                        cx.spawn(*c);
                        cx.wake();
                        Poll::Pending
                    },
                    None => Poll::Ready(0),
                }
            },
        };
        proof {
            assert(final(cx).spawned@ =~= old(cx).spawned@ + poll_eff(*old(self)).spawns);
            assert(final(cx).emitted@ =~= old(cx).emitted@ + poll_eff(*old(self)).emits);
        }
        r
    }

    /// The external deadline event for the timer pattern: set the shared
    /// done flag.  Returns whether anything changed (at most once per timer
    /// instance, since the flag never clears).
    pub fn fire(&mut self) -> (fired: bool)
        ensures
            *final(self) == fire_fut(*old(self)),
            fired == fut_fireable(*old(self)),
    {
        match self {
            Fut::Timer(tm) => {
                let was = tm.completed;
                tm.completed = true;
                !was
            },
            _ => false,
        }
    }
}

/// An upper bound on the scheduling work a future can still cause: the
/// number of ready-queue insertions its own wakes and spawns will ever
/// request.  Polling a pending future pays for every queue entry it adds,
/// which is what makes the scheduler's drain loop terminate.
pub open spec fn fut_weight(f: Fut) -> nat
    decreases f,
{
    match f {
        Fut::Almost(a) => if a.ready { 0 } else { 1 },
        Fut::Countdown(c) => c.remaining as nat,
        Fut::TwoPhase(tp) => if tp.advanced { 0 } else { 1 },
        Fut::Timer(_) => 0,
        Fut::Fork(fk) => match fk.child {
            Some(c) => 2 + fut_weight(*c),
            None => 0,
        },
    }
}

/// The combined weight of a batch of futures.
pub open spec fn futs_weight(fs: Seq<Fut>) -> nat
    decreases fs.len(),
{
    if fs.len() == 0 {
        0
    } else {
        futs_weight(fs.drop_last()) + fut_weight(fs.last())
    }
}

/// Polling accounts exactly for the work a future causes: its weight equals
/// the queue entries this poll requests (one per wake, one per spawned
/// sibling) plus the weight left in its successor state and in the spawned
/// siblings.
pub proof fn lemma_poll_eff_weight(f: Fut)
    ensures
        ({
            let e = poll_eff(f);
            fut_weight(f) == (if e.wakes { 1nat } else { 0nat }) + e.spawns.len()
                + futs_weight(e.spawns) + (if e.result is Pending { fut_weight(e.next) } else { 0nat })
        }),
{
    let e = poll_eff(f);
    assert(e.spawns.len() == 0 ==> futs_weight(e.spawns) == 0);
    match f {
        Fut::Fork(fk) => match fk.child {
            Some(c) => {
                assert(e.spawns =~= seq![*c]);
                assert(e.spawns.drop_last() =~= Seq::<Fut>::empty());
                assert(e.spawns.last() == *c);
                assert(futs_weight(Seq::<Fut>::empty()) == 0);
                assert(futs_weight(e.spawns) == fut_weight(*c));
            },
            None => {},
        },
        _ => {},
    }
}

} // verus!
