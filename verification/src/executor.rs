//! The task arena, the ready queue, the wake protocol and the scheduler.
//!
//! A [`Task`] couples one future instance to the identity used as its wake
//! target: its index in the executor's task arena.  The [`Executor`] owns
//! the arena and a FIFO ready queue of task indices.  [`Executor::step`]
//! drives one dequeued task through one polling step; [`Executor::run`]
//! drains the queue until it is empty.
//!
//! The core design invariant: polling does not imply progress; only waking
//! does.  A task that returns `Pending` without waking is not re-enqueued,
//! and the only ways back into the queue are its own wake request during a
//! poll, an external [`Executor::wake`], or the timer deadline event
//! [`Executor::fire_timer`].
//!
//! Every mutation is specified exactly against the ghost model
//! [`SchedState`]: `step` implements [`step_spec`], `run` implements an
//! iteration [`run_n`] of it, and the protocol's guarantees are proved over
//! the same functions in [`crate::laws`].

use std::collections::VecDeque;
use vstd::prelude::*;

use crate::future::Fut;
use crate::future::Poll;
use crate::future::Context;
use crate::future::PollEffect;
use crate::future::poll_eff;
use crate::future::fire_fut;
use crate::future::fut_fireable;
use crate::future::fut_weight;
use crate::future::futs_weight;
use crate::future::lemma_poll_eff_weight;

verus! {

/// The ghost model of one task: the future slot (empty exactly when the
/// future has completed) and how often the task has been polled.
#[verifier::ext_equal]
pub ghost struct TaskModel {
    pub slot: Option<Fut>,
    pub polls: nat,
}

/// The ghost model of the whole scheduler.
#[verifier::ext_equal]
pub ghost struct SchedState {
    /// The task arena; a task's index is its identity and its wake target.
    pub tasks: Seq<TaskModel>,
    /// The ready queue: task indices in FIFO order, duplicates allowed.
    pub queue: Seq<int>,
    /// All output emitted by polls so far, in emission order.
    pub log: Seq<i64>,
    /// Completed tasks, in completion order, with their results.
    pub finished: Seq<(int, i64)>,
    /// Whether the queue's consumer side has shut down (spawns are
    /// rejected and external wakes are dropped).
    pub closed: bool,
}

/// Well-formedness: every queued index and every finished entry names a
/// real task; a finished task's slot is empty; no task finishes twice.
pub open spec fn state_wf(s: SchedState) -> bool {
    &&& forall|i: int|
        0 <= i < s.queue.len() ==> 0 <= #[trigger] s.queue[i] < s.tasks.len()
    &&& forall|i: int|
        0 <= i < s.finished.len() ==> {
            &&& 0 <= (#[trigger] s.finished[i]).0 < s.tasks.len()
            &&& s.tasks[s.finished[i].0].slot is None
        }
    &&& forall|i: int, j: int|
        0 <= i < j < s.finished.len() ==> (#[trigger] s.finished[i]).0 != (#[trigger] s.finished[j]).0
}

/// The model of a freshly spawned task.
pub open spec fn spawned_task(f: Fut) -> TaskModel {
    TaskModel { slot: Some(f), polls: 0 }
}

/// The scheduler with no tasks, an empty queue and a live consumer.
pub open spec fn init_state() -> SchedState {
    SchedState {
        tasks: Seq::empty(),
        queue: Seq::empty(),
        log: Seq::empty(),
        finished: Seq::empty(),
        closed: false,
    }
}

/// What spawning `f` does: a new task at the end of the arena, immediately
/// enqueued.  (Callers check `closed` first; see [`Spawner::spawn_obj`].)
pub open spec fn spawn_spec(s: SchedState, f: Fut) -> SchedState {
    SchedState {
        tasks: s.tasks.push(spawned_task(f)),
        queue: s.queue.push(s.tasks.len() as int),
        ..s
    }
}

/// What waking task `t` does: unconditionally re-enqueue its index — the
/// waker does not know or care whether the task is enqueued, mid-poll or
/// completed.  Once the consumer is gone the wake is dropped.
pub open spec fn wake_spec(s: SchedState, t: int) -> SchedState {
    if s.closed {
        s
    } else {
        SchedState { queue: s.queue.push(t), ..s }
    }
}

/// What the timer deadline event for task `t` does: set the done flag in
/// the task's timer future, then wake the task — exactly once, since a
/// completed flag never clears.  On anything but a still-pending timer the
/// event is a no-op.
pub open spec fn fire_spec(s: SchedState, t: int) -> SchedState {
    if 0 <= t < s.tasks.len() {
        match s.tasks[t].slot {
            Some(f) => if fut_fireable(f) {
                let s1 = SchedState {
                    tasks: s.tasks.update(t, TaskModel { slot: Some(fire_fut(f)), polls: s.tasks[t].polls }),
                    ..s
                };
                wake_spec(s1, t)
            } else {
                s
            },
            None => s,
        }
    } else {
        s
    }
}

/// The scheduler's reaction to the poll effect `e` of the task at index
/// `t`, in a state whose queue has already had the task's entry popped:
/// the slot is emptied on completion or holds the successor state on
/// suspension, the poll is counted, spawned siblings join the arena and the
/// queue in request order, a self-wake re-enqueues `t` after them, and the
/// emitted output is appended to the log.
pub open spec fn apply_effect(s: SchedState, t: int, e: PollEffect) -> SchedState {
    let polled = TaskModel {
        slot: if e.result is Pending { Some(e.next) } else { None },
        polls: s.tasks[t].polls + 1,
    };
    let tasks1 = s.tasks.update(t, polled);
    let children = e.spawns.map_values(|f: Fut| spawned_task(f));
    let child_ids = Seq::new(e.spawns.len(), |i: int| s.tasks.len() + i);
    let wake_tail: Seq<int> = if e.wakes { seq![t] } else { Seq::empty() };
    SchedState {
        tasks: tasks1 + children,
        queue: s.queue + child_ids + wake_tail,
        log: s.log + e.emits,
        finished: match e.result {
            Poll::Ready(v) => s.finished.push((t, v)),
            Poll::Pending => s.finished,
        },
        closed: s.closed,
    }
}

/// One scheduling step.  An empty queue is left alone.  Otherwise the front
/// task is dequeued; an empty slot (the future already completed — expected
/// traffic from duplicate wakes) is skipped silently, and a full slot is
/// polled exactly once, with the effect applied by [`apply_effect`].
pub open spec fn step_spec(s: SchedState) -> SchedState {
    if s.queue.len() == 0 {
        s
    } else {
        let t = s.queue.first();
        let popped = SchedState { queue: s.queue.drop_first(), ..s };
        if !(0 <= t < s.tasks.len()) {
            popped
        } else {
            match s.tasks[t].slot {
                None => popped,
                Some(f) => apply_effect(popped, t, poll_eff(f)),
            }
        }
    }
}

/// What [`Executor::step`] reports for a step from state `s`.
pub open spec fn step_result_spec(s: SchedState) -> StepResult {
    if s.queue.len() == 0 {
        StepResult::Idle
    } else {
        let t = s.queue.first();
        if !(0 <= t < s.tasks.len()) {
            StepResult::Skipped(t as usize)
        } else {
            match s.tasks[t].slot {
                None => StepResult::Skipped(t as usize),
                Some(f) => match poll_eff(f).result {
                    Poll::Ready(v) => StepResult::Completed(t as usize, v),
                    Poll::Pending => StepResult::Suspended(t as usize),
                },
            }
        }
    }
}

/// `n` scheduling steps from `s`.
pub open spec fn run_n(s: SchedState, n: nat) -> SchedState
    decreases n,
{
    if n == 0 {
        s
    } else {
        step_spec(run_n(s, (n - 1) as nat))
    }
}

/// The scheduling work still stored in one task slot.
pub open spec fn slot_weight(t: TaskModel) -> nat {
    match t.slot {
        Some(f) => fut_weight(f),
        None => 0,
    }
}

/// The scheduling work still stored in the arena.
pub open spec fn tasks_weight(ts: Seq<TaskModel>) -> nat
    decreases ts.len(),
{
    if ts.len() == 0 {
        0
    } else {
        tasks_weight(ts.drop_last()) + slot_weight(ts.last())
    }
}

/// The drain loop's termination measure: queued entries plus the work the
/// arena can still request.  Each non-idle step decreases it by one.
pub open spec fn sched_measure(s: SchedState) -> nat {
    s.queue.len() + tasks_weight(s.tasks)
}

proof fn lemma_tasks_weight_concat(a: Seq<TaskModel>, b: Seq<TaskModel>)
    ensures
        tasks_weight(a + b) == tasks_weight(a) + tasks_weight(b),
    decreases b.len(),
{
    if b.len() == 0 {
        assert(a + b =~= a);
    } else {
        assert((a + b).drop_last() =~= a + b.drop_last());
        assert((a + b).last() == b.last());
        lemma_tasks_weight_concat(a, b.drop_last());
    }
}

proof fn lemma_tasks_weight_update(ts: Seq<TaskModel>, i: int, t: TaskModel)
    requires
        0 <= i < ts.len(),
    ensures
        tasks_weight(ts.update(i, t)) + slot_weight(ts[i]) == tasks_weight(ts) + slot_weight(t),
    decreases ts.len(),
{
    if i == ts.len() - 1 {
        assert(ts.update(i, t).drop_last() =~= ts.drop_last());
        assert(ts.update(i, t).last() == t);
    } else {
        assert(ts.update(i, t).drop_last() =~= ts.drop_last().update(i, t));
        assert(ts.update(i, t).last() == ts.last());
        lemma_tasks_weight_update(ts.drop_last(), i, t);
    }
}

proof fn lemma_spawned_batch_weight(fs: Seq<Fut>)
    ensures
        tasks_weight(fs.map_values(|f: Fut| spawned_task(f))) == futs_weight(fs),
    decreases fs.len(),
{
    let m = fs.map_values(|f: Fut| spawned_task(f));
    if fs.len() == 0 {
        assert(m =~= Seq::<TaskModel>::empty());
    } else {
        assert(m.drop_last() =~= fs.drop_last().map_values(|f: Fut| spawned_task(f)));
        assert(m.last() == spawned_task(fs.last()));
        lemma_spawned_batch_weight(fs.drop_last());
    }
}

/// Each step from a non-empty queue decreases the measure by exactly one:
/// the scheduler's drain loop terminates.
pub proof fn lemma_step_decreases(s: SchedState)
    requires
        s.queue.len() > 0,
    ensures
        sched_measure(step_spec(s)) + 1 == sched_measure(s),
{
    let t = s.queue.first();
    if 0 <= t < s.tasks.len() {
        match s.tasks[t].slot {
            Some(f) => {
                let e = poll_eff(f);
                let polled = TaskModel {
                    slot: if e.result is Pending { Some(e.next) } else { None },
                    polls: s.tasks[t].polls + 1,
                };
                let tasks1 = s.tasks.update(t, polled);
                let children = e.spawns.map_values(|g: Fut| spawned_task(g));
                lemma_poll_eff_weight(f);
                lemma_tasks_weight_update(s.tasks, t, polled);
                lemma_tasks_weight_concat(tasks1, children);
                lemma_spawned_batch_weight(e.spawns);
            },
            None => {},
        }
    }
}

/// Every scheduling step preserves well-formedness.
pub proof fn lemma_step_preserves_wf(s: SchedState)
    requires
        state_wf(s),
    ensures
        state_wf(step_spec(s)),
{
    if s.queue.len() > 0 {
        let t = s.queue.first();
        if 0 <= t < s.tasks.len() {
            match s.tasks[t].slot {
                Some(f) => {
                    let r = step_spec(s);
                    assert forall|i: int| 0 <= i < r.queue.len() implies 0 <= #[trigger] r.queue[i] < r.tasks.len() by {
                        if i < s.queue.len() - 1 {
                            assert(r.queue[i] == s.queue[i + 1]);
                        }
                    }
                    assert forall|i: int|
                        0 <= i < r.finished.len() implies {
                            &&& 0 <= (#[trigger] r.finished[i]).0 < r.tasks.len()
                            &&& r.tasks[r.finished[i].0].slot is None
                        } by {
                        if i < s.finished.len() {
                            assert(s.finished[i].0 != t);
                            assert(r.tasks[r.finished[i].0] == s.tasks[s.finished[i].0]);
                        }
                    }
                },
                None => {},
            }
        }
    }
}

/// `run_n` preserves well-formedness.
pub proof fn lemma_run_n_preserves_wf(s: SchedState, n: nat)
    requires
        state_wf(s),
    ensures
        state_wf(run_n(s, n)),
    decreases n,
{
    if n > 0 {
        lemma_run_n_preserves_wf(s, (n - 1) as nat);
        lemma_step_preserves_wf(run_n(s, (n - 1) as nat));
    }
}

/// The arena never shrinks and existing log, finished and closed data are
/// never rewritten, only appended to.
pub proof fn lemma_step_grows(s: SchedState)
    ensures
        step_spec(s).tasks.len() >= s.tasks.len(),
        step_spec(s).closed == s.closed,
{
}

/// [`lemma_step_grows`], iterated.
pub proof fn lemma_run_n_grows(s: SchedState, n: nat)
    ensures
        run_n(s, n).tasks.len() >= s.tasks.len(),
        run_n(s, n).closed == s.closed,
    decreases n,
{
    if n > 0 {
        lemma_run_n_grows(s, (n - 1) as nat);
        lemma_step_grows(run_n(s, (n - 1) as nat));
    }
}

/// The scheduling unit: one future instance in a mutually-exclusive slot
/// (`None` exactly when the future has completed), plus a ghost count of
/// how often it has been polled.
pub struct Task {
    pub slot: Option<Fut>,
    pub polls: Ghost<nat>,
}

/// What one call of [`Executor::step`] did.
#[derive(Clone, Copy, PartialEq, Eq, Structural, Debug)]
pub enum StepResult {
    /// The ready queue was empty; nothing to do.
    Idle,
    /// The dequeued task's slot was already empty (a duplicate wake after
    /// completion); it was skipped silently.
    Skipped(usize),
    /// The dequeued task was polled and completed with this value.
    Completed(usize, i64),
    /// The dequeued task was polled and reported not ready.
    Suspended(usize),
}

/// The error a spawn attempt reports once the executor has shut down; it
/// hands the rejected future back to the caller.
#[derive(Debug)]
pub struct SpawnError {
    pub future: Fut,
}

/// The task executor: the task arena, the FIFO ready queue, the output log
/// and the record of completions.
pub struct Executor {
    pub tasks: Vec<Task>,
    pub queue: VecDeque<usize>,
    pub log: Vec<i64>,
    pub finished: Vec<(usize, i64)>,
    pub closed: bool,
}

impl View for Executor {
    type V = SchedState;

    open spec fn view(&self) -> SchedState {
        SchedState {
            tasks: self.tasks@.map_values(|t: Task| TaskModel { slot: t.slot, polls: t.polls@ }),
            queue: self.queue@.map_values(|u: usize| u as int),
            log: self.log@,
            finished: self.finished@.map_values(|p: (usize, i64)| (p.0 as int, p.1)),
            closed: self.closed,
        }
    }
}

/// The producer-side handle used to inject new tasks into an executor's
/// ready queue.  It may be cloned freely and handed around; it carries no
/// identity of its own beyond the executor it is applied to.
#[derive(Clone, Copy, Debug)]
pub struct Spawner;

/// A fresh executor with an empty queue, and a spawner for it.
pub fn new_executor_and_spawner() -> (r: (Executor, Spawner))
    ensures
        r.0@ == init_state(),
        r.0.wf(),
{
    let ex = Executor {
        tasks: Vec::new(),
        queue: VecDeque::new(),
        log: Vec::new(),
        finished: Vec::new(),
        closed: false,
    };
    proof {
        assert(ex@ =~= init_state());
    }
    (ex, Spawner)
}

impl Spawner {
    /// Wrap `f` in a new task sharing this ready queue and enqueue it.
    /// Succeeds with the new task's index; fails, handing the future back,
    /// exactly when the executor has shut down.
    pub fn spawn_obj(&self, ex: &mut Executor, f: Fut) -> (r: Result<usize, SpawnError>)
        requires
            old(ex).wf(),
        ensures
            final(ex).wf(),
            old(ex).closed ==> {
                &&& final(ex)@ == old(ex)@
                &&& (r matches Err(e) && e.future == f)
            },
            !old(ex).closed ==> {
                &&& final(ex)@ == spawn_spec(old(ex)@, f)
                &&& r == Ok::<usize, SpawnError>(old(ex).tasks.len())
            },
    {
        if ex.closed {
            Err(SpawnError { future: f })
        } else {
            let id = ex.tasks.len();
            ex.tasks.push(Task { slot: Some(f), polls: Ghost(0nat) });
            ex.queue.push_back(id);
            proof {
                assert(ex@.tasks =~= old(ex)@.tasks.push(spawned_task(f)));
                assert(ex@.queue =~= old(ex)@.queue.push(id as int));
                assert(ex@ =~= spawn_spec(old(ex)@, f));
            }
            Ok(id)
        }
    }

    /// Spawn a future as a new top-level task; identical to
    /// [`Spawner::spawn_obj`], usable both from outside the scheduler and —
    /// through the same queue — for sibling work created from inside a
    /// running future.
    pub fn spawn(&self, ex: &mut Executor, f: Fut) -> (r: Result<usize, SpawnError>)
        requires
            old(ex).wf(),
        ensures
            final(ex).wf(),
            old(ex).closed ==> {
                &&& final(ex)@ == old(ex)@
                &&& (r matches Err(e) && e.future == f)
            },
            !old(ex).closed ==> {
                &&& final(ex)@ == spawn_spec(old(ex)@, f)
                &&& r == Ok::<usize, SpawnError>(old(ex).tasks.len())
            },
    {
        self.spawn_obj(ex, f)
    }
}

impl Executor {
    /// Well-formedness of the executor's state; established by
    /// [`new_executor_and_spawner`] and preserved by every method.
    pub open spec fn wf(&self) -> bool {
        state_wf(self@)
    }

    /// The wake operation for task `t`: unconditionally re-enqueue its
    /// index.  Safe at any time, any number of times: waking a completed
    /// task merely queues an entry that the next step skips.  Dropped once
    /// the executor has shut down.
    pub fn wake(&mut self, t: usize)
        requires
            old(self).wf(),
            t < old(self)@.tasks.len(),
        ensures
            final(self).wf(),
            final(self)@ == wake_spec(old(self)@, t as int),
    {
        if !self.closed {
            self.queue.push_back(t);
            proof {
                assert(self@.queue =~= old(self)@.queue.push(t as int));
                assert(self@ =~= wake_spec(old(self)@, t as int));
            }
        }
    }

    /// The timer deadline event for task `t`: set the done flag in the
    /// task's timer future and wake the task.  Returns whether the event
    /// had any effect (it fires at most once per timer, and is a safe
    /// no-op on a completed task or a non-timer).
    pub fn fire_timer(&mut self, t: usize) -> (fired: bool)
        requires
            old(self).wf(),
            t < old(self)@.tasks.len(),
        ensures
            final(self).wf(),
            final(self)@ == fire_spec(old(self)@, t as int),
            fired == match old(self)@.tasks[t as int].slot {
                Some(f) => fut_fireable(f),
                None => false,
            },
    {
        let fired: bool;
        {
            let task = task_mut(&mut self.tasks, t);
            fired = match &mut task.slot {
                Some(f) => f.fire(),
                None => false,
            };
        }
        proof {
            if fired {
                let f = old(self)@.tasks[t as int].slot->Some_0;
                assert(self@.tasks =~= old(self)@.tasks.update(
                    t as int,
                    TaskModel { slot: Some(fire_fut(f)), polls: old(self)@.tasks[t as int].polls },
                ));
            } else {
                assert(self@.tasks =~= old(self)@.tasks);
            }
            if fired {
                assert forall|i: int|
                    0 <= i < self@.finished.len() implies {
                        &&& 0 <= (#[trigger] self@.finished[i]).0 < self@.tasks.len()
                        &&& self@.tasks[self@.finished[i].0].slot is None
                    } by {
                    assert(old(self)@.tasks[old(self)@.finished[i].0].slot is None);
                    assert(self@.finished[i].0 != t as int);
                }
                assert(self@.queue =~= old(self)@.queue);
                assert(self@.finished =~= old(self)@.finished);
                assert(self@.tasks.len() == old(self)@.tasks.len());
                assert forall|i: int|
                    0 <= i < self@.queue.len() implies 0 <= #[trigger] self@.queue[i] < self@.tasks.len() by {
                    assert(0 <= old(self)@.queue[i] < old(self)@.tasks.len());
                }
            } else {
                assert(self@ =~= old(self)@);
            }
        }
        if fired {
            self.wake(t);
        }
        proof {
            assert(self@ =~= fire_spec(old(self)@, t as int));
        }
        fired
    }

    /// One scheduling step, implementing [`step_spec`] exactly: dequeue the
    /// front task, skip it silently if its slot is empty (a duplicate wake
    /// after completion), otherwise poll its future exactly once with a
    /// fresh [`Context`] and apply the requested effects.  The slot is
    /// emptied on completion and is never polled again; on suspension the
    /// future goes back into the slot and is *not* re-enqueued — only its
    /// own wake request, an external wake or the deadline event schedule it
    /// again.
    pub fn step(&mut self) -> (r: StepResult)
        requires
            old(self).wf(),
        ensures
            final(self).wf(),
            final(self)@ == step_spec(old(self)@),
            r == step_result_spec(old(self)@),
    {
        proof {
            lemma_step_preserves_wf(old(self)@);
        }
        match self.queue.pop_front() {
            None => {
                proof {
                    assert(self@ =~= old(self)@);
                }
                StepResult::Idle
            },
            Some(t) => {
                proof {
                    assert(old(self)@.queue[0] == t as int);
                }
                let ghost s_pop = SchedState { queue: old(self)@.queue.drop_first(), ..old(self)@ };
                proof {
                    assert(self@.queue =~= s_pop.queue);
                    assert(self@ =~= s_pop);
                }
                let task = task_mut(&mut self.tasks, t);
                match task.slot.take() {
                    None => {
                        proof {
                            assert(self@.tasks =~= s_pop.tasks);
                            assert(self@ =~= step_spec(old(self)@));
                        }
                        StepResult::Skipped(t)
                    },
                    Some(mut fu) => {
                        let ghost e = poll_eff(fu);
                        let mut cx = Context::new();
                        let pr = fu.poll(&mut cx);
                        match pr {
                            Poll::Pending => {
                                task.slot = Some(fu);
                            },
                            Poll::Ready(_) => {},
                        }
                        task.polls = Ghost(task.polls@ + 1);
                        let ghost polled = TaskModel {
                            slot: if e.result is Pending { Some(e.next) } else { None },
                            polls: s_pop.tasks[t as int].polls + 1,
                        };
                        let ghost mid_tasks = s_pop.tasks.update(t as int, polled);
                        proof {
                            assert(self@.tasks =~= mid_tasks);
                            assert(self@.queue =~= s_pop.queue);
                        }
                        let Context { woke, mut spawned, mut emitted } = cx;
                        let ghost all = e.spawns;
                        let ghost mut j: nat = 0;
                        while spawned.len() > 0
                            invariant
                                j <= all.len(),
                                spawned@ =~= all.skip(j as int),
                                self@.tasks =~= mid_tasks + all.take(j as int).map_values(
                                    |g: Fut| spawned_task(g),
                                ),
                                self@.queue =~= s_pop.queue + Seq::new(
                                    j,
                                    |i: int| mid_tasks.len() + i,
                                ),
                                self@.log == s_pop.log,
                                self@.finished == s_pop.finished,
                                self@.closed == s_pop.closed,
                                self.tasks.len() == mid_tasks.len() + j,
                            decreases spawned.len(),
                        {
                            let ghost tasks_at_entry = self@.tasks;
                            let ghost queue_at_entry = self@.queue;
                            let child = spawned.remove(0);
                            proof {
                                assert(all.skip(j as int)[0] == all[j as int]);
                                assert(child == all[j as int]);
                                assert(spawned@ =~= all.skip(j as int + 1));
                            }
                            let id = self.tasks.len();
                            self.tasks.push(Task { slot: Some(child), polls: Ghost(0nat) });
                            self.queue.push_back(id);
                            proof {
                                assert(self@.tasks =~= tasks_at_entry.push(spawned_task(child)));
                                assert(self@.queue =~= queue_at_entry.push(id as int));
                                assert(id as int == mid_tasks.len() + j);
                                j = j + 1;
                                assert(all.take(j as int) =~= all.take(j as int - 1).push(child));
                                assert(all.take(j as int).map_values(|g: Fut| spawned_task(g))
                                    =~= all.take(j as int - 1).map_values(|g: Fut| spawned_task(g)).push(
                                    spawned_task(child),
                                ));
                                assert(self@.tasks =~= mid_tasks + all.take(j as int).map_values(
                                    |g: Fut| spawned_task(g),
                                ));
                                assert(Seq::new(j, |i: int| mid_tasks.len() + i) =~= Seq::new(
                                    (j - 1) as nat,
                                    |i: int| mid_tasks.len() + i,
                                ).push(mid_tasks.len() + j - 1));
                                assert(self@.queue =~= s_pop.queue + Seq::new(
                                    j,
                                    |i: int| mid_tasks.len() + i,
                                ));
                            }
                        }
                        proof {
                            assert(all.take(all.len() as int) =~= all);
                            assert(self@.tasks =~= mid_tasks + all.map_values(|g: Fut| spawned_task(g)));
                        }
                        if woke {
                            self.queue.push_back(t);
                        }
                        self.log.append(&mut emitted);
                        let r = match pr {
                            Poll::Ready(v) => {
                                self.finished.push((t, v));
                                proof {
                                    assert(self@.finished =~= s_pop.finished.push((t as int, v)));
                                }
                                StepResult::Completed(t, v)
                            },
                            Poll::Pending => StepResult::Suspended(t),
                        };
                        proof {
                            assert(self@.queue =~= apply_effect(s_pop, t as int, e).queue);
                            assert(self@ =~= apply_effect(s_pop, t as int, e));
                            assert(self@ == step_spec(old(self)@));
                        }
                        r
                    },
                }
            },
        }
    }

    /// Drain the ready queue: pull tasks and drive them one polling step
    /// each until the queue is empty, which is the only termination
    /// condition.  The run is exactly some number of [`step_spec`] steps.
    /// It always terminates: every step pays for the queue entries it adds
    /// (see [`sched_measure`]).  Suspended tasks whose wake-up has not
    /// arrived remain in their slots; delivering a wake or a deadline event
    /// and running again resumes them.
    pub fn run(&mut self)
        requires
            old(self).wf(),
        ensures
            final(self).wf(),
            final(self)@.queue.len() == 0,
            final(self)@ == run_n(
                old(self)@,
                (sched_measure(old(self)@) - sched_measure(final(self)@)) as nat,
            ),
            exists|n: nat| final(self)@ == run_n(old(self)@, n),
    {
        let ghost s0 = self@;
        let ghost mut n: nat = 0;
        while self.queue.len() > 0
            invariant
                self.wf(),
                self@ == run_n(s0, n),
                n + sched_measure(self@) == sched_measure(s0),
            decreases sched_measure(self@),
        {
            let ghost pre = self@;
            let _ = self.step();
            proof {
                lemma_step_decreases(pre);
                n = n + 1;
                assert(self@ == run_n(s0, n));
            }
        }
        proof {
            assert(self@ == run_n(s0, n));
        }
    }

    /// How many tasks have ever been spawned on this executor.
    pub fn task_count(&self) -> (n: usize)
        ensures
            n == self@.tasks.len(),
    {
        self.tasks.len()
    }

    /// Whether task `t` is still in flight: its future has not completed.
    pub fn is_pending(&self, t: usize) -> (p: bool)
        requires
            t < self@.tasks.len(),
        ensures
            p == (self@.tasks[t as int].slot is Some),
    {
        self.tasks[t].slot.is_some()
    }

    /// How many entries the ready queue currently holds.
    pub fn queued(&self) -> (n: usize)
        ensures
            n == self@.queue.len(),
    {
        self.queue.len()
    }

    /// Shut the executor down: the model of the queue's consumer side going
    /// away.  From here on spawns are rejected and wakes are dropped.
    pub fn shutdown(&mut self)
        ensures
            final(self)@ == (SchedState { closed: true, ..old(self)@ }),
            old(self).wf() ==> final(self).wf(),
    {
        self.closed = true;
        proof {
            assert(self@ =~= (SchedState { closed: true, ..old(self)@ }));
        }
    }
}

/// A mutable borrow of one task in the arena, with the arena's final value
/// expressed through the borrow.
fn task_mut(tasks: &mut Vec<Task>, i: usize) -> (t: &mut Task)
    requires
        i < old(tasks).len(),
    ensures
        *t == old(tasks)@[i as int],
        final(tasks)@ == old(tasks)@.update(i as int, *final(t)),
{
    &mut tasks[i]
}

} // verus!
