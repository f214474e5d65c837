//! Driving a single future to completion without a full scheduler.
//!
//! The stand-alone harness polls one future directly: as long as the
//! future keeps waking itself it is re-polled immediately; when it reports
//! not ready without waking, the harness stops and hands the suspended
//! future back, so that the caller can deliver the external event it is
//! waiting for ([`Fut::fire`] for the timer pattern) and drive it again.
//! Spawning has no meaning without a scheduler, so futures that spawn are
//! not accepted here.

use vstd::prelude::*;

use crate::future::Context;
use crate::future::Fut;
use crate::future::Poll;
use crate::future::fut_weight;
use crate::future::lemma_poll_eff_weight;
use crate::future::poll_eff;

verus! {

/// How a drive of a single future ended.
#[derive(Debug)]
pub enum RunOutcome {
    /// The future completed with this value.
    Finished(i64),
    /// The future reported not ready without waking itself: it is waiting
    /// for an external event.  It is handed back unchanged, mid-life.
    Stalled(Fut),
}

/// The result of [`run_future`]: the outcome, and everything the future
/// emitted along the way, in order.
#[derive(Debug)]
pub struct RunReport {
    pub outcome: RunOutcome,
    pub emitted: Vec<i64>,
}

/// The ghost model of a drive: the outcome it ends in and the output it
/// accumulates.
#[verifier::ext_equal]
pub ghost struct DriveModel {
    pub outcome: RunOutcome,
    pub log: Seq<i64>,
}

/// The exact meaning of driving `f`: poll; on `Ready` finish, on `Pending`
/// with a self-wake poll again at once, on `Pending` without one stall.
/// Terminates because a self-waking poll strictly decreases [`fut_weight`].
pub open spec fn drive_spec(f: Fut) -> DriveModel
    decreases fut_weight(f) via drive_spec_decreases
{
    let e = poll_eff(f);
    match e.result {
        Poll::Ready(v) => DriveModel { outcome: RunOutcome::Finished(v), log: e.emits },
        Poll::Pending => if e.wakes {
            let rest = drive_spec(e.next);
            DriveModel { outcome: rest.outcome, log: e.emits + rest.log }
        } else {
            DriveModel { outcome: RunOutcome::Stalled(e.next), log: e.emits }
        },
    }
}

#[via_fn]
proof fn drive_spec_decreases(f: Fut) {
    lemma_poll_eff_weight(f);
}

/// Run one future as far as it can go on its own, implementing
/// [`drive_spec`] exactly.  Futures that spawn siblings belong on a real
/// scheduler ([`crate::executor::Spawner::spawn`]), not here, and are ruled
/// out.
pub fn run_future(f: Fut) -> (r: RunReport)
    requires
        !(f matches Fut::Fork(_)),
    ensures
        r.outcome == drive_spec(f).outcome,
        r.emitted@ == drive_spec(f).log,
{
    let mut cur = f;
    let mut emitted: Vec<i64> = Vec::new();
    loop
        invariant
            drive_spec(f).outcome == drive_spec(cur).outcome,
            drive_spec(f).log =~= emitted@ + drive_spec(cur).log,
        decreases fut_weight(cur),
    {
        let ghost pre = cur;
        let mut cx = Context::new();
        let pr = cur.poll(&mut cx);
        let mut step_emitted = cx.emitted;
        emitted.append(&mut step_emitted);
        proof {
            lemma_poll_eff_weight(pre);
        }
        match pr {
            Poll::Ready(v) => {
                return RunReport { outcome: RunOutcome::Finished(v), emitted };
            },
            Poll::Pending => {
                if !cx.woke {
                    return RunReport { outcome: RunOutcome::Stalled(cur), emitted };
                }
            },
        }
    }
}

} // verus!
