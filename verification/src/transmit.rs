//! The order of work of the sending side: one probe per target with a pause
//! after each, then the grace period, then the signal that ends the scan.

use vstd::prelude::*;
use crate::error::ScanError;

verus! {

/// What the sending side has to do: how many probes to send and how long
/// to wait, in microseconds, after each probe and after the last one.
#[derive(Clone, Copy, Debug, PartialEq, Eq, Structural)]
pub struct Plan {
    /// The number of targets.
    pub total: usize,
    /// The pause after each probe.
    pub pacing_delay: u64,
    /// The time that late replies are waited for after the last probe.
    pub grace_period: u64,
}

/// What the sending side is to do next.
#[derive(Clone, Copy, Debug, PartialEq, Eq, Structural)]
pub enum Action {
    /// Build the probe for the target with this index and write it.
    Send(usize),
    /// Sleep for this many microseconds.
    Sleep(u64),
    /// Set the termination signal.
    Signal,
    /// Nothing is left to do.
    Done,
}

/// Where the sending side stands.
#[derive(Clone, Copy, Debug, PartialEq, Eq, Structural)]
pub enum Stage {
    /// The next probe is to be handed out.
    Probe,
    /// A probe was handed out and its write is to be confirmed.
    Wrote,
    /// All probes are sent; the grace period is to be waited.
    Grace,
    /// The grace period is over; the signal is to be set.
    Signal,
    /// The signal is set.
    Finished,
    /// A write failed; the scan is given up.
    Failed,
}

/// The stage that a sending side with `total` targets is in when `sent` of
/// them have been written and confirmed.
pub open spec fn stage_after(total: usize, sent: usize) -> Stage {
    if sent < total {
        Stage::Probe
    } else {
        Stage::Grace
    }
}

/// One turn: from the number of confirmed probes, the stage and the outcome
/// of the last write to the new number, the new stage and what to do. The
/// outcome of the last write counts only where a write is to be confirmed.
pub open spec fn turn(plan: Plan, sent: usize, stage: Stage, last_ok: bool) -> (
    usize,
    Stage,
    Result<Action, ScanError>,
) {
    match stage {
        Stage::Probe => (sent, Stage::Wrote, Ok(Action::Send(sent))),
        Stage::Wrote => if last_ok {
            (
                (sent + 1) as usize,
                stage_after(plan.total, (sent + 1) as usize),
                Ok(Action::Sleep(plan.pacing_delay)),
            )
        } else {
            (sent, Stage::Failed, Err(ScanError::Send))
        },
        Stage::Grace => (sent, Stage::Signal, Ok(Action::Sleep(plan.grace_period))),
        Stage::Signal => (sent, Stage::Finished, Ok(Action::Signal)),
        Stage::Finished => (sent, Stage::Finished, Ok(Action::Done)),
        Stage::Failed => (sent, Stage::Failed, Err(ScanError::Send)),
    }
}

/// The place of a run in which every write succeeds, after `k` turns.
pub open spec fn place_after(plan: Plan, k: nat) -> (usize, Stage) {
    if k < 2 * plan.total {
        (
            (k / 2) as usize,
            if k % 2 == 0 {
                Stage::Probe
            } else {
                Stage::Wrote
            },
        )
    } else if k == 2 * plan.total {
        (plan.total, Stage::Grace)
    } else if k == 2 * plan.total + 1 {
        (plan.total, Stage::Signal)
    } else {
        (plan.total, Stage::Finished)
    }
}

/// What turn number `k` of such a run asks for: the probes in the order of
/// the targets, the pacing delay after each, then the grace period, then the
/// signal, and nothing after that.
pub open spec fn action_at(plan: Plan, k: nat) -> Action {
    if k < 2 * plan.total {
        if k % 2 == 0 {
            Action::Send((k / 2) as usize)
        } else {
            Action::Sleep(plan.pacing_delay)
        }
    } else if k == 2 * plan.total {
        Action::Sleep(plan.grace_period)
    } else if k == 2 * plan.total + 1 {
        Action::Signal
    } else {
        Action::Done
    }
}

/// A run in which every write succeeds follows the schedule turn by turn.
pub proof fn lemma_run_follows_schedule(plan: Plan, k: nat)
    ensures
        place_after(plan, 0) == (0usize, stage_after(plan.total, 0)),
        turn(plan, place_after(plan, k).0, place_after(plan, k).1, true) == (
            place_after(plan, k + 1).0,
            place_after(plan, k + 1).1,
            Ok::<Action, ScanError>(action_at(plan, k)),
        ),
{
}

/// The signal is asked for in one turn only, the one after the grace
/// period, and every probe is asked for in one turn only, in the order of
/// the targets.
pub proof fn lemma_signal_once(plan: Plan, k: nat, index: usize)
    ensures
        action_at(plan, k) == Action::Signal <==> k == 2 * plan.total + 1,
        action_at(plan, k) == Action::Send(index) <==> index < plan.total && k == 2 * index,
        action_at(plan, 2 * plan.total as nat) == Action::Sleep(plan.grace_period),
{
}

/// A failed write ends the run: that turn and every later one report the
/// error, and the signal is never asked for.
pub proof fn lemma_failure_is_final(plan: Plan, sent: usize, last_ok: bool)
    ensures
        turn(plan, sent, Stage::Wrote, false) == (
            sent,
            Stage::Failed,
            Err::<Action, ScanError>(ScanError::Send),
        ),
        turn(plan, sent, Stage::Failed, last_ok) == (
            sent,
            Stage::Failed,
            Err::<Action, ScanError>(ScanError::Send),
        ),
{
}

/// The sending side of a scan.
pub struct Transmitter {
    plan: Plan,
    sent: usize,
    stage: Stage,
}

impl Transmitter {
    /// What the sending side has to do.
    pub closed spec fn plan(&self) -> Plan {
        self.plan
    }

    /// The number of probes that were written and confirmed.
    pub closed spec fn sent(&self) -> usize {
        self.sent
    }

    /// Where the sending side stands.
    pub closed spec fn stage(&self) -> Stage {
        self.stage
    }

    /// No more probes are confirmed than there are targets, and a probe is
    /// due or under way only while one is left.
    pub open spec fn wf(&self) -> bool {
        &&& self.sent() <= self.plan().total
        &&& (self.stage() == Stage::Probe || self.stage() == Stage::Wrote) ==> self.sent()
            < self.plan().total
        &&& (self.stage() == Stage::Grace || self.stage() == Stage::Signal || self.stage()
            == Stage::Finished) ==> self.sent() == self.plan().total
    }

    /// A sending side that has `total` probes to send, with the given pause
    /// after each and the given grace period after the last, both in
    /// microseconds.
    pub fn new(total: usize, pacing_delay: u64, grace_period: u64) -> (transmitter: Transmitter)
        ensures
            transmitter.wf(),
            transmitter.plan() == (Plan { total, pacing_delay, grace_period }),
            transmitter.sent() == 0,
            transmitter.stage() == stage_after(total, 0),
    {
        Transmitter {
            plan: Plan { total, pacing_delay, grace_period },
            sent: 0,
            stage: if 0 < total {
                Stage::Probe
            } else {
                Stage::Grace
            },
        }
    }

    /// The number of probes that were written and confirmed so far.
    pub fn progress(&self) -> (sent: usize)
        ensures
            sent == self.sent(),
    {
        self.sent
    }

    /// Takes one turn and says what to do next. `last_ok` tells whether the
    /// frame of the last `Send` was written in full; a write that was not
    /// gives up the scan.
    pub fn step(&mut self, last_ok: bool) -> (action: Result<Action, ScanError>)
        requires
            old(self).wf(),
        ensures
            final(self).wf(),
            final(self).plan() == old(self).plan(),
            (final(self).sent(), final(self).stage(), action) == turn(
                old(self).plan(),
                old(self).sent(),
                old(self).stage(),
                last_ok,
            ),
    {
        match self.stage {
            Stage::Probe => {
                self.stage = Stage::Wrote;
                Ok(Action::Send(self.sent))
            },
            Stage::Wrote => {
                if last_ok {
                    self.sent = self.sent + 1;
                    self.stage = if self.sent < self.plan.total {
                        Stage::Probe
                    } else {
                        Stage::Grace
                    };
                    Ok(Action::Sleep(self.plan.pacing_delay))
                } else {
                    self.stage = Stage::Failed;
                    Err(ScanError::Send)
                }
            },
            Stage::Grace => {
                self.stage = Stage::Signal;
                Ok(Action::Sleep(self.plan.grace_period))
            },
            Stage::Signal => {
                self.stage = Stage::Finished;
                Ok(Action::Signal)
            },
            Stage::Finished => Ok(Action::Done),
            Stage::Failed => Err(ScanError::Send),
        }
    }
}

} // verus!
