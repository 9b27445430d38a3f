//! The cycle scheduler: the state machine that drives a job through its
//! supersteps.
//!
//! The machine starts at iteration one, or just past the checkpointed
//! iteration when resuming. Each round it hands out the next iteration,
//! takes back whether any message is in flight, and decides: past the
//! iteration budget or quiescent, the job is finished; otherwise the next
//! iteration follows, with a checkpoint due whenever the interval divides
//! the iteration just run. The caller performs the rounds and checkpoints;
//! the machine decides everything.

use vstd::prelude::*;

verus! {

/// What a finished job reports: how many iterations actually ran.
#[derive(Debug, Clone)]
pub struct SchedulerResult {
    pub executed_iterations: u64,
}

/// The scheduler's state: not yet started, running an iteration, or done.
#[derive(Debug, Clone)]
pub enum SchedulerState {
    Init,
    Running { iteration: u64 },
    Finished { executed: u64 },
}

/// The scheduler machine. The ghost log records every iteration handed out,
/// in order.
pub struct CycleScheduler {
    pub max_iterations: u64,
    pub checkpoint_enabled: bool,
    pub checkpoint_interval: u64,
    pub start_iteration: u64,
    pub state: SchedulerState,
    pub in_round: bool,
    pub handed_out: Ghost<Seq<u64>>,
}

impl CycleScheduler {
    /// The machine's invariant: the log holds exactly the consecutive
    /// iterations from the start, and the current state sits right after
    /// them.
    pub open spec fn wf(&self) -> bool {
        &&& self.start_iteration >= 1
        &&& self.max_iterations < u64::MAX
        &&& forall|i: int|
            0 <= i < self.handed_out@.len() ==> #[trigger] self.handed_out@[i]
                == self.start_iteration + i
        &&& (self.state matches SchedulerState::Running { iteration } ==> iteration
            == self.start_iteration + self.handed_out@.len() - (if self.in_round {
            1int
        } else {
            0int
        }))
        &&& (self.state matches SchedulerState::Running { iteration } ==> iteration as int
            <= self.max_iterations as int + (if self.in_round {
            0int
        } else {
            1int
        }))
        &&& (self.state is Init ==> self.handed_out@.len() == 0 && !self.in_round)
        &&& (self.state is Finished ==> !self.in_round)
    }

    /// A fresh scheduler: iterations start at one.
    pub fn new(max_iterations: u64, checkpoint_enabled: bool, checkpoint_interval: u64) -> (r:
        Self)
        requires
            max_iterations < u64::MAX,
        ensures
            r.wf(),
            r.max_iterations == max_iterations,
            r.checkpoint_enabled == (checkpoint_enabled && checkpoint_interval > 0),
            r.checkpoint_interval == checkpoint_interval,
            r.start_iteration == 1,
            r.state is Init,
            r.handed_out@.len() == 0,
    {
        CycleScheduler {
            max_iterations,
            checkpoint_enabled: checkpoint_enabled && checkpoint_interval > 0,
            checkpoint_interval,
            start_iteration: 1,
            state: SchedulerState::Init,
            in_round: false,
            handed_out: Ghost(Seq::empty()),
        }
    }

    /// A scheduler resumed from the checkpoint of an iteration: the run
    /// continues right after it, exactly where an uninterrupted run that had
    /// just finished that iteration would stand.
    pub fn resume(
        max_iterations: u64,
        checkpoint_enabled: bool,
        checkpoint_interval: u64,
        checkpoint_iteration: u64,
    ) -> (r: Self)
        requires
            checkpoint_iteration < u64::MAX,
            max_iterations < u64::MAX,
        ensures
            r.wf(),
            r.max_iterations == max_iterations,
            r.checkpoint_enabled == (checkpoint_enabled && checkpoint_interval > 0),
            r.start_iteration == checkpoint_iteration + 1,
            r.state is Init,
            r.handed_out@.len() == 0,
    {
        CycleScheduler {
            max_iterations,
            checkpoint_enabled: checkpoint_enabled && checkpoint_interval > 0,
            checkpoint_interval,
            start_iteration: checkpoint_iteration + 1,
            state: SchedulerState::Init,
            in_round: false,
            handed_out: Ghost(Seq::empty()),
        }
    }

    /// Hand out the next iteration to run, or nothing when the job is done.
    /// Iterations come out consecutively: the `k`-th call that yields one
    /// yields `start_iteration + k`, with no gaps and no repeats.
    pub fn next_iteration(&mut self) -> (r: Option<u64>)
        requires
            old(self).wf(),
            !old(self).in_round,
        ensures
            final(self).wf(),
            final(self).max_iterations == old(self).max_iterations,
            final(self).checkpoint_enabled == old(self).checkpoint_enabled,
            final(self).checkpoint_interval == old(self).checkpoint_interval,
            final(self).start_iteration == old(self).start_iteration,
            r is Some <==> !(old(self).state is Finished) && old(self).start_iteration + old(
                self,
            ).handed_out@.len() <= old(self).max_iterations,
            match r {
                Some(n) => {
                    &&& n == old(self).start_iteration + old(self).handed_out@.len()
                    &&& n <= old(self).max_iterations
                    &&& final(self).handed_out@ == old(self).handed_out@.push(n)
                    &&& final(self).in_round
                    &&& final(self).state == (SchedulerState::Running { iteration: n })
                },
                None => {
                    &&& final(self).handed_out@ == old(self).handed_out@
                    &&& final(self).state is Finished
                    &&& !final(self).in_round
                    &&& !(old(self).state is Finished) ==> final(self).state == (
                    SchedulerState::Finished {
                        executed: (old(self).start_iteration + old(self).handed_out@.len()
                            - 1) as u64,
                    })
                },
            },
            old(self).state is Finished ==> r is None && final(self).state == old(self).state,
    {
        let candidate: u64 = match &self.state {
            SchedulerState::Init => self.start_iteration,
            SchedulerState::Running { iteration } => *iteration,
            SchedulerState::Finished { executed } => {
                let executed = *executed;
                self.state = SchedulerState::Finished { executed };
                return None;
            },
        };
        if candidate > self.max_iterations {
            self.state = SchedulerState::Finished { executed: candidate - 1 };
            return None;
        }
        self.state = SchedulerState::Running { iteration: candidate };
        self.in_round = true;
        proof {
            self.handed_out@ = self.handed_out@.push(candidate);
        }
        Some(candidate)
    }

    /// Take back the outcome of the round for the iteration just handed
    /// out. Returns whether a checkpoint for that iteration is due now.
    /// Quiescence ends the job: when no message is in flight, the state is
    /// finished at this iteration and no later iteration will ever be
    /// handed out.
    pub fn round_done(&mut self, any_msg: bool) -> (r: bool)
        requires
            old(self).wf(),
            old(self).in_round,
            old(self).state matches SchedulerState::Running { iteration },
        ensures
            final(self).wf(),
            final(self).max_iterations == old(self).max_iterations,
            final(self).checkpoint_enabled == old(self).checkpoint_enabled,
            final(self).checkpoint_interval == old(self).checkpoint_interval,
            final(self).start_iteration == old(self).start_iteration,
            final(self).handed_out@ == old(self).handed_out@,
            !final(self).in_round,
            old(self).state matches SchedulerState::Running { iteration } ==> {
                &&& r == (old(self).checkpoint_enabled && old(self).checkpoint_interval > 0
                    && iteration % old(self).checkpoint_interval == 0)
                &&& (any_msg ==> final(self).state == (SchedulerState::Running {
                    iteration: (iteration + 1) as u64,
                }))
                &&& (!any_msg ==> final(self).state == (SchedulerState::Finished {
                    executed: iteration,
                }))
            },
    {
        let iteration: u64 = match &self.state {
            SchedulerState::Running { iteration } => *iteration,
            _ => 0,
        };
        let due = self.checkpoint_enabled && self.checkpoint_interval > 0 && iteration
            % self.checkpoint_interval == 0;
        self.in_round = false;
        if any_msg {
            self.state = SchedulerState::Running { iteration: iteration + 1 };
        } else {
            self.state = SchedulerState::Finished { executed: iteration };
        }
        due
    }

    /// The job's result once the machine is finished.
    pub fn result(&self) -> (r: Option<SchedulerResult>)
        ensures
            match r {
                Some(res) => self.state == (SchedulerState::Finished {
                    executed: res.executed_iterations,
                }),
                None => !(self.state is Finished),
            },
    {
        match &self.state {
            SchedulerState::Finished { executed } => Some(
                SchedulerResult { executed_iterations: *executed },
            ),
            _ => None,
        }
    }
}

/// Iteration monotonicity: within one run, the iterations handed to the
/// rounds are consecutive — each is one more than the one before, so there
/// are no gaps and no repeats.
pub proof fn lemma_iteration_monotonic(m: &CycleScheduler)
    requires
        m.wf(),
    ensures
        forall|i: int, j: int|
            0 <= i < j < m.handed_out@.len() ==> m.handed_out@[i] < m.handed_out@[j],
        forall|i: int|
            0 <= i < m.handed_out@.len() - 1 ==> #[trigger] m.handed_out@[i + 1] == m.handed_out@[i]
                + 1,
{
    assert forall|i: int, j: int|
        0 <= i < j < m.handed_out@.len() implies m.handed_out@[i] < m.handed_out@[j] by {
        assert(m.handed_out@[i] == m.start_iteration + i);
        assert(m.handed_out@[j] == m.start_iteration + j);
    }
}

/// Checkpoint resume alignment: a run resumed from the checkpoint of
/// iteration `k` hands out `k + 1` first — exactly the iteration an
/// uninterrupted run would run next after finishing iteration `k`.
pub proof fn lemma_resume_continues(resumed: &CycleScheduler, k: u64)
    requires
        resumed.wf(),
        resumed.handed_out@.len() == 0,
        resumed.start_iteration == k + 1,
    ensures
        resumed.start_iteration + resumed.handed_out@.len() == k + 1,
{
}

} // verus!
