//! The periodic scheduler: repeats rounds on a fixed interval, feeds each
//! finished round into the aggregate statistics, and terminates cleanly on a
//! stop signal. The interval wait is split into short poll granules so that a
//! stop request ends the loop within one granule rather than a full period.
//!
//! The machine has four states. A round in flight is never preempted: the
//! only step out of `RunningRound` is `round_done`, which records every
//! outcome of the finished round before the stop flag is consulted again —
//! every started round contributes to the final aggregate. The driving loop
//! (threads, sleeps, the stop trigger) lives outside the library and feeds
//! the machine its events.

use vstd::prelude::*;
use crate::probe::Outcome;
use crate::stats::{Aggregator, Stats, stats_at, map_after_all};

verus! {

/// Where the periodic loop stands.
pub enum SchedulerState {
    /// Created, no round started yet.
    Idle,
    /// A round is in flight; it always completes and is recorded.
    RunningRound,
    /// Between rounds, `slept_ms` of the period already slept.
    Sleeping { slept_ms: u64 },
    /// Terminal: the final aggregate may be reported.
    Stopped,
}

/// What one poll granule of sleeping leads to: a stop request wins
/// immediately, a full period starts the next round, anything else keeps
/// sleeping with the granule added.
pub open spec fn spec_tick(slept_ms: u64, period_ms: u64, poll_ms: u64, stop_requested: bool)
    -> SchedulerState {
    if stop_requested {
        SchedulerState::Stopped
    } else if slept_ms + poll_ms >= period_ms {
        SchedulerState::RunningRound
    } else {
        SchedulerState::Sleeping { slept_ms: (slept_ms + poll_ms) as u64 }
    }
}

/// The periodic scheduler's state machine, owning the per-URL aggregate.
pub struct Scheduler {
    pub state: SchedulerState,
    /// The interval between round starts, in milliseconds.
    pub period_ms: u64,
    /// The granularity at which the sleep phase checks the stop flag.
    pub poll_ms: u64,
    /// Aggregate statistics over every recorded round.
    pub agg: Aggregator,
}

impl Scheduler {
    pub open spec fn wf(&self) -> bool {
        &&& self.agg.wf()
        &&& self.period_ms > 0
        &&& self.poll_ms > 0
        &&& self.state matches SchedulerState::Sleeping { slept_ms } ==> slept_ms < self.period_ms
    }

    /// A scheduler for the given period, polling the stop flag every 100 ms
    /// while sleeping.
    pub fn new(period_ms: u64) -> (s: Scheduler)
        requires
            period_ms > 0,
        ensures
            s.wf(),
            s.state == SchedulerState::Idle,
            s.period_ms == period_ms,
            s.poll_ms == 100,
            s.agg.as_map() == Map::<Seq<char>, Stats>::empty(),
    {
        Scheduler { state: SchedulerState::Idle, period_ms, poll_ms: 100, agg: Aggregator::new() }
    }

    /// Starts the first round — unless the stop flag is already set, in which
    /// case no round ever starts.
    pub fn start(&mut self, stop_requested: bool) -> (running: bool)
        requires
            old(self).wf(),
            old(self).state == SchedulerState::Idle,
        ensures
            final(self).wf(),
            final(self).agg == old(self).agg,
            final(self).period_ms == old(self).period_ms,
            final(self).poll_ms == old(self).poll_ms,
            final(self).state == if stop_requested {
                SchedulerState::Stopped
            } else {
                SchedulerState::RunningRound
            },
            running == !stop_requested,
    {
        if stop_requested {
            self.state = SchedulerState::Stopped;
            false
        } else {
            self.state = SchedulerState::RunningRound;
            true
        }
    }

    /// Takes the finished round's batch and records every outcome of it into
    /// the aggregate, then enters the sleep phase. Whether a stop was
    /// requested meanwhile plays no part here: a round in flight always
    /// completes and is recorded.
    pub fn round_done(&mut self, results: &Vec<Outcome>)
        requires
            old(self).wf(),
            old(self).state == SchedulerState::RunningRound,
            forall|k: Seq<char>|
                stats_at(old(self).agg.as_map(), k).samples + results@.len() <= u64::MAX,
        ensures
            final(self).wf(),
            final(self).state == (SchedulerState::Sleeping { slept_ms: 0 }),
            final(self).period_ms == old(self).period_ms,
            final(self).poll_ms == old(self).poll_ms,
            final(self).agg.as_map() == map_after_all(old(self).agg.as_map(), results@),
    {
        self.agg.record_all(results);
        self.state = SchedulerState::Sleeping { slept_ms: 0 };
    }

    /// One poll granule of the sleep phase: consults the stop flag first, so
    /// a stop request ends the loop within one granule; otherwise the next
    /// round starts once the period has elapsed.
    pub fn tick(&mut self, stop_requested: bool)
        requires
            old(self).wf(),
            old(self).state matches SchedulerState::Sleeping { .. },
        ensures
            final(self).wf(),
            final(self).agg == old(self).agg,
            final(self).period_ms == old(self).period_ms,
            final(self).poll_ms == old(self).poll_ms,
            final(self).state == (match old(self).state {
                SchedulerState::Sleeping { slept_ms } => spec_tick(
                    slept_ms,
                    old(self).period_ms,
                    old(self).poll_ms,
                    stop_requested,
                ),
                _ => old(self).state,
            }),
    {
        let slept: u64 = match &self.state {
            SchedulerState::Sleeping { slept_ms } => *slept_ms,
            _ => 0,
        };
        if stop_requested {
            self.state = SchedulerState::Stopped;
        } else if self.period_ms - slept <= self.poll_ms {
            self.state = SchedulerState::RunningRound;
        } else {
            self.state = SchedulerState::Sleeping { slept_ms: slept + self.poll_ms };
        }
    }

    /// The scheduler has terminated; the aggregate is final.
    pub fn is_stopped(&self) -> (r: bool)
        ensures
            r == (self.state == SchedulerState::Stopped),
    {
        match &self.state {
            SchedulerState::Stopped => true,
            _ => false,
        }
    }
}

/// Law: a stop request during the sleep phase wins immediately — whatever
/// part of the period has been slept, the very next poll ends the loop, so
/// the stop latency is bounded by one poll granule, never a full period.
/// Together with `round_done`, whose contract records the finished round
/// without consulting the stop flag, this is what makes termination clean:
/// the in-flight round, if any, completes and is recorded before the
/// machine stops.
pub proof fn lemma_stop_latency(slept_ms: u64, period_ms: u64, poll_ms: u64)
    ensures
        spec_tick(slept_ms, period_ms, poll_ms, true) == SchedulerState::Stopped,
{
}

/// How many poll granules of undisturbed sleeping remain before the next
/// round starts: iterating `spec_tick` without a stop request until the
/// period is covered.
pub open spec fn polls_to_next_round(slept_ms: u64, period_ms: u64, poll_ms: u64) -> nat
    decreases period_ms - slept_ms,
        when 0 < poll_ms && slept_ms < period_ms
{
    if slept_ms + poll_ms >= period_ms {
        1
    } else {
        1 + polls_to_next_round((slept_ms + poll_ms) as u64, period_ms, poll_ms)
    }
}

/// Law: an undisturbed sleep phase covers the period exactly — the granules
/// slept before the next round starts amount to at least the rest of the
/// period, and dropping the last granule would leave part of it unslept.
/// The interval is respected, and not overshot by more than one granule.
pub proof fn lemma_sleep_covers_period(slept_ms: u64, period_ms: u64, poll_ms: u64)
    requires
        0 < poll_ms,
        slept_ms < period_ms,
    ensures
        polls_to_next_round(slept_ms, period_ms, poll_ms) * poll_ms >= period_ms - slept_ms,
        (polls_to_next_round(slept_ms, period_ms, poll_ms) - 1) * poll_ms < period_ms - slept_ms,
    decreases period_ms - slept_ms,
{
    let n = polls_to_next_round(slept_ms, period_ms, poll_ms);
    if slept_ms + poll_ms >= period_ms {
        assert(n == 1);
    } else {
        let rest = polls_to_next_round((slept_ms + poll_ms) as u64, period_ms, poll_ms);
        lemma_sleep_covers_period((slept_ms + poll_ms) as u64, period_ms, poll_ms);
        assert(n * poll_ms == rest * poll_ms + poll_ms) by (nonlinear_arith)
            requires
                n == rest + 1;
        assert((n - 1) * poll_ms == (rest - 1) * poll_ms + poll_ms) by (nonlinear_arith)
            requires
                n == rest + 1,
                rest >= 1;
    }
}

} // verus!
