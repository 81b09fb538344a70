//! One round: a full pass over the configured URLs. The `RoundRunner` is the
//! bookkeeping core that the concurrency plumbing drives: URLs are handed out
//! one by one (`next_job`), each handed-out URL must come back as exactly one
//! delivered outcome (`deliver`), and `finish` releases the batch only when
//! nothing is pending or in flight — otherwise the round is distinguishably
//! incomplete. A ghost multiset of the submitted URLs is conserved across
//! every step, which is what makes "no URL missing, none duplicated" a
//! theorem rather than a hope.

use vstd::prelude::*;
use vstd::multiset::Multiset;
use vstd::seq_lib::group_to_multiset_ensures;
use crate::probe::{Outcome, outcome_is_success};

verus! {

/// The URLs of a batch of outcomes, in batch order.
pub open spec fn outcome_urls(outcomes: Seq<Outcome>) -> Seq<Seq<char>> {
    outcomes.map_values(|o: Outcome| o.url@)
}

/// A round that cannot hand back one outcome per submitted URL.
#[derive(Debug, PartialEq, Eq)]
pub enum RoundError {
    /// Some URL was never handed out, or was handed out and its outcome was
    /// never delivered.
    Incomplete,
}

/// Bookkeeping for one round over a set of submitted URLs.
pub struct RoundRunner {
    /// Submitted URLs not yet handed out.
    pub pending: Vec<String>,
    /// URLs handed out whose outcome has not been delivered yet.
    pub in_flight: Vec<String>,
    /// Delivered outcomes, in arrival order.
    pub collected: Vec<Outcome>,
    /// The multiset of URLs this round was created with.
    pub submitted: Ghost<Multiset<Seq<char>>>,
}

impl RoundRunner {
    /// Every submitted URL is accounted for exactly once: still pending, in
    /// flight, or answered by a collected outcome.
    pub open spec fn jobs(&self) -> Multiset<Seq<char>> {
        self.pending.deep_view().to_multiset().add(
            self.in_flight.deep_view().to_multiset(),
        ).add(outcome_urls(self.collected@).to_multiset())
    }

    pub open spec fn wf(&self) -> bool {
        self.jobs() == self.submitted@
    }

    /// A fresh round over the given URLs: everything pending, nothing in
    /// flight, nothing collected.
    pub fn new(urls: &Vec<String>) -> (r: RoundRunner)
        ensures
            r.wf(),
            r.pending@ == urls@,
            r.in_flight@.len() == 0,
            r.collected@.len() == 0,
            r.submitted@ == urls.deep_view().to_multiset(),
    {
        let mut pending: Vec<String> = Vec::new();
        let mut k: usize = 0;
        while k < urls.len()
            invariant
                k <= urls@.len(),
                pending@ == urls@.take(k as int),
            decreases urls@.len() - k,
        {
            pending.push(urls[k].clone());
            proof {
                assert(pending@ =~= urls@.take(k + 1));
            }
            k = k + 1;
        }
        proof {
            assert(pending@ =~= urls@);
        }
        let r = RoundRunner {
            pending,
            in_flight: Vec::new(),
            collected: Vec::new(),
            submitted: Ghost(urls.deep_view().to_multiset()),
        };
        proof {
            broadcast use group_to_multiset_ensures;

            assert(r.pending.deep_view() =~= urls.deep_view());
            let empty = Seq::<Seq<char>>::empty();
            assert(r.in_flight.deep_view() =~= empty);
            assert(outcome_urls(r.collected@) =~= empty);
            assert(empty.to_multiset() =~= Multiset::<Seq<char>>::empty());
            assert(r.jobs() =~= urls.deep_view().to_multiset());
        }
        r
    }

    /// Hands out the next pending URL, if any, marking it in flight.
    pub fn next_job(&mut self) -> (job: Option<String>)
        requires
            old(self).wf(),
        ensures
            final(self).wf(),
            final(self).submitted == old(self).submitted,
            final(self).collected == old(self).collected,
            match job {
                None => old(self).pending@.len() == 0 && final(self).pending@ == old(
                    self,
                ).pending@ && final(self).in_flight == old(self).in_flight,
                Some(u) => {
                    &&& old(self).pending@.len() > 0
                    &&& u == old(self).pending@.last()
                    &&& final(self).pending@ == old(self).pending@.drop_last()
                    &&& final(self).in_flight@ == old(self).in_flight@.push(u)
                },
            },
    {
        let ghost pre = *self;
        match self.pending.pop() {
            None => None,
            Some(u) => {
                let handed = u.clone();
                self.in_flight.push(u);
                proof {
                    broadcast use group_to_multiset_ensures;
                    broadcast use vstd::multiset::group_multiset_axioms;

                    let pv = pre.pending.deep_view();
                    let uv = pre.pending@.last()@;
                    assert(pre.pending@.drop_last() =~= pre.pending@.remove(
                        pre.pending@.len() - 1,
                    ));
                    assert(self.pending.deep_view() =~= pv.remove(pv.len() - 1));
                    assert(pv[pv.len() - 1] == uv);
                    assert(self.in_flight.deep_view() =~= pre.in_flight.deep_view().push(uv));
                    assert(pv.to_multiset().contains(uv)) by {
                        assert(pv.contains(uv));
                    }
                    assert(self.jobs() =~= pre.jobs());
                }
                Some(handed)
            },
        }
    }

    /// Takes delivery of one outcome. It is accepted exactly when its URL is
    /// in flight; an outcome for a URL this round never handed out is
    /// refused, and the round is unchanged.
    pub fn deliver(&mut self, o: Outcome) -> (accepted: bool)
        requires
            old(self).wf(),
        ensures
            final(self).wf(),
            final(self).submitted == old(self).submitted,
            final(self).pending == old(self).pending,
            accepted <==> exists|i: int|
                0 <= i < old(self).in_flight@.len() && old(self).in_flight@[i]@ == o.url@,
            accepted ==> {
                &&& final(self).collected@ == old(self).collected@.push(o)
                &&& final(self).in_flight.deep_view().to_multiset() == old(
                    self,
                ).in_flight.deep_view().to_multiset().remove(o.url@)
                &&& final(self).in_flight@.len() + 1 == old(self).in_flight@.len()
            },
            !accepted ==> *final(self) == *old(self),
    {
        let ghost pre = *self;
        let mut i: usize = 0;
        while i < self.in_flight.len()
            invariant
                *self == pre,
                pre == *old(self),
                pre.wf(),
                i <= pre.in_flight@.len(),
                forall|j: int| 0 <= j < i ==> pre.in_flight@[j]@ != o.url@,
            decreases pre.in_flight@.len() - i,
        {
            if self.in_flight[i] == o.url {
                self.in_flight.remove(i);
                self.collected.push(o);
                proof {
                    broadcast use group_to_multiset_ensures;
                    broadcast use vstd::multiset::group_multiset_axioms;

                    let fv = pre.in_flight.deep_view();
                    assert(self.in_flight.deep_view() =~= fv.remove(i as int));
                    assert(fv[i as int] == o.url@);
                    assert(outcome_urls(self.collected@) =~= outcome_urls(pre.collected@).push(
                        o.url@,
                    ));
                    assert(fv.to_multiset().contains(o.url@)) by {
                        assert(fv.contains(o.url@));
                    }
                    assert(self.jobs() =~= pre.jobs());
                }
                return true;
            }
            i = i + 1;
        }
        false
    }

    /// How many outcomes are still owed before the round is complete.
    pub fn outstanding(&self) -> (n: usize)
        requires
            self.pending@.len() + self.in_flight@.len() <= usize::MAX,
        ensures
            n == self.pending@.len() + self.in_flight@.len(),
    {
        self.pending.len() + self.in_flight.len()
    }

    /// Releases the collected batch. The round succeeds exactly when every
    /// submitted URL was handed out and answered: the batch then holds one
    /// outcome per submitted URL — none missing, none duplicated — in
    /// arrival order. Anything short of that is a distinguishable
    /// incomplete round, never a silently short batch.
    pub fn finish(self) -> (r: Result<Vec<Outcome>, RoundError>)
        requires
            self.wf(),
        ensures
            match r {
                Ok(v) => {
                    &&& self.pending@.len() == 0
                    &&& self.in_flight@.len() == 0
                    &&& v == self.collected
                    &&& outcome_urls(v@).to_multiset() == self.submitted@
                    &&& v@.len() == self.submitted@.len()
                },
                Err(e) => {
                    &&& self.pending@.len() + self.in_flight@.len() > 0
                    &&& e == RoundError::Incomplete
                },
            },
    {
        if self.pending.len() == 0 && self.in_flight.len() == 0 {
            proof {
                broadcast use group_to_multiset_ensures;
                broadcast use vstd::multiset::group_multiset_axioms;

                let empty = Seq::<Seq<char>>::empty();
                assert(self.pending.deep_view() =~= empty);
                assert(self.in_flight.deep_view() =~= empty);
                assert(empty.to_multiset() =~= Multiset::<Seq<char>>::empty());
                assert(outcome_urls(self.collected@).to_multiset() =~= self.jobs());
                assert(outcome_urls(self.collected@).len() == self.collected@.len());
            }
            Ok(self.collected)
        } else {
            Err(RoundError::Incomplete)
        }
    }
}

/// Law: a completed round is a batch with exactly one outcome per submitted
/// URL — its length equals the number of submitted URLs, per URL the batch
/// answers as many times as the URL was submitted, and when the submitted
/// URLs are pairwise distinct every one of them is answered exactly once.
pub proof fn lemma_round_exactly_once(urls: Seq<Seq<char>>, outcomes: Seq<Outcome>)
    requires
        outcome_urls(outcomes).to_multiset() == urls.to_multiset(),
    ensures
        outcomes.len() == urls.len(),
        forall|u: Seq<char>|
            #[trigger] outcome_urls(outcomes).to_multiset().count(u) == urls.to_multiset().count(
                u,
            ),
        urls.no_duplicates() ==> forall|u: Seq<char>|
            urls.contains(u) ==> #[trigger] outcome_urls(outcomes).to_multiset().count(u) == 1,
{
    broadcast use group_to_multiset_ensures;

    assert(outcome_urls(outcomes).len() == outcomes.len());
    assert(outcome_urls(outcomes).to_multiset().len() == outcome_urls(outcomes).len());
    assert(urls.to_multiset().len() == urls.len());
    if urls.no_duplicates() {
        urls.lemma_multiset_has_no_duplicates();
        assert forall|u: Seq<char>| urls.contains(u) implies #[trigger] outcome_urls(
            outcomes,
        ).to_multiset().count(u) == 1 by {
            assert(urls.to_multiset().contains(u));
        }
    }
}

// ---------------------------------------------------------------------------
// Round-level summary.
// ---------------------------------------------------------------------------

/// How many outcomes of a batch count as "up".
pub open spec fn spec_success_count(s: Seq<Outcome>) -> nat
    decreases s.len(),
{
    if s.len() == 0 {
        0
    } else {
        spec_success_count(s.drop_last()) + if outcome_is_success(s.last().status) {
            1nat
        } else {
            0nat
        }
    }
}

/// The summed elapsed time of a batch, in milliseconds.
pub open spec fn spec_total_ms(s: Seq<Outcome>) -> int
    decreases s.len(),
{
    if s.len() == 0 {
        0
    } else {
        spec_total_ms(s.drop_last()) + s.last().response_time_ms
    }
}

/// The round-level summary reported after each round.
pub struct RoundSummary {
    /// Number of outcomes in the round.
    pub count: usize,
    /// Outcomes with a status code in `[200, 399]`.
    pub successes: usize,
    /// Average elapsed time in milliseconds, 0 for an empty round.
    pub avg_ms: u128,
    /// Uptime percentage scaled by 100 (75% is 7500), 0 for an empty round.
    pub uptime_pct_x100: u64,
}

/// Computes the summary of one round's batch: how many checks ran, how many
/// were up, the average latency, and the round's uptime percentage.
pub fn round_summary(results: &Vec<Outcome>) -> (s: RoundSummary)
    ensures
        s.count == results@.len(),
        s.successes == spec_success_count(results@),
        s.avg_ms == if results@.len() == 0 {
            0int
        } else {
            spec_total_ms(results@) / results@.len() as int
        },
        s.uptime_pct_x100 == if results@.len() == 0 {
            0int
        } else {
            spec_success_count(results@) as int * 10000 / results@.len() as int
        },
        s.uptime_pct_x100 <= 10000,
{
    let mut successes: usize = 0;
    let mut total_ms: u128 = 0;
    let mut i: usize = 0;
    while i < results.len()
        invariant
            i <= results@.len(),
            successes == spec_success_count(results@.take(i as int)),
            successes <= i,
            total_ms == spec_total_ms(results@.take(i as int)),
            total_ms <= i as int * u64::MAX as int,
        decreases results@.len() - i,
    {
        let up = match &results[i].status {
            Ok(code) => crate::success_code(*code),
            Err(_) => false,
        };
        proof {
            assert(results@.take(i + 1).drop_last() =~= results@.take(i as int));
            assert(results@.take(i + 1).last() == results@[i as int]);
            let m = u64::MAX as int;
            assert(total_ms + results@[i as int].response_time_ms <= (i + 1) * m
                && (i + 1) * m <= u128::MAX) by (nonlinear_arith)
                requires
                    total_ms <= i as int * m,
                    results@[i as int].response_time_ms <= m,
                    0 <= i < usize::MAX,
                    usize::MAX <= m,
                    m == u64::MAX as int;
        }
        if up {
            successes = successes + 1;
        }
        total_ms = total_ms + results[i].response_time_ms as u128;
        i = i + 1;
    }
    proof {
        assert(results@.take(i as int) =~= results@);
    }
    let count = results.len();
    let avg_ms: u128 = if count == 0 {
        0
    } else {
        total_ms / (count as u128)
    };
    let uptime: u64 = if count == 0 {
        0
    } else {
        let q = (successes as u128) * 10000 / (count as u128);
        proof {
            assert(successes as int * 10000 / count as int <= 10000) by (nonlinear_arith)
                requires
                    0 < count,
                    successes <= count;
        }
        q as u64
    };
    RoundSummary { count, successes, avg_ms, uptime_pct_x100: uptime }
}

} // verus!
