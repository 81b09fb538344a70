//! Rolling statistics. A `Stats` accumulates, for one URL, the sample count,
//! the count of "up" samples (status codes in `[200, 399]`), and the
//! cumulative latency; an `Aggregator` keeps one `Stats` per URL observed,
//! created lazily on first observation and never removed.

use vstd::prelude::*;
use crate::probe::{Outcome, outcome_is_success};

verus! {

/// Per-URL accumulator: sample count, success count, cumulative latency.
#[derive(Clone, Copy)]
pub struct Stats {
    pub samples: u64,
    pub ok: u64,
    pub total_ms: u128,
}

/// Well-formedness: successes never outnumber samples, and the cumulative
/// latency is bounded by what `samples` attempts can have contributed.
pub open spec fn stats_wf(s: Stats) -> bool {
    &&& s.ok <= s.samples
    &&& s.total_ms <= s.samples as int * u64::MAX as int
}

/// What recording one outcome does: one more sample, one more success
/// exactly when the outcome carries a status code in `[200, 399]`, and the
/// outcome's elapsed time added to the cumulative latency.
pub open spec fn spec_record(s: Stats, o: Outcome) -> Stats {
    Stats {
        samples: (s.samples + 1) as u64,
        ok: if outcome_is_success(o.status) {
            (s.ok + 1) as u64
        } else {
            s.ok
        },
        total_ms: (s.total_ms + o.response_time_ms) as u128,
    }
}

impl Stats {
    pub fn new() -> (s: Stats)
        ensures
            s.samples == 0,
            s.ok == 0,
            s.total_ms == 0,
            stats_wf(s),
    {
        Stats { samples: 0, ok: 0, total_ms: 0 }
    }

    /// Records one outcome.
    pub fn record(&mut self, o: &Outcome)
        requires
            stats_wf(*old(self)),
            old(self).samples < u64::MAX,
        ensures
            *final(self) == spec_record(*old(self), *o),
            stats_wf(*final(self)),
    {
        proof {
            let t = self.total_ms as int;
            let n = self.samples as int;
            let r = o.response_time_ms as int;
            let m = u64::MAX as int;
            assert(t + r <= (n + 1) * m && (n + 1) * m < u128::MAX) by (nonlinear_arith)
                requires
                    t <= n * m,
                    0 <= r <= m,
                    0 <= n < m,
                    m == u64::MAX as int;
        }
        self.samples = self.samples + 1;
        let up = match &o.status {
            Ok(code) => crate::success_code(*code),
            Err(_) => false,
        };
        if up {
            self.ok = self.ok + 1;
        }
        self.total_ms = self.total_ms + o.response_time_ms as u128;
    }

    /// Average latency in milliseconds over all samples, 0 when there are no
    /// samples.
    pub fn avg_ms(&self) -> (r: u128)
        ensures
            r == if self.samples == 0 {
                0int
            } else {
                self.total_ms as int / self.samples as int
            },
    {
        if self.samples == 0 {
            0
        } else {
            self.total_ms / (self.samples as u128)
        }
    }

    /// Uptime as a percentage scaled by 100 (so 75% is 7500), 0 when there
    /// are no samples.
    pub fn uptime_pct_x100(&self) -> (r: u64)
        requires
            stats_wf(*self),
        ensures
            r == if self.samples == 0 {
                0int
            } else {
                self.ok as int * 10000 / self.samples as int
            },
            r <= 10000,
    {
        if self.samples == 0 {
            0
        } else {
            let q = (self.ok as u128) * 10000 / (self.samples as u128);
            proof {
                assert(self.ok as int * 10000 / self.samples as int <= 10000) by (nonlinear_arith)
                    requires
                        0 < self.samples,
                        self.ok <= self.samples;
            }
            q as u64
        }
    }
}

/// Law: recording the same outcome twice doubles the increments — two more
/// samples, two more successes exactly when the outcome is a success, and
/// twice its elapsed time added to the cumulative latency.
pub proof fn lemma_record_twice(s: Stats, o: Outcome)
    requires
        stats_wf(s),
        s.samples + 2 <= u64::MAX,
    ensures
        ({
            let s2 = spec_record(spec_record(s, o), o);
            &&& s2.samples == s.samples + 2
            &&& s2.ok == s.ok + (if outcome_is_success(o.status) {
                2int
            } else {
                0int
            })
            &&& s2.total_ms == s.total_ms + 2 * o.response_time_ms
        }),
{
    assert(s.total_ms + 2 * o.response_time_ms <= u128::MAX) by (nonlinear_arith)
        requires
            s.total_ms <= s.samples as int * u64::MAX as int,
            s.samples + 2 <= u64::MAX,
            o.response_time_ms <= u64::MAX;
}

// ---------------------------------------------------------------------------
// The per-URL aggregator.
// ---------------------------------------------------------------------------

/// The keys of an entry list, pairwise distinct.
pub open spec fn keys_unique(s: Seq<(String, Stats)>) -> bool {
    forall|i: int, j: int| 0 <= i < j < s.len() ==> s[i].0@ != s[j].0@
}

/// The mapping an entry list denotes: each URL to its accumulated statistics.
pub open spec fn entries_map(s: Seq<(String, Stats)>) -> Map<Seq<char>, Stats>
    decreases s.len(),
{
    if s.len() == 0 {
        Map::empty()
    } else {
        entries_map(s.drop_last()).insert(s.last().0@, s.last().1)
    }
}

/// The statistics a map holds for a URL, starting fresh when the URL has not
/// been observed yet.
pub open spec fn stats_at(m: Map<Seq<char>, Stats>, url: Seq<char>) -> Stats {
    if m.contains_key(url) {
        m[url]
    } else {
        Stats { samples: 0, ok: 0, total_ms: 0 }
    }
}

/// What recording one outcome does to the aggregate mapping.
pub open spec fn map_after(m: Map<Seq<char>, Stats>, o: Outcome) -> Map<Seq<char>, Stats> {
    m.insert(o.url@, spec_record(stats_at(m, o.url@), o))
}

/// What recording a whole batch does to the aggregate mapping, in batch
/// order.
pub open spec fn map_after_all(m: Map<Seq<char>, Stats>, outcomes: Seq<Outcome>) -> Map<
    Seq<char>,
    Stats,
>
    decreases outcomes.len(),
{
    if outcomes.len() == 0 {
        m
    } else {
        map_after(map_after_all(m, outcomes.drop_last()), outcomes.last())
    }
}

/// Law: the aggregate never forgets a URL — recording an outcome adds at
/// most its own URL to the mapping and removes nothing; every URL ever
/// observed keeps its entry.
pub proof fn lemma_record_never_removes(m: Map<Seq<char>, Stats>, o: Outcome)
    ensures
        map_after(m, o).dom() =~= m.dom().insert(o.url@),
        forall|k: Seq<char>| m.contains_key(k) ==> map_after(m, o).contains_key(k),
{
}

/// Recording one outcome raises any URL's sample count by at most one.
proof fn lemma_map_after_samples(m: Map<Seq<char>, Stats>, o: Outcome, k: Seq<char>)
    ensures
        stats_at(map_after(m, o), k).samples <= stats_at(m, k).samples + 1,
{
}

/// Recording a batch raises any URL's sample count by at most the batch
/// length.
proof fn lemma_map_after_all_samples(m: Map<Seq<char>, Stats>, outcomes: Seq<Outcome>, k: Seq<char>)
    ensures
        stats_at(map_after_all(m, outcomes), k).samples <= stats_at(m, k).samples
            + outcomes.len(),
    decreases outcomes.len(),
{
    if outcomes.len() > 0 {
        lemma_map_after_all_samples(m, outcomes.drop_last(), k);
        lemma_map_after_samples(map_after_all(m, outcomes.drop_last()), outcomes.last(), k);
    }
}

proof fn lemma_entries_map_contains(s: Seq<(String, Stats)>, k: Seq<char>)
    ensures
        entries_map(s).contains_key(k) <==> exists|i: int| 0 <= i < s.len() && s[i].0@ == k,
    decreases s.len(),
{
    if s.len() > 0 {
        lemma_entries_map_contains(s.drop_last(), k);
        if s.last().0@ == k {
            assert(s[s.len() - 1].0@ == k);
        } else if entries_map(s).contains_key(k) {
            let i = choose|i: int| 0 <= i < s.drop_last().len() && s.drop_last()[i].0@ == k;
            assert(s[i].0@ == k);
        } else {
            assert(forall|i: int|
                0 <= i < s.len() - 1 ==> s.drop_last()[i] == s[i]);
        }
    }
}

proof fn lemma_entries_map_at(s: Seq<(String, Stats)>, i: int)
    requires
        keys_unique(s),
        0 <= i < s.len(),
    ensures
        entries_map(s).contains_key(s[i].0@),
        entries_map(s)[s[i].0@] == s[i].1,
    decreases s.len(),
{
    lemma_entries_map_contains(s, s[i].0@);
    if i < s.len() - 1 {
        assert(s.drop_last()[i] == s[i]);
        assert(keys_unique(s.drop_last())) by {
            assert(forall|a: int, b: int|
                0 <= a < b < s.len() - 1 ==> s.drop_last()[a] == s[a] && s.drop_last()[b] == s[b]);
        }
        lemma_entries_map_at(s.drop_last(), i);
        assert(s[i].0@ != s.last().0@);
    }
}

proof fn lemma_entries_map_update(s: Seq<(String, Stats)>, i: int, p: (String, Stats))
    requires
        keys_unique(s),
        0 <= i < s.len(),
        p.0@ == s[i].0@,
    ensures
        entries_map(s.update(i, p)) =~~= entries_map(s).insert(s[i].0@, p.1),
    decreases s.len(),
{
    let t = s.update(i, p);
    if i == s.len() - 1 {
        assert(t.drop_last() =~= s.drop_last());
        assert(t.last() == p);
    } else {
        assert(t.drop_last() =~= s.drop_last().update(i, p));
        assert(t.last() == s.last());
        assert(s.drop_last()[i] == s[i]);
        assert(keys_unique(s.drop_last())) by {
            assert(forall|a: int, b: int|
                0 <= a < b < s.len() - 1 ==> s.drop_last()[a] == s[a] && s.drop_last()[b] == s[b]);
        }
        lemma_entries_map_update(s.drop_last(), i, p);
        assert(s[i].0@ != s.last().0@);
    }
}

/// Accumulates statistics per URL: one entry per distinct URL observed,
/// created on first observation and never removed.
pub struct Aggregator {
    pub entries: Vec<(String, Stats)>,
}

impl Aggregator {
    /// Well-formedness: one entry per URL, each well formed.
    pub open spec fn wf(&self) -> bool {
        &&& keys_unique(self.entries@)
        &&& forall|i: int| 0 <= i < self.entries@.len() ==> stats_wf(#[trigger] self.entries@[i].1)
    }

    /// The mapping from URL to its accumulated statistics.
    pub open spec fn as_map(&self) -> Map<Seq<char>, Stats> {
        entries_map(self.entries@)
    }

    pub fn new() -> (a: Aggregator)
        ensures
            a.wf(),
            a.as_map() == Map::<Seq<char>, Stats>::empty(),
            a.entries@.len() == 0,
    {
        Aggregator { entries: Vec::new() }
    }

    /// Records one outcome under its URL, creating the entry on first
    /// observation. Entries are never removed, so the mapping only grows.
    pub fn record(&mut self, o: &Outcome)
        requires
            old(self).wf(),
            stats_at(old(self).as_map(), o.url@).samples < u64::MAX,
        ensures
            final(self).wf(),
            final(self).as_map() == map_after(old(self).as_map(), *o),
    {
        let ghost s0 = self.entries@;
        let mut i: usize = 0;
        while i < self.entries.len()
            invariant
                self.entries@ == s0,
                s0 == old(self).entries@,
                i <= s0.len(),
                keys_unique(s0),
                forall|j: int| 0 <= j < s0.len() ==> stats_wf(#[trigger] s0[j].1),
                stats_at(entries_map(s0), o.url@).samples < u64::MAX,
                forall|j: int| 0 <= j < i ==> s0[j].0@ != o.url@,
            decreases s0.len() - i,
        {
            if self.entries[i].0 == o.url {
                proof {
                    lemma_entries_map_at(s0, i as int);
                }
                let key = self.entries[i].0.clone();
                let mut st = self.entries[i].1;
                st.record(o);
                self.entries[i] = (key, st);
                proof {
                    lemma_entries_map_update(s0, i as int, (key, st));
                    assert(self.entries@ == s0.update(i as int, (key, st)));
                    assert(keys_unique(self.entries@)) by {
                        assert(forall|a: int|
                            0 <= a < s0.len() ==> #[trigger] self.entries@[a].0@ == s0[a].0@);
                    }
                    assert(self.as_map() =~~= map_after(entries_map(s0), *o));
                }
                return ;
            }
            i = i + 1;
        }
        proof {
            lemma_entries_map_contains(s0, o.url@);
            assert(!entries_map(s0).contains_key(o.url@));
        }
        let mut st = Stats::new();
        st.record(o);
        let key = o.url.clone();
        self.entries.push((key, st));
        proof {
            assert(self.entries@.drop_last() =~= s0);
            assert(keys_unique(self.entries@)) by {
                assert(forall|a: int| 0 <= a < s0.len() ==> #[trigger] self.entries@[a] == s0[a]);
            }
            assert(self.as_map() =~~= map_after(entries_map(s0), *o));
        }
    }

    /// Records a whole round's outcomes, in batch order. The batch must leave
    /// every URL's sample count representable.
    pub fn record_all(&mut self, outcomes: &Vec<Outcome>)
        requires
            old(self).wf(),
            forall|k: Seq<char>|
                stats_at(old(self).as_map(), k).samples + outcomes@.len() <= u64::MAX,
        ensures
            final(self).wf(),
            final(self).as_map() == map_after_all(old(self).as_map(), outcomes@),
    {
        let ghost m0 = self.as_map();
        let mut i: usize = 0;
        while i < outcomes.len()
            invariant
                i <= outcomes@.len(),
                self.wf(),
                m0 == old(self).as_map(),
                self.as_map() == map_after_all(m0, outcomes@.take(i as int)),
                forall|k: Seq<char>| stats_at(m0, k).samples + outcomes@.len() <= u64::MAX,
            decreases outcomes@.len() - i,
        {
            proof {
                lemma_map_after_all_samples(m0, outcomes@.take(i as int), outcomes@[i as int].url@);
            }
            self.record(&outcomes[i]);
            proof {
                assert(outcomes@.take(i + 1).drop_last() =~= outcomes@.take(i as int));
                assert(outcomes@.take(i + 1).last() == outcomes@[i as int]);
            }
            i = i + 1;
        }
        proof {
            assert(outcomes@.take(i as int) =~= outcomes@);
        }
    }

    /// The statistics recorded for a URL, if any outcome for it has been
    /// observed.
    pub fn get(&self, url: &String) -> (r: Option<&Stats>)
        requires
            self.wf(),
        ensures
            match r {
                Some(st) => self.as_map().contains_key(url@) && *st == self.as_map()[url@],
                None => !self.as_map().contains_key(url@),
            },
    {
        let mut i: usize = 0;
        while i < self.entries.len()
            invariant
                i <= self.entries@.len(),
                self.wf(),
                forall|j: int| 0 <= j < i ==> self.entries@[j].0@ != url@,
            decreases self.entries@.len() - i,
        {
            if self.entries[i].0 == *url {
                proof {
                    lemma_entries_map_at(self.entries@, i as int);
                }
                return Some(&self.entries[i].1);
            }
            i = i + 1;
        }
        proof {
            lemma_entries_map_contains(self.entries@, url@);
        }
        None
    }
}

} // verus!
