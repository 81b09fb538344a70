//! A concurrent website health-checking engine: probes a set of URLs over
//! HTTP with per-attempt timeout, bounded retry on transport failures, and
//! exact-match response-header validation; collects one outcome per URL per
//! round; and, in periodic mode, repeats rounds on an interval while
//! aggregating per-URL uptime and latency statistics until a stop signal
//! arrives. Transport, argument handling and printing live outside the
//! library; the decisions and the bookkeeping live here, each behind a
//! contract.

use vstd::prelude::*;

pub mod clock;
pub mod config;
pub mod numbers;
pub mod probe;
pub mod round;
pub mod scheduler;
pub mod stats;
pub mod text;
pub mod words;

verus! {

/// Status codes in `[200, 399]` count as "up" for statistics purposes.
pub open spec fn is_success_code(code: u16) -> bool {
    200 <= code <= 399
}

/// Executable counterpart of `is_success_code`.
pub fn success_code(code: u16) -> (r: bool)
    ensures
        r == is_success_code(code),
{
    200 <= code && code <= 399
}

} // verus!
