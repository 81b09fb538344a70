//! The probe executor: one URL check. A probe issues HTTP GET attempts until
//! one produces a response or the retry budget for transport failures is
//! spent, then validates the response headers against the configured
//! exact-match requirements and produces exactly one `Outcome`.
//!
//! The transport itself (the HTTP client, the timeout clock, the backoff
//! sleep) lives outside the library: a `ProbeTask` is the decision core that
//! the transport loop drives. Each attempt's result is handed in as a
//! `FetchResult`, and `on_attempt` answers either `Retry` (try again after a
//! backoff) or `Done` with the final outcome.

use vstd::prelude::*;
use crate::clock::{DateTime, Utc};

verus! {

// ---------------------------------------------------------------------------
// Case-insensitive header-name matching (ASCII case, per HTTP convention).
// ---------------------------------------------------------------------------

/// A character's code point with ASCII upper case folded to lower case.
pub open spec fn fold_char(c: char) -> int {
    if 65 <= c as u32 <= 90 {
        c as u32 + 32
    } else {
        c as int
    }
}

/// Two header names are the same when they agree character by character up to
/// ASCII case.
pub open spec fn names_equal_nocase(a: Seq<char>, b: Seq<char>) -> bool {
    a.len() == b.len() && forall|i: int| 0 <= i < a.len() ==> fold_char(a[i]) == fold_char(b[i])
}

fn fold_char_exec(c: char) -> (r: u32)
    ensures
        r == fold_char(c),
{
    let u = c as u32;
    if 65 <= u && u <= 90 {
        u + 32
    } else {
        u
    }
}

/// Whether two strings are equal up to ASCII case.
pub fn str_eq_nocase(a: &str, b: &str) -> (r: bool)
    ensures
        r == names_equal_nocase(a@, b@),
{
    let a_len = a.unicode_len();
    let b_len = b.unicode_len();
    if a_len != b_len {
        return false;
    }
    let mut i: usize = 0;
    while i < a_len
        invariant
            a_len == a@.len(),
            b_len == b@.len(),
            a_len == b_len,
            i <= a_len,
            forall|j: int| 0 <= j < i ==> fold_char(a@[j]) == fold_char(b@[j]),
        decreases a_len - i,
    {
        let ca = a.get_char(i);
        let cb = b.get_char(i);
        if fold_char_exec(ca) != fold_char_exec(cb) {
            return false;
        }
        i = i + 1;
    }
    true
}

// ---------------------------------------------------------------------------
// Header lookup and validation.
// ---------------------------------------------------------------------------

/// The value of the first header whose name matches `name` up to ASCII case,
/// if any.
pub open spec fn lookup_header(headers: Seq<(Seq<char>, Seq<char>)>, name: Seq<char>) -> Option<
    Seq<char>,
>
    decreases headers.len(),
{
    if headers.len() == 0 {
        None
    } else if names_equal_nocase(headers.first().0, name) {
        Some(headers.first().1)
    } else {
        lookup_header(headers.drop_first(), name)
    }
}

/// Finds the first header named `name` (case-insensitively) and returns its
/// value.
pub fn find_header(headers: &Vec<(String, String)>, name: &String) -> (r: Option<String>)
    ensures
        match r {
            Some(v) => lookup_header(headers.deep_view(), name@) == Some(v@),
            None => lookup_header(headers.deep_view(), name@) is None,
        },
{
    let ghost full = headers.deep_view();
    proof {
        assert(full.skip(0) =~= full);
    }
    let mut i: usize = 0;
    while i < headers.len()
        invariant
            full == headers.deep_view(),
            i <= headers.len(),
            full.len() == headers.len(),
            lookup_header(full, name@) == lookup_header(full.skip(i as int), name@),
        decreases headers.len() - i,
    {
        proof {
            assert(full.skip(i as int).first() == full[i as int]);
            assert(full[i as int].0 == headers[i as int].0@);
        }
        if str_eq_nocase(headers[i].0.as_str(), name.as_str()) {
            let v = headers[i].1.clone();
            return Some(v);
        }
        proof {
            assert(full.skip(i as int).drop_first() =~= full.skip(i + 1));
        }
        i = i + 1;
    }
    proof {
        assert(full.skip(i as int) =~= Seq::<(Seq<char>, Seq<char>)>::empty());
    }
    None
}

/// Why a probe produced a failure outcome rather than a status code
/// (spec-level shape; `ProbeError` is its executable counterpart).
pub ghost enum FailureModel {
    /// A required header was absent from the response.
    MissingHeader { name: Seq<char> },
    /// A required header was present but its value was not exactly the
    /// expected one.
    HeaderMismatch { name: Seq<char>, got: Seq<char>, expected: Seq<char> },
    /// No HTTP exchange completed at all (connection refused, timeout, DNS
    /// failure and the like), and the retry budget is spent.
    Transport { message: Seq<char> },
}

/// Why a probe produced a failure outcome rather than a status code.
#[derive(Debug, PartialEq, Eq)]
pub enum ProbeError {
    MissingHeader { name: String },
    HeaderMismatch { name: String, got: String, expected: String },
    Transport { message: String },
}

impl View for ProbeError {
    type V = FailureModel;

    open spec fn view(&self) -> FailureModel {
        match self {
            ProbeError::MissingHeader { name } => FailureModel::MissingHeader { name: name@ },
            ProbeError::HeaderMismatch { name, got, expected } => FailureModel::HeaderMismatch {
                name: name@,
                got: got@,
                expected: expected@,
            },
            ProbeError::Transport { message } => FailureModel::Transport { message: message@ },
        }
    }
}

/// The outcome of validating response headers against the required
/// (name, expected value) pairs, checked in order: `None` when every
/// requirement holds, otherwise the first failure.
pub open spec fn validate_spec(
    checks: Seq<(Seq<char>, Seq<char>)>,
    headers: Seq<(Seq<char>, Seq<char>)>,
) -> Option<FailureModel>
    decreases checks.len(),
{
    if checks.len() == 0 {
        None
    } else {
        let name = checks.first().0;
        let expected = checks.first().1;
        match lookup_header(headers, name) {
            None => Some(FailureModel::MissingHeader { name }),
            Some(got) => if got == expected {
                validate_spec(checks.drop_first(), headers)
            } else {
                Some(FailureModel::HeaderMismatch { name, got, expected })
            },
        }
    }
}

/// All required headers are present with exactly the expected values.
pub open spec fn headers_satisfy(
    checks: Seq<(Seq<char>, Seq<char>)>,
    headers: Seq<(Seq<char>, Seq<char>)>,
) -> bool {
    validate_spec(checks, headers) is None
}

/// Checks each required (name, expected value) pair against the response
/// headers, in order, stopping at the first failure. Header names compare
/// case-insensitively, values exactly.
pub fn validate_headers(checks: &Vec<(String, String)>, headers: &Vec<(String, String)>) -> (r:
    Option<ProbeError>)
    ensures
        match r {
            None => validate_spec(checks.deep_view(), headers.deep_view()) is None,
            Some(e) => validate_spec(checks.deep_view(), headers.deep_view()) == Some(e@),
        },
{
    let ghost full = checks.deep_view();
    proof {
        assert(full.skip(0) =~= full);
    }
    let mut i: usize = 0;
    while i < checks.len()
        invariant
            full == checks.deep_view(),
            i <= checks.len(),
            full.len() == checks.len(),
            validate_spec(full, headers.deep_view()) == validate_spec(
                full.skip(i as int),
                headers.deep_view(),
            ),
        decreases checks.len() - i,
    {
        proof {
            assert(full.skip(i as int).first() == full[i as int]);
            assert(full[i as int].0 == checks[i as int].0@);
            assert(full[i as int].1 == checks[i as int].1@);
        }
        let name = &checks[i].0;
        let expected = &checks[i].1;
        match find_header(headers, name) {
            None => {
                return Some(ProbeError::MissingHeader { name: name.clone() });
            },
            Some(got) => {
                if !got.eq(expected) {
                    return Some(
                        ProbeError::HeaderMismatch {
                            name: name.clone(),
                            got,
                            expected: expected.clone(),
                        },
                    );
                }
            },
        }
        proof {
            assert(full.skip(i as int).drop_first() =~= full.skip(i + 1));
        }
        i = i + 1;
    }
    proof {
        assert(full.skip(i as int) =~= Seq::<(Seq<char>, Seq<char>)>::empty());
    }
    None
}

// ---------------------------------------------------------------------------
// Outcomes and the probe state machine.
// ---------------------------------------------------------------------------

/// The result of one URL probe: a status code (any code the server answered
/// with, including 4xx/5xx) or a failure with its reason; never both. The
/// elapsed time is the single attempt's for a response or a header failure,
/// and the time across all attempts for an exhausted transport failure.
pub struct Outcome {
    pub url: String,
    pub status: Result<u16, ProbeError>,
    pub response_time_ms: u64,
    pub timestamp: DateTime<Utc>,
}

/// What one HTTP GET attempt produced, as the transport reported it.
pub enum FetchResult {
    /// The server answered, with any status code; protocol-level error codes
    /// (4xx/5xx) are completed attempts, not transport failures.
    Response { code: u16, headers: Vec<(String, String)> },
    /// No response at all: connection refused, timeout, DNS failure and the
    /// like.
    TransportFailure { message: String },
}

/// What the transport loop should do after handing in one attempt's result.
pub enum ProbeStep {
    /// The attempt failed in transport and budget remains: back off briefly,
    /// then attempt again.
    Retry,
    /// The probe is finished with exactly this outcome.
    Done(Outcome),
}

/// Whether a transport failure is answered with a retry: only while fewer
/// failures than the budget allows have been counted.
pub open spec fn transport_retry_allowed(attempts: u32, retries: u32) -> bool {
    attempts < retries
}

/// The status a finished probe reports for a response event: the status code
/// when every required header matches, otherwise the first header failure.
pub open spec fn response_status(
    checks: Seq<(Seq<char>, Seq<char>)>,
    code: u16,
    headers: Seq<(Seq<char>, Seq<char>)>,
) -> Result<u16, FailureModel> {
    match validate_spec(checks, headers) {
        None => Ok(code),
        Some(f) => Err(f),
    }
}

/// One URL check in progress: the decision core of the probe executor. The
/// transport loop makes one GET per step and feeds the result to
/// `on_attempt`; `attempts` counts the transport failures seen so far.
pub struct ProbeTask {
    pub url: String,
    pub header_checks: Vec<(String, String)>,
    pub retries: u32,
    pub attempts: u32,
}

impl ProbeTask {
    /// A task that has not exhausted its retry budget.
    pub open spec fn active(&self) -> bool {
        self.attempts <= self.retries
    }

    pub fn new(url: String, header_checks: Vec<(String, String)>, retries: u32) -> (t: ProbeTask)
        ensures
            t.url == url,
            t.header_checks == header_checks,
            t.retries == retries,
            t.attempts == 0,
            t.active(),
    {
        ProbeTask { url, header_checks, retries, attempts: 0 }
    }

    /// Feeds one attempt's result to the task.
    ///
    /// A response — whatever its status code — completes the probe: the
    /// required headers are validated in order and the outcome carries the
    /// code, or the first header failure, with the single attempt's elapsed
    /// time `attempt_ms`. A transport failure is retried while the budget
    /// lasts; the failure after the last retry completes the probe with a
    /// transport-error outcome carrying `overall_ms`, the elapsed time across
    /// all attempts.
    pub fn on_attempt(
        &mut self,
        fetch: FetchResult,
        attempt_ms: u64,
        overall_ms: u64,
        ts: DateTime<Utc>,
    ) -> (step: ProbeStep)
        requires
            old(self).active(),
        ensures
            final(self).url == old(self).url,
            final(self).header_checks == old(self).header_checks,
            final(self).retries == old(self).retries,
            match fetch {
                FetchResult::Response { code, headers } => {
                    &&& *final(self) == *old(self)
                    &&& step matches ProbeStep::Done(o)
                        && o.url == old(self).url
                        && o.response_time_ms == attempt_ms
                        && o.timestamp == ts
                        && status_model(o.status) == response_status(
                        old(self).header_checks.deep_view(),
                        code,
                        headers.deep_view(),
                    )
                },
                FetchResult::TransportFailure { message } => {
                    if transport_retry_allowed(old(self).attempts, old(self).retries) {
                        &&& step is Retry
                        &&& final(self).attempts == old(self).attempts + 1
                        &&& final(self).active()
                    } else {
                        &&& final(self).attempts == old(self).attempts
                        &&& step matches ProbeStep::Done(o)
                            && o.url == old(self).url
                            && o.response_time_ms == overall_ms
                            && o.timestamp == ts
                            && (o.status matches Err(e)
                                && e@ == (FailureModel::Transport { message: message@ }))
                    }
                },
            },
    {
        match fetch {
            FetchResult::Response { code, headers } => {
                let status: Result<u16, ProbeError> = match validate_headers(
                    &self.header_checks,
                    &headers,
                ) {
                    None => Ok(code),
                    Some(e) => Err(e),
                };
                ProbeStep::Done(
                    Outcome {
                        url: self.url.clone(),
                        status,
                        response_time_ms: attempt_ms,
                        timestamp: ts,
                    },
                )
            },
            FetchResult::TransportFailure { message } => {
                if self.attempts < self.retries {
                    self.attempts = self.attempts + 1;
                    ProbeStep::Retry
                } else {
                    ProbeStep::Done(
                        Outcome {
                            url: self.url.clone(),
                            status: Err(ProbeError::Transport { message }),
                            response_time_ms: overall_ms,
                            timestamp: ts,
                        },
                    )
                }
            },
        }
    }
}

/// The spec-level shape of an executable probe status.
pub open spec fn status_model(s: Result<u16, ProbeError>) -> Result<u16, FailureModel> {
    match s {
        Ok(code) => Ok(code),
        Err(e) => Err(e@),
    }
}

/// Whether an outcome counts as "up": the server answered and the code lies
/// in `[200, 399]`.
pub open spec fn outcome_is_success(status: Result<u16, ProbeError>) -> bool {
    status matches Ok(code) && crate::is_success_code(code)
}

// ---------------------------------------------------------------------------
// Laws of the probe executor.
// ---------------------------------------------------------------------------

/// How many transport failures a task with `attempts` failures already
/// counted absorbs before it reports `Done`: iterating the transition of
/// `on_attempt` — one more failure counted per allowed retry — until a
/// retry is no longer allowed, whereupon the next failure finishes the
/// probe.
pub open spec fn failures_to_finish(attempts: u32, retries: u32) -> nat
    decreases retries - attempts,
{
    if !transport_retry_allowed(attempts, retries) {
        1
    } else {
        1 + failures_to_finish((attempts + 1) as u32, retries)
    }
}

/// Law: a probe whose every attempt fails in transport makes exactly
/// `retries + 1` attempts in total — `on_attempt` answers `Retry` to the
/// first `retries` transport failures (each incrementing the attempt
/// counter by one) and `Done` to the next one.
pub proof fn lemma_transport_attempt_count(retries: u32)
    ensures
        failures_to_finish(0, retries) == retries + 1,
{
    lemma_failures_to_finish(0, retries);
}

proof fn lemma_failures_to_finish(attempts: u32, retries: u32)
    requires
        attempts <= retries,
    ensures
        failures_to_finish(attempts, retries) == retries - attempts + 1,
    decreases retries - attempts,
{
    if attempts < retries {
        lemma_failures_to_finish((attempts + 1) as u32, retries);
    }
}

/// Law: a response with all required headers exactly matching yields a
/// success outcome carrying that status code — whatever the code, including
/// protocol-level error codes such as 503, which the statistics then
/// classify as downtime via the `[200, 399]` rule.
pub proof fn lemma_matching_headers_give_status(
    checks: Seq<(Seq<char>, Seq<char>)>,
    code: u16,
    headers: Seq<(Seq<char>, Seq<char>)>,
)
    requires
        headers_satisfy(checks, headers),
    ensures
        response_status(checks, code, headers) == Ok::<u16, FailureModel>(code),
{
}

} // verus!
