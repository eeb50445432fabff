//! The rules of the embedding client: which dimensions it accepts, how it
//! paces its calls, and when a failed call is tried again.
//!
//! The client's network calls are made by the caller. This module decides:
//! it is told what time it is and how each attempt ended, and answers what
//! to do next.
use crate::text::{blank, decimal, is_blank, push_decimal, push_str, to_chars, to_string};
use vstd::prelude::*;

verus! {

/// The dimension of an embedding where none is asked for.
pub const DEFAULT_DIMENSION: usize = 768;

/// How many calls one window admits.
pub const RATE_LIMIT_RPM: u32 = 60;

/// The length of the window, in milliseconds.
pub const RATE_LIMIT_WINDOW_MS: u64 = 60000;

/// The least time between two calls, in milliseconds.
pub const MIN_DELAY_MS: u64 = 1000;

/// How often a call that failed for a passing reason is tried again.
pub const MAX_RETRIES: u32 = 3;

/// The wait before the first retry, in milliseconds. It doubles with each
/// further retry.
pub const INITIAL_BACKOFF_MS: u64 = 2000;

/// How long one call may take, in milliseconds.
pub const REQUEST_TIMEOUT_MS: u64 = 30000;

/// Why the embedding client fails.
#[derive(Debug, Clone, PartialEq, Eq)]
pub enum EmbeddingError {
    /// The dimension asked for is none of 768, 1536 and 3072.
    InvalidDimension(usize),
    /// No API key is set.
    MissingApiKey,
    /// The service kept answering that the rate limit was reached until the
    /// retries were used up.
    RateLimitExhausted,
    /// The request could not be sent, and the retries are used up.
    TransportFailure(String),
    /// The service refused the request for a reason that a retry does not
    /// mend.
    Upstream { status: String, message: String },
    /// The answer of the service could not be read.
    InvalidResponse(String),
}

impl EmbeddingError {
    /// The text of the error.
    pub open spec fn message_text(self) -> Seq<char> {
        match self {
            EmbeddingError::InvalidDimension(d) => "Invalid dimension: "@ + decimal(d as nat)
                + ". Must be 768, 1536, or 3072"@,
            EmbeddingError::MissingApiKey => "API key not found. Set GEMINI_API_KEY or GOOGLE_AI_API_KEY environment variable."@,
            EmbeddingError::RateLimitExhausted => "Rate limit exceeded (429)"@,
            EmbeddingError::TransportFailure(cause) => "Failed to send embedding request: "@
                + cause@,
            EmbeddingError::Upstream { status, message } => "Gemini API error ("@ + status@
                + "): "@ + message@,
            EmbeddingError::InvalidResponse(cause) => "Failed to read embedding response: "@
                + cause@,
        }
    }

    /// The text of the error.
    pub fn message(&self) -> (s: String)
        ensures
            s@ == self.message_text(),
    {
        let mut out: Vec<char> = Vec::new();
        match self {
            EmbeddingError::InvalidDimension(d) => {
                push_str(&mut out, "Invalid dimension: ");
                push_decimal(&mut out, *d as u64);
                push_str(&mut out, ". Must be 768, 1536, or 3072");
            },
            EmbeddingError::MissingApiKey => {
                push_str(
                    &mut out,
                    "API key not found. Set GEMINI_API_KEY or GOOGLE_AI_API_KEY environment variable.",
                );
            },
            EmbeddingError::RateLimitExhausted => {
                push_str(&mut out, "Rate limit exceeded (429)");
            },
            EmbeddingError::TransportFailure(cause) => {
                push_str(&mut out, "Failed to send embedding request: ");
                push_str(&mut out, cause.as_str());
            },
            EmbeddingError::Upstream { status, message } => {
                push_str(&mut out, "Gemini API error (");
                push_str(&mut out, status.as_str());
                push_str(&mut out, "): ");
                push_str(&mut out, message.as_str());
            },
            EmbeddingError::InvalidResponse(cause) => {
                push_str(&mut out, "Failed to read embedding response: ");
                push_str(&mut out, cause.as_str());
            },
        }
        assert(out@ =~= self.message_text());
        to_string(&out)
    }
}

/// How one attempt to call the service ended, without what it carried.
#[derive(Debug, Clone, Copy, PartialEq, Eq, Structural)]
pub enum OutcomeKind {
    /// The service answered with an embedding.
    Success,
    /// The service answered that the rate limit was reached.
    RateLimited,
    /// The service refused the request for another reason.
    Rejected,
    /// The request could not be sent.
    TransportFailed,
    /// The answer could not be read.
    Unreadable,
}

impl OutcomeKind {
    /// Whether a retry may mend the failure: the rate limit, and a request
    /// that could not be sent.
    pub open spec fn is_transient(self) -> bool {
        self == OutcomeKind::RateLimited || self == OutcomeKind::TransportFailed
    }
}

/// How one attempt to call the service ended. `V` is the embedding.
#[derive(Debug, Clone, PartialEq)]
pub enum AttemptOutcome<V> {
    /// The service answered with an embedding.
    Success(V),
    /// The service answered that the rate limit was reached.
    RateLimited,
    /// The service refused the request for another reason.
    Rejected { status: String, message: String },
    /// The request could not be sent.
    TransportFailed(String),
    /// The answer could not be read.
    Unreadable(String),
}

impl<V> AttemptOutcome<V> {
    /// The outcome without what it carries.
    pub open spec fn kind(self) -> OutcomeKind {
        match self {
            AttemptOutcome::Success(_) => OutcomeKind::Success,
            AttemptOutcome::RateLimited => OutcomeKind::RateLimited,
            AttemptOutcome::Rejected { .. } => OutcomeKind::Rejected,
            AttemptOutcome::TransportFailed(_) => OutcomeKind::TransportFailed,
            AttemptOutcome::Unreadable(_) => OutcomeKind::Unreadable,
        }
    }

    /// The error that the outcome ends in when no retry follows it. Only a
    /// failure has one.
    pub open spec fn error(self) -> EmbeddingError
        recommends
            self.kind() != OutcomeKind::Success,
    {
        match self {
            AttemptOutcome::Success(_) => EmbeddingError::RateLimitExhausted,
            AttemptOutcome::RateLimited => EmbeddingError::RateLimitExhausted,
            AttemptOutcome::Rejected { status, message } => EmbeddingError::Upstream {
                status,
                message,
            },
            AttemptOutcome::TransportFailed(cause) => EmbeddingError::TransportFailure(cause),
            AttemptOutcome::Unreadable(cause) => EmbeddingError::InvalidResponse(cause),
        }
    }
}

/// How an answer of the service with the HTTP status `status` counts: a
/// status from 200 to 299 is a success, 429 is the rate limit, and every
/// other status is a refusal.
pub open spec fn kind_of_status(status: u16) -> OutcomeKind {
    if 200 <= status <= 299 {
        OutcomeKind::Success
    } else if status == 429 {
        OutcomeKind::RateLimited
    } else {
        OutcomeKind::Rejected
    }
}

/// How an answer of the service with the HTTP status `status` counts.
pub fn status_kind(status: u16) -> (kind: OutcomeKind)
    ensures
        kind == kind_of_status(status),
{
    if 200 <= status && status <= 299 {
        OutcomeKind::Success
    } else if status == 429 {
        OutcomeKind::RateLimited
    } else {
        OutcomeKind::Rejected
    }
}

/// The outcome of an attempt that the service answered with the status
/// `status`. `values` is the embedding read from the body, or why none
/// could be read; `error` is the status and the message of the error that the
/// body describes, if it describes one; `status_text` is the status in
/// words.
///
/// A success carries the embedding, and is unreadable where none could be
/// read. The rate limit carries nothing. A refusal carries the error that
/// the body describes, and else the status in words and the body itself.
pub fn response_outcome<V>(
    status: u16,
    status_text: String,
    body: String,
    values: Result<V, String>,
    error: Option<(String, String)>,
) -> (outcome: AttemptOutcome<V>)
    ensures
        outcome.kind() == match (kind_of_status(status), values) {
            (OutcomeKind::Success, Err(_)) => OutcomeKind::Unreadable,
            (kind, _) => kind,
        },
        outcome == match kind_of_status(status) {
            OutcomeKind::Success => match values {
                Ok(v) => AttemptOutcome::Success(v),
                Err(e) => AttemptOutcome::Unreadable(e),
            },
            OutcomeKind::RateLimited => AttemptOutcome::RateLimited,
            _ => match error {
                Some(described) => AttemptOutcome::Rejected {
                    status: described.0,
                    message: described.1,
                },
                None => AttemptOutcome::Rejected { status: status_text, message: body },
            },
        },
{
    match status_kind(status) {
        OutcomeKind::Success => match values {
            Ok(v) => AttemptOutcome::Success(v),
            Err(e) => AttemptOutcome::Unreadable(e),
        },
        OutcomeKind::RateLimited => AttemptOutcome::RateLimited,
        _ => match error {
            Some(described) => AttemptOutcome::Rejected {
                status: described.0,
                message: described.1,
            },
            None => AttemptOutcome::Rejected { status: status_text, message: body },
        },
    }
}

/// The wait before the retry that follows attempt number `attempt`, counted
/// from 0, in milliseconds: `INITIAL_BACKOFF_MS`, doubled `attempt` times.
pub open spec fn backoff(attempt: nat) -> nat
    decreases attempt,
{
    if attempt == 0 {
        INITIAL_BACKOFF_MS as nat
    } else {
        2 * backoff((attempt - 1) as nat)
    }
}

/// The wait grows with the number of the attempt, and is never less than
/// the initial one.
pub proof fn lemma_backoff_grows(attempt: nat)
    ensures
        backoff(attempt + 1) == 2 * backoff(attempt),
        backoff(attempt) >= INITIAL_BACKOFF_MS,
    decreases attempt,
{
    if attempt > 0 {
        lemma_backoff_grows((attempt - 1) as nat);
    }
}

/// The wait before the retry that follows attempt number `attempt`; the
/// longest wait that the machine can count where the wait is longer.
pub fn backoff_ms(attempt: u32) -> (ms: u64)
    ensures
        ms == if backoff(attempt as nat) <= u64::MAX {
            backoff(attempt as nat)
        } else {
            u64::MAX as nat
        },
        attempt <= MAX_RETRIES ==> ms == backoff(attempt as nat),
{
    let mut ms: u64 = INITIAL_BACKOFF_MS;
    let mut i: u32 = 0;
    while i < attempt
        invariant
            i <= attempt,
            ms == if backoff(i as nat) <= u64::MAX {
                backoff(i as nat)
            } else {
                u64::MAX as nat
            },
        decreases attempt - i,
    {
        proof {
            lemma_backoff_grows(i as nat);
        }
        if ms > u64::MAX / 2 {
            ms = u64::MAX;
        } else {
            ms = ms * 2;
        }
        i += 1;
    }
    proof {
        if attempt <= MAX_RETRIES {
            lemma_backoff_bound(attempt as nat);
        }
    }
    ms
}

/// Where a call stands between its attempts: how many attempts have failed.
pub struct RetryState {
    attempt: u32,
}

/// What to do after an attempt.
pub enum RetryDecision<V> {
    /// Wait `delay_ms` milliseconds, then try again and report to `state`.
    RetryAfter { delay_ms: u64, state: RetryState },
    /// The call has succeeded with this embedding.
    Done(V),
    /// The call has failed.
    Failed(EmbeddingError),
}

impl RetryState {
    #[verifier::type_invariant]
    spec fn bounded(self) -> bool {
        self.attempt <= MAX_RETRIES
    }

    /// The number of the attempt that is under way, counted from 0.
    pub closed spec fn attempt(self) -> nat {
        self.attempt as nat
    }

    /// The state of a call before its first attempt.
    pub fn new() -> (r: Self)
        ensures
            r.attempt() == 0,
    {
        RetryState { attempt: 0 }
    }

    /// The number of the attempt that is under way, counted from 0.
    pub fn attempts_made(&self) -> (n: u32)
        ensures
            n == self.attempt(),
            n <= MAX_RETRIES,
    {
        proof {
            use_type_invariant(self);
        }
        self.attempt
    }

    /// What to do after the attempt under way has ended in `outcome`.
    ///
    /// An embedding ends the call. A passing failure is followed by a retry
    /// after `backoff` of the attempt's number, as long as fewer than
    /// `MAX_RETRIES` retries were made; after that, and after any other
    /// failure, the call fails with the error of the outcome.
    pub fn on_outcome<V>(self, outcome: AttemptOutcome<V>) -> (d: RetryDecision<V>)
        ensures
            self.attempt() <= MAX_RETRIES,
            outcome.kind() == OutcomeKind::Success ==> d == RetryDecision::Done(
                outcome->Success_0,
            ),
            outcome.kind().is_transient() && self.attempt() < MAX_RETRIES ==> {
                &&& d is RetryAfter
                &&& d->delay_ms == backoff(self.attempt())
                &&& d->state.attempt() == self.attempt() + 1
            },
            outcome.kind() != OutcomeKind::Success && !(outcome.kind().is_transient()
                && self.attempt() < MAX_RETRIES) ==> d == RetryDecision::<V>::Failed(
                outcome.error(),
            ),
    {
        proof {
            use_type_invariant(&self);
        }
        match outcome {
            AttemptOutcome::Success(v) => RetryDecision::Done(v),
            AttemptOutcome::RateLimited => {
                if self.attempt < MAX_RETRIES {
                    RetryDecision::RetryAfter {
                        delay_ms: backoff_ms(self.attempt),
                        state: RetryState { attempt: self.attempt + 1 },
                    }
                } else {
                    RetryDecision::Failed(EmbeddingError::RateLimitExhausted)
                }
            },
            AttemptOutcome::TransportFailed(cause) => {
                if self.attempt < MAX_RETRIES {
                    RetryDecision::RetryAfter {
                        delay_ms: backoff_ms(self.attempt),
                        state: RetryState { attempt: self.attempt + 1 },
                    }
                } else {
                    RetryDecision::Failed(EmbeddingError::TransportFailure(cause))
                }
            },
            AttemptOutcome::Rejected { status, message } => RetryDecision::Failed(
                EmbeddingError::Upstream { status, message },
            ),
            AttemptOutcome::Unreadable(cause) => RetryDecision::Failed(
                EmbeddingError::InvalidResponse(cause),
            ),
        }
    }
}

/// How a call ends.
pub enum Resolution {
    /// Attempt number `attempt` succeeded, after waits of `waited`
    /// milliseconds in all.
    Delivered { attempt: nat, waited: nat },
    /// Attempt number `attempt` failed and no retry followed, after waits of
    /// `waited` milliseconds in all.
    GaveUp { attempt: nat, waited: nat },
    /// The outcomes told end before the call does.
    Unfinished { attempt: nat, waited: nat },
}

/// How a call ends whose attempts, from number `attempt` on, end as `kinds`
/// tells, after waits of `waited` milliseconds so far.
pub open spec fn resolve(kinds: Seq<OutcomeKind>, attempt: nat, waited: nat) -> Resolution
    decreases kinds.len(),
{
    if kinds.len() == 0 {
        Resolution::Unfinished { attempt, waited }
    } else if kinds[0] == OutcomeKind::Success {
        Resolution::Delivered { attempt, waited }
    } else if kinds[0].is_transient() && attempt < MAX_RETRIES {
        resolve(kinds.skip(1), attempt + 1, waited + backoff(attempt))
    } else {
        Resolution::GaveUp { attempt, waited }
    }
}

/// The kinds of the given outcomes.
pub open spec fn kinds_of<V>(outcomes: Seq<AttemptOutcome<V>>) -> Seq<OutcomeKind> {
    Seq::new(outcomes.len(), |i: int| outcomes[i].kind())
}

/// The sum of the waits before the retries that follow the attempts number
/// `from` to `to - 1`.
pub open spec fn total_backoff(from: nat, to: nat) -> nat
    decreases to,
{
    if to <= from {
        0
    } else {
        total_backoff(from, (to - 1) as nat) + backoff((to - 1) as nat)
    }
}

proof fn lemma_total_backoff_from(from: nat, to: nat)
    requires
        from < to,
    ensures
        total_backoff(from, to) == backoff(from) + total_backoff(from + 1, to),
    decreases to,
{
    if to > from + 1 {
        lemma_total_backoff_from(from, (to - 1) as nat);
    } else {
        assert(total_backoff(from, from) == 0);
        assert(total_backoff(from + 1, to) == 0);
    }
}

proof fn lemma_resolve_transient_run(kinds: Seq<OutcomeKind>, attempt: nat, waited: nat, k: nat)
    requires
        k <= kinds.len(),
        attempt + k <= MAX_RETRIES,
        forall|i: int| 0 <= i < k ==> (#[trigger] kinds[i]).is_transient(),
    ensures
        resolve(kinds, attempt, waited) == resolve(
            kinds.skip(k as int),
            attempt + k,
            waited + total_backoff(attempt, attempt + k),
        ),
    decreases k,
{
    if k == 0 {
        assert(kinds.skip(0) =~= kinds);
    } else {
        assert(kinds[0].is_transient());
        let rest = kinds.skip(1);
        assert forall|i: int| 0 <= i < k - 1 implies (#[trigger] rest[i]).is_transient() by {
            assert(rest[i] == kinds[i + 1]);
        }
        lemma_resolve_transient_run(rest, attempt + 1, waited + backoff(attempt), (k - 1) as nat);
        assert(rest.skip(k - 1) =~= kinds.skip(k as int));
        lemma_total_backoff_from(attempt, attempt + k);
    }
}

/// A call whose first `k` attempts fail for passing reasons and whose next
/// attempt succeeds, with `k` at most `MAX_RETRIES`, succeeds: with that
/// attempt, after the waits that the `k` retries ask for.
pub proof fn lemma_retry_until_success(kinds: Seq<OutcomeKind>, k: nat)
    requires
        k < kinds.len(),
        k <= MAX_RETRIES,
        forall|i: int| 0 <= i < k ==> (#[trigger] kinds[i]).is_transient(),
        kinds[k as int] == OutcomeKind::Success,
    ensures
        resolve(kinds, 0, 0) == (Resolution::Delivered {
            attempt: k,
            waited: total_backoff(0, k),
        }),
{
    lemma_resolve_transient_run(kinds, 0, 0, k);
    assert(kinds.skip(k as int)[0] == kinds[k as int]);
}

/// A call whose first `MAX_RETRIES + 1` attempts all fail does fail, with
/// the last of these attempts at the latest.
pub proof fn lemma_retries_run_out(kinds: Seq<OutcomeKind>)
    requires
        kinds.len() > MAX_RETRIES,
        forall|i: int| 0 <= i <= MAX_RETRIES ==> (#[trigger] kinds[i]) != OutcomeKind::Success,
    ensures
        resolve(kinds, 0, 0) is GaveUp,
        resolve(kinds, 0, 0)->GaveUp_attempt <= MAX_RETRIES,
        (forall|i: int| 0 <= i <= MAX_RETRIES ==> (#[trigger] kinds[i]).is_transient()) ==> resolve(
            kinds,
            0,
            0,
        ) == (Resolution::GaveUp {
            attempt: MAX_RETRIES as nat,
            waited: total_backoff(0, MAX_RETRIES as nat),
        }),
{
    lemma_gives_up(kinds, 0, 0);
    if forall|i: int| 0 <= i <= MAX_RETRIES ==> (#[trigger] kinds[i]).is_transient() {
        lemma_resolve_transient_run(kinds, 0, 0, MAX_RETRIES as nat);
        let rest = kinds.skip(MAX_RETRIES as int);
        assert(rest[0] == kinds[MAX_RETRIES as int]);
    }
}

proof fn lemma_gives_up(kinds: Seq<OutcomeKind>, attempt: nat, waited: nat)
    requires
        attempt <= MAX_RETRIES,
        kinds.len() > MAX_RETRIES - attempt,
        forall|i: int|
            0 <= i <= MAX_RETRIES - attempt ==> (#[trigger] kinds[i]) != OutcomeKind::Success,
    ensures
        resolve(kinds, attempt, waited) is GaveUp,
        resolve(kinds, attempt, waited)->GaveUp_attempt <= MAX_RETRIES,
    decreases kinds.len(),
{
    assert(kinds[0] != OutcomeKind::Success);
    if kinds[0].is_transient() && attempt < MAX_RETRIES {
        let rest = kinds.skip(1);
        assert forall|i: int| 0 <= i <= MAX_RETRIES - (attempt + 1) implies (#[trigger] rest[i])
            != OutcomeKind::Success by {
            assert(rest[i] == kinds[i + 1]);
        }
        lemma_gives_up(rest, attempt + 1, waited + backoff(attempt));
    }
}

/// What became of a call whose attempts ended as a script told.
pub struct CallReport<V> {
    /// The embedding or the error that the call ended with; `None` where the
    /// script ended before the call did.
    pub result: Option<Result<V, EmbeddingError>>,
    /// The number of the last attempt made, counted from 0.
    pub attempt: u32,
    /// The waits that the retries asked for, in milliseconds, in all.
    pub waited_ms: u64,
}

/// Runs one call against a script: attempt after attempt ends as the next
/// outcome of `outcomes` tells, until the call succeeds, fails, or the script
/// ends.
pub fn run_attempts<V>(outcomes: Vec<AttemptOutcome<V>>) -> (report: CallReport<V>)
    ensures
        match resolve(kinds_of(outcomes@), 0, 0) {
            Resolution::Delivered { attempt, waited } => {
                &&& report.attempt == attempt
                &&& report.waited_ms == waited
                &&& report.result == Some(
                    Ok::<V, EmbeddingError>(outcomes@[attempt as int]->Success_0),
                )
            },
            Resolution::GaveUp { attempt, waited } => {
                &&& report.attempt == attempt
                &&& report.waited_ms == waited
                &&& report.result == Some(
                    Err::<V, EmbeddingError>(outcomes@[attempt as int].error()),
                )
            },
            Resolution::Unfinished { attempt, waited } => {
                &&& report.attempt == attempt
                &&& report.waited_ms == waited
                &&& report.result is None
            },
        },
{
    let mut state = RetryState::new();
    let mut waited_ms: u64 = 0;
    let ghost all = outcomes@;
    let ghost kinds = kinds_of(outcomes@);
    proof {
        assert(kinds.skip(0) =~= kinds);
        assert(total_backoff(0, 0) == 0);
    }
    for outcome in it: outcomes
        invariant
            it.seq() == all,
            kinds == kinds_of(all),
            it.index() == state.attempt(),
            state.attempt() <= MAX_RETRIES,
            waited_ms == total_backoff(0, state.attempt()),
            waited_ms <= 16000 * state.attempt(),
            resolve(kinds, 0, 0) == resolve(
                kinds.skip(it.index() as int),
                state.attempt(),
                waited_ms as nat,
            ),
    {
        let ghost idx = it.index() as int;
        let attempt = state.attempts_made();
        proof {
            assert(kinds.skip(idx)[0] == outcome.kind());
            assert(kinds.skip(idx).skip(1) =~= kinds.skip(idx + 1));
            lemma_backoff_bound(attempt as nat);
        }
        match state.on_outcome(outcome) {
            RetryDecision::Done(v) => {
                return CallReport { result: Some(Ok(v)), attempt, waited_ms };
            },
            RetryDecision::Failed(e) => {
                return CallReport { result: Some(Err(e)), attempt, waited_ms };
            },
            RetryDecision::RetryAfter { delay_ms, state: next } => {
                waited_ms = waited_ms + delay_ms;
                state = next;
            },
        }
    }
    proof {
        assert(kinds.skip(all.len() as int) =~= Seq::<OutcomeKind>::empty());
    }
    let attempt = state.attempts_made();
    CallReport { result: None, attempt, waited_ms }
}

/// No wait before a retry is longer than sixteen seconds.
pub proof fn lemma_backoff_bound(attempt: nat)
    requires
        attempt <= MAX_RETRIES,
    ensures
        backoff(attempt) <= 16000,
        backoff(attempt) >= INITIAL_BACKOFF_MS,
{
    reveal_with_fuel(backoff, 5);
}

/// What a caller that wants to make a call has to do first.
#[derive(Debug, Clone, Copy, PartialEq, Eq, Structural)]
pub enum AcquireAction {
    /// Wait this many milliseconds, then ask again.
    Wait(u64),
    /// Make the call now. It has been recorded.
    Granted,
}

/// How many of the first timestamps of `requests` lie a whole `window` or
/// more before `now`.
pub open spec fn stale_count(requests: Seq<u64>, now: u64, window: u64) -> int
    decreases requests.len(),
{
    if requests.len() > 0 && now - requests[0] >= window {
        1 + stale_count(requests.skip(1), now, window)
    } else {
        0
    }
}

/// The timestamps left in the window at `now`: those of `requests` without
/// its first ones that lie a whole `window` or more before `now`.
pub open spec fn in_window_at(requests: Seq<u64>, now: u64, window: u64) -> Seq<u64> {
    requests.skip(stale_count(requests, now, window))
}

/// Whether each timestamp lies at least `gap` after the one before it.
pub open spec fn paced(times: Seq<u64>, gap: u64) -> bool {
    forall|i: int| 0 <= i < times.len() - 1 ==> times[i] + gap <= #[trigger] times[i + 1]
}

/// Whether any `cap + 1` timestamps in a row span at least `window`, so that
/// no stretch of time shorter than `window` holds more than `cap` of them.
pub open spec fn capped(times: Seq<u64>, cap: u32, window: u64) -> bool {
    forall|j: int| cap <= j < times.len() ==> times[j - cap] + window <= #[trigger] times[j]
}

/// Timestamps that are paced by `gap` span at least `gap` for each of them
/// after the first.
pub proof fn lemma_paced_span(times: Seq<u64>, gap: u64)
    requires
        paced(times, gap),
        times.len() >= 1,
    ensures
        times.last() - times[0] >= (times.len() - 1) * gap,
    decreases times.len(),
{
    if times.len() > 1 {
        let before = times.drop_last();
        assert(paced(before, gap)) by {
            assert forall|i: int| 0 <= i < before.len() - 1 implies before[i] + gap
                <= #[trigger] before[i + 1] by {
                assert(times[i] + gap <= times[i + 1]);
            }
        }
        lemma_paced_span(before, gap);
        let n = times.len() as int;
        assert(before.last() == times[n - 2]);
        assert(before[0] == times[0]);
        assert(times[n - 2] + gap <= times[n - 2 + 1]);
        assert((n - 2) * gap + gap == (n - 1) * gap) by (nonlinear_arith);
    } else {
        assert((times.len() - 1) * gap == 0) by (nonlinear_arith)
            requires
                times.len() == 1,
        ;
    }
}

/// What holds of a limiter with the history `g`, of which the calls `r`
/// count against the window.
pub open spec fn limiter_inv(
    g: Seq<u64>,
    r: Seq<u64>,
    max_requests: u32,
    window: u64,
    min_delay: u64,
    clock: u64,
    last: Option<u64>,
) -> bool {
    &&& r.len() <= g.len()
    &&& r == g.skip(g.len() - r.len())
    &&& forall|i: int| 0 <= i < g.len() - r.len() ==> #[trigger] g[i] + window <= clock
    &&& forall|i: int| 0 <= i < g.len() ==> #[trigger] g[i] <= clock
    &&& forall|i: int, j: int| 0 <= i <= j < g.len() ==> g[i] <= g[j]
    &&& paced(g, min_delay)
    &&& last == if g.len() > 0 {
        Some(g.last())
    } else {
        None
    }
    &&& max_requests >= 1 ==> r.len() <= max_requests && capped(g, max_requests, window)
}

proof fn lemma_stale_count(r: Seq<u64>, now: u64, window: u64)
    ensures
        0 <= stale_count(r, now, window) <= r.len(),
        forall|i: int| 0 <= i < stale_count(r, now, window) ==> now - #[trigger] r[i] >= window,
        stale_count(r, now, window) < r.len() ==> now - r[stale_count(r, now, window)] < window,
    decreases r.len(),
{
    if r.len() > 0 && now - r[0] >= window {
        let rest = r.skip(1);
        lemma_stale_count(rest, now, window);
        assert forall|i: int| 0 <= i < stale_count(r, now, window) implies now - #[trigger] r[i]
            >= window by {
            if i > 0 {
                assert(r[i] == rest[i - 1]);
            }
        }
        if stale_count(rest, now, window) < rest.len() {
            assert(r[stale_count(r, now, window)] == rest[stale_count(rest, now, window)]);
        }
    }
}

proof fn lemma_inv_prune(
    g: Seq<u64>,
    r: Seq<u64>,
    max_requests: u32,
    window: u64,
    min_delay: u64,
    clock: u64,
    last: Option<u64>,
)
    requires
        limiter_inv(g, r, max_requests, window, min_delay, clock, last),
    ensures
        limiter_inv(
            g,
            in_window_at(r, clock, window),
            max_requests,
            window,
            min_delay,
            clock,
            last,
        ),
{
    lemma_stale_count(r, clock, window);
    let k = stale_count(r, clock, window);
    let kept = in_window_at(r, clock, window);
    let base = g.len() - r.len();
    assert(kept =~= g.skip(g.len() - kept.len())) by {
        assert forall|j: int| 0 <= j < kept.len() implies kept[j] == g.skip(g.len() - kept.len())[j] by {
            assert(kept[j] == r[k + j]);
            assert(r[k + j] == g.skip(base)[k + j]);
        }
    }
    assert forall|j: int| 0 <= j < g.len() - kept.len() implies #[trigger] g[j] + window
        <= clock by {
        if j >= base {
            assert(g[j] == g.skip(base)[j - base]);
            assert(clock - r[j - base] >= window);
        }
    }
}

proof fn lemma_inv_record(
    g: Seq<u64>,
    r: Seq<u64>,
    max_requests: u32,
    window: u64,
    min_delay: u64,
    clock: u64,
    last: Option<u64>,
)
    requires
        limiter_inv(g, r, max_requests, window, min_delay, clock, last),
        last is Some ==> clock - last->Some_0 >= min_delay,
        max_requests >= 1 ==> r.len() < max_requests,
    ensures
        limiter_inv(
            g.push(clock),
            r.push(clock),
            max_requests,
            window,
            min_delay,
            clock,
            Some(clock),
        ),
{
    let g2 = g.push(clock);
    let r2 = r.push(clock);
    let base = g.len() - r.len();
    assert(r2 =~= g2.skip(g2.len() - r2.len())) by {
        assert forall|j: int| 0 <= j < r2.len() implies r2[j] == g2.skip(g2.len() - r2.len())[j] by {
            if j < r.len() {
                assert(r[j] == g.skip(base)[j]);
            }
        }
    }
    assert forall|a: int, b: int| 0 <= a <= b < g2.len() implies g2[a] <= g2[b] by {
        if b < g.len() {
            assert(g[a] <= g[b]);
        } else if a < g.len() {
            assert(g[a] <= clock);
        }
    }
    assert(paced(g2, min_delay)) by {
        assert forall|a: int| 0 <= a < g2.len() - 1 implies g2[a] + min_delay <= #[trigger] g2[a
            + 1] by {
            if a + 1 < g.len() {
                assert(g[a] + min_delay <= g[a + 1]);
            }
        }
    }
    if max_requests >= 1 {
        assert(capped(g2, max_requests, window)) by {
            assert forall|j: int| max_requests <= j < g2.len() implies g2[j - max_requests]
                + window <= #[trigger] g2[j] by {
                if j < g.len() {
                    assert(g[j - max_requests] + window <= g[j]);
                } else {
                    assert(g[j - max_requests] + window <= clock);
                }
            }
        }
    }
}

/// The timestamps left in the window at `now`.
fn forget_stale(requests: &Vec<u64>, now: u64, window: u64) -> (kept: Vec<u64>)
    requires
        forall|i: int| 0 <= i < requests.len() ==> #[trigger] requests@[i] <= now,
    ensures
        kept@ == in_window_at(requests@, now, window),
{
    let ghost r0 = requests@;
    let mut k: usize = 0;
    proof {
        assert(r0.skip(0) =~= r0);
    }
    while k < requests.len() && now - requests[k] >= window
        invariant
            k <= requests.len(),
            requests@ == r0,
            forall|i: int| 0 <= i < r0.len() ==> #[trigger] r0[i] <= now,
            stale_count(r0, now, window) == k + stale_count(r0.skip(k as int), now, window),
        decreases requests.len() - k,
    {
        proof {
            assert(r0.skip(k as int)[0] == r0[k as int]);
            assert(r0.skip(k as int).skip(1) =~= r0.skip(k + 1));
        }
        k += 1;
    }
    proof {
        if k < r0.len() {
            assert(r0.skip(k as int)[0] == r0[k as int]);
        }
        assert(stale_count(r0, now, window) == k);
    }
    let mut kept: Vec<u64> = Vec::new();
    let mut i: usize = k;
    while i < requests.len()
        invariant
            k <= i <= requests.len(),
            kept@ == requests@.subrange(k as int, i as int),
        decreases requests.len() - i,
    {
        kept.push(requests[i]);
        assert(requests@.subrange(k as int, i as int).push(requests@[i as int])
            =~= requests@.subrange(k as int, i + 1));
        i += 1;
    }
    assert(kept@ =~= r0.skip(k as int));
    kept
}

/// The pacing of the calls to the service: a least time between two calls,
/// and a cap on the calls within a sliding window.
///
/// Times are in milliseconds on a clock of the caller's choice. The limiter
/// never lets its clock run backwards: a time earlier than one it has seen
/// counts as that one.
pub struct RateLimiter {
    requests: Vec<u64>,
    max_requests: u32,
    window: u64,
    min_delay: u64,
    last_request: Option<u64>,
    clock: u64,
    granted: Ghost<Seq<u64>>,
}

impl RateLimiter {
    /// The times of all calls granted so far, in order.
    pub closed spec fn history(&self) -> Seq<u64> {
        self.granted@
    }

    /// The times of the calls that count against the window.
    pub closed spec fn in_window(&self) -> Seq<u64> {
        self.requests@
    }

    /// The most calls that the window admits.
    pub closed spec fn max_requests(&self) -> u32 {
        self.max_requests
    }

    /// The length of the window.
    pub closed spec fn window(&self) -> u64 {
        self.window
    }

    /// The least time between two calls.
    pub closed spec fn min_delay(&self) -> u64 {
        self.min_delay
    }

    /// The time of the last call granted.
    pub closed spec fn last_request(&self) -> Option<u64> {
        self.last_request
    }

    /// The latest time that the limiter has seen.
    pub closed spec fn clock(&self) -> u64 {
        self.clock
    }

    /// What holds of every limiter: the calls in the window are the last
    /// ones granted, the others have left the window, no call lies in the
    /// future, and the history is paced and capped.
    #[verifier::type_invariant]
    pub closed spec fn wf(&self) -> bool {
        limiter_inv(
            self.granted@,
            self.requests@,
            self.max_requests,
            self.window,
            self.min_delay,
            self.clock,
            self.last_request,
        )
    }

    /// A limiter that admits `max_requests` calls in each `window`
    /// milliseconds, `MIN_DELAY_MS` apart at least.
    pub fn new(max_requests: u32, window: u64) -> (r: Self)
        ensures
            r.wf(),
            r.max_requests() == max_requests,
            r.window() == window,
            r.min_delay() == MIN_DELAY_MS,
            r.history().len() == 0,
            r.in_window().len() == 0,
            r.last_request() is None,
            r.clock() == 0,
    {
        RateLimiter::with_min_delay(max_requests, window, MIN_DELAY_MS)
    }

    /// A limiter that admits `max_requests` calls in each `window`
    /// milliseconds, `min_delay` milliseconds apart at least.
    pub fn with_min_delay(max_requests: u32, window: u64, min_delay: u64) -> (r: Self)
        ensures
            r.wf(),
            r.max_requests() == max_requests,
            r.window() == window,
            r.min_delay() == min_delay,
            r.history().len() == 0,
            r.in_window().len() == 0,
            r.last_request() is None,
            r.clock() == 0,
    {
        let requests: Vec<u64> = Vec::new();
        let ghost history = Seq::<u64>::empty();
        assert(requests@ =~= history.skip(0));
        RateLimiter {
            requests,
            max_requests,
            window,
            min_delay,
            last_request: None,
            clock: 0,
            granted: Ghost(history),
        }
    }

    /// How long a call at `now` has to wait for the least time between two
    /// calls to have passed; 0 where it has.
    pub open spec fn pacing_wait(&self, now: u64) -> int {
        match self.last_request() {
            Some(last) => if now - last < self.min_delay() {
                self.min_delay() - (now - last)
            } else {
                0
            },
            None => 0,
        }
    }

    /// Asks for leave to make a call at the time `now`.
    ///
    /// The time that counts is `now`, or the latest time seen if that is
    /// later. Where the last call lies less than the least delay back, the
    /// answer is to wait for the rest of it. Else the calls that have left
    /// the window are forgotten; where the window is full, the answer is to
    /// wait until its oldest call leaves it. Else the call is granted and
    /// recorded.
    pub fn poll(&mut self, now: u64) -> (action: AcquireAction)
        ensures
            old(self).wf(),
            polled(*old(self), *final(self), now, action),
    {
        proof {
            use_type_invariant(&*self);
        }
        let t: u64 = if now > self.clock {
            now
        } else {
            self.clock
        };
        self.clock = t;
        if let Some(last) = self.last_request {
            let elapsed: u64 = t - last;
            if elapsed < self.min_delay {
                return AcquireAction::Wait(self.min_delay - elapsed);
            }
        }
        proof {
            lemma_inv_prune(
                self.granted@,
                self.requests@,
                self.max_requests,
                self.window,
                self.min_delay,
                t,
                self.last_request,
            );
            lemma_stale_count(self.requests@, t, self.window);
            assert forall|i: int| 0 <= i < self.requests@.len() implies #[trigger] self.requests@[i]
                <= t by {
                let base = self.granted@.len() - self.requests@.len();
                assert(self.requests@[i] == self.granted@.skip(base)[i]);
            }
        }
        let mut kept = forget_stale(&self.requests, t, self.window);
        let n = kept.len();
        if n > 0 && n >= self.max_requests as usize {
            let oldest = kept[0];
            self.requests = kept;
            return AcquireAction::Wait(self.window - (t - oldest));
        }
        proof {
            lemma_inv_record(
                self.granted@,
                kept@,
                self.max_requests,
                self.window,
                self.min_delay,
                t,
                self.last_request,
            );
        }
        kept.push(t);
        let ghost history = self.granted@.push(t);
        *self = RateLimiter {
            requests: kept,
            max_requests: self.max_requests,
            window: self.window,
            min_delay: self.min_delay,
            last_request: Some(t),
            clock: t,
            granted: Ghost(history),
        };
        AcquireAction::Granted
    }

    /// What holds after a call was granted: `before` is the limiter as it
    /// was, `after` as it is.
    ///
    /// The call lies at least the least delay after the one before it. Its
    /// time is the time of the last call and the last entry of the window.
    /// The window is in order, none of its entries lies after the new one,
    /// each is younger than the window is long, and they are at most as many
    /// as the window admits. Every entry that was in the window before and
    /// is still young enough is kept.
    pub proof fn lemma_after_grant(before: RateLimiter, after: RateLimiter, now: u64)
        requires
            before.wf(),
            polled(before, after, now, AcquireAction::Granted),
        ensures
            after.clock() >= now,
            after.clock() >= before.clock(),
            before.last_request() is Some ==> after.clock() - before.last_request()->Some_0
                >= before.min_delay(),
            after.last_request() == Some(after.clock()),
            after.in_window().len() > 0,
            after.in_window().last() == after.clock(),
            forall|i: int, j: int|
                0 <= i <= j < after.in_window().len() ==> after.in_window()[i]
                    <= after.in_window()[j],
            forall|i: int|
                0 <= i < after.in_window().len() ==> #[trigger] after.in_window()[i]
                    <= after.clock(),
            after.window() > 0 ==> forall|i: int|
                0 <= i < after.in_window().len() ==> after.clock()
                    - #[trigger] after.in_window()[i] < after.window(),
            after.max_requests() >= 1 ==> after.in_window().len() <= after.max_requests(),
            forall|i: int|
                0 <= i < before.in_window().len() && after.clock()
                    - #[trigger] before.in_window()[i] < before.window()
                    ==> after.in_window().contains(before.in_window()[i]),
    {
        let t = after.clock();
        let r = before.in_window();
        let g = before.history();
        let w = before.window();
        let base = g.len() - r.len();
        lemma_stale_count(r, t, w);
        let k = stale_count(r, t, w);
        let kept = in_window_at(r, t, w);
        let now_in = after.in_window();
        assert(now_in == kept.push(t));
        // The entries of the window are the last calls of the history, in
        // order and none after the clock.
        assert forall|i: int| 0 <= i < r.len() implies #[trigger] r[i] <= t by {
            assert(r[i] == g.skip(base)[i]);
        }
        assert forall|i: int, j: int| 0 <= i <= j < r.len() implies r[i] <= r[j] by {
            assert(r[i] == g.skip(base)[i]);
            assert(r[j] == g.skip(base)[j]);
        }
        assert forall|i: int, j: int| 0 <= i <= j < now_in.len() implies now_in[i]
            <= now_in[j] by {
            if j < kept.len() {
                assert(kept[i] == r[k + i]);
                assert(kept[j] == r[k + j]);
            } else if i < kept.len() {
                assert(kept[i] == r[k + i]);
            }
        }
        assert forall|i: int| 0 <= i < now_in.len() implies #[trigger] now_in[i] <= t by {
            if i < kept.len() {
                assert(kept[i] == r[k + i]);
            }
        }
        if w > 0 {
            assert forall|i: int| 0 <= i < now_in.len() implies t - #[trigger] now_in[i]
                < w by {
                if i < kept.len() {
                    assert(kept[i] == r[k + i]);
                    if k < r.len() {
                        assert(r[k] <= r[k + i]);
                    }
                }
            }
        }
        assert forall|i: int|
            0 <= i < r.len() && t - #[trigger] r[i] < w implies now_in.contains(r[i]) by {
            if i < k {
                assert(t - r[i] >= w);
            } else {
                assert(kept[i - k] == r[i]);
                assert(now_in[i - k] == r[i]);
            }
        }
        assert(now_in[now_in.len() - 1] == t);
    }

    /// The calls granted lie at least the least delay apart, so that `n`
    /// calls take at least `n - 1` times that delay from the first to the
    /// last; and where the window admits at least one call, no stretch of
    /// time shorter than the window holds more calls than it admits.
    pub proof fn lemma_history(&self)
        requires
            self.wf(),
        ensures
            paced(self.history(), self.min_delay()),
            self.history().len() >= 1 ==> self.history().last() - self.history()[0] >= (
            self.history().len() - 1) * self.min_delay(),
            self.max_requests() >= 1 ==> capped(
                self.history(),
                self.max_requests(),
                self.window(),
            ),
            self.last_request() == if self.history().len() > 0 {
                Some(self.history().last())
            } else {
                None
            },
    {
        if self.history().len() >= 1 {
            lemma_paced_span(self.history(), self.min_delay());
        }
    }
}

/// What asking a limiter for leave at the time `now` does: `before` is the
/// limiter as it was, `after` as it is, `action` the answer.
///
/// The time that counts is `now`, or the latest time seen if that is later.
/// Where the last call lies less than the least delay back, the answer is
/// to wait for the rest of it, and nothing else changes. Else the calls
/// that have left the window are forgotten; where the window is full, the
/// answer is to wait until its oldest call leaves it. Else the call is
/// granted and recorded.
pub open spec fn polled(
    before: RateLimiter,
    after: RateLimiter,
    now: u64,
    action: AcquireAction,
) -> bool {
    let t = if now > before.clock() {
        now
    } else {
        before.clock()
    };
    let kept = in_window_at(before.in_window(), t, before.window());
    &&& after.wf()
    &&& after.max_requests() == before.max_requests()
    &&& after.window() == before.window()
    &&& after.min_delay() == before.min_delay()
    &&& after.clock() == t
    &&& if before.pacing_wait(t) > 0 {
        &&& action == AcquireAction::Wait(before.pacing_wait(t) as u64)
        &&& after.history() == before.history()
        &&& after.in_window() == before.in_window()
    } else if kept.len() > 0 && kept.len() >= before.max_requests() {
        &&& action == AcquireAction::Wait((before.window() - (t - kept[0])) as u64)
        &&& t - kept[0] < before.window()
        &&& after.history() == before.history()
        &&& after.in_window() == kept
    } else {
        &&& action == AcquireAction::Granted
        &&& after.history() == before.history().push(t)
        &&& after.in_window() == kept.push(t)
    }
}

/// Whether the service offers embeddings of this dimension.
pub open spec fn valid_dimension(dimension: usize) -> bool {
    dimension == 768 || dimension == 1536 || dimension == 3072
}

/// What the service is asked for one text.
#[derive(Debug, Clone, PartialEq, Eq)]
pub struct EmbedRequest {
    /// The model that embeds.
    pub model: String,
    /// The text to embed.
    pub text: String,
    /// What the embedding is for.
    pub task_type: String,
    /// The dimension of the embedding.
    pub output_dimensionality: usize,
}

/// How the embedding of one text is obtained.
#[derive(Debug, Clone, PartialEq, Eq)]
pub enum EmbedPlan {
    /// The text is blank: its embedding is the zero vector of this
    /// dimension, and the service is not called.
    ZeroVector(usize),
    /// The service is called with this request.
    Call(EmbedRequest),
}

/// The client of the embedding service: its key, the dimension it asks for,
/// and the pacing of its calls.
pub struct GeminiEmbedding {
    api_key: String,
    dimension: usize,
    rate_limiter: RateLimiter,
}

impl GeminiEmbedding {
    /// The key that the client sends.
    pub closed spec fn spec_api_key(&self) -> Seq<char> {
        self.api_key@
    }

    /// The dimension that the client asks for.
    pub closed spec fn spec_dimension(&self) -> usize {
        self.dimension
    }

    /// The pacing of the client's calls.
    pub closed spec fn limiter(&self) -> RateLimiter {
        self.rate_limiter
    }

    /// What holds of every client that a constructor has made: its
    /// dimension is one that the service offers, and its limiter is well
    /// formed.
    pub closed spec fn wf(&self) -> bool {
        valid_dimension(self.dimension) && self.rate_limiter.wf()
    }

    /// A client that asks for embeddings of `DEFAULT_DIMENSION`.
    pub fn new(api_key: String) -> (r: Result<Self, EmbeddingError>)
        ensures
            r is Ok,
            r->Ok_0.wf(),
            r->Ok_0.spec_api_key() == api_key@,
            r->Ok_0.spec_dimension() == DEFAULT_DIMENSION,
            r->Ok_0.limiter().history().len() == 0,
            r->Ok_0.limiter().max_requests() == RATE_LIMIT_RPM,
            r->Ok_0.limiter().window() == RATE_LIMIT_WINDOW_MS,
            r->Ok_0.limiter().min_delay() == MIN_DELAY_MS,
    {
        GeminiEmbedding::with_dimension(api_key, DEFAULT_DIMENSION)
    }

    /// A client that asks for embeddings of `dimension`, which has to be
    /// 768, 1536 or 3072. Its limiter admits `RATE_LIMIT_RPM` calls in
    /// `RATE_LIMIT_WINDOW_MS`, `MIN_DELAY_MS` apart.
    pub fn with_dimension(api_key: String, dimension: usize) -> (r: Result<Self, EmbeddingError>)
        ensures
            r is Ok <==> valid_dimension(dimension),
            r is Err ==> r->Err_0 == EmbeddingError::InvalidDimension(dimension),
            r is Ok ==> {
                &&& r->Ok_0.wf()
                &&& r->Ok_0.spec_api_key() == api_key@
                &&& r->Ok_0.spec_dimension() == dimension
                &&& r->Ok_0.limiter().history().len() == 0
                &&& r->Ok_0.limiter().max_requests() == RATE_LIMIT_RPM
                &&& r->Ok_0.limiter().window() == RATE_LIMIT_WINDOW_MS
                &&& r->Ok_0.limiter().min_delay() == MIN_DELAY_MS
            },
    {
        if dimension != 768 && dimension != 1536 && dimension != 3072 {
            return Err(EmbeddingError::InvalidDimension(dimension));
        }
        Ok(
            GeminiEmbedding {
                api_key,
                dimension,
                rate_limiter: RateLimiter::new(RATE_LIMIT_RPM, RATE_LIMIT_WINDOW_MS),
            },
        )
    }

    /// The dimension that the client asks for.
    pub fn dimension(&self) -> (d: usize)
        ensures
            d == self.spec_dimension(),
    {
        self.dimension
    }

    /// The key that the client sends.
    pub fn api_key(&self) -> (key: &String)
        ensures
            key@ == self.spec_api_key(),
    {
        &self.api_key
    }

    /// The name of the model that embeds.
    pub fn name(&self) -> (n: &'static str)
        ensures
            n@ == "gemini-embedding-001"@,
    {
        "gemini-embedding-001"
    }

    /// How the embedding of `text` is obtained: without a call for a blank
    /// text, and else by a call that asks the model for a document
    /// embedding of the client's dimension.
    pub fn plan(&self, text: &str) -> (p: EmbedPlan)
        ensures
            is_blank(text@) ==> p == EmbedPlan::ZeroVector(self.spec_dimension()),
            !is_blank(text@) ==> {
                &&& p is Call
                &&& p->Call_0.model@ == "models/gemini-embedding-001"@
                &&& p->Call_0.text@ == text@
                &&& p->Call_0.task_type@ == "RETRIEVAL_DOCUMENT"@
                &&& p->Call_0.output_dimensionality == self.spec_dimension()
            },
    {
        let chars = to_chars(text);
        if blank(&chars) {
            return EmbedPlan::ZeroVector(self.dimension);
        }
        EmbedPlan::Call(
            EmbedRequest {
                model: to_string(&to_chars("models/gemini-embedding-001")),
                text: to_string(&chars),
                task_type: to_string(&to_chars("RETRIEVAL_DOCUMENT")),
                output_dimensionality: self.dimension,
            },
        )
    }

    /// Asks the client's limiter for leave to make a call at the time `now`,
    /// in milliseconds; this stands before every attempt.
    pub fn poll_rate_limit(&mut self, now: u64) -> (action: AcquireAction)
        ensures
            old(self).wf() ==> final(self).wf(),
            final(self).spec_api_key() == old(self).spec_api_key(),
            final(self).spec_dimension() == old(self).spec_dimension(),
            polled(old(self).limiter(), final(self).limiter(), now, action),
            action is Wait ==> action->Wait_0 > 0,
    {
        self.rate_limiter.poll(now)
    }
}

/// Whether a key is set and not empty.
pub open spec fn key_is_set(key: Option<String>) -> bool {
    key is Some && key->Some_0@.len() > 0
}

/// The API key: the first of the two candidates that is set and not empty.
/// The first candidate is the value of `GEMINI_API_KEY`, the second that of
/// `GOOGLE_AI_API_KEY`.
pub fn get_api_key(gemini: Option<String>, google: Option<String>) -> (r: Result<
    String,
    EmbeddingError,
>)
    ensures
        key_is_set(gemini) ==> r == Ok::<String, EmbeddingError>(gemini->Some_0),
        !key_is_set(gemini) && key_is_set(google) ==> r == Ok::<String, EmbeddingError>(
            google->Some_0,
        ),
        !key_is_set(gemini) && !key_is_set(google) ==> r == Err::<String, EmbeddingError>(
            EmbeddingError::MissingApiKey,
        ),
{
    if let Some(key) = gemini {
        if !key.as_str().is_empty() {
            return Ok(key);
        }
    }
    if let Some(key) = google {
        if !key.as_str().is_empty() {
            return Ok(key);
        }
    }
    Err(EmbeddingError::MissingApiKey)
}

/// Whether one of the two candidates for the API key is set and not empty.
pub fn has_api_key(gemini: &Option<String>, google: &Option<String>) -> (r: bool)
    ensures
        r == (key_is_set(*gemini) || key_is_set(*google)),
{
    if let Some(key) = gemini {
        if !key.as_str().is_empty() {
            return true;
        }
    }
    if let Some(key) = google {
        if !key.as_str().is_empty() {
            return true;
        }
    }
    false
}

impl GeminiEmbedding {
    /// A client with the key found among the two candidates, for embeddings
    /// of `DEFAULT_DIMENSION`: the first candidate is the value of
    /// `GEMINI_API_KEY`, the second that of `GOOGLE_AI_API_KEY`.
    pub fn from_env(gemini: Option<String>, google: Option<String>) -> (r: Result<
        Self,
        EmbeddingError,
    >)
        ensures
            r is Ok <==> key_is_set(gemini) || key_is_set(google),
            r is Err ==> r->Err_0 == EmbeddingError::MissingApiKey,
            r is Ok ==> r->Ok_0.wf() && r->Ok_0.spec_dimension() == DEFAULT_DIMENSION
                && r->Ok_0.spec_api_key() == (if key_is_set(gemini) {
                gemini->Some_0@
            } else {
                google->Some_0@
            }),
    {
        GeminiEmbedding::from_env_with_dimension(gemini, google, DEFAULT_DIMENSION)
    }

    /// A client with the key found among the two candidates, for embeddings
    /// of `dimension`. A missing key is reported before a dimension that the
    /// service does not offer.
    pub fn from_env_with_dimension(
        gemini: Option<String>,
        google: Option<String>,
        dimension: usize,
    ) -> (r: Result<Self, EmbeddingError>)
        ensures
            r is Ok <==> (key_is_set(gemini) || key_is_set(google)) && valid_dimension(dimension),
            !(key_is_set(gemini) || key_is_set(google)) ==> r is Err && r->Err_0
                == EmbeddingError::MissingApiKey,
            (key_is_set(gemini) || key_is_set(google)) && !valid_dimension(dimension) ==> r is Err
                && r->Err_0 == EmbeddingError::InvalidDimension(dimension),
            r is Ok ==> r->Ok_0.wf() && r->Ok_0.spec_dimension() == dimension
                && r->Ok_0.spec_api_key() == (if key_is_set(gemini) {
                gemini->Some_0@
            } else {
                google->Some_0@
            }),
    {
        match get_api_key(gemini, google) {
            Ok(key) => GeminiEmbedding::with_dimension(key, dimension),
            Err(e) => Err(e),
        }
    }
}

/// A client with the key found among the two candidates, for embeddings of
/// `DEFAULT_DIMENSION`.
pub fn create_embedder(gemini: Option<String>, google: Option<String>) -> (r: Result<
    GeminiEmbedding,
    EmbeddingError,
>)
    ensures
        r is Ok <==> key_is_set(gemini) || key_is_set(google),
        r is Err ==> r->Err_0 == EmbeddingError::MissingApiKey,
        r is Ok ==> r->Ok_0.wf() && r->Ok_0.spec_dimension() == DEFAULT_DIMENSION
            && r->Ok_0.spec_api_key() == (if key_is_set(gemini) {
            gemini->Some_0@
        } else {
            google->Some_0@
        }),
{
    create_embedder_with_dimension(gemini, google, DEFAULT_DIMENSION)
}

/// A client with the key found among the two candidates, for embeddings of
/// `dimension`. A missing key is reported before a dimension that the
/// service does not offer.
pub fn create_embedder_with_dimension(
    gemini: Option<String>,
    google: Option<String>,
    dimension: usize,
) -> (r: Result<GeminiEmbedding, EmbeddingError>)
    ensures
        r is Ok <==> (key_is_set(gemini) || key_is_set(google)) && valid_dimension(dimension),
        !(key_is_set(gemini) || key_is_set(google)) ==> r is Err && r->Err_0
            == EmbeddingError::MissingApiKey,
        (key_is_set(gemini) || key_is_set(google)) && !valid_dimension(dimension) ==> r is Err
            && r->Err_0 == EmbeddingError::InvalidDimension(dimension),
        r is Ok ==> r->Ok_0.wf() && r->Ok_0.spec_dimension() == dimension
            && r->Ok_0.spec_api_key() == (if key_is_set(gemini) {
            gemini->Some_0@
        } else {
            google->Some_0@
        }),
{
    GeminiEmbedding::from_env_with_dimension(gemini, google, dimension)
}

/// A copy of a request.
pub fn copy_request(request: &EmbedRequest) -> (r: EmbedRequest)
    ensures
        r == *request,
{
    EmbedRequest {
        model: request.model.clone(),
        text: request.text.clone(),
        task_type: request.task_type.clone(),
        output_dimensionality: request.output_dimensionality,
    }
}

/// A call to the service that waits for leave to make its next attempt.
pub struct PacingCall {
    retry: RetryState,
    request: EmbedRequest,
}

/// A call to the service of which an attempt is under way.
pub struct SendingCall {
    retry: RetryState,
    request: EmbedRequest,
}

/// What a call that asked for leave has to do.
pub enum PollResult {
    /// Wait this many milliseconds, then ask again.
    Wait { ms: u64, call: PacingCall },
    /// Send this request now, and report how the attempt ended.
    Send { request: EmbedRequest, call: SendingCall },
}

/// What follows an attempt.
pub enum AttemptResult<V> {
    /// The call has succeeded with this embedding.
    Done(V),
    /// The call has failed.
    Failed(EmbeddingError),
    /// Wait this many milliseconds, then ask for leave to try again.
    Backoff { ms: u64, call: PacingCall },
}

impl PacingCall {
    /// The number of the attempt that comes next, counted from 0.
    pub closed spec fn attempt(self) -> nat {
        self.retry.attempt()
    }

    /// The request that the call sends.
    pub closed spec fn request(self) -> EmbedRequest {
        self.request
    }

    /// A call that is to send `request`, before its first attempt.
    pub fn new(request: EmbedRequest) -> (r: Self)
        ensures
            r.attempt() == 0,
            r.request() == request,
    {
        PacingCall { retry: RetryState::new(), request }
    }

    /// Asks the limiter of `client` for leave to make the next attempt at
    /// the time `now`, in milliseconds. Every attempt, the first one and
    /// each retry, is made only once the limiter has granted it.
    pub fn poll(self, client: &mut GeminiEmbedding, now: u64) -> (r: PollResult)
        ensures
            old(client).wf() ==> final(client).wf(),
            final(client).spec_api_key() == old(client).spec_api_key(),
            final(client).spec_dimension() == old(client).spec_dimension(),
            match r {
                PollResult::Wait { ms, call } => {
                    &&& ms > 0
                    &&& polled(
                        old(client).limiter(),
                        final(client).limiter(),
                        now,
                        AcquireAction::Wait(ms),
                    )
                    &&& call.attempt() == self.attempt()
                    &&& call.request() == self.request()
                },
                PollResult::Send { request, call } => {
                    &&& polled(
                        old(client).limiter(),
                        final(client).limiter(),
                        now,
                        AcquireAction::Granted,
                    )
                    &&& request == self.request()
                    &&& call.attempt() == self.attempt()
                    &&& call.request() == self.request()
                },
            },
    {
        match client.poll_rate_limit(now) {
            AcquireAction::Wait(ms) => PollResult::Wait { ms, call: self },
            AcquireAction::Granted => {
                let request = copy_request(&self.request);
                PollResult::Send {
                    request,
                    call: SendingCall { retry: self.retry, request: self.request },
                }
            },
        }
    }
}

impl SendingCall {
    /// The number of the attempt that is under way, counted from 0.
    pub closed spec fn attempt(self) -> nat {
        self.retry.attempt()
    }

    /// The request that the call sends.
    pub closed spec fn request(self) -> EmbedRequest {
        self.request
    }

    /// What follows the attempt under way, which has ended in `outcome`:
    /// the embedding, a wait of `backoff` of the attempt's number before
    /// the call asks for leave to try again, or the error of the outcome.
    pub fn on_outcome<V>(self, outcome: AttemptOutcome<V>) -> (r: AttemptResult<V>)
        ensures
            self.attempt() <= MAX_RETRIES,
            outcome.kind() == OutcomeKind::Success ==> r == AttemptResult::Done(
                outcome->Success_0,
            ),
            outcome.kind().is_transient() && self.attempt() < MAX_RETRIES ==> {
                &&& r is Backoff
                &&& r->Backoff_ms == backoff(self.attempt())
                &&& r->Backoff_call.attempt() == self.attempt() + 1
                &&& r->Backoff_call.request() == self.request()
            },
            outcome.kind() != OutcomeKind::Success && !(outcome.kind().is_transient()
                && self.attempt() < MAX_RETRIES) ==> r == AttemptResult::<V>::Failed(
                outcome.error(),
            ),
    {
        match self.retry.on_outcome(outcome) {
            RetryDecision::Done(v) => AttemptResult::Done(v),
            RetryDecision::Failed(e) => AttemptResult::Failed(e),
            RetryDecision::RetryAfter { delay_ms, state } => AttemptResult::Backoff {
                ms: delay_ms,
                call: PacingCall { retry: state, request: self.request },
            },
        }
    }
}

/// A batch of texts on its way through the service: the texts are embedded
/// one after the other, in order, and the first failure ends the batch.
pub struct EmbedBatch<V> {
    total: usize,
    done: Vec<V>,
}

/// What a batch asks for next, or how it has ended.
pub enum BatchStep<V> {
    /// Embed the text of this number, and report the result to `batch`.
    Embed { index: usize, batch: EmbedBatch<V> },
    /// All texts are embedded; these are their embeddings, in order.
    Done(Vec<V>),
    /// A text was not embedded.
    Failed(EmbeddingError),
}

impl<V> EmbedBatch<V> {
    #[verifier::type_invariant]
    spec fn unfinished(self) -> bool {
        self.done@.len() < self.total
    }

    /// The number of texts of the batch.
    pub closed spec fn total(self) -> nat {
        self.total as nat
    }

    /// The embeddings gathered so far, in the order of their texts.
    pub closed spec fn embedded(self) -> Seq<V> {
        self.done@
    }

    /// The first step of a batch of `count` texts: a batch without texts is
    /// done, and else the first text is embedded.
    pub fn start(count: usize) -> (step: BatchStep<V>)
        ensures
            count == 0 ==> step is Done && step->Done_0@.len() == 0,
            count > 0 ==> {
                &&& step is Embed
                &&& step->Embed_index == 0
                &&& step->Embed_batch.total() == count
                &&& step->Embed_batch.embedded().len() == 0
            },
    {
        if count == 0 {
            BatchStep::Done(Vec::new())
        } else {
            BatchStep::Embed { index: 0, batch: EmbedBatch { total: count, done: Vec::new() } }
        }
    }

    /// The step after the text asked for was embedded, or was not: a
    /// failure ends the batch; an embedding joins those gathered, and
    /// either the next text is embedded or, after the last one, the batch
    /// is done.
    pub fn on_result(self, result: Result<V, EmbeddingError>) -> (step: BatchStep<V>)
        ensures
            self.embedded().len() < self.total(),
            match result {
                Err(e) => step == BatchStep::<V>::Failed(e),
                Ok(v) => if self.embedded().len() + 1 < self.total() {
                    &&& step is Embed
                    &&& step->Embed_index == self.embedded().len() + 1
                    &&& step->Embed_batch.total() == self.total()
                    &&& step->Embed_batch.embedded() == self.embedded().push(v)
                } else {
                    &&& step is Done
                    &&& step->Done_0@ == self.embedded().push(v)
                },
            },
    {
        proof {
            use_type_invariant(&self);
        }
        let EmbedBatch { total, done } = self;
        let mut done = done;
        match result {
            Err(e) => BatchStep::Failed(e),
            Ok(v) => {
                done.push(v);
                if done.len() < total {
                    BatchStep::Embed { index: done.len(), batch: EmbedBatch { total, done } }
                } else {
                    BatchStep::Done(done)
                }
            },
        }
    }
}

} // verus!
