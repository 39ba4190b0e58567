//! The embedding client's rules: which failures are worth another attempt, how
//! many attempts one request gets, and how long to wait between them.
//!
//! The remote call itself is made by the caller. After each reply the caller
//! asks the session what to do next: take the vector, wait and call again, or
//! give up with the error.

use vstd::prelude::*;

verus! {

/// Why an embedding could not be had.
#[derive(Clone, Copy, Debug, PartialEq, Eq, Structural)]
pub enum EmbedError {
    /// The service could not be reached or the connection broke.
    Network,
    /// The call took longer than the policy allows.
    TimedOut,
    /// The service asked the client to slow down.
    RateLimited,
    /// The service failed on its side.
    ServiceFailure,
    /// No credential is configured, or the service rejected it.
    AuthRejected,
    /// The account has used up its quota.
    QuotaExceeded,
    /// The reply could not be understood or held no vector.
    MalformedResponse,
}

impl EmbedError {
    /// Whether the same call may succeed if it is simply made again.
    pub open spec fn transient(self) -> bool {
        self == EmbedError::Network || self == EmbedError::TimedOut || self
            == EmbedError::RateLimited || self == EmbedError::ServiceFailure
    }

    /// Whether the same call may succeed if it is simply made again. Rejected
    /// credentials, an exhausted quota and an unreadable reply are terminal.
    pub fn is_transient(&self) -> (transient: bool)
        ensures
            transient == self.transient(),
    {
        match self {
            EmbedError::Network => true,
            EmbedError::TimedOut => true,
            EmbedError::RateLimited => true,
            EmbedError::ServiceFailure => true,
            EmbedError::AuthRejected => false,
            EmbedError::QuotaExceeded => false,
            EmbedError::MalformedResponse => false,
        }
    }
}

/// What a reply with HTTP status `status` means, given whether its body says
/// that the quota is used up. `None` stands for success.
pub open spec fn error_of_status(status: u16, quota_exhausted: bool) -> Option<EmbedError> {
    if 200 <= status <= 299 {
        None
    } else if status == 401 || status == 403 {
        Some(EmbedError::AuthRejected)
    } else if status == 429 {
        if quota_exhausted {
            Some(EmbedError::QuotaExceeded)
        } else {
            Some(EmbedError::RateLimited)
        }
    } else if status == 408 {
        Some(EmbedError::TimedOut)
    } else if 500 <= status <= 599 {
        Some(EmbedError::ServiceFailure)
    } else {
        Some(EmbedError::MalformedResponse)
    }
}

/// Classifies a reply by its HTTP status: 2xx is success, 401 and 403 are a
/// rejected credential, 429 is an exhausted quota if the body says so and a
/// rate limit otherwise, 408 is a timeout, 5xx is a failure of the service, and
/// anything else is a reply that the client does not understand.
pub fn classify_status(status: u16, quota_exhausted: bool) -> (error: Option<EmbedError>)
    ensures
        error == error_of_status(status, quota_exhausted),
{
    if 200 <= status && status <= 299 {
        None
    } else if status == 401 || status == 403 {
        Some(EmbedError::AuthRejected)
    } else if status == 429 {
        if quota_exhausted {
            Some(EmbedError::QuotaExceeded)
        } else {
            Some(EmbedError::RateLimited)
        }
    } else if status == 408 {
        Some(EmbedError::TimedOut)
    } else if 500 <= status && status <= 599 {
        Some(EmbedError::ServiceFailure)
    } else {
        Some(EmbedError::MalformedResponse)
    }
}

/// How often and how patiently one request is attempted.
#[derive(Clone, Copy, Debug, PartialEq, Eq, Structural)]
pub struct RetryPolicy {
    /// Calls that one request may make in all.
    pub max_attempts: u32,
    /// Wait before the second call, in milliseconds.
    pub base_delay_ms: u64,
    /// Longest wait between two calls, in milliseconds.
    pub max_delay_ms: u64,
    /// Longest time one call may take, in milliseconds.
    pub call_timeout_ms: u64,
}

/// Attempts of the default policy.
pub const DEFAULT_MAX_ATTEMPTS: u32 = 3;

/// First wait of the default policy, in milliseconds.
pub const DEFAULT_BASE_DELAY_MS: u64 = 500;

/// Longest wait of the default policy, in milliseconds.
pub const DEFAULT_MAX_DELAY_MS: u64 = 8_000;

/// Time allowed to one call by the default policy, in milliseconds.
pub const DEFAULT_CALL_TIMEOUT_MS: u64 = 30_000;

/// `2` to the power `n`.
pub open spec fn pow2(n: nat) -> nat
    decreases n,
{
    if n == 0 {
        1
    } else {
        2 * pow2((n - 1) as nat)
    }
}

/// The wait before call number `failures + 1`, after `failures` calls have
/// failed: none before the first call, and then the base delay doubled for
/// each failure after the first, capped at the longest wait.
pub open spec fn backoff_delay(policy: RetryPolicy, failures: nat) -> nat {
    if failures == 0 {
        0
    } else {
        let doubled = policy.base_delay_ms * pow2((failures - 1) as nat);
        if doubled <= policy.max_delay_ms {
            doubled as nat
        } else {
            policy.max_delay_ms as nat
        }
    }
}

/// What the client does after a reply.
#[derive(Debug, PartialEq, Eq)]
pub enum ClientStep {
    /// Wait `delay_ms` milliseconds, then call the service again.
    Retry { delay_ms: u64 },
    /// The request is over, with the vector or with the error to report.
    Finished(Result<Vec<i32>, EmbedError>),
}

/// Mathematical value of a `ClientStep`.
pub ghost enum ClientStepModel {
    Retry { delay_ms: nat },
    Finished(Result<Seq<i32>, EmbedError>),
}

/// Mathematical value of a reply: the vector as a sequence, or the error.
pub open spec fn reply_model(reply: Result<Vec<i32>, EmbedError>) -> Result<Seq<i32>, EmbedError> {
    match reply {
        Ok(vector) => Ok(vector@),
        Err(error) => Err(error),
    }
}

impl View for ClientStep {
    type V = ClientStepModel;

    open spec fn view(&self) -> ClientStepModel {
        match *self {
            ClientStep::Retry { delay_ms } => ClientStepModel::Retry { delay_ms: delay_ms as nat },
            ClientStep::Finished(result) => ClientStepModel::Finished(reply_model(result)),
        }
    }
}

/// One request to the embedding service: counts the calls that have failed.
#[derive(Clone, Copy, Debug, PartialEq, Eq, Structural)]
pub struct EmbeddingSession {
    pub policy: RetryPolicy,
    pub failures: u32,
}

/// Whether a session that has seen `failures` failed calls calls again after
/// `reply`: the reply is a transient error and the policy has an attempt left.
pub open spec fn retries_after(
    policy: RetryPolicy,
    failures: u32,
    reply: Result<Seq<i32>, EmbedError>,
) -> bool {
    reply matches Err(error) && error.transient() && failures + 1 < policy.max_attempts
}

/// The step that follows `reply`, for a session that has seen `failures` failed
/// calls before it.
pub open spec fn step_after_reply(
    policy: RetryPolicy,
    failures: u32,
    reply: Result<Seq<i32>, EmbedError>,
) -> ClientStepModel {
    if retries_after(policy, failures, reply) {
        ClientStepModel::Retry { delay_ms: backoff_delay(policy, (failures + 1) as nat) }
    } else {
        ClientStepModel::Finished(reply)
    }
}

impl RetryPolicy {
    /// Three attempts, waits of half a second doubling up to eight seconds, and
    /// thirty seconds for each call.
    pub fn standard() -> (policy: RetryPolicy)
        ensures
            policy.max_attempts == DEFAULT_MAX_ATTEMPTS,
            policy.base_delay_ms == DEFAULT_BASE_DELAY_MS,
            policy.max_delay_ms == DEFAULT_MAX_DELAY_MS,
            policy.call_timeout_ms == DEFAULT_CALL_TIMEOUT_MS,
    {
        RetryPolicy {
            max_attempts: DEFAULT_MAX_ATTEMPTS,
            base_delay_ms: DEFAULT_BASE_DELAY_MS,
            max_delay_ms: DEFAULT_MAX_DELAY_MS,
            call_timeout_ms: DEFAULT_CALL_TIMEOUT_MS,
        }
    }

    /// The wait after `failures` failed calls.
    pub fn delay_after(&self, failures: u32) -> (delay_ms: u64)
        ensures
            delay_ms == backoff_delay(*self, failures as nat),
    {
        if failures == 0 {
            return 0;
        }
        let mut delay: u64 = self.base_delay_ms;
        let mut doubled: u32 = 1;
        proof {
            assert(pow2(0) == 1);
            assert(self.base_delay_ms * pow2(0) == self.base_delay_ms) by (nonlinear_arith)
                requires
                    pow2(0) == 1,
            ;
        }
        if delay > self.max_delay_ms {
            proof {
                lemma_backoff_capped(*self, 1, failures as nat);
            }
            return self.max_delay_ms;
        }
        while doubled < failures
            invariant
                1 <= doubled <= failures,
                delay == self.base_delay_ms * pow2((doubled - 1) as nat),
                delay <= self.max_delay_ms,
            decreases failures - doubled,
        {
            if delay > self.max_delay_ms / 2 {
                proof {
                    assert(2 * delay > self.max_delay_ms);
                    assert(self.base_delay_ms * pow2(doubled as nat) == 2 * (self.base_delay_ms
                        * pow2((doubled - 1) as nat))) by (nonlinear_arith)
                        requires
                            pow2(doubled as nat) == 2 * pow2((doubled - 1) as nat),
                    ;
                    lemma_backoff_capped(*self, (doubled + 1) as nat, failures as nat);
                }
                return self.max_delay_ms;
            }
            proof {
                assert(self.base_delay_ms * pow2(doubled as nat) == 2 * (self.base_delay_ms * pow2(
                    (doubled - 1) as nat,
                ))) by (nonlinear_arith)
                    requires
                        pow2(doubled as nat) == 2 * pow2((doubled - 1) as nat),
                ;
            }
            delay = delay * 2;
            doubled = doubled + 1;
        }
        delay
    }
}

/// The number of doublings only ever lengthens the uncapped wait.
proof fn lemma_pow2_monotonic(a: nat, b: nat)
    requires
        a <= b,
    ensures
        pow2(a) <= pow2(b),
        pow2(a) >= 1,
    decreases b,
{
    if a < b {
        lemma_pow2_monotonic(a, (b - 1) as nat);
    } else if a > 0 {
        lemma_pow2_monotonic((a - 1) as nat, (a - 1) as nat);
    }
}

/// Once the doubled delay has passed the cap, every later wait is the cap.
proof fn lemma_backoff_capped(policy: RetryPolicy, reached: nat, failures: nat)
    requires
        1 <= reached <= failures,
        policy.base_delay_ms * pow2((reached - 1) as nat) > policy.max_delay_ms,
    ensures
        backoff_delay(policy, failures) == policy.max_delay_ms,
{
    lemma_pow2_monotonic((reached - 1) as nat, (failures - 1) as nat);
    assert(policy.base_delay_ms * pow2((reached - 1) as nat) <= policy.base_delay_ms * pow2(
        (failures - 1) as nat,
    )) by (nonlinear_arith)
        requires
            pow2((reached - 1) as nat) <= pow2((failures - 1) as nat),
            policy.base_delay_ms >= 0,
    ;
}

impl EmbeddingSession {
    /// A request that has not called the service yet.
    pub fn new(policy: RetryPolicy) -> (session: EmbeddingSession)
        ensures
            session.policy == policy,
            session.failures == 0,
    {
        EmbeddingSession { policy, failures: 0 }
    }

    /// Takes the reply to the call just made and says what comes next. A vector
    /// ends the request with success. A terminal error ends it at once. A
    /// transient error is answered with another call, after the backoff delay,
    /// as long as the policy has attempts left; the last attempt's error is
    /// reported as it is.
    pub fn on_reply(&mut self, reply: Result<Vec<i32>, EmbedError>) -> (step: ClientStep)
        ensures
            final(self).policy == old(self).policy,
            step@ == step_after_reply(old(self).policy, old(self).failures, reply_model(reply)),
            final(self).failures == if retries_after(
                old(self).policy,
                old(self).failures,
                reply_model(reply),
            ) {
                (old(self).failures + 1) as u32
            } else {
                old(self).failures
            },
    {
        match reply {
            Ok(vector) => ClientStep::Finished(Ok(vector)),
            Err(error) => {
                if error.is_transient() && self.policy.max_attempts >= 2 && self.failures
                    < self.policy.max_attempts - 1 {
                    self.failures = self.failures + 1;
                    let delay_ms = self.policy.delay_after(self.failures);
                    ClientStep::Retry { delay_ms }
                } else {
                    ClientStep::Finished(Err(error))
                }
            },
        }
    }
}

/// A request never makes more calls than its policy allows: a session that has
/// already failed `max_attempts - 1` times finishes on the next reply, whatever
/// it is.
pub proof fn lemma_attempts_bounded(
    policy: RetryPolicy,
    failures: u32,
    reply: Result<Seq<i32>, EmbedError>,
)
    requires
        failures + 1 >= policy.max_attempts,
    ensures
        step_after_reply(policy, failures, reply) == ClientStepModel::Finished(reply),
{
}

/// A terminal error is never retried, however many attempts are left, and a
/// vector always ends the request.
pub proof fn lemma_only_transient_errors_are_retried(
    policy: RetryPolicy,
    failures: u32,
    reply: Result<Seq<i32>, EmbedError>,
)
    requires
        reply matches Err(error) ==> !error.transient(),
    ensures
        step_after_reply(policy, failures, reply) == ClientStepModel::Finished(reply),
{
}

} // verus!
