//! When a call to a provider is tried again, and after how long.
use vstd::prelude::*;

use crate::error::{AgentError, ErrorV};
use crate::protocol::{AgentEvent, EventV};
use crate::text;
use crate::text::{cat2, cat4, parse_u64, to_chars, utf8_lossy};

verus! {

/// How often a call is tried again, and after how long at first.
#[derive(Debug, Clone, Copy, PartialEq, Eq, Structural)]
pub struct RetryPolicy {
    pub max_retries: usize,
    pub base_delay_ms: u64,
}

/// The policy that holds where nothing else is configured.
pub open spec fn default_retry() -> RetryPolicy {
    RetryPolicy { max_retries: 3, base_delay_ms: 500 }
}

impl Default for RetryPolicy {
    fn default() -> (policy: Self)
        ensures
            policy == default_retry(),
    {
        RetryPolicy { max_retries: 3, base_delay_ms: 500 }
    }
}

/// Whether a status says that the same call may succeed later.
pub open spec fn may_pass(status: u16) -> bool {
    status == 408 || status == 409 || status == 429 || 500 <= status < 600
}

/// Whether a status says that the same call may succeed later.
pub fn retryable_status(status: u16) -> (retryable: bool)
    ensures
        retryable == may_pass(status),
{
    status == 408 || status == 409 || status == 429 || (500 <= status && status < 600)
}

/// Whether a failed call may succeed later: it could not connect, or took too long.
pub fn retryable_error(connect: bool, timeout: bool) -> (retryable: bool)
    ensures
        retryable == (connect || timeout),
{
    connect || timeout
}

/// The smaller of two numbers.
pub open spec fn at_most(n: nat, limit: nat) -> nat {
    if n > limit {
        limit
    } else {
        n
    }
}

/// The delay that a provider asks for, in milliseconds: its seconds, a minute at most.
pub open spec fn asked_delay(header: Option<Seq<char>>) -> Option<nat> {
    match header {
        Some(value) => match text::u64_value(value) {
            Some(seconds) => Some(at_most(seconds as nat * 1_000, 60_000)),
            None => None,
        },
        None => None,
    }
}

/// The delay that a provider asks for, in milliseconds.
pub fn retry_after_ms(header: Option<&str>) -> (delay: Option<u64>)
    ensures
        match delay {
            Some(ms) => asked_delay(
                match header {
                    Some(h) => Some(h@),
                    None => None,
                },
            ) == Some(ms as nat),
            None => asked_delay(
                match header {
                    Some(h) => Some(h@),
                    None => None,
                },
            ) is None,
        },
{
    match header {
        Some(value) => match parse_u64(to_chars(value).as_slice()) {
            Some(seconds) => Some(
                if seconds > 60 {
                    60_000
                } else {
                    seconds * 1_000
                },
            ),
            None => None,
        },
        None => None,
    }
}

/// The delay before a retry: the base doubled with each retry, half a minute at most.
pub open spec fn doubled_delay(base: u64, retry: nat) -> nat {
    at_most(base as nat * vstd::arithmetic::power2::pow2(at_most(retry, 16)), 30_000)
}

/// The delay before a retry.
pub fn backoff_ms(base: u64, retry: usize) -> (delay: u64)
    ensures
        delay == doubled_delay(base, retry as nat),
{
    let doublings: usize = if retry > 16 { 16 } else { retry };
    let mut factor: u64 = 1;
    proof {
        vstd::arithmetic::power2::lemma2_to64();
    }
    for i in 0..doublings
        invariant
            doublings <= 16,
            factor == vstd::arithmetic::power2::pow2(i as nat),
            factor <= 65_536,
            vstd::arithmetic::power2::pow2(16) == 65_536,
    {
        proof {
            vstd::arithmetic::power2::lemma_pow2_unfold((i + 1) as nat);
            if i + 1 < 16 {
                vstd::arithmetic::power2::lemma_pow2_strictly_increases((i + 1) as nat, 16);
            }
        }
        factor = factor * 2;
    }
    assert(base as nat * factor as nat <= u64::MAX * 65_536) by (nonlinear_arith)
        requires
            base <= u64::MAX,
            factor <= 65_536,
    ;
    let delay: u128 = base as u128 * factor as u128;
    if delay > 30_000 {
        30_000
    } else {
        delay as u64
    }
}

/// How a call to a provider went.
#[derive(Debug, Clone, PartialEq, Eq)]
pub enum Attempt {
    /// It was answered, with this status and what the answer says of a retry.
    Answered { status: u16, status_text: String, retry_after: Option<String> },
    /// It was not.
    Failed { message: String, connect: bool, timeout: bool },
}

/// What to do after a call to a provider.
#[derive(Debug, PartialEq)]
pub enum RetryStep {
    /// Use the answer.
    Accept,
    /// Give up.
    Fail { error: AgentError },
    /// Show the event, wait and try again.
    Wait { event: AgentEvent, delay_ms: u64 },
}

/// What to do after a call to a provider, in the model.
#[verifier::ext_equal]
pub enum RetryStepV {
    Accept,
    Fail { error: ErrorV },
    Wait { event: EventV, delay_ms: u64 },
}

impl View for RetryStep {
    type V = RetryStepV;

    open spec fn view(&self) -> RetryStepV {
        match *self {
            RetryStep::Accept => RetryStepV::Accept,
            RetryStep::Fail { error } => RetryStepV::Fail { error: error@ },
            RetryStep::Wait { event, delay_ms } => RetryStepV::Wait { event: event@, delay_ms },
        }
    }
}

/// Another try after a delay, and the event that tells of it.
pub open spec fn wait_step(retry: usize, delay: nat, reason: Seq<char>) -> RetryStepV {
    RetryStepV::Wait {
        event: EventV::ProviderRetry {
            attempt: (retry + 1) as usize,
            delay_ms: delay as u64,
            reason,
        },
        delay_ms: delay as u64,
    }
}

/// What to do after try number `retry`, counted from zero: an answer or a failure that may pass is
/// tried again while retries are left.
pub open spec fn retry_verdict(policy: RetryPolicy, retry: usize, attempt: Attempt) -> RetryStepV {
    match attempt {
        Attempt::Answered { status, status_text, retry_after } => if may_pass(status) && retry
            < policy.max_retries {
            let delay = match asked_delay(
                match retry_after {
                    Some(h) => Some(h@),
                    None => None,
                },
            ) {
                Some(asked) => asked,
                None => doubled_delay(policy.base_delay_ms, retry as nat),
            };
            wait_step(retry, delay, "HTTP "@ + status_text@)
        } else {
            RetryStepV::Accept
        },
        Attempt::Failed { message, connect, timeout } => if (connect || timeout) && retry
            < policy.max_retries {
            wait_step(retry, doubled_delay(policy.base_delay_ms, retry as nat), message@)
        } else {
            RetryStepV::Fail { error: ErrorV::Provider(message@) }
        },
    }
}

/// Decides what to do after try number `retry` of a call, counted from zero.
pub fn send_with_retry(policy: RetryPolicy, retry: usize, attempt: Attempt) -> (step: RetryStep)
    ensures
        step@ == retry_verdict(policy, retry, attempt),
{
    match attempt {
        Attempt::Answered { status, status_text, retry_after } => {
            if retryable_status(status) && retry < policy.max_retries {
                let asked = retry_after_ms(
                    match &retry_after {
                        Some(h) => Some(h.as_str()),
                        None => None,
                    },
                );
                let delay_ms: u64 = match asked {
                    Some(asked) => asked,
                    None => backoff_ms(policy.base_delay_ms, retry),
                };
                RetryStep::Wait {
                    event: AgentEvent::ProviderRetry {
                        attempt: retry + 1,
                        delay_ms,
                        reason: cat2("HTTP ", status_text.as_str()),
                    },
                    delay_ms,
                }
            } else {
                RetryStep::Accept
            }
        },
        Attempt::Failed { message, connect, timeout } => {
            if retryable_error(connect, timeout) && retry < policy.max_retries {
                let delay_ms: u64 = backoff_ms(policy.base_delay_ms, retry);
                RetryStep::Wait {
                    event: AgentEvent::ProviderRetry {
                        attempt: retry + 1,
                        delay_ms,
                        reason: message,
                    },
                    delay_ms,
                }
            } else {
                RetryStep::Fail { error: AgentError::Provider(message) }
            }
        },
    }
}

/// Retries are bounded: no delay is longer than a minute, and after `max_retries` retries there is
/// no further one.
pub proof fn law_retries_are_bounded(policy: RetryPolicy, retry: usize, attempt: Attempt)
    ensures
        retry >= policy.max_retries ==> !(retry_verdict(policy, retry, attempt) is Wait),
        retry_verdict(policy, retry, attempt) matches RetryStepV::Wait { delay_ms, .. } ==> delay_ms
            <= 60_000,
{
}

/// A status or a failure that will not pass is never tried again.
pub proof fn law_only_passing_failures_are_retried(
    policy: RetryPolicy,
    retry: usize,
    attempt: Attempt,
)
    ensures
        retry_verdict(policy, retry, attempt) is Wait ==> match attempt {
            Attempt::Answered { status, .. } => may_pass(status),
            Attempt::Failed { connect, timeout, .. } => connect || timeout,
        },
{
}

/// The bytes of the body of a refused call that are kept.
pub const MAX_ERROR_BODY_BYTES: usize = 800;

/// The beginning of the body of a refused call.
pub struct ErrorBody {
    bytes: Vec<u8>,
}

impl View for ErrorBody {
    type V = Seq<u8>;

    closed spec fn view(&self) -> Seq<u8> {
        self.bytes@
    }
}

/// Bytes up to the number that is kept.
pub open spec fn kept_body(bytes: Seq<u8>) -> Seq<u8> {
    if bytes.len() > MAX_ERROR_BODY_BYTES {
        bytes.take(MAX_ERROR_BODY_BYTES as int)
    } else {
        bytes
    }
}

impl ErrorBody {
    /// Nothing yet.
    pub fn new() -> (body: Self)
        ensures
            body@ == Seq::<u8>::empty(),
    {
        ErrorBody { bytes: Vec::new() }
    }

    /// Whether more of the body is wanted.
    pub fn wants_more(&self) -> (more: bool)
        ensures
            more == (self@.len() < MAX_ERROR_BODY_BYTES),
    {
        self.bytes.len() < MAX_ERROR_BODY_BYTES
    }

    /// Takes the next bytes of the body.
    pub fn add_chunk(&mut self, chunk: &[u8])
        requires
            old(self)@.len() <= MAX_ERROR_BODY_BYTES,
        ensures
            final(self)@ == kept_body(old(self)@ + chunk@),
            final(self)@.len() <= MAX_ERROR_BODY_BYTES,
    {
        let ghost whole = self@ + chunk@;
        let ghost start = self.bytes@.len();
        let mut i: usize = 0;
        while i < chunk.len() && self.bytes.len() < MAX_ERROR_BODY_BYTES
            invariant
                i <= chunk.len(),
                start + i == self.bytes.len() <= MAX_ERROR_BODY_BYTES,
                self.bytes@ == whole.take(start + i),
                whole == old(self)@ + chunk@,
                start == old(self)@.len(),
            decreases chunk.len() - i,
        {
            self.bytes.push(chunk[i]);
            assert(whole.take(start + i + 1) == whole.take(start + i).push(chunk@[i as int]));
            i += 1;
        }
        assert(self@ == kept_body(whole));
    }

    /// The error of a call that was refused with a status.
    pub fn into_error(self, status_text: &str) -> (error: AgentError)
        ensures
            error@ == ErrorV::Provider(
                "HTTP "@ + status_text@ + ": "@ + text::lossy_text(self@),
            ),
    {
        AgentError::Provider(
            cat4("HTTP ", status_text, ": ", utf8_lossy(self.bytes.as_slice()).as_str()),
        )
    }
}

/// The first retry waits for the base delay, each further one twice as long as the one before, up to
/// half a minute; from the sixteenth doubling on nothing is added.
pub proof fn law_delays_double(base: u64, retry: nat)
    ensures
        doubled_delay(base, 0) == if base < 30_000 {
            base as nat
        } else {
            30_000
        },
        retry < 16 ==> doubled_delay(base, retry + 1) == if 2 * doubled_delay(base, retry)
            < 30_000 {
            2 * doubled_delay(base, retry)
        } else {
            30_000
        },
        retry >= 16 ==> doubled_delay(base, retry) == doubled_delay(base, 16),
{
    vstd::arithmetic::power2::lemma2_to64();
    assert(vstd::arithmetic::power2::pow2(at_most(0, 16)) == 1);
    assert(base as nat * 1 == base as nat);
    if retry < 16 {
        vstd::arithmetic::power2::lemma_pow2_unfold(retry + 1);
        let power = vstd::arithmetic::power2::pow2(retry);
        assert(base as nat * (2 * power) == 2 * (base as nat * power)) by (nonlinear_arith);
    }
}

/// A provider that says for how many seconds to wait is waited for that long, but no longer than a
/// minute; what it says is not followed where it is no number.
pub proof fn law_asked_delays_are_kept(value: Seq<char>)
    ensures
        text::u64_value(value) matches Some(seconds) ==> asked_delay(Some(value)) == Some(
            if seconds < 60 {
                1_000 * (seconds as nat)
            } else {
                60_000
            },
        ),
        text::u64_value(value) is None ==> asked_delay(Some(value)) is None,
        asked_delay(None) is None,
{
}

/// An answer that may pass is tried again as long as retries are left, after the delay that it asks
/// for or else the one that is due; every other answer is used. The event tells the number of the
/// retry, the delay and the reason.
pub proof fn law_answers_are_tried_again(
    policy: RetryPolicy,
    retry: usize,
    status: u16,
    status_text: String,
    retry_after: Option<String>,
)
    ensures
        ({
            let verdict = retry_verdict(
                policy,
                retry,
                Attempt::Answered { status, status_text, retry_after },
            );
            let passing = status == 408 || status == 409 || status == 429 || 500 <= status <= 599;
            &&& passing && retry < policy.max_retries <==> verdict is Wait
            &&& !(verdict is Wait) ==> verdict is Accept
            &&& verdict matches RetryStepV::Wait { event, delay_ms } ==> {
                &&& event == (EventV::ProviderRetry {
                    attempt: (retry + 1) as usize,
                    delay_ms,
                    reason: "HTTP "@ + status_text@,
                })
                &&& retry_after is None ==> delay_ms == doubled_delay(
                    policy.base_delay_ms,
                    retry as nat,
                )
                &&& retry_after matches Some(header) ==> match asked_delay(Some(header@)) {
                    Some(asked) => delay_ms == asked,
                    None => delay_ms == doubled_delay(policy.base_delay_ms, retry as nat),
                }
            }
        }),
{
}

/// A call that could not connect or took too long is tried again as long as retries are left; every
/// other failure, and the last one, is the error, with what it says.
pub proof fn law_failures_are_tried_again(
    policy: RetryPolicy,
    retry: usize,
    message: String,
    connect: bool,
    timeout: bool,
)
    ensures
        ({
            let verdict = retry_verdict(policy, retry, Attempt::Failed { message, connect, timeout });
            &&& (connect || timeout) && retry < policy.max_retries ==> (
            verdict matches RetryStepV::Wait { event, delay_ms } && delay_ms == doubled_delay(
                policy.base_delay_ms,
                retry as nat,
            ) && event == (EventV::ProviderRetry {
                attempt: (retry + 1) as usize,
                delay_ms,
                reason: message@,
            }))
            &&& !(connect || timeout) || retry >= policy.max_retries ==> verdict == (
            RetryStepV::Fail { error: ErrorV::Provider(message@) })
        }),
{
}

/// Of the body of a refused call the first bytes are kept, in order and unchanged, however it is cut
/// into chunks.
pub proof fn law_bodies_are_kept_from_the_front(bytes: Seq<u8>, more: Seq<u8>)
    ensures
        kept_body(bytes).is_prefix_of(bytes),
        kept_body(bytes).len() == if bytes.len() < 800 {
            bytes.len() as int
        } else {
            800
        },
        kept_body(kept_body(bytes) + more) == kept_body(bytes + more),
{
    if bytes.len() > MAX_ERROR_BODY_BYTES {
        assert(kept_body(kept_body(bytes) + more) == kept_body(bytes + more));
    }
}

/// Where nothing else is configured, a call is tried again after half a second, and then after twice
/// as long each time, three times in all.
pub proof fn law_default_delays_double(retry: nat)
    requires
        retry < default_retry().max_retries,
    ensures
        default_retry().max_retries == 3,
        doubled_delay(default_retry().base_delay_ms, 0) == 500,
        doubled_delay(default_retry().base_delay_ms, retry + 1) == 2 * doubled_delay(
            default_retry().base_delay_ms,
            retry,
        ),
{
    vstd::arithmetic::power2::lemma2_to64();
}

} // verus!
