//! Retry policy shared by the OpenAI calls: which failures are worth repeating and how long
//! to wait before the next attempt.
use vstd::prelude::*;
use crate::text::{decimal, push_decimal, push_str};

verus! {

/// Cache key sent with every job-analysis request.
pub const PROMPT_CACHE_KEY_JOB_ANALYSIS: &'static str = "resume-workbench:job_analysis:v1";

/// Cache key sent with every job-import request.
pub const PROMPT_CACHE_KEY_JOB_IMPORT: &'static str = "resume-workbench:job_import:v1";

/// Cache key sent with every tailoring request.
pub const PROMPT_CACHE_KEY_RESUME_TAILORING: &'static str = "resume-workbench:resume_tailoring:v2";

/// Rate limits (429) and server faults (5xx) are transient; every other status is not.
pub open spec fn retryable(status: u16) -> bool {
    status == 429 || (500 <= status && status <= 599)
}

/// Whether a failed call that answered with the HTTP status `status` is worth sending again.
pub fn status_is_retryable(status: u16) -> (r: bool)
    ensures
        r == retryable(status),
{
    status == 429 || (500 <= status && status <= 599)
}

/// What the retry loop does after one attempt.
#[derive(Clone, Copy, Debug, PartialEq, Eq)]
pub enum RetryStep {
    /// The call succeeded: read the body.
    Accept,
    /// Wait, then send the request again.
    TryAgain,
    /// Report the failure without another attempt.
    GiveUp,
}

/// The step after an attempt that answered with `status`, or failed in transport (`None`:
/// no response, or a body that could not be read): transport failures and transient statuses
/// are tried again, a 2xx is accepted, and any other status ends the loop.
pub open spec fn step_after(status: Option<u16>) -> RetryStep {
    match status {
        None => RetryStep::TryAgain,
        Some(s) => if 200 <= s && s <= 299 {
            RetryStep::Accept
        } else if retryable(s) {
            RetryStep::TryAgain
        } else {
            RetryStep::GiveUp
        },
    }
}

/// `step_after(status)`.
pub fn retry_step(status: Option<u16>) -> (r: RetryStep)
    ensures
        r == step_after(status),
{
    match status {
        None => RetryStep::TryAgain,
        Some(s) => if 200 <= s && s <= 299 {
            RetryStep::Accept
        } else if status_is_retryable(s) {
            RetryStep::TryAgain
        } else {
            RetryStep::GiveUp
        },
    }
}

/// The backoff before retry number `attempt`, in milliseconds: doubling from one second and
/// capped at the fifth step.
pub open spec fn backoff_millis(attempt: u32) -> u64 {
    if attempt == 0 {
        1000
    } else if attempt == 1 {
        2000
    } else if attempt == 2 {
        4000
    } else if attempt == 3 {
        8000
    } else {
        16000
    }
}

/// Exponential backoff: 1s, 2s, 4s, 8s, then 16s for every later attempt (milliseconds).
pub fn retry_delay(attempt: u32) -> (r: u64)
    ensures
        r == backoff_millis(attempt),
        r == 1000 * vstd::arithmetic::power2::pow2(if attempt < 4 { attempt as nat } else { 4 }),
{
    let shift: u64 = if attempt < 4 { attempt as u64 } else { 4 };
    let r: u64 = 1000u64 << shift;
    assert(shift <= 4 ==> 1000u64 << shift == if shift == 0 { 1000u64 } else if shift == 1 {
        2000u64
    } else if shift == 2 {
        4000u64
    } else if shift == 3 {
        8000u64
    } else {
        16000u64
    }) by (bit_vector);
    proof {
        vstd::arithmetic::power2::lemma2_to64();
    }
    r
}

/// The delay never shrinks as attempts go on, and it stops growing after the fourth retry.
pub proof fn lemma_backoff_grows_then_caps(a: u32, b: u32)
    requires
        a <= b,
    ensures
        backoff_millis(a) <= backoff_millis(b),
        a >= 4 ==> backoff_millis(a) == backoff_millis(b),
        a < 4 ==> backoff_millis((a + 1) as u32) == 2 * backoff_millis(a),
{
}


/// The reason phrase the `http` crate registers for a status code, when it has one.
pub uninterp spec fn canonical_reason(status: u16) -> Option<Seq<char>>;

/// `http::StatusCode::canonical_reason` of the status built from `status`: the registered
/// reason phrase, or nothing for an unregistered code. The phrase depends on the code alone.
#[verifier::external_body]
fn status_reason(status: u16) -> (r: Option<String>)
    requires
        100 <= status <= 999,
    ensures
        match r {
            Some(t) => canonical_reason(status) == Some(t@),
            None => canonical_reason(status) is None,
        },
{
    match reqwest::StatusCode::from_u16(status) {
        Ok(code) => match code.canonical_reason() {
            Some(text) => Some(text.to_string()),
            None => None,
        },
        Err(_) => None,
    }
}

/// How a status code prints: its number, a space, and its reason phrase (or
/// `<unknown status code>` when it has none).
pub open spec fn status_text(status: u16) -> Seq<char> {
    let reason = if 100 <= status <= 999 {
        match canonical_reason(status) {
            Some(t) => t,
            None => "<unknown status code>"@,
        }
    } else {
        "<unknown status code>"@
    };
    decimal(status as nat) + " "@ + reason
}

/// Appends `status_text(status)` to `out`.
pub fn push_status(out: &mut String, status: u16)
    ensures
        final(out)@ == old(out)@ + status_text(status),
{
    proof {
        reveal_strlit("<unknown status code>");
        reveal_strlit(" ");
    }
    push_decimal(out, status as u64);
    push_str(out, " ");
    let reason = if 100 <= status && status <= 999 {
        status_reason(status)
    } else {
        None
    };
    match reason {
        Some(t) => push_str(out, t.as_str()),
        None => push_str(out, "<unknown status code>"),
    }
}

} // verus!
