//! Request log metadata. Prompt content stays out of request logs unless the
//! configuration explicitly asks for it.
use vstd::prelude::*;

use crate::models::chat::{ChatCompletionRequest, ChatMessage};
use crate::routing::fallback::{ProviderAttempt, ProviderErrorCategory};

verus! {

/// Whether requests are logged, and whether their prompts are.
#[derive(Debug, Clone, Copy, PartialEq, Eq, Structural)]
pub struct RequestLoggingConfig {
    pub enabled: bool,
    pub log_prompt_content: bool,
}

impl Default for RequestLoggingConfig {
    fn default() -> (c: Self)
        ensures
            c.enabled,
            !c.log_prompt_content,
    {
        RequestLoggingConfig { enabled: true, log_prompt_content: false }
    }
}

/// Outcome of a logged request.
#[derive(Debug, Clone, Copy, PartialEq, Eq, Structural)]
pub enum RequestLogStatus {
    Success,
    Failure,
}

impl RequestLogStatus {
    /// Stable lowercase name.
    pub fn as_str(self) -> (s: &'static str)
        ensures
            s@ == (match self {
                RequestLogStatus::Success => "success"@,
                RequestLogStatus::Failure => "failure"@,
            }),
    {
        match self {
            RequestLogStatus::Success => "success",
            RequestLogStatus::Failure => "failure",
        }
    }
}

/// Whether a stored status is a success.
pub fn status_is_success(status: RequestLogStatus) -> (b: bool)
    ensures
        b == (status == RequestLogStatus::Success),
{
    status == RequestLogStatus::Success
}

/// Why a logged request failed.
#[derive(Debug, Clone, Copy, PartialEq, Eq, Structural)]
pub enum RequestErrorCategory {
    InvalidRequest,
    AdmissionRejected,
    NoProviderAvailable,
    Timeout,
    RateLimited,
    AuthenticationFailed,
    ProviderUnavailable,
    ProviderBadResponse,
}

pub open spec fn request_category_name(c: RequestErrorCategory) -> Seq<char> {
    match c {
        RequestErrorCategory::InvalidRequest => "invalid_request"@,
        RequestErrorCategory::AdmissionRejected => "admission_rejected"@,
        RequestErrorCategory::NoProviderAvailable => "no_provider_available"@,
        RequestErrorCategory::Timeout => "timeout"@,
        RequestErrorCategory::RateLimited => "rate_limited"@,
        RequestErrorCategory::AuthenticationFailed => "authentication_failed"@,
        RequestErrorCategory::ProviderUnavailable => "provider_unavailable"@,
        RequestErrorCategory::ProviderBadResponse => "provider_bad_response"@,
    }
}

impl RequestErrorCategory {
    /// Stable snake_case name.
    pub fn as_str(self) -> (s: &'static str)
        ensures
            s@ == request_category_name(self),
    {
        match self {
            RequestErrorCategory::InvalidRequest => "invalid_request",
            RequestErrorCategory::AdmissionRejected => "admission_rejected",
            RequestErrorCategory::NoProviderAvailable => "no_provider_available",
            RequestErrorCategory::Timeout => "timeout",
            RequestErrorCategory::RateLimited => "rate_limited",
            RequestErrorCategory::AuthenticationFailed => "authentication_failed",
            RequestErrorCategory::ProviderUnavailable => "provider_unavailable",
            RequestErrorCategory::ProviderBadResponse => "provider_bad_response",
        }
    }
}

pub open spec fn category_from_provider(c: ProviderErrorCategory) -> RequestErrorCategory {
    match c {
        ProviderErrorCategory::Timeout => RequestErrorCategory::Timeout,
        ProviderErrorCategory::RateLimited => RequestErrorCategory::RateLimited,
        ProviderErrorCategory::AuthenticationFailed => RequestErrorCategory::AuthenticationFailed,
        ProviderErrorCategory::ProviderUnavailable => RequestErrorCategory::ProviderUnavailable,
        ProviderErrorCategory::ProviderBadResponse => RequestErrorCategory::ProviderBadResponse,
    }
}

impl From<ProviderErrorCategory> for RequestErrorCategory {
    fn from(category: ProviderErrorCategory) -> (r: Self)
        ensures
            r == category_from_provider(category),
    {
        match category {
            ProviderErrorCategory::Timeout => RequestErrorCategory::Timeout,
            ProviderErrorCategory::RateLimited => RequestErrorCategory::RateLimited,
            ProviderErrorCategory::AuthenticationFailed => RequestErrorCategory::AuthenticationFailed,
            ProviderErrorCategory::ProviderUnavailable => RequestErrorCategory::ProviderUnavailable,
            ProviderErrorCategory::ProviderBadResponse => RequestErrorCategory::ProviderBadResponse,
        }
    }
}

impl vstd::std_specs::convert::FromSpecImpl<ProviderErrorCategory> for RequestErrorCategory {
    open spec fn obeys_from_spec() -> bool {
        true
    }

    open spec fn from_spec(category: ProviderErrorCategory) -> Self {
        category_from_provider(category)
    }
}

/// A provider attempt as stored in the request log.
#[derive(Debug, Clone)]
pub struct RequestProviderAttempt {
    pub provider_name: String,
    pub attempt_order: u32,
    pub latency_ms: u64,
    pub success: bool,
    pub is_fallback: bool,
    pub error_category: Option<RequestErrorCategory>,
}

impl RequestProviderAttempt {
    /// The logged form of `attempt`.
    pub fn from_attempt(attempt: &ProviderAttempt) -> (r: Self)
        ensures
            r.provider_name == attempt.provider_name,
            r.attempt_order == attempt.attempt_order,
            r.latency_ms == attempt.latency_ms,
            r.success == attempt.success,
            r.is_fallback == attempt.is_fallback,
            r.error_category == match attempt.error_category {
                Some(c) => Some(category_from_provider(c)),
                None => None,
            },
    {
        RequestProviderAttempt {
            provider_name: attempt.provider_name.clone(),
            attempt_order: attempt.attempt_order,
            latency_ms: attempt.latency_ms,
            success: attempt.success,
            is_fallback: attempt.is_fallback,
            error_category: match attempt.error_category {
                Some(c) => Some(RequestErrorCategory::from(c)),
                None => None,
            },
        }
    }
}

/// Number of fallback attempts in `attempts`.
pub open spec fn fallback_count(attempts: Seq<RequestProviderAttempt>) -> nat
    decreases attempts.len(),
{
    if attempts.len() == 0 {
        0
    } else {
        fallback_count(attempts.drop_last()) + if attempts.last().is_fallback { 1nat } else { 0nat }
    }
}

/// How many of the attempts were made on fallback providers.
pub fn fallback_attempt_count(attempts: &[RequestProviderAttempt]) -> (n: usize)
    ensures
        n == fallback_count(attempts@),
{
    let len = attempts.len();
    let mut count: usize = 0;
    for i in 0..len
        invariant
            len == attempts@.len(),
            count == fallback_count(attempts@.take(i as int)),
            count <= i,
    {
        proof {
            assert(attempts@.take(i + 1).drop_last() =~= attempts@.take(i as int));
        }
        if attempts[i].is_fallback {
            count = count + 1;
        }
    }
    assert(attempts@.take(len as int) =~= attempts@);
    count
}

/// The prompt messages to store with a log entry: none unless prompt logging
/// is enabled, and then the request's messages.
pub fn prompt_messages(request: Option<&ChatCompletionRequest>, config: RequestLoggingConfig) -> (r: Option<Vec<ChatMessage>>)
    ensures
        !config.log_prompt_content ==> r is None,
        config.log_prompt_content ==> match request {
            Some(req) => r matches Some(ms) && ms@.len() == req.messages@.len() && forall|i: int|
                0 <= i < ms@.len() ==> crate::models::chat::same_message(#[trigger] ms@[i], req.messages@[i]),
            None => r is None,
        },
{
    if config.log_prompt_content {
        match request {
            Some(req) => Some(crate::models::chat::copy_messages(&req.messages)),
            None => None,
        }
    } else {
        None
    }
}

} // verus!
