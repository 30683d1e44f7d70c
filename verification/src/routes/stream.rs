//! What the routes do with the outcome of routing and with each event of a
//! streamed response. The routes perform the I/O; these functions decide.
use vstd::prelude::*;

use uuid::Uuid;

use crate::error::AppError;
use crate::models::chat::TokenUsage;
use crate::providers::provider::ProviderError;
use crate::routing::admission::{reason_public_message, AdmissionRejectionReason};
use crate::routing::fallback::{provider_error_category, spec_error_category, FallbackError, ProviderAttempt, ProviderErrorCategory};
use crate::telemetry::metrics::StreamOutcome;
use crate::telemetry::request_log::{category_from_provider, RequestErrorCategory};

verus! {

/// The answer to a provider error.
pub open spec fn provider_app_error(e: ProviderError, request_id: Option<Uuid>) -> AppError {
    match e {
        ProviderError::RateLimited => AppError::ProviderRateLimited { request_id },
        ProviderError::Timeout => AppError::ProviderTimeout { request_id },
        _ => AppError::ProviderFailure { request_id },
    }
}

/// How a request that routing could not serve is answered and logged.
#[derive(Debug)]
pub struct FallbackFailure {
    pub error: AppError,
    pub category: Option<RequestErrorCategory>,
    pub admission_reason: Option<AdmissionRejectionReason>,
    pub attempts: Vec<ProviderAttempt>,
}

/// The category logged for failed attempts: that of the last attempt, if any.
pub open spec fn last_attempt_category(attempts: Seq<ProviderAttempt>) -> Option<RequestErrorCategory> {
    if attempts.len() > 0 {
        match attempts.last().error_category {
            Some(c) => Some(category_from_provider(c)),
            None => None,
        }
    } else {
        None
    }
}

/// The answer to a routing failure.
pub fn fallback_failure(error: FallbackError, request_id: Option<Uuid>) -> (f: FallbackFailure)
    ensures
        match error {
            FallbackError::NoProviderAvailable => f.error == (AppError::NoProviderAvailable { request_id })
                && f.category == Some(RequestErrorCategory::NoProviderAvailable) && f.admission_reason is None && f.attempts@.len() == 0,
            FallbackError::AdmissionRejected(rej) => (f.error matches AppError::AdmissionRejected { message, request_id: rid, retry_after_seconds }
                && rid == request_id && retry_after_seconds == rej.retry_after_seconds && message@ == reason_public_message(rej.reason))
                && f.category == Some(
                RequestErrorCategory::AdmissionRejected,
            ) && f.admission_reason == Some(rej.reason) && f.attempts@.len() == 0,
            FallbackError::ProviderFailed { error: e, attempts } => f.error == provider_app_error(e, request_id)
                && f.category == last_attempt_category(attempts@) && f.admission_reason is None && f.attempts@ == attempts@,
        },
{
    match error {
        FallbackError::NoProviderAvailable => FallbackFailure {
            error: AppError::NoProviderAvailable { request_id },
            category: Some(RequestErrorCategory::NoProviderAvailable),
            admission_reason: None,
            attempts: Vec::new(),
        },
        FallbackError::AdmissionRejected(rejection) => {
            let reason = rejection.reason;
            FallbackFailure {
                error: rejection.into_app_error(request_id),
                category: Some(RequestErrorCategory::AdmissionRejected),
                admission_reason: Some(reason),
                attempts: Vec::new(),
            }
        },
        FallbackError::ProviderFailed { error, attempts } => {
            let category = if attempts.len() > 0 {
                match attempts[attempts.len() - 1].error_category {
                    Some(c) => Some(RequestErrorCategory::from(c)),
                    None => None,
                }
            } else {
                None
            };
            FallbackFailure { error: AppError::from_provider_error(error, request_id), category, admission_reason: None, attempts }
        },
    }
}

/// What the upstream stream produced next.
#[derive(Debug, Clone)]
pub enum RelayEvent {
    /// A chunk to forward.
    Chunk,
    /// A chunk that could not be encoded for the client.
    UnencodableChunk,
    /// A text delta of this many characters (response streams).
    TextDelta { chars: usize },
    /// The upstream finished and reported its usage.
    Completed(TokenUsage),
    /// The upstream failed.
    Failed(ProviderError),
    /// Nothing arrived within the idle timeout.
    IdleTimeout,
    /// The upstream ended without completing.
    Ended,
}

/// What to send the client.
#[derive(Debug)]
pub enum RelayAction {
    /// Forward the chunk or delta.
    Forward,
    /// The stream completed.
    Complete,
    /// Send this error and stop.
    Fail(AppError),
}

/// How a streamed response ended, for metrics and the request log.
#[derive(Debug, Clone, Copy)]
pub enum StreamSettlement {
    Success(TokenUsage),
    Failure { category: RequestErrorCategory, outcome: StreamOutcome },
}

/// The state of a response being relayed to the client.
pub struct StreamRelay {
    max_output_chars: Option<usize>,
    output_chars: usize,
    usage: Option<TokenUsage>,
    failure: Option<(RequestErrorCategory, StreamOutcome)>,
    finished: bool,
}

impl StreamRelay {
    pub closed spec fn max_output_chars(&self) -> Option<usize> {
        self.max_output_chars
    }

    pub closed spec fn output_chars(&self) -> nat {
        self.output_chars as nat
    }

    pub closed spec fn usage(&self) -> Option<TokenUsage> {
        self.usage
    }

    pub closed spec fn failure(&self) -> Option<(RequestErrorCategory, StreamOutcome)> {
        self.failure
    }

    /// The stream has completed or failed; no more events are relayed.
    pub closed spec fn finished(&self) -> bool {
        self.finished
    }

    /// A relay with nothing sent; `max_output_chars` bounds the text of a response stream.
    pub fn new(max_output_chars: Option<usize>) -> (r: Self)
        ensures
            r.max_output_chars() == max_output_chars,
            r.output_chars() == 0,
            r.usage() is None,
            r.failure() is None,
            !r.finished(),
    {
        StreamRelay { max_output_chars, output_chars: 0, usage: None, failure: None, finished: false }
    }

    /// Whether the stream is over.
    pub fn is_finished(&self) -> (b: bool)
        ensures
            b == self.finished(),
    {
        self.finished
    }

    /// Handles the next upstream event. A failure after the first chunk also
    /// marks the last provider attempt as failed, with its category and latency.
    pub fn on_event(&mut self, event: RelayEvent, request_id: Option<Uuid>, attempts: &mut Vec<ProviderAttempt>, latency_ms: u64) -> (a: RelayAction)
        requires
            !old(self).finished(),
            old(self).max_output_chars() matches Some(m) ==> old(self).output_chars() <= m,
        ensures
            final(self).max_output_chars() == old(self).max_output_chars(),
            final(self).max_output_chars() matches Some(m) ==> final(self).output_chars() <= m,
            match event {
                RelayEvent::Chunk => a is Forward && *final(self) == *old(self) && final(attempts)@ == old(attempts)@,
                RelayEvent::UnencodableChunk => (a matches RelayAction::Fail(e) && e == (AppError::ProviderFailure { request_id }))
                    && final(self).finished() && final(self).failure() == Some((RequestErrorCategory::ProviderBadResponse, StreamOutcome::MidStreamFailure))
                    && final(attempts)@ == old(attempts)@,
                RelayEvent::TextDelta { chars } => if old(self).max_output_chars() matches Some(m) && old(self).output_chars() + chars > m {
                    (a matches RelayAction::Fail(e) && e == (AppError::ProviderFailure { request_id })) && final(self).finished()
                        && final(self).failure() == Some((RequestErrorCategory::ProviderBadResponse, StreamOutcome::MidStreamFailure))
                        && final(attempts)@ == old(attempts)@
                } else {
                    a is Forward && !final(self).finished() && final(self).output_chars() == if old(self).max_output_chars() is Some {
                        old(self).output_chars() + chars
                    } else {
                        old(self).output_chars() as int
                    }
                        && final(self).usage() == old(self).usage() && final(self).failure() == old(self).failure()
                        && final(attempts)@ == old(attempts)@
                },
                RelayEvent::Completed(u) => a is Complete && final(self).finished() && final(self).usage() == Some(u)
                    && final(self).failure() == old(self).failure() && final(attempts)@ == old(attempts)@,
                RelayEvent::Failed(e) => (a matches RelayAction::Fail(x) && x == provider_app_error(e, request_id))
                    && final(self).finished() && final(self).failure() == Some(
                    (category_from_provider(spec_error_category(e)), StreamOutcome::MidStreamFailure),
                ) && failed_last_attempt(old(attempts)@, final(attempts)@, spec_error_category(e), latency_ms),
                RelayEvent::IdleTimeout => (a matches RelayAction::Fail(x) && x == (AppError::ProviderTimeout { request_id }))
                    && final(self).finished() && final(self).failure() == Some((RequestErrorCategory::Timeout, StreamOutcome::IdleTimeout))
                    && failed_last_attempt(old(attempts)@, final(attempts)@, ProviderErrorCategory::Timeout, latency_ms),
                RelayEvent::Ended => (a matches RelayAction::Fail(x) && x == (AppError::ProviderFailure { request_id })) && final(self).finished()
                    && final(self).failure() == Some((RequestErrorCategory::ProviderBadResponse, StreamOutcome::Incomplete))
                    && final(attempts)@ == old(attempts)@,
            },
    {
        match event {
            RelayEvent::Chunk => RelayAction::Forward,
            RelayEvent::UnencodableChunk => {
                self.fail(RequestErrorCategory::ProviderBadResponse, StreamOutcome::MidStreamFailure);
                RelayAction::Fail(AppError::ProviderFailure { request_id })
            },
            RelayEvent::TextDelta { chars } => {
                let over = match self.max_output_chars {
                    Some(m) => chars > m - self.output_chars,
                    None => false,
                };
                if over {
                    self.fail(RequestErrorCategory::ProviderBadResponse, StreamOutcome::MidStreamFailure);
                    RelayAction::Fail(AppError::ProviderFailure { request_id })
                } else {
                    if self.max_output_chars.is_some() {
                        self.output_chars = self.output_chars + chars;
                    }
                    RelayAction::Forward
                }
            },
            RelayEvent::Completed(usage) => {
                self.usage = Some(usage);
                self.finished = true;
                RelayAction::Complete
            },
            RelayEvent::Failed(error) => {
                let category = provider_error_category(&error);
                self.fail(RequestErrorCategory::from(category), StreamOutcome::MidStreamFailure);
                mark_last_attempt_failed(attempts, category, latency_ms);
                RelayAction::Fail(AppError::from_provider_error(error, request_id))
            },
            RelayEvent::IdleTimeout => {
                self.fail(RequestErrorCategory::Timeout, StreamOutcome::IdleTimeout);
                mark_last_attempt_failed(attempts, ProviderErrorCategory::Timeout, latency_ms);
                RelayAction::Fail(AppError::ProviderTimeout { request_id })
            },
            RelayEvent::Ended => {
                self.fail(RequestErrorCategory::ProviderBadResponse, StreamOutcome::Incomplete);
                RelayAction::Fail(AppError::ProviderFailure { request_id })
            },
        }
    }

    fn fail(&mut self, category: RequestErrorCategory, outcome: StreamOutcome)
        ensures
            final(self).finished(),
            final(self).failure() == Some((category, outcome)),
            final(self).usage() == old(self).usage(),
            final(self).output_chars() == old(self).output_chars(),
            final(self).max_output_chars() == old(self).max_output_chars(),
    {
        self.failure = Some((category, outcome));
        self.finished = true;
    }

    /// How the stream ended: a success only when it completed without failing.
    pub fn settle(&self) -> (s: StreamSettlement)
        ensures
            match (self.failure(), self.usage()) {
                (None, Some(u)) => s matches StreamSettlement::Success(x) && x == u,
                (Some((c, o)), _) => s matches StreamSettlement::Failure { category, outcome } && category == c && outcome == o,
                (None, None) => s matches StreamSettlement::Failure { category, outcome } && category
                    == RequestErrorCategory::ProviderBadResponse && outcome == StreamOutcome::MidStreamFailure,
            },
    {
        match (self.failure, self.usage) {
            (None, Some(u)) => StreamSettlement::Success(u),
            (Some((c, o)), _) => StreamSettlement::Failure { category: c, outcome: o },
            (None, None) => StreamSettlement::Failure { category: RequestErrorCategory::ProviderBadResponse, outcome: StreamOutcome::MidStreamFailure },
        }
    }
}

/// `after` is `before` with its last attempt marked failed with `category` and `latency_ms`.
pub open spec fn failed_last_attempt(before: Seq<ProviderAttempt>, after: Seq<ProviderAttempt>, category: ProviderErrorCategory, latency_ms: u64) -> bool {
    if before.len() == 0 {
        after == before
    } else {
        &&& after.len() == before.len()
        &&& after.drop_last() == before.drop_last()
        &&& after.last().provider_name == before.last().provider_name
        &&& after.last().attempt_order == before.last().attempt_order
        &&& after.last().is_fallback == before.last().is_fallback
        &&& !after.last().success
        &&& after.last().error_category == Some(category)
        &&& after.last().latency_ms == latency_ms
    }
}

fn mark_last_attempt_failed(attempts: &mut Vec<ProviderAttempt>, category: ProviderErrorCategory, latency_ms: u64)
    ensures
        failed_last_attempt(old(attempts)@, final(attempts)@, category, latency_ms),
{
    let n = attempts.len();
    if n > 0 {
        let last = attempts.pop().unwrap();
        let updated = ProviderAttempt {
            provider_name: last.provider_name,
            attempt_order: last.attempt_order,
            latency_ms,
            success: false,
            is_fallback: last.is_fallback,
            error_category: Some(category),
        };
        attempts.push(updated);
        proof {
            assert(attempts@.drop_last() =~= old(attempts)@.drop_last());
        }
    }
}

} // verus!
