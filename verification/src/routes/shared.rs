//! The steps every chat-style route takes before routing: validation, alias
//! resolution, the token budget, and admission into the gateway and the pool.
use vstd::prelude::*;

use uuid::Uuid;

use crate::error::AppError;
use crate::models::chat::{validation_error, ChatCompletionRequest, ChatValidationLimits};
use crate::routing::admission::{
    reason_public_message,
    admission_invalid_request_message, count_of, release_slots, token_budget_rejection, AdmissionController, AdmissionGuard,
    AdmissionRejectionReason,
};
use crate::routing::model_pools::ModelPoolIndex;
use crate::routing::strategy::{resolve_model_alias, resolved_model};
use crate::strmap::StrMap;
use crate::telemetry::request_log::RequestErrorCategory;
use crate::telemetry::token_estimator::messages_tokens;

verus! {

/// Name of the pool serving `model`, if any.
pub open spec fn request_pool_name(pools: ModelPoolIndex, model: Option<Seq<char>>) -> Option<Seq<char>> {
    match model {
        Some(m) => match pools.pool_spec(m) {
            Some(p) => Some(p.name@),
            None => None,
        },
        None => None,
    }
}

/// The pool serving the request's model, for admission control.
pub fn pool_name_for_request<'a>(model_pools: &'a ModelPoolIndex, request: &ChatCompletionRequest) -> (r: Option<&'a str>)
    requires
        model_pools.wf(),
    ensures
        match r {
            Some(n) => request_pool_name(
                *model_pools,
                match request.model {
                    Some(m) => Some(m@),
                    None => None,
                },
            ) == Some(n@),
            None => request_pool_name(
                *model_pools,
                match request.model {
                    Some(m) => Some(m@),
                    None => None,
                },
            ) is None,
        },
{
    match &request.model {
        Some(model) => match model_pools.pool_for_public_model(model.as_str()) {
            Some(pool) => Some(pool.name.as_str()),
            None => None,
        },
        None => None,
    }
}

/// Replaces an aliased model name with the model it stands for.
pub fn resolve_request_model_alias(aliases: &StrMap<String>, request: &mut ChatCompletionRequest)
    requires
        aliases.wf(),
    ensures
        final(request).model is Some <==> old(request).model is Some,
        final(request).model matches Some(m) ==> m@ == resolved_model(aliases@, old(request).model->0@),
        final(request).messages == old(request).messages,
        final(request).max_tokens == old(request).max_tokens,
        final(request).stream == old(request).stream,
        final(request).temperature_bits == old(request).temperature_bits,
{
    let resolved = match &request.model {
        Some(model) => Some(resolve_model_alias(aliases, model.as_str())),
        None => None,
    };
    request.model = resolved;
}

/// How a chat request was turned away before routing: the error to answer with,
/// the category to log, and the admission reason to count, if admission refused.
#[derive(Debug)]
pub struct ChatRejection {
    pub error: AppError,
    pub category: RequestErrorCategory,
    pub admission_reason: Option<AdmissionRejectionReason>,
}

/// The message of a token-budget refusal.
pub open spec fn budget_message(reason: AdmissionRejectionReason) -> Seq<char> {
    match reason {
        AdmissionRejectionReason::MaxEstimatedPromptTokens => "estimated prompt token limit exceeded"@,
        AdmissionRejectionReason::MaxEstimatedTotalTokens => "estimated total token limit exceeded"@,
        _ => "request rejected by admission control"@,
    }
}

/// Validates a chat request, resolves its model alias, checks its token budget
/// and takes its admission slots. On success the guard holds the slots; on
/// refusal nothing is held.
pub fn admit_chat_request(
    request: &mut ChatCompletionRequest,
    request_id: Option<Uuid>,
    limits: &ChatValidationLimits,
    aliases: &StrMap<String>,
    model_pools: &ModelPoolIndex,
    admission: &mut AdmissionController,
) -> (r: Result<AdmissionGuard, ChatRejection>)
    requires
        aliases.wf(),
        model_pools.wf(),
        old(admission).wf(),
        messages_tokens(old(request).messages@) <= u32::MAX,
    ensures
        final(admission).wf(),
        final(admission).limits() == old(admission).limits(),
        final(request).messages == old(request).messages,
        final(request).max_tokens == old(request).max_tokens,
        final(request).stream == old(request).stream,
        validation_error(*old(request), *limits) matches Some(msg) ==> (r matches Err(rej) && rej.category
            == RequestErrorCategory::InvalidRequest && rej.admission_reason is None && (rej.error matches AppError::InvalidRequest {
            message,
            request_id: rid,
        } && message@ == msg && rid == request_id) && final(admission).counters() == old(admission).counters()),
        validation_error(*old(request), *limits) is None ==> {
            &&& final(request).model is Some <==> old(request).model is Some
            &&& final(request).model matches Some(m) ==> m@ == resolved_model(aliases@, old(request).model->0@)
            &&& token_budget_rejection(*old(admission).limits(), *final(request)) matches Some(reason) ==> (r matches Err(rej)
                && rej.category == RequestErrorCategory::InvalidRequest && rej.admission_reason == Some(reason) && (rej.error matches AppError::InvalidRequest {
                message,
                request_id: rid,
            } && message@ == budget_message(reason) && rid == request_id) && final(admission).counters() == old(admission).counters())
            &&& token_budget_rejection(*old(admission).limits(), *final(request)) is None ==> match r {
                Err(rej) => {
                    &&& rej.category == RequestErrorCategory::AdmissionRejected
                    &&& final(admission).counters() == old(admission).counters()
                    &&& rej.admission_reason matches Some(reason) && (reason == AdmissionRejectionReason::GlobalInFlightLimit
                        || reason == AdmissionRejectionReason::PoolInFlightLimit)
                    &&& rej.admission_reason == Some(AdmissionRejectionReason::GlobalInFlightLimit) <==> (
                    old(admission).limits().max_global_in_flight matches Some(l) && old(admission).counters().global >= l)
                    &&& rej.admission_reason == Some(AdmissionRejectionReason::PoolInFlightLimit) ==> (request_pool_name(
                        *model_pools,
                        match final(request).model {
                            Some(m) => Some(m@),
                            None => None,
                        },
                    ) matches Some(p) && old(admission).limits().pool_limits().contains_key(p) && count_of(
                        old(admission).counters().pools,
                        p,
                    ) >= old(admission).limits().pool_limits()[p])
                    &&& rej.error matches AppError::AdmissionRejected { message, request_id: rid, retry_after_seconds }
                        && rid == request_id && message@ == reason_public_message(rej.admission_reason->0)
                        && retry_after_seconds == if old(admission).limits().retry_after_seconds >= 1 {
                            old(admission).limits().retry_after_seconds
                        } else {
                            1
                        }
                },
                Ok(g) => {
                    let pool = request_pool_name(
                        *model_pools,
                        match final(request).model {
                            Some(m) => Some(m@),
                            None => None,
                        },
                    );
                    &&& g.is_active()
                    &&& release_slots(final(admission).counters(), g.held()) == old(admission).counters()
                    &&& !(old(admission).limits().max_global_in_flight matches Some(l) && old(admission).counters().global >= l)
                    &&& (pool matches Some(p) ==> (old(admission).limits().pool_limits().contains_key(p)
                        ==> count_of(old(admission).counters().pools, p) < old(admission).limits().pool_limits()[p]))
                    &&& final(admission).counters().global == if old(admission).limits().max_global_in_flight is Some {
                        (old(admission).counters().global + 1) as u64
                    } else {
                        old(admission).counters().global
                    }
                    &&& final(admission).counters().providers == old(admission).counters().providers
                    &&& final(admission).counters().pools == match pool {
                        Some(p) => if old(admission).limits().pool_limits().contains_key(p) {
                            old(admission).counters().pools.insert(p, (count_of(old(admission).counters().pools, p) + 1) as u64)
                        } else {
                            old(admission).counters().pools
                        },
                        None => old(admission).counters().pools,
                    }
                },
            }
        },
{
    if let Err(error) = request.validate(request_id, limits) {
        return Err(ChatRejection { error, category: RequestErrorCategory::InvalidRequest, admission_reason: None });
    }
    resolve_request_model_alias(aliases, request);
    if let Err(reason) = admission.check_token_budget(request) {
        let message = admission_invalid_request_message(reason).to_string();
        return Err(
            ChatRejection {
                error: AppError::InvalidRequest { message, request_id },
                category: RequestErrorCategory::InvalidRequest,
                admission_reason: Some(reason),
            },
        );
    }
    let pool_name = pool_name_for_request(model_pools, request);
    match admission.try_acquire_request(pool_name) {
        Ok(guard) => Ok(guard),
        Err(rejection) => {
            let reason = rejection.reason;
            Err(
                ChatRejection {
                    error: rejection.into_app_error(request_id),
                    category: RequestErrorCategory::AdmissionRejected,
                    admission_reason: Some(reason),
                },
            )
        },
    }
}

} // verus!
