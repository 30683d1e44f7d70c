//! Gateway errors and their public rendering (status, code, message).
use uuid::Uuid;
use vstd::prelude::*;

use crate::providers::provider::ProviderError;

verus! {

#[verifier::external_type_specification]
#[verifier::external_body]
pub struct ExUuid(Uuid);

/// An error answered to an API caller.
#[derive(Debug)]
pub enum AppError {
    InvalidRequest { message: String, request_id: Option<Uuid> },
    Unauthorized { message: String, request_id: Option<Uuid> },
    Forbidden { message: String, request_id: Option<Uuid> },
    GatewayRateLimited { request_id: Option<Uuid>, retry_after_seconds: u64 },
    AdmissionRejected { message: String, request_id: Option<Uuid>, retry_after_seconds: u64 },
    NoProviderAvailable { request_id: Option<Uuid> },
    ProviderRateLimited { request_id: Option<Uuid> },
    ProviderTimeout { request_id: Option<Uuid> },
    ProviderFailure { request_id: Option<Uuid> },
    Internal { request_id: Option<Uuid> },
}

/// HTTP status of each error.
pub open spec fn status_of(e: AppError) -> u16 {
    match e {
        AppError::InvalidRequest { .. } => 400,
        AppError::Unauthorized { .. } => 401,
        AppError::Forbidden { .. } => 403,
        AppError::GatewayRateLimited { .. } => 429,
        AppError::AdmissionRejected { .. } => 429,
        AppError::NoProviderAvailable { .. } => 503,
        AppError::ProviderRateLimited { .. } => 429,
        AppError::ProviderTimeout { .. } => 504,
        AppError::ProviderFailure { .. } => 502,
        AppError::Internal { .. } => 500,
    }
}

/// Machine-readable code of each error.
pub open spec fn code_of(e: AppError) -> Seq<char> {
    match e {
        AppError::InvalidRequest { .. } => "invalid_request"@,
        AppError::Unauthorized { .. } => "unauthorized"@,
        AppError::Forbidden { .. } => "forbidden"@,
        AppError::GatewayRateLimited { .. } => "gateway_rate_limited"@,
        AppError::AdmissionRejected { .. } => "admission_rejected"@,
        AppError::NoProviderAvailable { .. } => "no_provider_available"@,
        AppError::ProviderRateLimited { .. } => "provider_rate_limited"@,
        AppError::ProviderTimeout { .. } => "provider_timeout"@,
        AppError::ProviderFailure { .. } => "provider_failure"@,
        AppError::Internal { .. } => "internal"@,
    }
}

/// Message shown to the caller for each error.
pub open spec fn public_message_of(e: AppError) -> Seq<char> {
    match e {
        AppError::InvalidRequest { message, .. } => message@,
        AppError::Unauthorized { message, .. } => message@,
        AppError::Forbidden { message, .. } => message@,
        AppError::GatewayRateLimited { .. } => "request rate limit exceeded, retry later"@,
        AppError::AdmissionRejected { message, .. } => message@,
        AppError::NoProviderAvailable { .. } => "no provider is available for this request"@,
        AppError::ProviderRateLimited { .. } => "provider rate limited this request"@,
        AppError::ProviderTimeout { .. } => "provider timed out while handling this request"@,
        AppError::ProviderFailure { .. } => "provider failed to process this request"@,
        AppError::Internal { .. } => "an internal error occurred"@,
    }
}

/// The request id carried by each error.
pub open spec fn request_id_of(e: AppError) -> Option<Uuid> {
    match e {
        AppError::InvalidRequest { request_id, .. } => request_id,
        AppError::Unauthorized { request_id, .. } => request_id,
        AppError::Forbidden { request_id, .. } => request_id,
        AppError::GatewayRateLimited { request_id, .. } => request_id,
        AppError::AdmissionRejected { request_id, .. } => request_id,
        AppError::NoProviderAvailable { request_id } => request_id,
        AppError::ProviderRateLimited { request_id } => request_id,
        AppError::ProviderTimeout { request_id } => request_id,
        AppError::ProviderFailure { request_id } => request_id,
        AppError::Internal { request_id } => request_id,
    }
}

impl AppError {
    /// HTTP status code.
    pub fn status_code(&self) -> (s: u16)
        ensures
            s == status_of(*self),
    {
        match self {
            AppError::InvalidRequest { .. } => 400,
            AppError::Unauthorized { .. } => 401,
            AppError::Forbidden { .. } => 403,
            AppError::GatewayRateLimited { .. } => 429,
            AppError::AdmissionRejected { .. } => 429,
            AppError::NoProviderAvailable { .. } => 503,
            AppError::ProviderRateLimited { .. } => 429,
            AppError::ProviderTimeout { .. } => 504,
            AppError::ProviderFailure { .. } => 502,
            AppError::Internal { .. } => 500,
        }
    }

    /// Machine-readable error code.
    pub fn code(&self) -> (c: &'static str)
        ensures
            c@ == code_of(*self),
    {
        match self {
            AppError::InvalidRequest { .. } => "invalid_request",
            AppError::Unauthorized { .. } => "unauthorized",
            AppError::Forbidden { .. } => "forbidden",
            AppError::GatewayRateLimited { .. } => "gateway_rate_limited",
            AppError::AdmissionRejected { .. } => "admission_rejected",
            AppError::NoProviderAvailable { .. } => "no_provider_available",
            AppError::ProviderRateLimited { .. } => "provider_rate_limited",
            AppError::ProviderTimeout { .. } => "provider_timeout",
            AppError::ProviderFailure { .. } => "provider_failure",
            AppError::Internal { .. } => "internal",
        }
    }

    /// The request id the error refers to.
    pub fn request_id(&self) -> (r: Option<Uuid>)
        ensures
            r == request_id_of(*self),
    {
        match self {
            AppError::InvalidRequest { request_id, .. } => *request_id,
            AppError::Unauthorized { request_id, .. } => *request_id,
            AppError::Forbidden { request_id, .. } => *request_id,
            AppError::GatewayRateLimited { request_id, .. } => *request_id,
            AppError::AdmissionRejected { request_id, .. } => *request_id,
            AppError::NoProviderAvailable { request_id } => *request_id,
            AppError::ProviderRateLimited { request_id } => *request_id,
            AppError::ProviderTimeout { request_id } => *request_id,
            AppError::ProviderFailure { request_id } => *request_id,
            AppError::Internal { request_id } => *request_id,
        }
    }

    /// Seconds after which a rate-limited or refused caller may retry (at least one).
    pub fn retry_after_seconds(&self) -> (r: Option<u64>)
        ensures
            r == match *self {
                AppError::GatewayRateLimited { retry_after_seconds, .. } => Some(
                    if retry_after_seconds >= 1 { retry_after_seconds } else { 1 },
                ),
                AppError::AdmissionRejected { retry_after_seconds, .. } => Some(
                    if retry_after_seconds >= 1 { retry_after_seconds } else { 1 },
                ),
                _ => None,
            },
    {
        match self {
            AppError::GatewayRateLimited { retry_after_seconds, .. } => Some(
                if *retry_after_seconds >= 1 { *retry_after_seconds } else { 1 },
            ),
            AppError::AdmissionRejected { retry_after_seconds, .. } => Some(
                if *retry_after_seconds >= 1 { *retry_after_seconds } else { 1 },
            ),
            _ => None,
        }
    }

    /// The message shown to the caller.
    pub fn public_message(&self) -> (m: String)
        ensures
            m@ == public_message_of(*self),
    {
        match self {
            AppError::InvalidRequest { message, .. } => message.clone(),
            AppError::Unauthorized { message, .. } => message.clone(),
            AppError::Forbidden { message, .. } => message.clone(),
            AppError::GatewayRateLimited { .. } => "request rate limit exceeded, retry later".to_string(),
            AppError::AdmissionRejected { message, .. } => message.clone(),
            AppError::NoProviderAvailable { .. } => "no provider is available for this request".to_string(),
            AppError::ProviderRateLimited { .. } => "provider rate limited this request".to_string(),
            AppError::ProviderTimeout { .. } => "provider timed out while handling this request".to_string(),
            AppError::ProviderFailure { .. } => "provider failed to process this request".to_string(),
            AppError::Internal { .. } => "an internal error occurred".to_string(),
        }
    }

    /// The caller-facing error for a provider failure.
    pub fn from_provider_error(error: ProviderError, request_id: Option<Uuid>) -> (e: Self)
        ensures
            e == match error {
                ProviderError::RateLimited => AppError::ProviderRateLimited { request_id },
                ProviderError::Timeout => AppError::ProviderTimeout { request_id },
                _ => AppError::ProviderFailure { request_id },
            },
    {
        match error {
            ProviderError::RateLimited => AppError::ProviderRateLimited { request_id },
            ProviderError::Timeout => AppError::ProviderTimeout { request_id },
            ProviderError::AuthenticationFailed | ProviderError::ProviderUnavailable
            | ProviderError::ProviderBadResponse => AppError::ProviderFailure { request_id },
        }
    }
}

} // verus!
