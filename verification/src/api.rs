//! Request and response shapes of the proxy's OpenAI-compatible
//! surface, with the request validation and the fixed response bodies
//! the handlers use. Marshaling to and from the wire lives in the
//! unverified shell; these are the plain values it hands in and takes
//! back. The request's sampling knobs are fixed-point integers here —
//! the shell converts the wire's fractional numbers at the boundary.

use vstd::prelude::*;
use vstd::string::StringExecFns;

use crate::engine::GenParams;
use crate::logits::{SamplingParams, PENALTY_DEFAULT, TEMP_MAX, TOP_P_ONE};

verus! {

/// One chat message.
pub struct ChatMessage {
    pub role: String,
    pub content: String,
}

/// A chat-completion request. `max_tokens` bounds the emitted tokens;
/// `temperature_milli` and `top_p_milli` are fixed-point out of 1000.
pub struct ChatCompletionRequest {
    pub model: String,
    pub messages: Vec<ChatMessage>,
    pub max_tokens: Option<usize>,
    pub temperature_milli: Option<u32>,
    pub top_p_milli: Option<u32>,
    pub stream: Option<bool>,
}

/// A chat-completion response.
pub struct ChatCompletionResponse {
    pub id: String,
    pub object: String,
    pub created: u64,
    pub model: String,
    pub choices: Vec<ChatChoice>,
    pub usage: Usage,
}

/// One completion choice of a response.
pub struct ChatChoice {
    pub index: u32,
    pub message: ChatMessage,
    pub finish_reason: String,
}

/// Token accounting of one completion.
pub struct Usage {
    pub prompt_tokens: usize,
    pub completion_tokens: usize,
    pub total_tokens: usize,
}

/// The model listing of the upstream service.
pub struct ModelsResponse {
    pub object: String,
    pub data: Vec<ModelInfo>,
}

/// One entry of the model listing.
pub struct ModelInfo {
    pub id: String,
    pub object: String,
    pub created: u64,
    pub owned_by: String,
}

/// An error body.
pub struct ErrorResponse {
    pub error: ErrorDetail,
}

/// The payload of an error body.
pub struct ErrorDetail {
    pub message: String,
    pub error_type: String,
    pub code: Option<String>,
}

/// The health report of the proxy.
pub struct HealthResponse {
    pub status: String,
    pub shimmy_url: String,
    pub shimmy_healthy: bool,
}

/// A sampling knob clamped into the range the sampler accepts.
pub open spec fn clamped_to(v: int, lo: int, hi: int) -> int {
    if v < lo {
        lo
    } else if v > hi {
        hi
    } else {
        v
    }
}

impl ChatCompletionRequest {
    /// A request is valid exactly when it carries at least one message.
    pub open spec fn spec_valid(self) -> bool {
        self.messages@.len() > 0
    }

    /// The engine parameters this request denotes: an absent
    /// temperature means greedy decoding, an absent nucleus threshold
    /// leaves the distribution whole, the repetition penalty is the
    /// service default, and every knob is clamped into the sampler's
    /// accepted range. The token bound is clamped by the engine's own
    /// constructor.
    pub fn gen_params(&self) -> (r: GenParams)
        ensures
            r.wf(),
            r.max_new_tokens == crate::engine::clamped_budget(
                match self.max_tokens {
                    Some(m) => m as int,
                    None => crate::engine::MAX_NEW_TOKENS as int,
                },
            ),
            r.min_length == crate::engine::MIN_LENGTH_DEFAULT,
            r.sampling.temperature_milli == (match self.temperature_milli {
                Some(t) => clamped_to(t as int, 0, TEMP_MAX as int),
                None => 0int,
            }),
            r.sampling.top_p_milli == (match self.top_p_milli {
                Some(p) => Some((clamped_to(p as int, 1, TOP_P_ONE as int)) as u32),
                None => None::<u32>,
            }),
            r.sampling.penalty_milli == PENALTY_DEFAULT,
    {
        let temperature: u32 = match self.temperature_milli {
            Some(t) => if t > TEMP_MAX {
                TEMP_MAX
            } else {
                t
            },
            None => 0,
        };
        let top_p: Option<u32> = match self.top_p_milli {
            Some(p) => if p < 1 {
                Some(1)
            } else if p > TOP_P_ONE {
                Some(TOP_P_ONE)
            } else {
                Some(p)
            },
            None => None,
        };
        let sampling = SamplingParams {
            temperature_milli: temperature,
            top_p_milli: top_p,
            penalty_milli: PENALTY_DEFAULT,
        };
        GenParams::from_request(self.max_tokens, None, sampling)
    }

    /// Validates the request: an empty message array is rejected with
    /// the invalid-request error body and a bad-request status.
    pub fn validate(&self) -> (r: Option<(u16, ErrorResponse)>)
        ensures
            self.spec_valid() <==> r is None,
            match r {
                Some(err) => {
                    &&& err.0 == 400
                    &&& err.1.error.message@ == "Messages array cannot be empty"@
                    &&& err.1.error.error_type@ == "invalid_request_error"@
                    &&& err.1.error.code matches Some(c) && c@ == "invalid_messages"@
                },
                None => true,
            },
    {
        if self.messages.len() == 0 {
            Some(
                (
                    400,
                    ErrorResponse {
                        error: ErrorDetail {
                            message: String::from_str("Messages array cannot be empty"),
                            error_type: String::from_str("invalid_request_error"),
                            code: Some(String::from_str("invalid_messages")),
                        },
                    },
                ),
            )
        } else {
            None
        }
    }
}

/// The error body a failed proxied chat completion is reported with.
pub fn backend_error_body(message: String) -> (r: ErrorResponse)
    ensures
        r.error.message == message,
        r.error.error_type@ == "backend_error"@,
        r.error.code matches Some(c) && c@ == "shimmy_error"@,
{
    ErrorResponse {
        error: ErrorDetail {
            message,
            error_type: String::from_str("backend_error"),
            code: Some(String::from_str("shimmy_error")),
        },
    }
}

/// The fixed error body of a failed model listing.
pub fn models_error_body() -> (r: ErrorResponse)
    ensures
        r.error.message@ == "Failed to get models from shimmy"@,
        r.error.error_type@ == "backend_error"@,
        r.error.code matches Some(c) && c@ == "shimmy_error"@,
{
    backend_error_body(String::from_str("Failed to get models from shimmy"))
}

/// The health report and its status code: healthy upstream means OK,
/// anything else a degraded service-unavailable.
pub fn health_report(shimmy_url: String, shimmy_healthy: bool) -> (r: (u16, HealthResponse))
    ensures
        r.0 == (if shimmy_healthy {
            200int
        } else {
            503int
        }),
        r.1.status@ == (if shimmy_healthy {
            "healthy"@
        } else {
            "degraded"@
        }),
        r.1.shimmy_url == shimmy_url,
        r.1.shimmy_healthy == shimmy_healthy,
{
    let status: u16 = if shimmy_healthy {
        200
    } else {
        503
    };
    let label = if shimmy_healthy {
        String::from_str("healthy")
    } else {
        String::from_str("degraded")
    };
    (status, HealthResponse { status: label, shimmy_url, shimmy_healthy })
}

} // verus!
