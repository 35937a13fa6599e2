//! Verified core of a text-generation service: a tokenizer adapter, two
//! model-backend variants (encoder-decoder and incremental causal), a
//! logits processor with repetition penalty and sampling, the generation
//! loop that coordinates them, and the pure decision logic of the HTTP
//! proxy that fronts the service (configuration, retry policy, error
//! taxonomy and response shapes).

use vstd::prelude::*;

pub mod api;
pub mod backend;
pub mod client;
pub mod config;
pub mod engine;
pub mod errors;
pub mod guard;
pub mod logits;
pub mod tokenizer;

pub use api::{
    ChatChoice, ChatCompletionRequest, ChatCompletionResponse, ChatMessage, ErrorDetail,
    ErrorResponse, HealthResponse, ModelInfo, ModelsResponse, Usage,
};
pub use backend::{CausalBackend, EncoderState, KvCache, LogitTable, Seq2SeqBackend};
pub use client::{AttemptOutcome, RetryDecision, ShimmyError};
pub use config::Config;
pub use engine::{GenParams, ModelBackend};
pub use guard::SessionGuard;
pub use errors::GenError;
pub use logits::{LogitsProcessor, SamplingParams};
pub use tokenizer::Tokenizer;

verus! {

} // verus!
