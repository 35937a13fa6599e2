//! Session guard: the single owner of one model backend, its tokenizer
//! and its logits processor. Exactly one generation call can run
//! against the backend at a time — exclusive access is what `&mut self`
//! means — and the unverified shell that serves concurrent requests
//! keeps that exclusion across tasks by wrapping the guard in a mutual
//! exclusion primitive, released on every exit path by scope alone.
//! Acquisition only blocks, it never fails.

use vstd::prelude::*;

use crate::backend::tokens_in_vocab;
use crate::engine::{clamped_budget, GenParams, ModelBackend, PROMPT_LIMIT};
use crate::errors::GenError;
use crate::logits::LogitsProcessor;
use crate::tokenizer::{
    encode_words, join_words, kept_words, lemma_encode_words_ok, lemma_split_count, split_spaces,
    Tokenizer,
};

verus! {

/// The full text-to-text generation pipeline: encode the prompt, run
/// the decode loop, decode the output tokens with special tokens
/// stripped. The decoded output is words joined by single spaces, so
/// it carries no surrounding whitespace. Fails with the encoding error
/// exactly when some word of the text is not in the vocabulary; with a
/// tokenizer covering the model's vocabulary no other failure exists.
pub fn run_generation(
    backend: &mut ModelBackend,
    tokenizer: &Tokenizer,
    processor: &mut LogitsProcessor,
    text: &str,
    params: &GenParams,
) -> (r: Result<String, GenError>)
    requires
        old(backend).wf(),
        tokenizer.wf(),
        tokenizer.spec_vocab_size() == old(backend).spec_table().vocab_size,
        params.wf(),
        text@.len() <= PROMPT_LIMIT,
    ensures
        final(backend).wf(),
        final(backend).spec_table() == old(backend).spec_table(),
        final(backend).spec_eos() == old(backend).spec_eos(),
        match encode_words(tokenizer.spec_words(), split_spaces(text@)) {
            Some(ptoks) => {
                &&& r is Ok
                &&& params.sampling.temperature_milli == 0 ==> {
                    &&& r->Ok_0@ == join_words(
                        kept_words(
                            tokenizer.spec_words(),
                            tokenizer.spec_special(),
                            old(backend).spec_outcome(
                                params.sampling.penalty_milli as int,
                                clamped_budget(params.max_new_tokens as int) as nat,
                            ),
                            true,
                        ),
                    )
                    &&& *final(processor) == *old(processor)
                }
            },
            None => r == Err::<String, GenError>(GenError::Encoding),
        },
{
    let prompt = match tokenizer.encode(text) {
        Ok(toks) => toks,
        Err(e) => {
            return Err(e);
        }
    };
    proof {
        lemma_encode_words_ok(tokenizer.spec_words(), split_spaces(text@), prompt@);
        lemma_split_count(text@);
    }
    let toks = match crate::engine::generate_tokens(backend, processor, &prompt, params) {
        Ok(toks) => toks,
        Err(e) => {
            proof {
                assert(tokens_in_vocab(prompt@, old(backend).spec_table().vocab_size as nat));
                assert(false);
            }
            return Err(e);
        }
    };
    proof {
        tokenizer.lemma_wf();
    }
    match tokenizer.decode(&toks, true) {
        Ok(out) => Ok(out),
        Err(e) => {
            proof {
                assert(tokens_in_vocab(toks@, tokenizer.spec_vocab_size()));
                assert(false);
            }
            Err(e)
        }
    }
}

/// Owner of the one long-lived backend instance and its companions,
/// built at process start and torn down at shutdown.
pub struct SessionGuard {
    backend: ModelBackend,
    tokenizer: Tokenizer,
    processor: LogitsProcessor,
}

impl SessionGuard {
    pub closed spec fn spec_backend(self) -> ModelBackend {
        self.backend
    }

    pub closed spec fn spec_tokenizer(self) -> Tokenizer {
        self.tokenizer
    }

    pub closed spec fn spec_processor(self) -> LogitsProcessor {
        self.processor
    }

    /// The backend is sound and the tokenizer speaks exactly its
    /// vocabulary.
    pub open spec fn wf(self) -> bool {
        &&& self.spec_backend().wf()
        &&& self.spec_tokenizer().wf()
        &&& self.spec_tokenizer().spec_vocab_size() == self.spec_backend().spec_table().vocab_size
    }

    /// Takes ownership of the backend and tokenizer; the processor is
    /// constructed here, seeded once for the guard's whole lifetime.
    pub fn new(backend: ModelBackend, tokenizer: Tokenizer) -> (r: SessionGuard)
        requires
            backend.wf(),
            tokenizer.wf(),
            tokenizer.spec_vocab_size() == backend.spec_table().vocab_size,
        ensures
            r.wf(),
            r.spec_backend() == backend,
            r.spec_tokenizer() == tokenizer,
    {
        SessionGuard { backend, tokenizer, processor: LogitsProcessor::new() }
    }

    /// One serialized generation call against the owned backend. The
    /// exclusive borrow is the serialization: no second call can
    /// interleave forward passes or cache mutation with this one.
    pub fn generate(&mut self, text: &str, params: &GenParams) -> (r: Result<String, GenError>)
        requires
            old(self).wf(),
            params.wf(),
            text@.len() <= PROMPT_LIMIT,
        ensures
            final(self).wf(),
            final(self).spec_tokenizer() == old(self).spec_tokenizer(),
            final(self).spec_backend().spec_table() == old(self).spec_backend().spec_table(),
            final(self).spec_backend().spec_eos() == old(self).spec_backend().spec_eos(),
            match encode_words(
                old(self).spec_tokenizer().spec_words(),
                split_spaces(text@),
            ) {
                Some(ptoks) => {
                    &&& r is Ok
                    &&& params.sampling.temperature_milli == 0 ==> {
                        &&& r->Ok_0@ == join_words(
                            kept_words(
                                old(self).spec_tokenizer().spec_words(),
                                old(self).spec_tokenizer().spec_special(),
                                old(self).spec_backend().spec_outcome(
                                    params.sampling.penalty_milli as int,
                                    clamped_budget(params.max_new_tokens as int) as nat,
                                ),
                                true,
                            ),
                        )
                        &&& final(self).spec_processor() == old(self).spec_processor()
                    }
                },
                None => r == Err::<String, GenError>(GenError::Encoding),
            },
    {
        run_generation(&mut self.backend, &self.tokenizer, &mut self.processor, text, params)
    }

    /// How many token positions the causal cache currently holds, if
    /// this backend keeps one: instrumentation for checking the cache
    /// lifecycle from outside.
    pub fn cache_len(&self) -> (r: Option<usize>)
        ensures
            match self.spec_backend() {
                ModelBackend::Causal(b) => r == Some(b.cache.entries@.len() as usize),
                ModelBackend::Seq2Seq(_) => r is None,
            },
    {
        match &self.backend {
            ModelBackend::Causal(b) => Some(b.cache.entries.len()),
            ModelBackend::Seq2Seq(_) => None,
        }
    }
}

} // verus!
