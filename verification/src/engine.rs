//! Generation engine: the decode loop that turns a prompt into a token
//! sequence. Each iteration builds the model input the backend variant
//! expects, obtains a score vector, routes it through the logits
//! processor, appends the chosen token and checks the stop conditions:
//! drawing the end-of-sequence token (which is not emitted) or
//! exhausting the clamped new-token budget. The causal cache is rebuilt
//! at the start of every call, so no state leaks between requests.

use vstd::prelude::*;

use crate::backend::{
    table_logits, tokens_in_vocab, CausalBackend, LogitTable, Seq2SeqBackend,
};
use crate::errors::GenError;
use crate::logits::{LogitsProcessor, SamplingParams, MAX_VOCAB};

verus! {

/// Hard ceiling on the number of new tokens of one call, whatever the
/// request asked for.
pub const MAX_NEW_TOKENS: usize = 100;

/// Default minimum-length hint of a request.
pub const MIN_LENGTH_DEFAULT: usize = 20;

/// Largest prompt the engine accepts; callers truncate their text far
/// below this before it reaches the core.
pub const PROMPT_LIMIT: usize = 1_000_000_000;

/// Parameters of one generation request.
#[derive(Debug, Clone, Copy, PartialEq, Eq, Structural)]
pub struct GenParams {
    /// Upper bound on emitted tokens; the engine clamps it to the hard
    /// ceiling.
    pub max_new_tokens: usize,
    /// Minimum-length hint: accepted and carried, but deliberately not
    /// enforced by the decode loop.
    pub min_length: usize,
    /// Sampling configuration handed to the logits processor.
    pub sampling: SamplingParams,
}

/// The token budget a request is actually granted.
pub open spec fn clamped_budget(max_new_tokens: int) -> int {
    if max_new_tokens > MAX_NEW_TOKENS {
        MAX_NEW_TOKENS as int
    } else {
        max_new_tokens
    }
}

impl GenParams {
    pub open spec fn wf(self) -> bool {
        self.sampling.wf()
    }

    /// The parameters a raw request denotes: a missing length bound
    /// defaults to the hard ceiling and is clamped to it either way;
    /// the minimum-length hint defaults but stays inert.
    pub fn from_request(
        max_length: Option<usize>,
        min_length: Option<usize>,
        sampling: SamplingParams,
    ) -> (r: GenParams)
        requires
            sampling.wf(),
        ensures
            r.wf(),
            r.max_new_tokens == clamped_budget(
                match max_length {
                    Some(m) => m as int,
                    None => MAX_NEW_TOKENS as int,
                },
            ),
            r.min_length == match min_length {
                Some(m) => m as int,
                None => MIN_LENGTH_DEFAULT as int,
            },
            r.sampling == sampling,
    {
        let max_new = match max_length {
            Some(m) => if m > MAX_NEW_TOKENS {
                MAX_NEW_TOKENS
            } else {
                m
            },
            None => MAX_NEW_TOKENS,
        };
        let min = match min_length {
            Some(m) => m,
            None => MIN_LENGTH_DEFAULT,
        };
        GenParams { max_new_tokens: max_new, min_length: min, sampling }
    }
}

/// The token sequence greedy decoding emits against a score table:
/// step `k` penalizes row `k` over the trailing window of what was
/// emitted before and takes the arg-max; drawing the end-of-sequence
/// token stops the trace without emitting it.
pub open spec fn greedy_trace(
    rows: Seq<Seq<i64>>,
    vocab: nat,
    eos: u32,
    pen: int,
    steps: nat,
) -> Seq<u32>
    decreases steps,
{
    if steps == 0 {
        Seq::empty()
    } else {
        let pre = greedy_trace(rows, vocab, eos, pen, (steps - 1) as nat);
        if pre.len() < steps - 1 {
            pre
        } else {
            let t = LogitsProcessor::greedy_token(
                table_logits(rows, vocab, steps - 1),
                pre,
                pen,
            );
            if t == eos as int {
                pre
            } else {
                pre.push(t as u32)
            }
        }
    }
}

/// Every step of the table emits one score per vocabulary entry,
/// within the score limit.
pub open spec fn rows_wf(rows: Seq<Seq<i64>>, vocab: nat) -> bool {
    &&& 0 < vocab <= MAX_VOCAB
    &&& forall|k: int| 0 <= k < rows.len() ==> crate::backend::row_ok(#[trigger] rows[k], vocab)
}

/// The scores of any step are well-formed.
proof fn lemma_table_logits_ok(rows: Seq<Seq<i64>>, vocab: nat, k: int)
    requires
        rows_wf(rows, vocab),
    ensures
        crate::backend::row_ok(table_logits(rows, vocab, k), vocab),
{
}

/// Termination and stop conditions of greedy decoding: the trace emits
/// at most `steps` tokens, never the end-of-sequence token, only valid
/// ids, and a trace shorter than its budget stopped exactly because its
/// next pick would have been the end-of-sequence token.
pub proof fn lemma_termination(rows: Seq<Seq<i64>>, vocab: nat, eos: u32, pen: int, steps: nat)
    requires
        rows_wf(rows, vocab),
    ensures
        greedy_trace(rows, vocab, eos, pen, steps).len() <= steps,
        tokens_in_vocab(greedy_trace(rows, vocab, eos, pen, steps), vocab),
        forall|j: int|
            0 <= j < greedy_trace(rows, vocab, eos, pen, steps).len() ==> #[trigger] greedy_trace(
                rows,
                vocab,
                eos,
                pen,
                steps,
            )[j] != eos,
        greedy_trace(rows, vocab, eos, pen, steps).len() < steps ==> LogitsProcessor::greedy_token(
            table_logits(rows, vocab, greedy_trace(rows, vocab, eos, pen, steps).len() as int),
            greedy_trace(rows, vocab, eos, pen, steps),
            pen,
        ) == eos as int,
    decreases steps,
{
    if steps > 0 {
        lemma_termination(rows, vocab, eos, pen, (steps - 1) as nat);
        let pre = greedy_trace(rows, vocab, eos, pen, (steps - 1) as nat);
        if pre.len() == steps - 1 {
            let logits = table_logits(rows, vocab, steps - 1);
            lemma_table_logits_ok(rows, vocab, steps - 1);
            let penalized = crate::logits::spec_penalize(logits, pre, pen);
            assert(penalized.len() == vocab);
            crate::logits::lemma_spec_argmax(penalized);
            let t = LogitsProcessor::greedy_token(logits, pre, pen);
            assert(0 <= t < vocab);
            if t != eos as int {
                let cur = pre.push(t as u32);
                assert(forall|j: int| 0 <= j < pre.len() ==> cur[j] == #[trigger] pre[j]);
                assert(cur[cur.len() - 1] == t as u32);
                assert((t as u32) != eos);
            }
        }
    }
}

/// Once a trace has stopped, longer budgets leave it unchanged.
pub proof fn lemma_trace_stable(
    rows: Seq<Seq<i64>>,
    vocab: nat,
    eos: u32,
    pen: int,
    k: nat,
    m: nat,
)
    requires
        k <= m,
        greedy_trace(rows, vocab, eos, pen, k).len() < k,
    ensures
        greedy_trace(rows, vocab, eos, pen, m) == greedy_trace(rows, vocab, eos, pen, k),
    decreases m,
{
    if m > k {
        lemma_trace_stable(rows, vocab, eos, pen, k, (m - 1) as nat);
    }
}

/// Greedy determinism: any two outputs pinned to the greedy trace of
/// identical model, parameters and budget are the same sequence. This
/// is what makes repeated greedy calls with an identical prompt and a
/// rebuilt cache reproduce each other token for token.
pub proof fn lemma_greedy_determinism(
    rows: Seq<Seq<i64>>,
    vocab: nat,
    eos: u32,
    pen: int,
    steps: nat,
    out1: Seq<u32>,
    out2: Seq<u32>,
)
    requires
        out1 == greedy_trace(rows, vocab, eos, pen, steps),
        out2 == greedy_trace(rows, vocab, eos, pen, steps),
    ensures
        out1 == out2,
{
}

/// The greedy outcome a causal backend owes a request, whatever cache
/// state it carried in.
pub open spec fn causal_outcome(b: CausalBackend, pen: int, budget: nat) -> Seq<u32> {
    greedy_trace(b.table.spec_rows(), b.table.vocab_size as nat, b.eos_token, pen, budget)
}

/// Cache isolation: two causal backends sharing one model owe the same
/// outcome however their caches differ, because every generation call
/// rebuilds the cache before its first forward pass. A later call
/// therefore behaves exactly as it would on a freshly constructed
/// backend.
pub proof fn lemma_cache_isolation(b1: CausalBackend, b2: CausalBackend, pen: int, budget: nat)
    requires
        b1.table == b2.table,
        b1.eos_token == b2.eos_token,
    ensures
        causal_outcome(b1, pen, budget) == causal_outcome(b2, pen, budget),
{
}

/// A fresh copy of a token vector.
fn copy_tokens(v: &Vec<u32>) -> (r: Vec<u32>)
    ensures
        r@ == v@,
{
    let n = v.len();
    let mut out: Vec<u32> = Vec::new();
    let mut i: usize = 0;
    while i < n
        invariant
            n == v@.len(),
            0 <= i <= n,
            out@ =~= v@.take(i as int),
        decreases n - i,
    {
        out.push(v[i]);
        i = i + 1;
    }
    proof {
        assert(v@.take(n as int) =~= v@);
    }
    out
}

/// Runs the decode loop against a causal backend: the cache is rebuilt,
/// step 0 consumes the whole prompt, every later step the one token
/// just produced. Fails with a forward-pass error exactly when the
/// granted budget is positive and the prompt holds an id outside the
/// vocabulary (a zero budget never reaches the model); the
/// end-of-sequence token stops the loop without being emitted.
pub fn generate_causal(
    backend: &mut CausalBackend,
    processor: &mut LogitsProcessor,
    prompt: &Vec<u32>,
    params: &GenParams,
) -> (r: Result<Vec<u32>, GenError>)
    requires
        old(backend).wf(),
        params.wf(),
        prompt@.len() <= PROMPT_LIMIT,
    ensures
        final(backend).wf(),
        final(backend).table == old(backend).table,
        final(backend).eos_token == old(backend).eos_token,
        match r {
            Ok(toks) => {
                &&& clamped_budget(params.max_new_tokens as int) > 0 ==> tokens_in_vocab(
                    prompt@,
                    old(backend).table.vocab_size as nat,
                )
                &&& toks@.len() <= clamped_budget(params.max_new_tokens as int)
                &&& tokens_in_vocab(toks@, old(backend).table.vocab_size as nat)
                &&& forall|j: int|
                    0 <= j < toks@.len() ==> #[trigger] toks@[j] != old(backend).eos_token
                &&& params.sampling.temperature_milli == 0 ==> toks@ == causal_outcome(
                    *old(backend),
                    params.sampling.penalty_milli as int,
                    clamped_budget(params.max_new_tokens as int) as nat,
                ) && *final(processor) == *old(processor)
            },
            Err(e) => {
                &&& e is ForwardPass
                &&& !tokens_in_vocab(prompt@, old(backend).table.vocab_size as nat)
                &&& clamped_budget(params.max_new_tokens as int) > 0
            },
        },
{
    backend.reset_cache();
    let ghost rows = backend.table.spec_rows();
    let ghost vocab = backend.table.vocab_size as nat;
    let eos = backend.eos_token;
    let ghost pen = params.sampling.penalty_milli as int;
    let budget: usize = if params.max_new_tokens > MAX_NEW_TOKENS {
        MAX_NEW_TOKENS
    } else {
        params.max_new_tokens
    };
    let mut generated: Vec<u32> = Vec::new();
    let mut step: usize = 0;
    let mut last: u32 = 0;
    while step < budget
        invariant
            backend.wf(),
            backend.table == old(backend).table,
            backend.eos_token == old(backend).eos_token,
            rows == backend.table.spec_rows(),
            vocab == backend.table.vocab_size as nat,
            eos == backend.eos_token,
            pen == params.sampling.penalty_milli as int,
            params.wf(),
            budget == clamped_budget(params.max_new_tokens as int),
            budget <= MAX_NEW_TOKENS,
            prompt@.len() <= PROMPT_LIMIT,
            0 <= step <= budget,
            generated@.len() == step,
            tokens_in_vocab(generated@, vocab),
            forall|j: int| 0 <= j < generated@.len() ==> #[trigger] generated@[j] != eos,
            step > 0 ==> tokens_in_vocab(prompt@, vocab),
            step > 0 ==> last == generated@[generated@.len() - 1],
            backend.cache.steps == step,
            backend.cache.entries@.len() == if step == 0 {
                0int
            } else {
                prompt@.len() + step - 1
            },
            params.sampling.temperature_milli == 0 ==> generated@ == greedy_trace(
                rows,
                vocab,
                eos,
                pen,
                step as nat,
            ) && *processor == *old(processor),
        decreases budget - step,
    {
        let context: Vec<u32> = if step == 0 {
            copy_tokens(prompt)
        } else {
            let mut c: Vec<u32> = Vec::new();
            c.push(last);
            c
        };
        let offset = backend.cache_len();
        let logits = match backend.forward(&context, offset) {
            Ok(l) => l,
            Err(e) => {
                proof {
                    assert(step == 0);
                    assert(!tokens_in_vocab(prompt@, vocab));
                }
                return Err(e);
            }
        };
        proof {
            lemma_table_logits_ok(rows, vocab, step as int);
        }
        let t = processor.select_token(&logits, &generated, &params.sampling);
        if t == eos {
            proof {
                if params.sampling.temperature_milli == 0 {
                    assert(greedy_trace(rows, vocab, eos, pen, (step + 1) as nat) == generated@);
                    lemma_trace_stable(rows, vocab, eos, pen, (step + 1) as nat, budget as nat);
                }
            }
            return Ok(generated);
        }
        generated.push(t);
        last = t;
        proof {
            if params.sampling.temperature_milli == 0 {
                assert(generated@ == greedy_trace(rows, vocab, eos, pen, (step + 1) as nat));
            }
        }
        step = step + 1;
    }
    Ok(generated)
}

/// Runs the decode loop against an encoder-decoder backend: the input
/// is encoded once, the decoder history starts with the decoder-start
/// token and is re-read whole at every step, and the start token is
/// excluded from the output. Fails with a forward-pass error exactly
/// when the prompt holds an id outside the vocabulary.
pub fn generate_seq2seq(
    backend: &Seq2SeqBackend,
    processor: &mut LogitsProcessor,
    prompt: &Vec<u32>,
    params: &GenParams,
) -> (r: Result<Vec<u32>, GenError>)
    requires
        backend.wf(),
        params.wf(),
        prompt@.len() <= PROMPT_LIMIT,
    ensures
        match r {
            Ok(toks) => {
                &&& tokens_in_vocab(prompt@, backend.table.vocab_size as nat)
                &&& toks@.len() <= clamped_budget(params.max_new_tokens as int)
                &&& tokens_in_vocab(toks@, backend.table.vocab_size as nat)
                &&& forall|j: int|
                    0 <= j < toks@.len() ==> #[trigger] toks@[j] != backend.eos_token
                &&& params.sampling.temperature_milli == 0 ==> toks@ == greedy_trace(
                    backend.table.spec_rows(),
                    backend.table.vocab_size as nat,
                    backend.eos_token,
                    params.sampling.penalty_milli as int,
                    clamped_budget(params.max_new_tokens as int) as nat,
                ) && *final(processor) == *old(processor)
            },
            Err(e) => {
                &&& e is ForwardPass
                &&& !tokens_in_vocab(prompt@, backend.table.vocab_size as nat)
            },
        },
{
    let enc = match backend.encode(prompt) {
        Ok(st) => st,
        Err(e) => {
            return Err(e);
        }
    };
    let ghost rows = backend.table.spec_rows();
    let ghost vocab = backend.table.vocab_size as nat;
    let eos = backend.eos_token;
    let ghost pen = params.sampling.penalty_milli as int;
    let budget: usize = if params.max_new_tokens > MAX_NEW_TOKENS {
        MAX_NEW_TOKENS
    } else {
        params.max_new_tokens
    };
    let mut decoder: Vec<u32> = Vec::new();
    decoder.push(backend.decoder_start);
    let mut generated: Vec<u32> = Vec::new();
    let mut step: usize = 0;
    while step < budget
        invariant
            backend.wf(),
            rows == backend.table.spec_rows(),
            vocab == backend.table.vocab_size as nat,
            eos == backend.eos_token,
            pen == params.sampling.penalty_milli as int,
            params.wf(),
            budget == clamped_budget(params.max_new_tokens as int),
            budget <= MAX_NEW_TOKENS,
            tokens_in_vocab(prompt@, vocab),
            0 <= step <= budget,
            generated@.len() == step,
            decoder@.len() == step + 1,
            decoder@[0] == backend.decoder_start,
            decoder@ == seq![backend.decoder_start] + generated@,
            tokens_in_vocab(generated@, vocab),
            tokens_in_vocab(decoder@, vocab),
            forall|j: int| 0 <= j < generated@.len() ==> #[trigger] generated@[j] != eos,
            params.sampling.temperature_milli == 0 ==> generated@ == greedy_trace(
                rows,
                vocab,
                eos,
                pen,
                step as nat,
            ) && *processor == *old(processor),
        decreases budget - step,
    {
        let logits = match backend.decode_step(&decoder, &enc) {
            Ok(l) => l,
            Err(e) => {
                proof {
                    assert(false);
                }
                return Err(e);
            }
        };
        proof {
            lemma_table_logits_ok(rows, vocab, step as int);
        }
        let t = processor.select_token(&logits, &generated, &params.sampling);
        if t == eos {
            proof {
                if params.sampling.temperature_milli == 0 {
                    assert(greedy_trace(rows, vocab, eos, pen, (step + 1) as nat) == generated@);
                    lemma_trace_stable(rows, vocab, eos, pen, (step + 1) as nat, budget as nat);
                }
            }
            return Ok(generated);
        }
        generated.push(t);
        decoder.push(t);
        proof {
            assert(decoder@ =~= seq![backend.decoder_start] + generated@);
            if params.sampling.temperature_milli == 0 {
                assert(generated@ == greedy_trace(rows, vocab, eos, pen, (step + 1) as nat));
            }
        }
        step = step + 1;
    }
    Ok(generated)
}

/// One model backend: the engine treats both architectures through the
/// same capability and owes them the same outcome.
pub enum ModelBackend {
    Seq2Seq(Seq2SeqBackend),
    Causal(CausalBackend),
}

impl ModelBackend {
    pub open spec fn wf(self) -> bool {
        match self {
            ModelBackend::Seq2Seq(b) => b.wf(),
            ModelBackend::Causal(b) => b.wf(),
        }
    }

    pub open spec fn spec_table(self) -> LogitTable {
        match self {
            ModelBackend::Seq2Seq(b) => b.table,
            ModelBackend::Causal(b) => b.table,
        }
    }

    pub open spec fn spec_eos(self) -> u32 {
        match self {
            ModelBackend::Seq2Seq(b) => b.eos_token,
            ModelBackend::Causal(b) => b.eos_token,
        }
    }

    /// The greedy outcome this backend owes a request. Both variants
    /// owe the very same trace: the architectures differ in state
    /// management, not in behaviour.
    pub open spec fn spec_outcome(self, pen: int, budget: nat) -> Seq<u32> {
        greedy_trace(
            self.spec_table().spec_rows(),
            self.spec_table().vocab_size as nat,
            self.spec_eos(),
            pen,
            budget,
        )
    }
}

/// Runs the decode loop against either backend variant.
pub fn generate_tokens(
    backend: &mut ModelBackend,
    processor: &mut LogitsProcessor,
    prompt: &Vec<u32>,
    params: &GenParams,
) -> (r: Result<Vec<u32>, GenError>)
    requires
        old(backend).wf(),
        params.wf(),
        prompt@.len() <= PROMPT_LIMIT,
    ensures
        final(backend).wf(),
        final(backend).spec_table() == old(backend).spec_table(),
        final(backend).spec_eos() == old(backend).spec_eos(),
        match r {
            Ok(toks) => {
                &&& clamped_budget(params.max_new_tokens as int) > 0 ==> tokens_in_vocab(
                    prompt@,
                    old(backend).spec_table().vocab_size as nat,
                )
                &&& toks@.len() <= clamped_budget(params.max_new_tokens as int)
                &&& tokens_in_vocab(toks@, old(backend).spec_table().vocab_size as nat)
                &&& forall|j: int|
                    0 <= j < toks@.len() ==> #[trigger] toks@[j] != old(backend).spec_eos()
                &&& params.sampling.temperature_milli == 0 ==> toks@ == old(
                    backend,
                ).spec_outcome(
                    params.sampling.penalty_milli as int,
                    clamped_budget(params.max_new_tokens as int) as nat,
                ) && *final(processor) == *old(processor)
            },
            Err(e) => {
                &&& e is ForwardPass
                &&& !tokens_in_vocab(prompt@, old(backend).spec_table().vocab_size as nat)
            },
        },
{
    match backend {
        ModelBackend::Seq2Seq(b) => generate_seq2seq(b, processor, prompt, params),
        ModelBackend::Causal(b) => generate_causal(b, processor, prompt, params),
    }
}

} // verus!
