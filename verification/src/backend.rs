//! Model backends: the capability of producing a next-token score
//! vector from context. Two variants share one table-driven score
//! model: an encoder-decoder backend that encodes its input once and
//! re-reads the whole decoder history at every step, and a causal
//! backend that consumes one new token per step against a growing
//! key/value cache. A stale cache — one not rebuilt since the previous
//! request — makes the expected shapes inconsistent and is rejected as
//! a forward-pass failure, never repaired silently.

use vstd::prelude::*;

use crate::errors::GenError;
use crate::logits::{LOGIT_LIMIT, MAX_VOCAB};

verus! {

/// A score row of all zeros, for steps beyond the table.
pub open spec fn zero_row(vocab: nat) -> Seq<i64> {
    Seq::new(vocab, |i: int| 0i64)
}

/// The score vector a table-driven model emits at decode step `k`.
pub open spec fn table_logits(rows: Seq<Seq<i64>>, vocab: nat, k: int) -> Seq<i64> {
    if 0 <= k < rows.len() {
        rows[k]
    } else {
        zero_row(vocab)
    }
}

/// A row is one score per vocabulary entry, each within the limit.
pub open spec fn row_ok(row: Seq<i64>, vocab: nat) -> bool {
    &&& row.len() == vocab
    &&& forall|i: int| 0 <= i < row.len() ==> -LOGIT_LIMIT <= #[trigger] row[i] <= LOGIT_LIMIT
}

/// The deterministic score model both backend variants read: row `k`
/// holds the scores emitted at decode step `k`, and steps beyond the
/// table see a uniform all-zero row.
pub struct LogitTable {
    pub rows: Vec<Vec<i64>>,
    pub vocab_size: usize,
}

impl LogitTable {
    pub open spec fn spec_rows(self) -> Seq<Seq<i64>> {
        self.rows@.map_values(|r: Vec<i64>| r@)
    }

    pub open spec fn wf(self) -> bool {
        &&& 0 < self.vocab_size <= MAX_VOCAB
        &&& forall|k: int|
            0 <= k < self.spec_rows().len() ==> row_ok(#[trigger] self.spec_rows()[k], self.vocab_size as nat)
    }

    /// The scores this model emits at decode step `k`.
    pub open spec fn logits_at(self, k: int) -> Seq<i64> {
        table_logits(self.spec_rows(), self.vocab_size as nat, k)
    }

    /// An empty table: every step emits the all-zero row.
    pub fn new(vocab_size: usize) -> (r: LogitTable)
        requires
            0 < vocab_size <= MAX_VOCAB,
        ensures
            r.wf(),
            r.vocab_size == vocab_size,
            r.spec_rows().len() == 0,
    {
        LogitTable { rows: Vec::new(), vocab_size }
    }

    /// Appends the score row of the next decode step.
    pub fn push_row(&mut self, row: Vec<i64>)
        requires
            old(self).wf(),
            row_ok(row@, old(self).vocab_size as nat),
        ensures
            final(self).wf(),
            final(self).vocab_size == old(self).vocab_size,
            final(self).spec_rows() == old(self).spec_rows().push(row@),
    {
        self.rows.push(row);
        proof {
            assert(self.spec_rows() =~= old(self).spec_rows().push(row@));
        }
    }

    /// The scores of decode step `k`, as a fresh vector.
    pub fn row_at(&self, k: usize) -> (r: Vec<i64>)
        requires
            self.wf(),
        ensures
            r@ == self.logits_at(k as int),
            row_ok(r@, self.vocab_size as nat),
    {
        let n = self.rows.len();
        let mut out: Vec<i64> = Vec::new();
        if k < n {
            let m = self.vocab_size;
            let mut i: usize = 0;
            while i < m
                invariant
                    self.wf(),
                    k < self.spec_rows().len(),
                    m == self.vocab_size,
                    0 <= i <= m,
                    out@ =~= self.spec_rows()[k as int].take(i as int),
                decreases m - i,
            {
                out.push(self.rows[k][i]);
                i = i + 1;
            }
            proof {
                assert(self.spec_rows()[k as int].take(m as int) =~= self.spec_rows()[k as int]);
            }
        } else {
            let m = self.vocab_size;
            let mut i: usize = 0;
            while i < m
                invariant
                    m == self.vocab_size,
                    0 <= i <= m,
                    out@ =~= zero_row(m as nat).take(i as int),
                decreases m - i,
            {
                out.push(0i64);
                i = i + 1;
            }
            proof {
                assert(zero_row(m as nat).take(m as int) =~= zero_row(m as nat));
            }
        }
        out
    }
}

/// Whether every token of `toks` is a valid id of a vocabulary of size
/// `vocab`.
pub open spec fn tokens_in_vocab(toks: Seq<u32>, vocab: nat) -> bool {
    forall|i: int| 0 <= i < toks.len() ==> (#[trigger] toks[i] as nat) < vocab
}

/// Checks every token id against the vocabulary size.
pub fn check_tokens(toks: &Vec<u32>, vocab: usize) -> (r: bool)
    ensures
        r == tokens_in_vocab(toks@, vocab as nat),
{
    let n = toks.len();
    let mut i: usize = 0;
    while i < n
        invariant
            n == toks@.len(),
            0 <= i <= n,
            forall|k: int| 0 <= k < i ==> (#[trigger] toks@[k] as nat) < vocab,
        decreases n - i,
    {
        if toks[i] as usize >= vocab {
            return false;
        }
        i = i + 1;
    }
    true
}

/// What the encoder-decoder backend keeps of its encoded input: the
/// encoder is run once per request and its state is read-only during
/// decoding.
pub struct EncoderState {
    pub source_len: usize,
}

/// Encoder-decoder backend: `encode` digests the input once, then every
/// decode step re-reads the entire decoder token history (incremental
/// caching is disabled for this variant — a deliberate simplicity
/// tradeoff), so step `k` sees a history of length `k + 1`.
pub struct Seq2SeqBackend {
    pub table: LogitTable,
    pub eos_token: u32,
    pub decoder_start: u32,
}

impl Seq2SeqBackend {
    pub open spec fn wf(self) -> bool {
        &&& self.table.wf()
        &&& (self.eos_token as nat) < self.table.vocab_size
        &&& (self.decoder_start as nat) < self.table.vocab_size
    }

    /// Runs the encoder over the input tokens. Fails with a
    /// forward-pass error exactly when some input id is outside the
    /// vocabulary (an impossible embedding lookup).
    pub fn encode(&self, input: &Vec<u32>) -> (r: Result<EncoderState, GenError>)
        requires
            self.wf(),
        ensures
            match r {
                Ok(st) => tokens_in_vocab(input@, self.table.vocab_size as nat) && st.source_len
                    == input@.len(),
                Err(e) => e is ForwardPass && !tokens_in_vocab(
                    input@,
                    self.table.vocab_size as nat,
                ),
            },
    {
        if check_tokens(input, self.table.vocab_size) {
            Ok(EncoderState { source_len: input.len() })
        } else {
            Err(GenError::ForwardPass)
        }
    }

    /// One decoder step over the whole decoder history so far. The
    /// scores are those of step `history.len() - 1`. Fails with a
    /// forward-pass error exactly when the history is empty or holds an
    /// id outside the vocabulary.
    pub fn decode_step(&self, history: &Vec<u32>, _enc: &EncoderState) -> (r: Result<
        Vec<i64>,
        GenError,
    >)
        requires
            self.wf(),
        ensures
            match r {
                Ok(logits) => history@.len() > 0 && tokens_in_vocab(
                    history@,
                    self.table.vocab_size as nat,
                ) && logits@ == self.table.logits_at(history@.len() - 1),
                Err(e) => e is ForwardPass && (history@.len() == 0 || !tokens_in_vocab(
                    history@,
                    self.table.vocab_size as nat,
                )),
            },
    {
        if history.len() == 0 {
            return Err(GenError::ForwardPass);
        }
        if !check_tokens(history, self.table.vocab_size) {
            return Err(GenError::ForwardPass);
        }
        Ok(self.table.row_at(history.len() - 1))
    }
}

/// Per-layer key/value state of one causal generation call, abstracted
/// to what it determines: the tokens consumed so far and the number of
/// forward steps taken. It belongs to exactly one backend and must be
/// rebuilt — not merely cleared — before every independent call.
pub struct KvCache {
    pub entries: Vec<u32>,
    pub steps: usize,
}

impl KvCache {
    pub open spec fn is_empty(self) -> bool {
        self.entries@.len() == 0 && self.steps == 0
    }

    /// A freshly built, empty cache.
    pub fn new() -> (r: KvCache)
        ensures
            r.is_empty(),
    {
        KvCache { entries: Vec::new(), steps: 0 }
    }
}

/// Decoder-only backend with an incremental cache: step 0 consumes the
/// whole prompt, every later step exactly the one most recently
/// produced token at the position the cache has grown to.
pub struct CausalBackend {
    pub table: LogitTable,
    pub eos_token: u32,
    pub cache: KvCache,
}

impl CausalBackend {
    pub open spec fn wf(self) -> bool {
        &&& self.table.wf()
        &&& (self.eos_token as nat) < self.table.vocab_size
    }

    /// The shapes of one forward call line up: the position offset is
    /// exactly where the cache ends, the first call sees the full
    /// context and later calls one token, and every id is in the
    /// vocabulary.
    pub open spec fn forward_ok(self, context: Seq<u32>, position_offset: int) -> bool {
        &&& position_offset == self.cache.entries@.len()
        &&& (position_offset == 0 || context.len() == 1)
        &&& tokens_in_vocab(context, self.table.vocab_size as nat)
    }

    /// Rebuilds the cache: the start-of-request reset every independent
    /// generation call must perform.
    pub fn reset_cache(&mut self)
        ensures
            final(self).cache.is_empty(),
            final(self).table == old(self).table,
            final(self).eos_token == old(self).eos_token,
    {
        self.cache = KvCache::new();
    }

    /// How many token positions the cache currently holds.
    pub fn cache_len(&self) -> (r: usize)
        ensures
            r == self.cache.entries@.len(),
    {
        self.cache.entries.len()
    }

    /// One forward pass: consumes `context` at `position_offset` and
    /// returns the scores of the next position. The scores are those of
    /// decode step `cache.steps` — a pure function of how far this
    /// request has advanced. Fails with a forward-pass error exactly
    /// when the shapes are inconsistent (see `forward_ok`), leaving the
    /// cache untouched.
    pub fn forward(&mut self, context: &Vec<u32>, position_offset: usize) -> (r: Result<
        Vec<i64>,
        GenError,
    >)
        requires
            old(self).wf(),
            old(self).cache.entries@.len() + context@.len() <= usize::MAX,
            old(self).cache.steps + 1 <= usize::MAX,
        ensures
            final(self).wf(),
            final(self).table == old(self).table,
            final(self).eos_token == old(self).eos_token,
            match r {
                Ok(logits) => {
                    &&& old(self).forward_ok(context@, position_offset as int)
                    &&& logits@ == old(self).table.logits_at(old(self).cache.steps as int)
                    &&& final(self).cache.entries@ == old(self).cache.entries@ + context@
                    &&& final(self).cache.steps == old(self).cache.steps + 1
                },
                Err(e) => {
                    &&& e is ForwardPass
                    &&& !old(self).forward_ok(context@, position_offset as int)
                    &&& *final(self) == *old(self)
                },
            },
    {
        if position_offset != self.cache.entries.len() {
            return Err(GenError::ForwardPass);
        }
        if position_offset != 0 && context.len() != 1 {
            return Err(GenError::ForwardPass);
        }
        if !check_tokens(context, self.table.vocab_size) {
            return Err(GenError::ForwardPass);
        }
        let logits = self.table.row_at(self.cache.steps);
        let n = context.len();
        let mut i: usize = 0;
        while i < n
            invariant
                n == context@.len(),
                0 <= i <= n,
                self.cache.entries@.len() + (n - i) <= usize::MAX,
                self.cache.entries@ == old(self).cache.entries@ + context@.take(i as int),
                self.table == old(self).table,
                self.eos_token == old(self).eos_token,
                self.cache.steps == old(self).cache.steps,
            decreases n - i,
        {
            self.cache.entries.push(context[i]);
            proof {
                assert(old(self).cache.entries@ + context@.take(i + 1) =~= (old(
                    self,
                ).cache.entries@ + context@.take(i as int)).push(context@[i as int]));
            }
            i = i + 1;
        }
        proof {
            assert(context@.take(n as int) =~= context@);
        }
        self.cache.steps = self.cache.steps + 1;
        Ok(logits)
    }
}

} // verus!
