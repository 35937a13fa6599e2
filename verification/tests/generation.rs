//! End-to-end checks of the generation core: tokenizer round trips,
//! the decode loop on both backend variants, stop conditions, cache
//! lifecycle and the logits processor.

use seminstruct::backend::{CausalBackend, LogitTable, Seq2SeqBackend};
use seminstruct::engine::{generate_tokens, GenParams, ModelBackend, MAX_NEW_TOKENS};
use seminstruct::guard::SessionGuard;
use seminstruct::logits::{argmax, penalize, window_contains, LogitsProcessor, SamplingParams};
use seminstruct::tokenizer::{str_eq, Tokenizer};
use seminstruct::GenError;

/// The toy vocabulary: `{0: "<s>", 1: "a", 2: "</s>", 3: "b", 4: "c"}`,
/// with the sentinel tokens marked special.
fn toy_tokenizer() -> Tokenizer {
    let mut t = Tokenizer::new();
    t.push_word("<s>".to_string(), true);
    t.push_word("a".to_string(), false);
    t.push_word("</s>".to_string(), true);
    t.push_word("b".to_string(), false);
    t.push_word("c".to_string(), false);
    t
}

/// A score row of five entries favoring one token.
fn favoring(vocab: usize, favored: usize) -> Vec<i64> {
    let mut row = vec![0i64; vocab];
    row[favored] = 1000;
    row
}

/// A table whose steps favor id 1, then id 3, then id 2.
fn toy_table() -> LogitTable {
    let mut t = LogitTable::new(5);
    t.push_row(favoring(5, 1));
    t.push_row(favoring(5, 3));
    t.push_row(favoring(5, 2));
    t
}

fn greedy_params(max_new_tokens: usize) -> GenParams {
    GenParams { max_new_tokens, min_length: 20, sampling: SamplingParams::defaults() }
}

#[test]
fn round_trip_plain_text() {
    let tok = toy_tokenizer();
    let ids = tok.encode("a b c").expect("all words known");
    assert_eq!(ids, vec![1, 3, 4]);
    let text = tok.decode(&ids, true).expect("all ids valid");
    assert_eq!(text, "a b c");
}

#[test]
fn round_trip_normalizes_whitespace() {
    let tok = toy_tokenizer();
    let ids = tok.encode("  a   b  ").expect("all words known");
    assert_eq!(ids, vec![1, 3]);
    let text = tok.decode(&ids, true).expect("all ids valid");
    assert_eq!(text, "a b");
}

#[test]
fn encode_unknown_word_fails() {
    let tok = toy_tokenizer();
    assert_eq!(tok.encode("a z"), Err(GenError::Encoding));
}

#[test]
fn decode_invalid_id_fails() {
    let tok = toy_tokenizer();
    assert_eq!(tok.decode(&vec![1, 99], true), Err(GenError::Decoding));
}

#[test]
fn decode_strips_special_tokens() {
    let tok = toy_tokenizer();
    let text = tok.decode(&vec![0, 1, 3, 2], true).expect("valid ids");
    assert_eq!(text, "a b");
    let kept = tok.decode(&vec![0, 1, 3, 2], false).expect("valid ids");
    assert_eq!(kept, "<s> a b </s>");
}

#[test]
fn scenario_seq2seq_stops_on_eos() {
    // Stub scores favor id 1, then id 3, then the end-of-sequence id 2:
    // the output is [1, 3] decoded to "a b", well before the budget.
    let backend = Seq2SeqBackend { table: toy_table(), eos_token: 2, decoder_start: 0 };
    let mut model = ModelBackend::Seq2Seq(backend);
    let mut proc = LogitsProcessor::new();
    let toks = generate_tokens(&mut model, &mut proc, &vec![1], &greedy_params(100))
        .expect("prompt is valid");
    assert_eq!(toks, vec![1, 3]);
    let tok = toy_tokenizer();
    assert_eq!(tok.decode(&toks, true).expect("valid ids"), "a b");
}

#[test]
fn scenario_causal_stops_on_eos() {
    let backend =
        CausalBackend { table: toy_table(), eos_token: 2, cache: seminstruct::KvCache::new() };
    let mut model = ModelBackend::Causal(backend);
    let mut proc = LogitsProcessor::new();
    let toks = generate_tokens(&mut model, &mut proc, &vec![1, 3], &greedy_params(100))
        .expect("prompt is valid");
    assert_eq!(toks, vec![1, 3]);
}

#[test]
fn scenario_zero_budget_yields_empty_output() {
    let tok = toy_tokenizer();
    let backend = Seq2SeqBackend { table: toy_table(), eos_token: 2, decoder_start: 0 };
    let mut guard = SessionGuard::new(ModelBackend::Seq2Seq(backend), tok);
    let out = guard.generate("a b c", &greedy_params(0)).expect("valid prompt");
    assert_eq!(out, "");
}

#[test]
fn budget_bounds_output_when_no_eos() {
    // No step ever favors the end-of-sequence id: the loop must stop at
    // the requested budget.
    let mut table = LogitTable::new(5);
    for _ in 0..10 {
        table.push_row(favoring(5, 4));
    }
    let backend = Seq2SeqBackend { table, eos_token: 2, decoder_start: 0 };
    let mut model = ModelBackend::Seq2Seq(backend);
    let mut proc = LogitsProcessor::new();
    let toks = generate_tokens(&mut model, &mut proc, &vec![1], &greedy_params(5))
        .expect("prompt is valid");
    assert_eq!(toks.len(), 5);
    assert!(toks.iter().all(|t| *t == 4));
}

#[test]
fn budget_is_clamped_to_hard_ceiling() {
    // Far more tokens requested than the ceiling allows; every step
    // favors a non-terminal id, so the clamp is what stops the loop.
    let table = LogitTable::new(5);
    let backend = Seq2SeqBackend { table, eos_token: 2, decoder_start: 0 };
    let mut model = ModelBackend::Seq2Seq(backend);
    let mut proc = LogitsProcessor::new();
    let toks = generate_tokens(&mut model, &mut proc, &vec![1], &greedy_params(100000))
        .expect("prompt is valid");
    assert_eq!(toks.len(), MAX_NEW_TOKENS);
}

#[test]
fn greedy_calls_are_deterministic() {
    let make_guard = || {
        let backend = Seq2SeqBackend { table: toy_table(), eos_token: 2, decoder_start: 0 };
        SessionGuard::new(ModelBackend::Seq2Seq(backend), toy_tokenizer())
    };
    let mut g1 = make_guard();
    let first = g1.generate("a b", &greedy_params(50)).expect("valid prompt");
    let again = g1.generate("a b", &greedy_params(50)).expect("valid prompt");
    let mut g2 = make_guard();
    let fresh = g2.generate("a b", &greedy_params(50)).expect("valid prompt");
    assert_eq!(first, again);
    assert_eq!(first, fresh);
}

#[test]
fn cache_is_rebuilt_between_calls() {
    // Call 1 fills the cache; call 2 must behave exactly as on a fresh
    // backend, and the cache observed between calls shows the fill.
    let mut table = LogitTable::new(5);
    for _ in 0..50 {
        table.push_row(favoring(5, 4));
    }
    let make_backend = || CausalBackend {
        table: {
            let mut t = LogitTable::new(5);
            for _ in 0..50 {
                t.push_row(favoring(5, 4));
            }
            t
        },
        eos_token: 2,
        cache: seminstruct::KvCache::new(),
    };
    let backend = CausalBackend { table, eos_token: 2, cache: seminstruct::KvCache::new() };
    let mut guard = SessionGuard::new(ModelBackend::Causal(backend), toy_tokenizer());
    let first = guard.generate("a b c", &greedy_params(50)).expect("valid prompt");
    let cache_after_first = guard.cache_len().expect("causal backend keeps a cache");
    assert!(cache_after_first > 0);

    let second = guard.generate("a", &greedy_params(50)).expect("valid prompt");
    let mut fresh_guard = SessionGuard::new(ModelBackend::Causal(make_backend()), toy_tokenizer());
    let fresh = fresh_guard.generate("a", &greedy_params(50)).expect("valid prompt");
    assert_eq!(second, fresh);
    assert_eq!(first, fresh_guard.generate("a b c", &greedy_params(50)).expect("valid prompt"));
}

#[test]
fn stale_cache_is_a_forward_pass_error() {
    // Feeding a backend whose cache was not rebuilt at the declared
    // offset is a shape mismatch and must fail loudly.
    let mut backend =
        CausalBackend { table: toy_table(), eos_token: 2, cache: seminstruct::KvCache::new() };
    backend.forward(&vec![1, 3], 0).expect("first pass is well-shaped");
    assert_eq!(backend.forward(&vec![4], 0), Err(GenError::ForwardPass));
    assert_eq!(backend.cache_len(), 2);
}

#[test]
fn out_of_vocabulary_prompt_is_a_forward_pass_error() {
    let backend =
        CausalBackend { table: toy_table(), eos_token: 2, cache: seminstruct::KvCache::new() };
    let mut model = ModelBackend::Causal(backend);
    let mut proc = LogitsProcessor::new();
    assert_eq!(
        generate_tokens(&mut model, &mut proc, &vec![1, 77], &greedy_params(10)),
        Err(GenError::ForwardPass)
    );
}

#[test]
fn repetition_penalty_lowers_positive_scores() {
    // Token 4 sits in the trailing window with a positive score: its
    // penalized score must be strictly below the raw one.
    let logits: Vec<i64> = vec![500, -400, 0, 250, 800];
    let history: Vec<u32> = vec![4, 0, 1];
    let penalized = penalize(&logits, &history, 1100);
    // Exact fixed-point values: positive scores divide by 1.1, negative
    // ones multiply by it, both truncating toward zero.
    assert_eq!(penalized[4], 800 * 1000 / 1100);
    assert_eq!(penalized[0], 500 * 1000 / 1100);
    assert_eq!(penalized[1], -(400 * 1100 / 1000));
    assert!(penalized[4] < logits[4]);
    assert!(penalized[0] < logits[0]);
    // A negative penalized score moves further down, never up.
    assert!(penalized[1] <= logits[1]);
    // Tokens outside the window keep their raw scores.
    assert_eq!(penalized[3], logits[3]);
    assert_eq!(penalized[2], 0);
}

#[test]
fn penalty_window_looks_back_sixty_four_tokens() {
    let mut history: Vec<u32> = Vec::new();
    history.push(7);
    for _ in 0..64 {
        history.push(1);
    }
    // Token 7 fell out of the 64-token window; token 1 is inside.
    assert!(!window_contains(&history, 7));
    assert!(window_contains(&history, 1));
}

#[test]
fn argmax_takes_first_maximum() {
    assert_eq!(argmax(&vec![3, 9, 9, 1]), 1);
    assert_eq!(argmax(&vec![-5]), 0);
    assert_eq!(argmax(&vec![0, 0, 0]), 0);
}

#[test]
fn penalty_can_change_the_greedy_choice() {
    // Two steps favoring the same id: with a strong penalty the second
    // step falls back to the runner-up.
    let mut table = LogitTable::new(3);
    let mut row = vec![0i64; 3];
    row[1] = 1000;
    row[0] = 999;
    table.push_row(row.clone());
    table.push_row(row);
    let backend = Seq2SeqBackend { table, eos_token: 2, decoder_start: 0 };
    let mut model = ModelBackend::Seq2Seq(backend);
    let mut proc = LogitsProcessor::new();
    let params = GenParams {
        max_new_tokens: 2,
        min_length: 20,
        sampling: SamplingParams { temperature_milli: 0, top_p_milli: None, penalty_milli: 2000 },
    };
    let toks = generate_tokens(&mut model, &mut proc, &vec![0], &params).expect("valid prompt");
    assert_eq!(toks, vec![1, 0]);
}

#[test]
fn sampling_with_fixed_seed_is_reproducible_across_processors() {
    // Every processor is seeded at construction with the same constant,
    // so two fresh processors draw identical tokens.
    let logits: Vec<i64> = vec![900, 800, 700, 600];
    let history: Vec<u32> = Vec::new();
    let params =
        SamplingParams { temperature_milli: 800, top_p_milli: None, penalty_milli: 1100 };
    let mut p1 = LogitsProcessor::new();
    let mut p2 = LogitsProcessor::new();
    let draws1: Vec<u32> = (0..8).map(|_| p1.select_token(&logits, &history, &params)).collect();
    let draws2: Vec<u32> = (0..8).map(|_| p2.select_token(&logits, &history, &params)).collect();
    assert_eq!(draws1, draws2);
    assert!(draws1.iter().all(|t| (*t as usize) < logits.len()));
}

#[test]
fn tight_nucleus_reduces_sampling_to_the_top_token() {
    // One dominant score and a tight nucleus: the eligible set is the
    // arg-max alone, so every draw returns it.
    let logits: Vec<i64> = vec![0, 1_000_000, 0];
    let history: Vec<u32> = Vec::new();
    let params =
        SamplingParams { temperature_milli: 1000, top_p_milli: Some(1), penalty_milli: 1000 };
    let mut proc = LogitsProcessor::new();
    for _ in 0..16 {
        assert_eq!(proc.select_token(&logits, &history, &params), 1);
    }
}

#[test]
fn greedy_selection_ignores_the_random_source() {
    let logits: Vec<i64> = vec![5, 10, 3];
    let history: Vec<u32> = Vec::new();
    let greedy = SamplingParams::defaults();
    let mut proc = LogitsProcessor::new();
    assert_eq!(proc.select_token(&logits, &history, &greedy), 1);
    assert_eq!(proc.select_token(&logits, &history, &greedy), 1);
}

#[test]
fn str_eq_compares_character_for_character() {
    assert!(str_eq("abc", "abc"));
    assert!(!str_eq("abc", "abd"));
    assert!(!str_eq("abc", "ab"));
    assert!(str_eq("", ""));
}

#[test]
fn gen_error_messages() {
    assert_eq!(GenError::Encoding.message(), "encoding failed");
    assert_eq!(GenError::Decoding.message(), "decoding failed");
    assert_eq!(GenError::ForwardPass.message(), "forward pass failed");
}

#[test]
fn params_from_request_applies_defaults_and_clamp() {
    let sampling = SamplingParams::defaults();
    let p = GenParams::from_request(None, None, sampling);
    assert_eq!(p.max_new_tokens, 100);
    assert_eq!(p.min_length, 20);
    let q = GenParams::from_request(Some(1000), Some(5), sampling);
    assert_eq!(q.max_new_tokens, 100);
    assert_eq!(q.min_length, 5);
    let r = GenParams::from_request(Some(7), None, sampling);
    assert_eq!(r.max_new_tokens, 7);
}
