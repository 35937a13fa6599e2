//! Logits processor: turns one dense score vector into the next token.
//! A repetition penalty is applied over the trailing window of already
//! generated tokens, then either the arg-max token is taken (greedy,
//! when the temperature is zero) or one token is drawn from a
//! temperature-scaled, optionally nucleus-truncated distribution.
//!
//! Scores are fixed-point integers: 1000 score units are one logit.
//! The stochastic path weights token `i` by `2^((s_i - s_max)/T)` in
//! fixed point and draws from the weights with the processor's own
//! pseudo-random generator, which is seeded once at construction (not
//! per request), so sampled runs are reproducible across restarts.

use vstd::prelude::*;
use vstd::arithmetic::power2::pow2;
use vstd::bits::lemma_u64_shr_is_div;

verus! {

/// How many trailing generated tokens the repetition penalty looks at.
pub const PENALTY_WINDOW: usize = 64;

/// Largest magnitude of a raw model score.
pub const LOGIT_LIMIT: i64 = 1_000_000_000;

/// Largest magnitude of a penalized score.
pub const PENALIZED_LIMIT: i64 = 1_000_000_000_000;

/// Penalty factor of exactly one: no suppression.
pub const PENALTY_ONE: u32 = 1000;

/// Default penalty factor (1.1 in fixed point).
pub const PENALTY_DEFAULT: u32 = 1100;

/// Largest accepted penalty factor.
pub const PENALTY_MAX: u32 = 1_000_000;

/// Largest accepted temperature (1000.0 in fixed point).
pub const TEMP_MAX: u32 = 1_000_000;

/// A nucleus threshold of one: the whole distribution.
pub const TOP_P_ONE: u32 = 1000;

/// Largest vocabulary the sampler accepts.
pub const MAX_VOCAB: usize = 0x4000_0000;

/// Weight of the highest-scored token.
pub const WEIGHT_ONE: u64 = 0x1_0000_0000;

/// Multiplier of the linear-congruential generator.
pub const RNG_MULT: u64 = 6364136223846793005;

/// Increment of the linear-congruential generator.
pub const RNG_INC: u64 = 1442695040888963407;

/// Seed given to every processor at construction.
pub const RNG_SEED: u64 = 0x5eed5eed5eed5eed;

/// Sampling parameters of one generation request.
#[derive(Debug, Clone, Copy, PartialEq, Eq, Structural)]
pub struct SamplingParams {
    /// Temperature in fixed point; zero selects greedy decoding.
    pub temperature_milli: u32,
    /// Nucleus threshold in fixed point, out of 1000, if configured.
    pub top_p_milli: Option<u32>,
    /// Repetition penalty factor in fixed point; 1000 is no penalty.
    pub penalty_milli: u32,
}

impl SamplingParams {
    pub open spec fn wf(self) -> bool {
        &&& PENALTY_ONE <= self.penalty_milli <= PENALTY_MAX
        &&& self.temperature_milli <= TEMP_MAX
        &&& match self.top_p_milli {
            Some(p) => 1 <= p <= TOP_P_ONE,
            None => true,
        }
    }

    /// The service defaults: greedy decoding with the default penalty.
    pub fn defaults() -> (r: SamplingParams)
        ensures
            r.wf(),
            r.temperature_milli == 0,
            r.top_p_milli is None,
            r.penalty_milli == PENALTY_DEFAULT,
    {
        SamplingParams {
            temperature_milli: 0,
            top_p_milli: None,
            penalty_milli: PENALTY_DEFAULT,
        }
    }
}

/// Start of the trailing penalty window in a history of length `len`.
pub open spec fn window_start(len: int) -> int {
    if len > PENALTY_WINDOW {
        len - PENALTY_WINDOW
    } else {
        0
    }
}

/// Whether token `t` occurs in the trailing window of `hist`.
pub open spec fn in_window(hist: Seq<u32>, t: u32) -> bool {
    exists|j: int| window_start(hist.len() as int) <= j < hist.len() && hist[j] == t
}

/// A score after the repetition penalty: positive scores are divided by
/// the factor, negative ones multiplied, so the score always moves
/// toward suppression whichever sign it has.
pub open spec fn penalized_score(s: int, pen: int) -> int {
    if s > 0 {
        s * 1000 / pen
    } else {
        -((-s) * pen / 1000)
    }
}

/// The scores after penalizing every token of the trailing window.
pub open spec fn spec_penalize(logits: Seq<i64>, hist: Seq<u32>, pen: int) -> Seq<i64> {
    Seq::new(
        logits.len(),
        |i: int|
            if in_window(hist, i as u32) {
                penalized_score(logits[i] as int, pen) as i64
            } else {
                logits[i]
            },
    )
}

/// Index of the first occurrence of the maximal score.
pub open spec fn spec_argmax(s: Seq<i64>) -> int
    decreases s.len(),
{
    if s.len() <= 1 {
        0
    } else {
        let p = spec_argmax(s.drop_last());
        if s.last() > s[p] {
            s.len() - 1
        } else {
            p
        }
    }
}

/// `i` is the first index attaining the maximum of `s`.
pub open spec fn is_argmax(s: Seq<i64>, i: int) -> bool {
    &&& 0 <= i < s.len()
    &&& forall|j: int| 0 <= j < s.len() ==> s[j] <= s[i]
    &&& forall|j: int| 0 <= j < i ==> s[j] < s[i]
}

pub proof fn lemma_spec_argmax(s: Seq<i64>)
    requires
        s.len() > 0,
    ensures
        is_argmax(s, spec_argmax(s)),
    decreases s.len(),
{
    if s.len() > 1 {
        lemma_spec_argmax(s.drop_last());
        let p = spec_argmax(s.drop_last());
        assert(forall|j: int|
            0 <= j < s.len() - 1 ==> s[j] == #[trigger] s.drop_last()[j]);
        assert(s.last() == s[s.len() - 1]);
        assert(0 <= p < s.len() - 1);
        assert forall|j: int| 0 <= j < s.len() - 1 implies s[j] <= s[p] by {
            assert(s.drop_last()[j] <= s.drop_last()[p]);
        }
        assert forall|j: int| 0 <= j < p implies s[j] < s[p] by {
            assert(s.drop_last()[j] < s.drop_last()[p]);
        }
        if s.last() > s[p] {
            assert(spec_argmax(s) == s.len() - 1);
        } else {
            assert(spec_argmax(s) == p);
        }
    }
}

/// Next state of the linear-congruential generator.
pub open spec fn next_state(s: u64) -> u64 {
    ((s * RNG_MULT + RNG_INC) % 0x1_0000_0000_0000_0000) as u64
}

/// Weight of a token whose penalized score lies `d` below the maximum,
/// at temperature `temp`: `2^(-d/temp)` in fixed point, approximated
/// with a linear interpolation between neighbouring powers of two.
pub open spec fn spec_weight(d: int, temp: int) -> int {
    let x = d * 1024 / temp;
    if x / 1024 >= 32 {
        0
    } else {
        (WEIGHT_ONE as int / pow2((x / 1024) as nat) as int) * (2048 - x % 1024) / 2048
    }
}

/// The weight vector of a penalized score vector.
pub open spec fn weight_seq(pen: Seq<i64>, temp: int) -> Seq<u64> {
    let mx = pen[spec_argmax(pen)] as int;
    Seq::new(pen.len(), |i: int| spec_weight(mx - pen[i], temp) as u64)
}

/// Sum of the weights at or above threshold `th`, from index `i` on.
pub open spec fn eligible_mass(ws: Seq<u64>, th: u64, i: int) -> int
    decreases ws.len() - i,
{
    if i < 0 || i >= ws.len() {
        0
    } else {
        (if ws[i] >= th {
            ws[i] as int
        } else {
            0
        }) + eligible_mass(ws, th, i + 1)
    }
}

/// Smallest mass a nucleus threshold of `top_p` (out of 1000) asks for.
pub open spec fn nucleus_target(top_p: int, total: int) -> int {
    (top_p * total + 999) / 1000
}

/// `th` is the nucleus cut: the largest weight value (zero, or present
/// among the weights) whose eligible mass still reaches the target, so
/// the tokens weighing at least `th` are the smallest such suffix of
/// the weight order.
pub open spec fn is_theta(ws: Seq<u64>, target: int, th: u64) -> bool {
    &&& th == 0 || exists|i: int| 0 <= i < ws.len() && ws[i] == th
    &&& eligible_mass(ws, th, 0) >= target
    &&& forall|i: int|
        0 <= i < ws.len() && ws[i] > th ==> eligible_mass(ws, #[trigger] ws[i], 0) < target
}

/// The token a draw of `r` lands on: weights below `th` are skipped,
/// the others partition the interval `[0, mass)` in index order.
pub open spec fn pick_from(ws: Seq<u64>, th: u64, r: int, i: int) -> int
    decreases ws.len() - i,
{
    if i < 0 || i >= ws.len() {
        0
    } else if ws[i] >= th && r < ws[i] {
        i
    } else {
        pick_from(
            ws,
            th,
            r - (if ws[i] >= th {
                ws[i] as int
            } else {
                0
            }),
            i + 1,
        )
    }
}

/// The outcome of the stochastic path: from `logits`, `hist` and the
/// incoming generator state `rng`, token `t` is the one drawn.
pub open spec fn sampled_pick(
    logits: Seq<i64>,
    hist: Seq<u32>,
    params: SamplingParams,
    rng: u64,
    t: int,
) -> bool {
    let pen = spec_penalize(logits, hist, params.penalty_milli as int);
    let ws = weight_seq(pen, params.temperature_milli as int);
    exists|th: u64|
        {
            &&& match params.top_p_milli {
                Some(p) => is_theta(
                    ws,
                    nucleus_target(p as int, eligible_mass(ws, 0, 0)),
                    th,
                ),
                None => th == 1,
            }
            &&& t == pick_from(ws, th, next_state(rng) as int % eligible_mass(ws, th, 0), 0)
        }
}

/// The nucleus cut is unique.
pub proof fn lemma_theta_unique(ws: Seq<u64>, target: int, th1: u64, th2: u64)
    requires
        is_theta(ws, target, th1),
        is_theta(ws, target, th2),
    ensures
        th1 == th2,
{
    if th1 < th2 {
        assert(exists|i: int| 0 <= i < ws.len() && ws[i] == th2);
        let i = choose|i: int| 0 <= i < ws.len() && ws[i] == th2;
        assert(eligible_mass(ws, ws[i], 0) < target);
    } else if th2 < th1 {
        assert(exists|i: int| 0 <= i < ws.len() && ws[i] == th1);
        let i = choose|i: int| 0 <= i < ws.len() && ws[i] == th1;
        assert(eligible_mass(ws, ws[i], 0) < target);
    }
}

/// Two draws from the same state pick the same token.
pub proof fn lemma_sampled_pick_deterministic(
    logits: Seq<i64>,
    hist: Seq<u32>,
    params: SamplingParams,
    rng: u64,
    t1: int,
    t2: int,
)
    requires
        sampled_pick(logits, hist, params, rng, t1),
        sampled_pick(logits, hist, params, rng, t2),
    ensures
        t1 == t2,
{
    let pen = spec_penalize(logits, hist, params.penalty_milli as int);
    let ws = weight_seq(pen, params.temperature_milli as int);
    let th1 = choose|th: u64|
        {
            &&& match params.top_p_milli {
                Some(p) => is_theta(ws, nucleus_target(p as int, eligible_mass(ws, 0, 0)), th),
                None => th == 1,
            }
            &&& t1 == pick_from(ws, th, next_state(rng) as int % eligible_mass(ws, th, 0), 0)
        };
    let th2 = choose|th: u64|
        {
            &&& match params.top_p_milli {
                Some(p) => is_theta(ws, nucleus_target(p as int, eligible_mass(ws, 0, 0)), th),
                None => th == 1,
            }
            &&& t2 == pick_from(ws, th, next_state(rng) as int % eligible_mass(ws, th, 0), 0)
        };
    match params.top_p_milli {
        Some(p) => {
            lemma_theta_unique(ws, nucleus_target(p as int, eligible_mass(ws, 0, 0)), th1, th2);
        }
        None => {}
    }
}

/// The repetition penalty strictly lowers a positive score whenever the
/// factor exceeds one, and never raises the magnitude ordering the
/// wrong way for negative scores.
pub proof fn lemma_penalty_suppresses(s: int, pen: int)
    requires
        pen > 1000,
    ensures
        s > 0 ==> penalized_score(s, pen) < s,
        s < 0 ==> penalized_score(s, pen) <= s,
        s == 0 ==> penalized_score(s, pen) == 0,
{
    if s > 0 {
        assert(s * 1000 < s * pen) by (nonlinear_arith)
            requires
                s > 0,
                pen > 1000,
        ;
        assert(s * 1000 / pen < s) by (nonlinear_arith)
            requires
                s > 0,
                pen > 1000,
                s * 1000 < s * pen,
        ;
    } else if s < 0 {
        assert((-s) * 1000 <= (-s) * pen) by (nonlinear_arith)
            requires
                s < 0,
                pen > 1000,
        ;
        assert((-s) * pen / 1000 >= (-s)) by (nonlinear_arith)
            requires
                s < 0,
                pen > 1000,
        ;
    }
}

/// Repetition suppression: a token of the trailing window with a
/// positive raw score ends up with a strictly smaller score whenever
/// the penalty factor exceeds one; tokens outside the window keep
/// their raw scores.
pub proof fn lemma_repetition_suppression(logits: Seq<i64>, hist: Seq<u32>, t: int, pen: int)
    requires
        0 <= t < logits.len(),
        1000 < pen,
    ensures
        in_window(hist, t as u32) && logits[t] > 0 ==> spec_penalize(logits, hist, pen)[t]
            < logits[t],
        !in_window(hist, t as u32) ==> spec_penalize(logits, hist, pen)[t] == logits[t],
{
    if in_window(hist, t as u32) && logits[t] > 0 {
        let sc = logits[t] as int;
        lemma_penalty_suppresses(sc, pen);
        assert(sc * 1000 >= 0) by (nonlinear_arith)
            requires
                sc > 0,
        ;
        assert(sc * 1000 / pen >= 0) by (nonlinear_arith)
            requires
                sc * 1000 >= 0,
                pen > 0,
        ;
        assert(spec_penalize(logits, hist, pen)[t] == penalized_score(sc, pen) as i64);
        assert(0 <= penalized_score(sc, pen) < sc);
    }
}

/// Bound on a penalized score.
pub proof fn lemma_penalized_bound(s: int, pen: int)
    requires
        -LOGIT_LIMIT <= s <= LOGIT_LIMIT,
        PENALTY_ONE <= pen <= PENALTY_MAX,
    ensures
        -PENALIZED_LIMIT <= penalized_score(s, pen) <= PENALIZED_LIMIT,
        s > 0 ==> 0 <= penalized_score(s, pen) <= s,
        s <= 0 ==> penalized_score(s, pen) <= 0,
{
    if s > 0 {
        assert(s * 1000 <= s * pen) by (nonlinear_arith)
            requires
                s > 0,
                1000 <= pen,
        ;
        assert(0 <= s * 1000 / pen <= s) by (nonlinear_arith)
            requires
                s > 0,
                1000 <= pen,
                s * 1000 <= s * pen,
        ;
    } else {
        assert(0 <= (-s) * pen <= LOGIT_LIMIT * PENALTY_MAX) by (nonlinear_arith)
            requires
                -LOGIT_LIMIT <= s <= 0,
                1000 <= pen <= PENALTY_MAX,
        ;
        assert(0 <= (-s) * pen / 1000 <= PENALIZED_LIMIT) by (nonlinear_arith)
            requires
                0 <= (-s) * pen <= LOGIT_LIMIT * PENALTY_MAX,
        ;
    }
}

/// Whether token `t` occurs in the trailing penalty window of `hist`.
pub fn window_contains(hist: &Vec<u32>, t: u32) -> (r: bool)
    ensures
        r == in_window(hist@, t),
{
    let n = hist.len();
    let start: usize = if n > PENALTY_WINDOW {
        n - PENALTY_WINDOW
    } else {
        0
    };
    let mut j = start;
    while j < n
        invariant
            n == hist@.len(),
            start == window_start(n as int),
            start <= j <= n,
            forall|k: int| start <= k < j ==> hist@[k] != t,
        decreases n - j,
    {
        if hist[j] == t {
            return true;
        }
        j = j + 1;
    }
    false
}

/// Applies the repetition penalty to every token of the trailing
/// window, leaving all other scores untouched.
pub fn penalize(logits: &Vec<i64>, hist: &Vec<u32>, penalty_milli: u32) -> (r: Vec<i64>)
    requires
        logits@.len() <= MAX_VOCAB,
        PENALTY_ONE <= penalty_milli <= PENALTY_MAX,
        forall|i: int|
            0 <= i < logits@.len() ==> -LOGIT_LIMIT <= #[trigger] logits@[i] <= LOGIT_LIMIT,
    ensures
        r@ == spec_penalize(logits@, hist@, penalty_milli as int),
        r@.len() == logits@.len(),
        forall|i: int|
            0 <= i < r@.len() ==> -PENALIZED_LIMIT <= #[trigger] r@[i] <= PENALIZED_LIMIT,
{
    let n = logits.len();
    let mut out: Vec<i64> = Vec::new();
    let mut i: usize = 0;
    while i < n
        invariant
            n == logits@.len() <= MAX_VOCAB,
            PENALTY_ONE <= penalty_milli <= PENALTY_MAX,
            forall|k: int|
                0 <= k < logits@.len() ==> -LOGIT_LIMIT <= #[trigger] logits@[k] <= LOGIT_LIMIT,
            0 <= i <= n,
            out@.len() == i,
            forall|k: int|
                0 <= k < i ==> #[trigger] out@[k] == spec_penalize(
                    logits@,
                    hist@,
                    penalty_milli as int,
                )[k],
            forall|k: int|
                0 <= k < i ==> -PENALIZED_LIMIT <= #[trigger] out@[k] <= PENALIZED_LIMIT,
        decreases n - i,
    {
        let s = logits[i];
        let v: i64 = if window_contains(hist, i as u32) {
            proof {
                lemma_penalized_bound(s as int, penalty_milli as int);
            }
            if s > 0 {
                ((s as u64) * 1000 / (penalty_milli as u64)) as i64
            } else {
                -((((-s) as u64) * (penalty_milli as u64) / 1000) as i64)
            }
        } else {
            s
        };
        out.push(v);
        i = i + 1;
    }
    proof {
        assert(out@ =~= spec_penalize(logits@, hist@, penalty_milli as int));
    }
    out
}

/// First index attaining the maximal score.
pub fn argmax(s: &Vec<i64>) -> (r: usize)
    requires
        s@.len() > 0,
    ensures
        r == spec_argmax(s@),
        is_argmax(s@, r as int),
{
    let n = s.len();
    let mut best: usize = 0;
    let mut i: usize = 1;
    while i < n
        invariant
            n == s@.len(),
            1 <= i <= n,
            0 <= best < i,
            best == spec_argmax(s@.take(i as int)),
        decreases n - i,
    {
        proof {
            assert(s@.take(i + 1).drop_last() =~= s@.take(i as int));
            assert(s@.take(i + 1).last() == s@[i as int]);
        }
        if s[i] > s[best] {
            best = i;
        }
        i = i + 1;
    }
    proof {
        assert(s@.take(n as int) =~= s@);
        lemma_spec_argmax(s@);
    }
    best
}

/// Advances the linear-congruential generator.
fn rng_next(state: u64) -> (r: u64)
    ensures
        r == next_state(state),
{
    proof {
        assert((state as int) * (RNG_MULT as int) <= 0xFFFF_FFFF_FFFF_FFFF * 0xFFFF_FFFF_FFFF_FFFF)
            by (nonlinear_arith)
            requires
                0 <= state <= 0xFFFF_FFFF_FFFF_FFFFu64,
        ;
    }
    let wide: u128 = (state as u128) * (RNG_MULT as u128) + (RNG_INC as u128);
    (wide % 0x1_0000_0000_0000_0000u128) as u64
}

/// Mass of the weights at or above `th`, from `start` on.
fn eligible_mass_from(ws: &Vec<u64>, th: u64, start: usize) -> (r: u64)
    requires
        start <= ws@.len() <= MAX_VOCAB,
        forall|i: int| 0 <= i < ws@.len() ==> #[trigger] ws@[i] <= WEIGHT_ONE,
    ensures
        r == eligible_mass(ws@, th, start as int),
{
    proof {
        lemma_eligible_mass_bound(ws@, th, start as int);
    }
    let n = ws.len();
    let mut sum: u64 = 0;
    let mut i = start;
    while i < n
        invariant
            start <= i <= n,
            n == ws@.len() <= MAX_VOCAB,
            forall|k: int| 0 <= k < ws@.len() ==> #[trigger] ws@[k] <= WEIGHT_ONE,
            sum + eligible_mass(ws@, th, i as int) == eligible_mass(ws@, th, start as int),
            sum <= (i - start) * (WEIGHT_ONE as int),
        decreases n - i,
    {
        proof {
            lemma_eligible_mass_bound(ws@, th, i as int);
        }
        if ws[i] >= th {
            sum = sum + ws[i];
        }
        i = i + 1;
    }
    sum
}

/// The eligible mass is non-negative and at most one full weight per
/// remaining token.
pub proof fn lemma_eligible_mass_bound(ws: Seq<u64>, th: u64, i: int)
    requires
        forall|k: int| 0 <= k < ws.len() ==> #[trigger] ws[k] <= WEIGHT_ONE,
    ensures
        0 <= eligible_mass(ws, th, i),
        0 <= i <= ws.len() ==> eligible_mass(ws, th, i) <= (ws.len() - i) * (WEIGHT_ONE as int),
    decreases ws.len() - i,
{
    if 0 <= i < ws.len() {
        lemma_eligible_mass_bound(ws, th, i + 1);
        assert((ws.len() - i) * (WEIGHT_ONE as int) == (ws.len() - i - 1) * (WEIGHT_ONE as int)
            + WEIGHT_ONE) by (nonlinear_arith);
    } else if i < 0 {
        lemma_eligible_mass_bound(ws, th, 0);
    }
}

/// Any single eligible weight is part of the mass.
pub proof fn lemma_eligible_mass_member(ws: Seq<u64>, th: u64, i: int, j: int)
    requires
        0 <= i <= j < ws.len(),
        ws[j] >= th,
        forall|k: int| 0 <= k < ws.len() ==> #[trigger] ws[k] <= WEIGHT_ONE,
    ensures
        eligible_mass(ws, th, i) >= ws[j],
    decreases j - i,
{
    lemma_eligible_mass_bound(ws, th, i + 1);
    if i < j {
        lemma_eligible_mass_member(ws, th, i + 1, j);
    }
}

/// A draw below the remaining mass lands on an eligible token at or
/// after `i`.
pub proof fn lemma_pick_from(ws: Seq<u64>, th: u64, r: int, i: int)
    requires
        0 <= i < ws.len(),
        0 <= r < eligible_mass(ws, th, i),
    ensures
        i <= pick_from(ws, th, r, i) < ws.len(),
        ws[pick_from(ws, th, r, i)] >= th,
        ws[pick_from(ws, th, r, i)] > 0,
    decreases ws.len() - i,
{
    if !(ws[i] >= th && r < ws[i]) {
        let r2 = r - (if ws[i] >= th {
            ws[i] as int
        } else {
            0
        });
        assert(r2 < eligible_mass(ws, th, i + 1));
        if i + 1 >= ws.len() {
            assert(eligible_mass(ws, th, i + 1) == 0);
        } else {
            lemma_pick_from(ws, th, r2, i + 1);
        }
    }
}

/// Largest weight value whose eligible mass still reaches `target`.
fn find_theta(ws: &Vec<u64>, target: u64) -> (r: u64)
    requires
        ws@.len() <= MAX_VOCAB,
        forall|i: int| 0 <= i < ws@.len() ==> #[trigger] ws@[i] <= WEIGHT_ONE,
        eligible_mass(ws@, 0, 0) >= target,
    ensures
        is_theta(ws@, target as int, r),
{
    let n = ws.len();
    let mut best: u64 = 0;
    let mut i: usize = 0;
    while i < n
        invariant
            n == ws@.len() <= MAX_VOCAB,
            forall|k: int| 0 <= k < ws@.len() ==> #[trigger] ws@[k] <= WEIGHT_ONE,
            eligible_mass(ws@, 0, 0) >= target,
            0 <= i <= n,
            best == 0 || exists|k: int| 0 <= k < ws@.len() && ws@[k] == best,
            eligible_mass(ws@, best, 0) >= target,
            forall|k: int|
                0 <= k < i && ws@[k] > best ==> eligible_mass(ws@, #[trigger] ws@[k], 0) < target,
        decreases n - i,
    {
        let c = ws[i];
        if c > best {
            let m = eligible_mass_from(ws, c, 0);
            if m >= target {
                best = c;
            } else {
                proof {
                    assert(forall|k: int|
                        0 <= k < i && ws@[k] > best ==> eligible_mass(ws@, #[trigger] ws@[k], 0)
                            < target);
                }
            }
        }
        i = i + 1;
    }
    best
}

/// The token a draw of `r` lands on among the weights at or above `th`.
fn pick_weighted(ws: &Vec<u64>, th: u64, r: u64) -> (res: usize)
    requires
        0 < ws@.len() <= MAX_VOCAB,
        forall|i: int| 0 <= i < ws@.len() ==> #[trigger] ws@[i] <= WEIGHT_ONE,
        r < eligible_mass(ws@, th, 0),
    ensures
        res == pick_from(ws@, th, r as int, 0),
        res < ws@.len(),
        ws@[res as int] >= th,
        ws@[res as int] > 0,
{
    proof {
        lemma_pick_from(ws@, th, r as int, 0);
    }
    let n = ws.len();
    let mut rem = r;
    let mut i: usize = 0;
    while i < n
        invariant
            n == ws@.len(),
            forall|k: int| 0 <= k < ws@.len() ==> #[trigger] ws@[k] <= WEIGHT_ONE,
            0 <= i <= n,
            0 <= rem <= r,
            rem < eligible_mass(ws@, th, i as int),
            pick_from(ws@, th, r as int, 0) == pick_from(ws@, th, rem as int, i as int),
        decreases n - i,
    {
        proof {
            lemma_eligible_mass_bound(ws@, th, i + 1);
        }
        if ws[i] >= th {
            if rem < ws[i] {
                return i;
            }
            rem = rem - ws[i];
        }
        i = i + 1;
    }
    proof {
        assert(eligible_mass(ws@, th, n as int) == 0);
        assert(false);
    }
    0
}

/// Weight of a token whose penalized score lies `d` below the maximum.
fn weight_of(d: u64, temp: u32) -> (w: u64)
    requires
        1 <= temp <= TEMP_MAX,
        d <= 4_000_000_000_000,
    ensures
        w == spec_weight(d as int, temp as int),
        w <= WEIGHT_ONE,
        d == 0 ==> w == WEIGHT_ONE,
{
    let x: u64 = d * 1024 / (temp as u64);
    let q: u64 = x / 1024;
    let f: u64 = x % 1024;
    if q >= 32 {
        0
    } else {
        let base: u64 = WEIGHT_ONE >> q;
        proof {
            lemma_u64_shr_is_div(WEIGHT_ONE, q);
            vstd::arithmetic::power2::lemma2_to64();
            assert(pow2(q as nat) >= 1) by {
                vstd::arithmetic::power2::lemma_pow2_pos(q as nat);
            }
            assert(base == WEIGHT_ONE as int / pow2(q as nat) as int);
            assert(base <= WEIGHT_ONE);
            assert(base * (2048 - f) <= WEIGHT_ONE * 2048) by (nonlinear_arith)
                requires
                    0 <= base <= WEIGHT_ONE,
                    0 <= f < 1024,
            ;
            vstd::arithmetic::div_mod::lemma_div_is_ordered(
                base as int * (2048 - f as int),
                WEIGHT_ONE as int * 2048,
                2048,
            );
            vstd::arithmetic::div_mod::lemma_div_multiples_vanish(WEIGHT_ONE as int, 2048);
            if d == 0 {
                assert(x == 0);
                assert(q == 0 && f == 0);
                assert((0x1_0000_0000u64 >> 0u64) == 0x1_0000_0000u64) by (bit_vector);
                assert(base == WEIGHT_ONE);
                assert(base as int * (2048 - f as int) == 2048 * (WEIGHT_ONE as int));
            }
        }
        base * (2048 - f) / 2048
    }
}

/// The logits processor: one per backend, owning the pseudo-random
/// source that the stochastic sampling path draws from.
pub struct LogitsProcessor {
    rng_state: u64,
}

impl LogitsProcessor {
    /// Current state of the pseudo-random source.
    pub closed spec fn spec_rng(self) -> u64 {
        self.rng_state
    }

    /// A processor with the fixed construction-time seed.
    pub fn new() -> (r: LogitsProcessor)
        ensures
            r.spec_rng() == RNG_SEED,
    {
        LogitsProcessor { rng_state: RNG_SEED }
    }

    /// The token greedy decoding picks: the first arg-max of the
    /// penalized scores.
    pub open spec fn greedy_token(logits: Seq<i64>, hist: Seq<u32>, penalty: int) -> int {
        spec_argmax(spec_penalize(logits, hist, penalty))
    }

    /// Selects the next token from a fresh score vector, given the
    /// trailing history of already generated tokens.
    ///
    /// With a zero temperature the choice is the greedy one and the
    /// pseudo-random source is left untouched; otherwise one token is
    /// drawn from the weighted distribution and the source advances by
    /// exactly one step.
    pub fn select_token(
        &mut self,
        logits: &Vec<i64>,
        history: &Vec<u32>,
        params: &SamplingParams,
    ) -> (t: u32)
        requires
            params.wf(),
            0 < logits@.len() <= MAX_VOCAB,
            forall|i: int|
                0 <= i < logits@.len() ==> -LOGIT_LIMIT <= #[trigger] logits@[i] <= LOGIT_LIMIT,
        ensures
            t < logits@.len(),
            params.temperature_milli == 0 ==> t == Self::greedy_token(
                logits@,
                history@,
                params.penalty_milli as int,
            ) && *final(self) == *old(self),
            params.temperature_milli > 0 ==> sampled_pick(
                logits@,
                history@,
                *params,
                old(self).spec_rng(),
                t as int,
            ) && final(self).spec_rng() == next_state(old(self).spec_rng()),
    {
        let pen = penalize(logits, history, params.penalty_milli);
        if params.temperature_milli == 0 {
            let r = argmax(&pen);
            r as u32
        } else {
            let temp = params.temperature_milli;
            let mi = argmax(&pen);
            let mx = pen[mi];
            let n = pen.len();
            let mut ws: Vec<u64> = Vec::new();
            let ghost wspec = weight_seq(pen@, temp as int);
            let mut i: usize = 0;
            while i < n
                invariant
                    n == pen@.len() <= MAX_VOCAB,
                    1 <= temp <= TEMP_MAX,
                    mi == spec_argmax(pen@),
                    is_argmax(pen@, mi as int),
                    mx == pen@[mi as int],
                    forall|k: int|
                        0 <= k < pen@.len() ==> -PENALIZED_LIMIT <= #[trigger] pen@[k]
                            <= PENALIZED_LIMIT,
                    wspec == weight_seq(pen@, temp as int),
                    0 <= i <= n,
                    ws@.len() == i,
                    forall|k: int| 0 <= k < i ==> #[trigger] ws@[k] == wspec[k],
                    forall|k: int| 0 <= k < i ==> #[trigger] ws@[k] <= WEIGHT_ONE,
                decreases n - i,
            {
                let d: u64 = (mx - pen[i]) as u64;
                let w = weight_of(d, temp);
                ws.push(w);
                i = i + 1;
            }
            proof {
                assert(ws@ =~= wspec);
                assert(mx - pen@[mi as int] == 0);
                assert(ws@[mi as int] == spec_weight(0, temp as int) as u64);
                assert(spec_weight(0, temp as int) == WEIGHT_ONE) by {
                    vstd::arithmetic::power2::lemma2_to64();
                    vstd::arithmetic::div_mod::lemma_div_multiples_vanish(
                        WEIGHT_ONE as int,
                        2048,
                    );
                    assert((0int) * 1024 / (temp as int) == 0);
                    assert(WEIGHT_ONE as int / pow2(0) as int == WEIGHT_ONE as int);
                    assert((WEIGHT_ONE as int) * (2048 - 0) == 2048 * (WEIGHT_ONE as int));
                };
                assert(ws@[mi as int] == WEIGHT_ONE);
            }
            let th: u64 = match params.top_p_milli {
                Some(p) => {
                    let total = eligible_mass_from(&ws, 0, 0);
                    proof {
                        lemma_eligible_mass_member(ws@, 0, 0, mi as int);
                        lemma_eligible_mass_bound(ws@, 0, 0);
                    }
                    proof {
                        assert((p as int) * (total as int) <= 1000 * 0xFFFF_FFFF_FFFF_FFFF)
                            by (nonlinear_arith)
                            requires
                                0 <= p <= 1000,
                                0 <= total <= 0xFFFF_FFFF_FFFF_FFFF,
                        ;
                    }
                    let target: u64 = (((p as u128) * (total as u128) + 999) / 1000) as u64;
                    proof {
                        assert(((p as int) * (total as int) + 999) / 1000 <= total)
                            by (nonlinear_arith)
                            requires
                                1 <= p <= 1000,
                                total >= 0,
                        ;
                    }
                    find_theta(&ws, target)
                }
                None => 1,
            };
            proof {
                if th > 1 {
                    let k = choose|k: int| 0 <= k < ws@.len() && ws@[k] == th;
                    assert(ws@[k] <= WEIGHT_ONE);
                }
                assert(th <= WEIGHT_ONE);
                lemma_eligible_mass_member(ws@, th, 0, mi as int);
            }
            let s = eligible_mass_from(&ws, th, 0);
            let ns = rng_next(self.rng_state);
            self.rng_state = ns;
            let r: u64 = ns % s;
            let res = pick_weighted(&ws, th, r);
            proof {
                let ghost tspec = match params.top_p_milli {
                    Some(p) => nucleus_target(p as int, eligible_mass(ws@, 0, 0)),
                    None => 0,
                };
                assert(sampled_pick(logits@, history@, *params, old(self).spec_rng(), res as int));
            }
            res as u32
        }
    }
}

} // verus!
