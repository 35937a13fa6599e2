//! Decision logic of the backend-proxy client: the error taxonomy of an
//! upstream call, the retry policy with exponential backoff, and the
//! mapping of a final failure to a transport status and message. The
//! unverified shell performs the HTTP calls and sleeps; every decision
//! between attempts is taken here, from plain observed values.

use vstd::prelude::*;
use vstd::arithmetic::power2::pow2;
use vstd::bits::lemma_u64_shl_is_mul;
use vstd::string::StringExecFns;

verus! {

/// The decimal digit character of `d`.
pub open spec fn digit_char(d: int) -> char {
    if d == 0 {
        '0'
    } else if d == 1 {
        '1'
    } else if d == 2 {
        '2'
    } else if d == 3 {
        '3'
    } else if d == 4 {
        '4'
    } else if d == 5 {
        '5'
    } else if d == 6 {
        '6'
    } else if d == 7 {
        '7'
    } else if d == 8 {
        '8'
    } else {
        '9'
    }
}

/// The decimal digit string of `n`, most significant digit first.
pub open spec fn dec_digits(n: int) -> Seq<char>
    decreases n,
{
    if n < 10 {
        seq![digit_char(n)]
    } else {
        dec_digits(n / 10).push(digit_char(n % 10))
    }
}

/// The digit characters of a digit stack, read top (most significant)
/// last.
spec fn rev_chars(ds: Seq<u64>) -> Seq<char> {
    Seq::new(ds.len(), |i: int| digit_char(ds[ds.len() - 1 - i] as int))
}

fn digit_str(d: u64) -> (r: &'static str)
    requires
        d < 10,
    ensures
        r@ == seq![digit_char(d as int)],
{
    proof {
        reveal_strlit("0");
        reveal_strlit("1");
        reveal_strlit("2");
        reveal_strlit("3");
        reveal_strlit("4");
        reveal_strlit("5");
        reveal_strlit("6");
        reveal_strlit("7");
        reveal_strlit("8");
        reveal_strlit("9");
    }
    let r: &'static str = match d {
        0 => "0",
        1 => "1",
        2 => "2",
        3 => "3",
        4 => "4",
        5 => "5",
        6 => "6",
        7 => "7",
        8 => "8",
        _ => "9",
    };
    proof {
        assert(r@ =~= seq![digit_char(d as int)]);
    }
    r
}

/// The decimal rendering of `n`.
pub fn u64_to_string(n: u64) -> (r: String)
    ensures
        r@ == dec_digits(n as int),
{
    let mut ds: Vec<u64> = Vec::new();
    let mut m: u64 = n / 10;
    ds.push(n % 10);
    proof {
        assert(rev_chars(ds@) =~= seq![digit_char(n as int % 10)]);
        if m > 0 {
            assert(dec_digits(n as int) == dec_digits(m as int).push(digit_char(n as int % 10)));
            assert(dec_digits(m as int) + rev_chars(ds@) =~= dec_digits(n as int));
        } else {
            assert(dec_digits(n as int) =~= rev_chars(ds@));
        }
    }
    while m > 0
        invariant
            ds@.len() >= 1,
            forall|k: int| 0 <= k < ds@.len() ==> #[trigger] ds@[k] < 10,
            dec_digits(n as int) == if m > 0 {
                dec_digits(m as int) + rev_chars(ds@)
            } else {
                rev_chars(ds@)
            },
        decreases m,
    {
        let ghost old_ds = ds@;
        let d = m % 10;
        ds.push(d);
        proof {
            assert(rev_chars(ds@) =~= seq![digit_char(d as int)] + rev_chars(old_ds));
        }
        m = m / 10;
        proof {
            let mo = (if m == 0 {
                d as int
            } else {
                m as int * 10 + d as int
            });
            if m > 0 {
                assert(dec_digits(mo) == dec_digits(m as int).push(digit_char(d as int)));
                assert(dec_digits(m as int) + rev_chars(ds@) =~= (dec_digits(m as int).push(
                    digit_char(d as int),
                )) + rev_chars(old_ds));
            } else {
                assert(dec_digits(mo) =~= seq![digit_char(d as int)]);
                assert(rev_chars(ds@) =~= dec_digits(mo) + rev_chars(old_ds));
            }
        }
    }
    let mut out = String::new();
    let n_digits = ds.len();
    let mut i: usize = n_digits;
    while i > 0
        invariant
            n_digits == ds@.len(),
            0 <= i <= n_digits,
            forall|k: int| 0 <= k < ds@.len() ==> #[trigger] ds@[k] < 10,
            dec_digits(n as int) == rev_chars(ds@),
            out@ == rev_chars(ds@).take(n_digits - i),
        decreases i,
    {
        i = i - 1;
        let ghost c = n_digits - 1 - i;
        out.append(digit_str(ds[i]));
        proof {
            assert(rev_chars(ds@)[c as int] == digit_char(ds@[i as int] as int));
            assert(rev_chars(ds@).take(c + 1) =~= rev_chars(ds@).take(c as int).push(
                rev_chars(ds@)[c as int],
            ));
        }
    }
    proof {
        assert(rev_chars(ds@).take(n_digits as int) =~= rev_chars(ds@));
    }
    out
}

/// A failure of one upstream call, as the proxy reports it.
pub enum ShimmyError {
    /// The HTTP request itself failed (connection or timeout trouble).
    Request { timeout: bool, message: String },
    /// The upstream answered with a non-success status.
    ShimmyError { status: u16, message: String },
    /// No attempt was ever made.
    Unavailable,
}

impl ShimmyError {
    /// The display line of this failure.
    pub fn message(&self) -> (r: String)
        ensures
            match self {
                ShimmyError::Request { timeout, message } => r@ == "HTTP request failed: "@
                    + message@,
                ShimmyError::ShimmyError { status, message } => r@ == "Shimmy returned error: "@
                    + dec_digits(*status as int) + " - "@ + message@,
                ShimmyError::Unavailable => r@ == "Shimmy is unavailable"@,
            },
    {
        match self {
            ShimmyError::Request { timeout: _, message } => {
                let mut out = String::from_str("HTTP request failed: ");
                out.append(message.as_str());
                out
            }
            ShimmyError::ShimmyError { status, message } => {
                let mut out = String::from_str("Shimmy returned error: ");
                let digits = u64_to_string(*status as u64);
                out.append(digits.as_str());
                out.append(" - ");
                out.append(message.as_str());
                out
            }
            ShimmyError::Unavailable => String::from_str("Shimmy is unavailable"),
        }
    }
}

/// What one upstream attempt yielded, as observed by the shell: a
/// success status, an error status with the response text, or a
/// transport failure.
pub enum AttemptOutcome {
    Success,
    HttpError { status: u16, message: String },
    Transport { timeout: bool, message: String },
}

/// What the proxy does after one attempt.
pub enum RetryDecision {
    /// Deliver the successful response.
    Done,
    /// Record the error, sleep for the delay, and try again.
    Retry { delay_ms: u64, error: ShimmyError },
    /// Give up with this error.
    Fail(ShimmyError),
}

/// The proxy error a failed attempt outcome maps to.
pub open spec fn error_of(outcome: AttemptOutcome) -> ShimmyError {
    match outcome {
        AttemptOutcome::Success => ShimmyError::Unavailable,
        AttemptOutcome::HttpError { status, message } => ShimmyError::ShimmyError {
            status,
            message,
        },
        AttemptOutcome::Transport { timeout, message } => ShimmyError::Request {
            timeout,
            message,
        },
    }
}

/// Backoff before attempt number `attempt`: 100 ms doubled per attempt,
/// with the exponent capped so the delay always fits.
pub open spec fn spec_backoff_ms(attempt: int) -> int {
    100 * pow2(
        if attempt > 56 {
            56nat
        } else {
            attempt as nat
        },
    ) as int
}

/// The backoff delay in milliseconds before the given attempt.
pub fn backoff_ms(attempt: u32) -> (r: u64)
    ensures
        r == spec_backoff_ms(attempt as int),
{
    let e: u64 = if attempt > 56 {
        56
    } else {
        attempt as u64
    };
    proof {
        vstd::arithmetic::power2::lemma2_to64();
        vstd::arithmetic::power2::lemma2_to64_rest();
        if e < 57 {
            vstd::arithmetic::power2::lemma_pow2_strictly_increases(e as nat, 57nat);
        }
        lemma_u64_shl_is_mul(1u64, e);
    }
    let p: u64 = 1u64 << e;
    p * 100
}

/// Decides what follows one upstream attempt: success is delivered, a
/// failure is retried with exponential backoff while attempts remain,
/// and the last failure is surfaced as the call's error.
pub fn decide(attempt: u32, max_retries: u32, outcome: AttemptOutcome) -> (r: RetryDecision)
    ensures
        match outcome {
            AttemptOutcome::Success => r is Done,
            _ => if attempt < max_retries {
                r matches RetryDecision::Retry { delay_ms, error } && delay_ms == spec_backoff_ms(
                    attempt + 1,
                ) && error == error_of(outcome)
            } else {
                r matches RetryDecision::Fail(e) && e == error_of(outcome)
            },
        },
{
    match outcome {
        AttemptOutcome::Success => RetryDecision::Done,
        AttemptOutcome::HttpError { status, message } => {
            let e = ShimmyError::ShimmyError { status, message };
            if attempt < max_retries {
                RetryDecision::Retry { delay_ms: backoff_ms(attempt + 1), error: e }
            } else {
                RetryDecision::Fail(e)
            }
        }
        AttemptOutcome::Transport { timeout, message } => {
            let e = ShimmyError::Request { timeout, message };
            if attempt < max_retries {
                RetryDecision::Retry { delay_ms: backoff_ms(attempt + 1), error: e }
            } else {
                RetryDecision::Fail(e)
            }
        }
    }
}

/// Whether an HTTP status is a success status.
pub fn is_success_status(status: u16) -> (r: bool)
    ensures
        r == (200 <= status < 300),
{
    200 <= status && status < 300
}

/// The transport status and message a final proxy failure maps to: the
/// upstream status is passed through when it is a legal HTTP status,
/// timeouts become a gateway timeout, and everything else a bad
/// gateway; an absent upstream is service-unavailable.
pub fn error_to_http(e: &ShimmyError) -> (r: (u16, String))
    ensures
        match e {
            ShimmyError::ShimmyError { status, message } => r.0 == (if 100 <= *status <= 999 {
                *status as int
            } else {
                502int
            }) && r.1@ == message@,
            ShimmyError::Unavailable => r.0 == 503 && r.1@ == "Shimmy backend is unavailable"@,
            ShimmyError::Request { timeout, message } => if *timeout {
                r.0 == 504 && r.1@ == "Request to shimmy timed out"@
            } else {
                r.0 == 502 && r.1@ == "Shimmy request failed: "@ + message@
            },
        },
{
    match e {
        ShimmyError::ShimmyError { status, message } => {
            let code: u16 = if 100 <= *status && *status <= 999 {
                *status
            } else {
                502
            };
            (code, message.clone())
        }
        ShimmyError::Unavailable => (503, String::from_str("Shimmy backend is unavailable")),
        ShimmyError::Request { timeout, message } => {
            if *timeout {
                (504, String::from_str("Request to shimmy timed out"))
            } else {
                let mut out = String::from_str("Shimmy request failed: ");
                out.append(message.as_str());
                (502, out)
            }
        }
    }
}

/// The chat-completions endpoint of a base URL.
pub fn chat_completions_url(base_url: &String) -> (r: String)
    ensures
        r@ == base_url@ + "/v1/chat/completions"@,
{
    let mut out = base_url.clone();
    out.append("/v1/chat/completions");
    out
}

/// The model-listing endpoint of a base URL.
pub fn models_url(base_url: &String) -> (r: String)
    ensures
        r@ == base_url@ + "/v1/models"@,
{
    let mut out = base_url.clone();
    out.append("/v1/models");
    out
}

/// The health endpoint of a base URL.
pub fn health_url(base_url: &String) -> (r: String)
    ensures
        r@ == base_url@ + "/health"@,
{
    let mut out = base_url.clone();
    out.append("/health");
    out
}

} // verus!
