//! Service configuration: plain values handed in by the process edge
//! (environment reading lives outside the verified library), with the
//! defaulting and decimal-parsing rules stated exactly.

use vstd::prelude::*;
use vstd::string::StrSliceExecFns;
use vstd::string::StringExecFns;

verus! {

/// Numeric value of a decimal digit character.
pub open spec fn digit_val(c: char) -> int {
    c as int - '0' as int
}

/// Whether `c` is a decimal digit.
pub open spec fn is_digit(c: char) -> bool {
    '0' <= c && c <= '9'
}

/// Whether every character of `s` is a decimal digit.
pub open spec fn all_digits(s: Seq<char>) -> bool {
    forall|i: int| 0 <= i < s.len() ==> is_digit(#[trigger] s[i])
}

/// Value of a decimal digit string (most significant digit first).
pub open spec fn dec_val(s: Seq<char>) -> int
    decreases s.len(),
{
    if s.len() == 0 {
        0
    } else {
        dec_val(s.drop_last()) * 10 + digit_val(s.last())
    }
}

proof fn lemma_dec_val_nonneg(s: Seq<char>)
    requires
        all_digits(s),
    ensures
        dec_val(s) >= 0,
    decreases s.len(),
{
    if s.len() > 0 {
        assert(all_digits(s.drop_last())) by {
            assert(forall|i: int|
                0 <= i < s.drop_last().len() ==> is_digit(#[trigger] s.drop_last()[i]));
        }
        lemma_dec_val_nonneg(s.drop_last());
    }
}

/// Appending digits never decreases the value of a digit string.
proof fn lemma_dec_val_prefix_le(s: Seq<char>, i: int, j: int)
    requires
        all_digits(s),
        0 <= i <= j <= s.len(),
    ensures
        dec_val(s.take(i)) <= dec_val(s.take(j)),
    decreases j - i,
{
    if i < j {
        lemma_dec_val_prefix_le(s, i, j - 1);
        let p = s.take(j);
        assert(p.drop_last() =~= s.take(j - 1));
        assert(all_digits(s.take(j - 1))) by {
            assert(forall|k: int|
                0 <= k < s.take(j - 1).len() ==> is_digit(#[trigger] s.take(j - 1)[k]));
        }
        lemma_dec_val_nonneg(s.take(j - 1));
        assert(dec_val(p) == dec_val(s.take(j - 1)) * 10 + digit_val(s[j - 1]));
        assert(dec_val(s.take(j - 1)) * 10 >= dec_val(s.take(j - 1))) by (nonlinear_arith)
            requires dec_val(s.take(j - 1)) >= 0;
    }
}

/// Parses a string of decimal digits into a `u64`.
///
/// Returns `Some` exactly when the string is non-empty, consists of
/// digits only, and its value fits in a `u64`.
pub fn parse_u64(s: &str) -> (r: Option<u64>)
    ensures
        r is Some <==> (s@.len() > 0 && all_digits(s@) && dec_val(s@) <= u64::MAX),
        r is Some ==> r->Some_0 == dec_val(s@),
{
    let n = s.unicode_len();
    if n == 0 {
        return None;
    }
    let mut acc: u64 = 0;
    let mut i: usize = 0;
    while i < n
        invariant
            0 < n == s@.len(),
            0 <= i <= n,
            all_digits(s@.take(i as int)),
            acc == dec_val(s@.take(i as int)),
        decreases n - i,
    {
        let c = s.get_char(i);
        let cv = c as u32;
        if cv < 48 || cv > 57 {
            assert(!is_digit(s@[i as int]));
            return None;
        }
        let d = (cv - 48) as u64;
        assert(is_digit(s@[i as int]) && d == digit_val(s@[i as int]));
        assert(s@.take(i + 1).drop_last() =~= s@.take(i as int));
        if acc > (u64::MAX - d) / 10 {
            proof {
                assert(acc * 10 + d > u64::MAX) by (nonlinear_arith)
                    requires
                        acc > (u64::MAX - d) / 10,
                        d <= 9,
                ;
                if all_digits(s@) {
                    lemma_dec_val_prefix_le(s@, i + 1, s@.len() as int);
                    assert(s@.take(s@.len() as int) =~= s@);
                }
            }
            return None;
        }
        proof {
            assert(acc * 10 + d <= u64::MAX) by (nonlinear_arith)
                requires
                    acc <= (u64::MAX - d) / 10,
                    d <= 9,
            ;
        }
        acc = acc * 10 + d;
        i = i + 1;
    }
    proof {
        assert(s@.take(n as int) =~= s@);
    }
    Some(acc)
}

/// Default base URL of the generation backend.
pub fn default_shimmy_url() -> (r: String)
    ensures
        r@ == "http://localhost:8080"@,
{
    String::from_str("http://localhost:8080")
}

/// Runtime configuration of the proxy service.
pub struct Config {
    pub shimmy_url: String,
    pub port: u16,
    pub timeout_seconds: u64,
    pub max_retries: u32,
}

impl Config {
    /// The configuration that a set of raw settings denotes: each field
    /// falls back to its default when the setting is absent or does not
    /// parse as a number of the field's type.
    ///
    /// The process edge reads the raw values from the environment and
    /// hands them in; the defaulting rules themselves are verified here.
    pub fn from_values(
        shimmy_url: Option<String>,
        port: Option<String>,
        timeout_seconds: Option<String>,
        max_retries: Option<String>,
    ) -> (r: Config)
        ensures
            r.shimmy_url@ == (match shimmy_url {
                Some(u) => u@,
                None => "http://localhost:8080"@,
            }),
            r.port == Self::parsed_or(port, 8083, u16::MAX as int),
            r.timeout_seconds == Self::parsed_or(timeout_seconds, 120, u64::MAX as int),
            r.max_retries == Self::parsed_or(max_retries, 3, u32::MAX as int),
    {
        let url = match shimmy_url {
            Some(u) => u,
            None => default_shimmy_url(),
        };
        let port: u16 = match Self::parse_setting(&port, u16::MAX as u64) {
            Some(v) => v as u16,
            None => 8083,
        };
        let timeout: u64 = match Self::parse_setting(&timeout_seconds, u64::MAX) {
            Some(v) => v,
            None => 120,
        };
        let retries: u32 = match Self::parse_setting(&max_retries, u32::MAX as u64) {
            Some(v) => v as u32,
            None => 3,
        };
        Config { shimmy_url: url, port, timeout_seconds: timeout, max_retries: retries }
    }

    /// The number a raw setting denotes, where it denotes one: the setting
    /// is present, all digits, and its value fits below `max`.
    pub open spec fn setting_parsed(setting: Option<String>, max: int) -> Option<u64> {
        match setting {
            Some(s) => if s@.len() > 0 && all_digits(s@) && dec_val(s@) <= max {
                Some(dec_val(s@) as u64)
            } else {
                None
            },
            None => None,
        }
    }

    /// The number a raw setting denotes, or `default` when the setting is
    /// absent, malformed, or too large for the target type.
    pub open spec fn parsed_or(setting: Option<String>, default: int, max: int) -> int {
        match Self::setting_parsed(setting, max) {
            Some(v) => v as int,
            None => default,
        }
    }

    fn parse_setting(setting: &Option<String>, max: u64) -> (r: Option<u64>)
        ensures
            r == Self::setting_parsed(*setting, max as int),
            r is Some ==> r->Some_0 <= max,
    {
        match setting {
            Some(s) => match parse_u64(s.as_str()) {
                Some(v) => if v <= max {
                    Some(v)
                } else {
                    None
                },
                None => None,
            },
            None => None,
        }
    }
}

} // verus!
