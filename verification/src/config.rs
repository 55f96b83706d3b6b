//! What the environment tells a listener or a dialer.

use crate::decimal::{
    all_digits, decimal_value, law_which_texts_are_numbers, parse_unsigned, unsigned_number,
};
use vstd::prelude::*;

verus! {

/// How many bytes a throughput test moves unless the environment says otherwise.
pub const DEFAULT_BYTES: u64 = 1_073_741_824;

/// How often a throughput test runs unless the environment says otherwise.
pub const DEFAULT_ITERATIONS: u64 = 10;

/// How often the latency test runs unless the environment says otherwise.
pub const DEFAULT_LATENCY_ITERATIONS: u64 = 100;

/// The variables of the environment that count, as far as they are set.
pub struct EnvVars {
    /// `IS_DIALER`
    pub is_dialer: Option<String>,
    /// `REDIS_ADDR`
    pub redis_addr: Option<String>,
    /// `TEST_KEY`
    pub test_key: Option<String>,
    /// `UPLOAD_BYTES`
    pub upload_bytes: Option<String>,
    /// `DOWNLOAD_BYTES`
    pub download_bytes: Option<String>,
    /// `UPLOAD_ITERATIONS`
    pub upload_iterations: Option<String>,
    /// `DOWNLOAD_ITERATIONS`
    pub download_iterations: Option<String>,
    /// `LATENCY_ITERATIONS`
    pub latency_iterations: Option<String>,
}

/// What to run, and how to find the other side.
pub struct AppConfig {
    pub is_dialer: bool,
    pub redis_addr: String,
    pub test_key: String,
    pub upload_bytes: u64,
    pub download_bytes: u64,
    pub upload_iters: usize,
    pub download_iters: usize,
    pub latency_iters: usize,
}

/// A variable's text, or `default` if it is not set.
pub open spec fn text_or(var: Option<String>, default: Seq<char>) -> Seq<char> {
    match var {
        Some(s) => s@,
        None => default,
    }
}

/// A variable's number, or `default` if it is not set or is no number up to `max`.
pub open spec fn number_or(var: Option<String>, max: nat, default: nat) -> nat {
    match var {
        Some(s) => match unsigned_number(s@, max) {
            Ok(n) => n,
            Err(_) => default,
        },
        None => default,
    }
}

fn text_of(var: &Option<String>, default: &str) -> (r: String)
    ensures
        r@ == text_or(*var, default@),
{
    match var {
        Some(s) => s.clone(),
        None => String::from_str(default),
    }
}

fn number_of(var: &Option<String>, max: u64, default: u64) -> (r: u64)
    requires
        default <= max,
    ensures
        r == number_or(*var, max as nat, default as nat),
        r <= max,
{
    match var {
        Some(s) => {
            proof {
                crate::decimal::lemma_digits_number(
                    crate::decimal::unsigned_digits(s@),
                    max as nat,
                );
            }
            match parse_unsigned(s.as_str(), max) {
                Ok(n) => n,
                Err(_) => default,
            }
        },
        None => default,
    }
}

impl AppConfig {
    /// Reads the configuration out of the environment. Only the text `true` makes
    /// a dialer; every variable that is missing or unreadable has a default.
    pub fn from_env(vars: &EnvVars) -> (r: Self)
        ensures
            r.is_dialer == (vars.is_dialer matches Some(s) && s@ == "true"@),
            r.redis_addr@ == text_or(vars.redis_addr, "redis:6379"@),
            r.test_key@ == text_or(vars.test_key, "default"@),
            r.upload_bytes == number_or(vars.upload_bytes, u64::MAX as nat, DEFAULT_BYTES as nat),
            r.download_bytes == number_or(
                vars.download_bytes,
                u64::MAX as nat,
                DEFAULT_BYTES as nat,
            ),
            r.upload_iters == number_or(
                vars.upload_iterations,
                usize::MAX as nat,
                DEFAULT_ITERATIONS as nat,
            ),
            r.download_iters == number_or(
                vars.download_iterations,
                usize::MAX as nat,
                DEFAULT_ITERATIONS as nat,
            ),
            r.latency_iters == number_or(
                vars.latency_iterations,
                usize::MAX as nat,
                DEFAULT_LATENCY_ITERATIONS as nat,
            ),
    {
        let is_dialer = match &vars.is_dialer {
            Some(s) => *s == String::from_str("true"),
            None => false,
        };
        let most = usize::MAX as u64;
        AppConfig {
            is_dialer,
            redis_addr: text_of(&vars.redis_addr, "redis:6379"),
            test_key: text_of(&vars.test_key, "default"),
            upload_bytes: number_of(&vars.upload_bytes, u64::MAX, DEFAULT_BYTES),
            download_bytes: number_of(&vars.download_bytes, u64::MAX, DEFAULT_BYTES),
            upload_iters: number_of(&vars.upload_iterations, most, DEFAULT_ITERATIONS) as usize,
            download_iters: number_of(
                &vars.download_iterations,
                most,
                DEFAULT_ITERATIONS,
            ) as usize,
            latency_iters: number_of(
                &vars.latency_iterations,
                most,
                DEFAULT_LATENCY_ITERATIONS,
            ) as usize,
        }
    }
}

/// A number that is put into the environment in decimal is the one that is used.
pub proof fn law_set_number_is_used(var: String, n: nat, max: nat, default: nat)
    requires
        n <= max,
        var@ == crate::decimal::decimal_text(n),
    ensures
        number_or(Some(var), max, default) == n,
{
    crate::decimal::law_text_is_read_back(n, max);
}

/// A variable that is set is used as it is, and one that is not has the default.
pub proof fn law_set_text_is_used(var: String, default: Seq<char>)
    ensures
        text_or(Some(var), default) == var@,
        text_or(None, default) == default,
{
}

/// A variable is a number exactly if its text says one that is not too large; otherwise,
/// and if it is not set, the default counts.
pub proof fn law_unreadable_number_is_the_default(
    var: String,
    digits: Seq<char>,
    max: nat,
    default: nat,
)
    requires
        var@.len() > 0 && var@[0] == '+' ==> digits == var@.skip(1),
        !(var@.len() > 0 && var@[0] == '+') ==> digits == var@,
    ensures
        number_or(None, max, default) == default,
        number_or(Some(var), max, default) == (if digits.len() > 0 && all_digits(digits)
            && decimal_value(digits) <= max {
            decimal_value(digits)
        } else {
            default
        }),
{
    law_which_texts_are_numbers(var@, digits, max, decimal_value(digits));
}

} // verus!
