//! The limits of a text-to-SQL request, as settings give them.
use vstd::prelude::*;

use crate::numeral;
use crate::numeral::parse_number;
use crate::text;

verus! {

/// How often a failed statement is written anew, by default. Each retry asks the
/// model again and runs another statement.
pub const DEFAULT_NSQL_RETRIES: u8 = 3;

/// The time that a request may take with all its retries, in seconds, by default.
pub const DEFAULT_NSQL_BUDGET_SECS: u64 = 45;

/// How many samplings run at a time.
pub const DATA_SAMPLING_MAX_CONCURRENT: usize = 10;

/// The pause between two signs of life of a streamed reply, in seconds.
pub const NSQL_STREAM_KEEP_ALIVE: u64 = 30;

/// How long schema and sample messages are kept, in seconds, by default.
pub const DEFAULT_NSQL_SAMPLE_CACHE_TTL_SECS: u64 = 3600;

/// The number of cores that is taken for granted where it is not known.
pub const DEFAULT_CORES: usize = 4;

/// The number that a setting holds, if it holds one up to `max`.
pub open spec fn number(value: Option<Seq<char>>, max: nat) -> Option<nat> {
    match value {
        Some(s) => numeral::numeral_up_to(s, max),
        None => None,
    }
}

fn read(value: &Option<String>, max: u64) -> (r: Option<u64>)
    ensures
        match r {
            Some(n) => number(text::text_of(*value), max as nat) == Some(n as nat),
            None => number(text::text_of(*value), max as nat) is None,
        },
{
    match value {
        Some(s) => parse_number(s.as_str(), max),
        None => None,
    }
}

/// How often a failed statement is written anew.
pub fn nsql_max_retries(value: &Option<String>) -> (r: u8)
    ensures
        r == match number(text::text_of(*value), u8::MAX as nat) {
            Some(n) => n,
            None => DEFAULT_NSQL_RETRIES as nat,
        },
{
    match read(value, 255) {
        Some(n) => n as u8,
        None => DEFAULT_NSQL_RETRIES,
    }
}

/// The time that a request may take, in seconds. Zero counts as unset.
pub fn nsql_budget(value: &Option<String>) -> (r: u64)
    ensures
        r == match number(text::text_of(*value), u64::MAX as nat) {
            Some(n) => if n > 0 {
                n
            } else {
                DEFAULT_NSQL_BUDGET_SECS as nat
            },
            None => DEFAULT_NSQL_BUDGET_SECS as nat,
        },
        r > 0,
{
    match read(value, u64::MAX) {
        Some(n) => if n > 0 {
            n
        } else {
            DEFAULT_NSQL_BUDGET_SECS
        },
        None => DEFAULT_NSQL_BUDGET_SECS,
    }
}

/// How many requests run at a time where nothing is set: half as many as there are
/// cores, but no fewer than two.
pub open spec fn default_concurrency(cores: Option<usize>) -> nat {
    let n = match cores {
        Some(n) => n,
        None => DEFAULT_CORES,
    };
    if n / 2 > 2 {
        (n / 2) as nat
    } else {
        2
    }
}

/// How many requests run at a time. Zero counts as unset.
pub fn nsql_concurrency(value: &Option<String>, cores: Option<usize>) -> (r: usize)
    ensures
        r == match number(text::text_of(*value), usize::MAX as nat) {
            Some(n) => if n > 0 {
                n
            } else {
                default_concurrency(cores)
            },
            None => default_concurrency(cores),
        },
        r > 0,
{
    if let Some(n) = read(value, usize::MAX as u64) {
        if n > 0 {
            return n as usize;
        }
    }
    let cores: usize = match cores {
        Some(n) => n,
        None => DEFAULT_CORES,
    };
    if cores / 2 > 2 {
        cores / 2
    } else {
        2
    }
}

/// How long schema and sample messages are kept, in seconds. Zero turns the cache
/// off.
pub fn nsql_sample_cache_ttl(value: &Option<String>) -> (r: u64)
    ensures
        r == match number(text::text_of(*value), u64::MAX as nat) {
            Some(n) => n,
            None => DEFAULT_NSQL_SAMPLE_CACHE_TTL_SECS as nat,
        },
{
    match read(value, u64::MAX) {
        Some(n) => n,
        None => DEFAULT_NSQL_SAMPLE_CACHE_TTL_SECS,
    }
}

/// A setting that is no number, or is too large, counts as none; one that is a number is
/// that number. Without a setting there are three more questions, 45 s and an hour for
/// samples, and half of the cores work at a time, two at least.
pub proof fn law_settings_have_defaults(v: Seq<char>, max: nat, cores: usize)
    ensures
        number(None, max) is None,
        number(Some(v), max) is None <==> numeral::numeral(v) is None || numeral::numeral(v)->0 > max,
        number(Some(v), max) matches Some(n) ==> numeral::numeral(v) == Some(n),
        DEFAULT_NSQL_RETRIES == 3 && DEFAULT_NSQL_BUDGET_SECS == 45,
        DEFAULT_NSQL_SAMPLE_CACHE_TTL_SECS == 60 * 60,
        cores >= 4 ==> default_concurrency(Some(cores)) == cores / 2,
        cores < 4 ==> default_concurrency(Some(cores)) == 2,
        default_concurrency(None) == default_concurrency(Some(4)),
{
}

} // verus!
