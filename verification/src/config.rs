//! The service's settings, read from environment variables with defaults.
use vstd::prelude::*;
use crate::labels::{decimal_value, is_digit};

verus! {

#[derive(Clone, Debug)]
pub struct Config {
    pub database_url: String,
    pub bind_addr: String,
    pub request_timeout_secs: u64,
    pub max_in_flight: usize,
    pub pool_max_connections: u32,
    pub pool_acquire_timeout_secs: u64,
    pub statement_timeout_ms: u64,
    pub hold_ttl_secs: i64,
    pub sweep_interval_secs: u64,
}

/// The raw values of the environment variables the settings come from;
/// `None` where a variable is unset or not valid Unicode.
#[derive(Clone, Debug)]
pub struct ConfigVars {
    pub database_url: Option<String>,
    pub bind_addr: Option<String>,
    pub request_timeout_secs: Option<String>,
    pub max_in_flight: Option<String>,
    pub pool_max_connections: Option<String>,
    pub pool_acquire_timeout_secs: Option<String>,
    pub statement_timeout_ms: Option<String>,
    pub hold_ttl_secs: Option<String>,
    pub sweep_interval_secs: Option<String>,
}

pub open spec fn all_digits(s: Seq<char>) -> bool {
    forall|i: int| 0 <= i < s.len() ==> is_digit(#[trigger] s[i])
}

/// The digits of an unsigned number: all of `s`, or all after a leading `+`.
pub open spec fn unsigned_digits(s: Seq<char>) -> Seq<char> {
    if s.len() > 0 && s[0] == '+' { s.drop_first() } else { s }
}

/// What `str::parse` gives for an unsigned integer type whose largest value
/// is `max`: an optional `+`, then one or more decimal digits, whose value
/// must not exceed `max`.
pub open spec fn parse_unsigned(s: Seq<char>, max: int) -> Option<int> {
    let d = unsigned_digits(s);
    if d.len() > 0 && all_digits(d) && decimal_value(d) <= max {
        Some(decimal_value(d))
    } else {
        None
    }
}

/// What `str::parse::<i64>` gives: an optional sign, then one or more
/// decimal digits, whose value must fit in an `i64`.
pub open spec fn parse_signed(s: Seq<char>) -> Option<int> {
    if s.len() > 0 && s[0] == '-' {
        let d = s.drop_first();
        if d.len() > 0 && all_digits(d) && decimal_value(d) <= 0x8000_0000_0000_0000 {
            Some(-decimal_value(d))
        } else {
            None
        }
    } else {
        parse_unsigned(s, i64::MAX as int)
    }
}

/// An unsigned setting: the variable parsed, or the default when it is
/// unset or does not parse.
pub open spec fn unsigned_setting(var: Option<String>, max: int, default: int) -> int {
    match var {
        Some(v) => match parse_unsigned(v@, max) {
            Some(x) => x,
            None => default,
        },
        None => default,
    }
}

/// A signed setting: the variable parsed, or the default when it is unset
/// or does not parse.
pub open spec fn signed_setting(var: Option<String>, default: int) -> int {
    match var {
        Some(v) => match parse_signed(v@) {
            Some(x) => x,
            None => default,
        },
        None => default,
    }
}

pub proof fn lemma_decimal_value_nonneg(s: Seq<char>)
    requires
        all_digits(s),
    ensures
        decimal_value(s) >= 0,
    decreases s.len(),
{
    if s.len() > 0 {
        assert(all_digits(s.drop_last())) by {
            assert forall|i: int| 0 <= i < s.drop_last().len() implies is_digit(#[trigger] s.drop_last()[i]) by {
                assert(s.drop_last()[i] == s[i]);
            }
        }
        lemma_decimal_value_nonneg(s.drop_last());
        assert(is_digit(s[s.len() - 1]));
    }
}

/// A number only grows as digits are added to it.
pub proof fn lemma_decimal_value_prefix(s: Seq<char>, i: int)
    requires
        all_digits(s),
        0 <= i <= s.len(),
    ensures
        decimal_value(s.take(i)) <= decimal_value(s),
    decreases s.len(),
{
    if i < s.len() {
        let d = s.drop_last();
        assert(all_digits(d)) by {
            assert forall|k: int| 0 <= k < d.len() implies is_digit(#[trigger] d[k]) by {
                assert(d[k] == s[k]);
            }
        }
        lemma_decimal_value_prefix(d, i);
        assert(d.take(i) =~= s.take(i));
        lemma_decimal_value_nonneg(d);
        assert(is_digit(s[s.len() - 1]));
    } else {
        assert(s.take(i) =~= s);
    }
}

/// Parses the decimal digits of `s` from index `start` on, refusing values
/// above `max`.
fn parse_digits(s: &str, start: usize, max: u64) -> (r: Option<u64>)
    requires
        start <= s@.len(),
    ensures
        ({
            let d = s@.subrange(start as int, s@.len() as int);
            &&& r == (if d.len() > 0 && all_digits(d) && decimal_value(d) <= max {
                Some(decimal_value(d) as u64)
            } else {
                None::<u64>
            })
            &&& (r matches Some(x) ==> x == decimal_value(d))
        }),
{
    let ghost d = s@.subrange(start as int, s@.len() as int);
    let n = s.unicode_len();
    if start >= n {
        return None;
    }
    let mut value: u64 = 0;
    let mut i: usize = start;
    while i < n
        invariant
            n == s@.len(),
            start <= i <= n,
            d == s@.subrange(start as int, n as int),
            value <= max,
            all_digits(d.take(i - start)),
            value == decimal_value(d.take(i - start)),
        decreases n - i,
    {
        let c = s.get_char(i);
        let ghost k = i - start;
        assert(d[k as int] == c);
        if !('0' <= c && c <= '9') {
            assert(!all_digits(d));
            return None;
        }
        proof {
            lemma_decimal_value_nonneg(d.take(k as int));
        }
        let digit = (c as u32 - '0' as u32) as u64;
        assert(d.take(k + 1).drop_last() =~= d.take(k as int));
        assert(d.take(k + 1).last() == c);
        assert(all_digits(d.take(k + 1))) by {
            assert forall|j: int| 0 <= j < d.take(k + 1).len() implies is_digit(#[trigger] d.take(k + 1)[j]) by {
                if j < k {
                    assert(d.take(k + 1)[j] == d.take(k as int)[j]);
                }
            }
        }
        if digit > max || value > (max - digit) / 10 {
            proof {
                if digit <= max {
                    assert(value * 10 + digit > max) by (nonlinear_arith)
                        requires value > (max - digit) / 10, digit <= max;
                }
                if all_digits(d) {
                    lemma_decimal_value_prefix(d, k + 1);
                    lemma_decimal_value_nonneg(d);
                }
            }
            return None;
        }
        assert(value * 10 + digit <= max) by (nonlinear_arith)
            requires value <= (max - digit) / 10, digit <= max;
        value = value * 10 + digit;
        i = i + 1;
    }
    assert(d.take(n - start) =~= d);
    proof {
        lemma_decimal_value_nonneg(d);
    }
    Some(value)
}

/// Parses an unsigned number no larger than `max`, as `str::parse` does.
fn parse_bounded(s: &str, max: u64) -> (r: Option<u64>)
    ensures
        match parse_unsigned(s@, max as int) {
            Some(v) => r == Some(v as u64) && 0 <= v <= max,
            None => r is None,
        },
{
    let n = s.unicode_len();
    let start: usize = if n > 0 && s.get_char(0) == '+' { 1 } else { 0 };
    assert(s@.subrange(start as int, s@.len() as int) =~= unsigned_digits(s@));
    parse_digits(s, start, max)
}

/// `str::parse::<u64>`.
pub fn parse_u64(s: &str) -> (r: Option<u64>)
    ensures
        match parse_unsigned(s@, u64::MAX as int) {
            Some(v) => r == Some(v as u64) && 0 <= v,
            None => r is None,
        },
{
    parse_bounded(s, u64::MAX)
}

/// `str::parse::<u32>`.
pub fn parse_u32(s: &str) -> (r: Option<u32>)
    ensures
        match parse_unsigned(s@, u32::MAX as int) {
            Some(v) => r == Some(v as u32) && 0 <= v,
            None => r is None,
        },
{
    match parse_bounded(s, u32::MAX as u64) {
        Some(v) => Some(v as u32),
        None => None,
    }
}

/// `str::parse::<usize>`.
pub fn parse_usize(s: &str) -> (r: Option<usize>)
    ensures
        match parse_unsigned(s@, usize::MAX as int) {
            Some(v) => r == Some(v as usize) && 0 <= v,
            None => r is None,
        },
{
    match parse_bounded(s, usize::MAX as u64) {
        Some(v) => Some(v as usize),
        None => None,
    }
}

/// `str::parse::<i64>`.
pub fn parse_i64(s: &str) -> (r: Option<i64>)
    ensures
        match parse_signed(s@) {
            Some(v) => r == Some(v as i64) && i64::MIN <= v <= i64::MAX,
            None => r is None,
        },
{
    let n = s.unicode_len();
    if n > 0 && s.get_char(0) == '-' {
        assert(s@.subrange(1, s@.len() as int) =~= s@.drop_first());
        match parse_digits(s, 1, 0x8000_0000_0000_0000u64) {
            Some(v) => {
                if v == 0x8000_0000_0000_0000u64 {
                    Some(i64::MIN)
                } else {
                    Some(-(v as i64))
                }
            },
            None => None,
        }
    } else {
        match parse_bounded(s, i64::MAX as u64) {
            Some(v) => Some(v as i64),
            None => None,
        }
    }
}

fn or_u64(v: Option<u64>, default: u64) -> (r: u64)
    ensures
        r == (match v { Some(x) => x, None => default }),
{
    match v {
        Some(x) => x,
        None => default,
    }
}

impl Config {
    /// The settings from the variables' values. `DATABASE_URL` must be set;
    /// every other setting falls back to its default when it is unset or
    /// does not parse.
    pub fn from_env(vars: ConfigVars) -> (c: Config)
        requires
            vars.database_url is Some,
        ensures
            ({
                    &&& c.database_url@ == vars.database_url->Some_0@
                    &&& c.bind_addr@ == (match vars.bind_addr {
                        Some(b) => b@,
                        None => "0.0.0.0:8080"@,
                    })
                    &&& c.request_timeout_secs == unsigned_setting(vars.request_timeout_secs, u64::MAX as int, 10)
                    &&& c.max_in_flight == unsigned_setting(vars.max_in_flight, usize::MAX as int, 512)
                    &&& c.pool_max_connections == unsigned_setting(vars.pool_max_connections, u32::MAX as int, 20)
                    &&& c.pool_acquire_timeout_secs == unsigned_setting(vars.pool_acquire_timeout_secs, u64::MAX as int, 3)
                    &&& c.statement_timeout_ms == unsigned_setting(vars.statement_timeout_ms, u64::MAX as int, 5000)
                    &&& c.hold_ttl_secs == signed_setting(vars.hold_ttl_secs, 120)
                    &&& c.sweep_interval_secs == unsigned_setting(vars.sweep_interval_secs, u64::MAX as int, 10)
            }),
    {
        let ConfigVars {
            database_url,
            bind_addr,
            request_timeout_secs,
            max_in_flight,
            pool_max_connections,
            pool_acquire_timeout_secs,
            statement_timeout_ms,
            hold_ttl_secs,
            sweep_interval_secs,
        } = vars;
        let database_url = database_url.unwrap();
        let bind_addr = match bind_addr {
            Some(b) => b,
            None => "0.0.0.0:8080".to_owned(),
        };
        let request_timeout_secs = match &request_timeout_secs {
            Some(v) => or_u64(parse_u64(v.as_str()), 10),
            None => 10,
        };
        let max_in_flight: usize = match &max_in_flight {
            Some(v) => match parse_usize(v.as_str()) {
                Some(x) => x,
                None => 512,
            },
            None => 512,
        };
        let pool_max_connections: u32 = match &pool_max_connections {
            Some(v) => match parse_u32(v.as_str()) {
                Some(x) => x,
                None => 20,
            },
            None => 20,
        };
        let pool_acquire_timeout_secs = match &pool_acquire_timeout_secs {
            Some(v) => or_u64(parse_u64(v.as_str()), 3),
            None => 3,
        };
        let statement_timeout_ms = match &statement_timeout_ms {
            Some(v) => or_u64(parse_u64(v.as_str()), 5000),
            None => 5000,
        };
        let hold_ttl_secs: i64 = match &hold_ttl_secs {
            Some(v) => match parse_i64(v.as_str()) {
                Some(x) => x,
                None => 120,
            },
            None => 120,
        };
        let sweep_interval_secs = match &sweep_interval_secs {
            Some(v) => or_u64(parse_u64(v.as_str()), 10),
            None => 10,
        };
        Config {
            database_url,
            bind_addr,
            request_timeout_secs,
            max_in_flight,
            pool_max_connections,
            pool_acquire_timeout_secs,
            statement_timeout_ms,
            hold_ttl_secs,
            sweep_interval_secs,
        }
    }
}

} // verus!
