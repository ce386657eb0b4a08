//! Worker configuration.
//!
//! The configuration is assembled from environment values handed in as plain
//! strings: the unverified shell reads the process environment and passes
//! each variable through unchanged.  Numeric variables are parsed as decimal
//! u64; a missing or unparsable value falls back to its default.

use vstd::prelude::*;
use vstd::string::*;

verus! {

/// Whether the worker runs in development or production mode.
#[derive(Debug, PartialEq, Eq, Structural)]
pub enum Environment {
    Development,
    Production,
}

/// Timing of the background reaper, in seconds.
pub struct BackgroundConfig {
    /// The tick interval between reaper cycles.
    pub time: u64,
    /// The idle age beyond which an invocation is evicted.
    pub resource_ttl: u64,
}

/// The worker's startup configuration.
pub struct ServerConfig {
    pub addr: String,
    pub controlplane_clinet: String,
    pub registry_clinet: String,
    pub env: Environment,
    pub background_config: BackgroundConfig,
}

/// A decimal digit.
pub open spec fn is_digit_char(c: char) -> bool {
    48 <= c as u32 && c as u32 <= 57
}

pub open spec fn all_digits(s: Seq<char>) -> bool {
    forall|i: int| 0 <= i < s.len() ==> is_digit_char(#[trigger] s[i])
}

/// The value of a digit string, most significant digit first.
pub open spec fn digits_value(s: Seq<char>) -> int
    decreases s.len(),
{
    if s.len() == 0 {
        0
    } else {
        digits_value(s.drop_last()) * 10 + (s.last() as u32 - 48)
    }
}

/// The digits of a numeral: everything after an optional leading `+`.
pub open spec fn numeral_body(s: Seq<char>) -> Seq<char> {
    if s.len() >= 1 && s[0] == '+' {
        s.subrange(1, s.len() as int)
    } else {
        s
    }
}

/// What `str::parse::<u64>` accepts: an optional leading `+`, then one or
/// more decimal digits, denoting a value that fits in a u64.
pub open spec fn spec_parse_u64(s: Seq<char>) -> Option<u64> {
    let d = numeral_body(s);
    if d.len() == 0 || !all_digits(d) || digits_value(d) > u64::MAX {
        None
    } else {
        Some(digits_value(d) as u64)
    }
}

proof fn lemma_digits_nonneg(s: Seq<char>)
    requires
        all_digits(s),
    ensures
        digits_value(s) >= 0,
    decreases s.len(),
{
    if s.len() > 0 {
        assert(all_digits(s.drop_last()));
        lemma_digits_nonneg(s.drop_last());
    }
}

/// The value of a digit string dominates the value of any prefix of it.
proof fn lemma_digits_prefix_le(s: Seq<char>, i: int)
    requires
        all_digits(s),
        0 <= i <= s.len(),
    ensures
        digits_value(s.take(i)) <= digits_value(s),
    decreases s.len(),
{
    if i == s.len() {
        assert(s.take(i) =~= s);
    } else {
        assert(all_digits(s.drop_last()));
        lemma_digits_prefix_le(s.drop_last(), i);
        assert(s.drop_last().take(i) =~= s.take(i));
        lemma_digits_nonneg(s.drop_last());
    }
}

/// Parses a decimal u64 as `str::parse::<u64>` would: `None` on an empty
/// numeral, a non-digit, or overflow.
pub fn parse_u64(s: &str) -> (r: Option<u64>)
    ensures
        r == spec_parse_u64(s@),
{
    let ghost body = numeral_body(s@);
    let n = s.unicode_len();
    let start: usize = if n >= 1 && s.get_char(0) == '+' {
        1
    } else {
        0
    };
    proof {
        assert(body.len() == n - start);
        assert(forall|k: int| 0 <= k < body.len() ==> body[k] == s@[k + start]);
    }
    if n == start {
        return None;
    }
    let mut acc: u64 = 0;
    let mut i: usize = start;
    while i < n
        invariant
            start <= i <= n,
            n == s@.len(),
            body == numeral_body(s@),
            body.len() == n - start,
            forall|k: int| 0 <= k < body.len() ==> body[k] == s@[k + start],
            all_digits(body.take(i - start)),
            acc == digits_value(body.take(i - start)),
        decreases n - i,
    {
        let c = s.get_char(i);
        let u = c as u32;
        if !(48 <= u && u <= 57) {
            proof {
                assert(body[i - start] == s@[i as int]);
                assert(!is_digit_char(body[i - start]));
            }
            return None;
        }
        let d = (u - 48) as u64;
        // would acc * 10 + d exceed u64::MAX?
        if acc > 1844674407370955161 || (acc == 1844674407370955161 && d > 5) {
            proof {
                let j = i - start + 1;
                assert(body.take(j).drop_last() =~= body.take(i - start));
                assert(body.take(j).last() == body[i - start]);
                assert(digits_value(body.take(j)) == acc * 10 + d);
                assert(digits_value(body.take(j)) > u64::MAX);
                if all_digits(body) {
                    lemma_digits_prefix_le(body, j);
                }
            }
            return None;
        }
        acc = acc * 10 + d;
        proof {
            let j = i - start + 1;
            assert(body.take(j).drop_last() =~= body.take(i - start));
            assert(body.take(j).last() == body[i - start]);
            assert(all_digits(body.take(j)));
        }
        i += 1;
    }
    proof {
        assert(body.take(n - start) =~= body);
    }
    Some(acc)
}

/// The value of an optional environment variable parsed as u64, with a
/// default for a missing or unparsable one.
pub open spec fn spec_env_u64(v: Option<String>, default: u64) -> u64 {
    match v {
        Some(s) => match spec_parse_u64(s@) {
            Some(x) => x,
            None => default,
        },
        None => default,
    }
}

/// Parses an optional environment value, falling back to a default.
pub fn env_u64(v: &Option<String>, default: u64) -> (r: u64)
    ensures
        r == spec_env_u64(*v, default),
{
    match v {
        Some(s) => match parse_u64(s.as_str()) {
            Some(x) => x,
            None => default,
        },
        None => default,
    }
}

/// An optional string value or a default literal.
pub open spec fn spec_or_default(v: Option<String>, default: Seq<char>) -> Seq<char> {
    match v {
        Some(s) => s@,
        None => default,
    }
}

fn or_default(v: Option<String>, default: &str) -> (r: String)
    ensures
        r@ == spec_or_default(v, default@),
{
    match v {
        Some(s) => s,
        None => String::from_str(default),
    }
}

impl ServerConfig {
    /// Assembles the configuration from raw environment values:
    /// `SERVER_ADDR`, `CONTROLPLANE_CLINET`, `REGISTRY_CLINET`,
    /// `BACGROUND_TIME` and `BACKGROUND_RESOURCE_TTL`, each `None` when the
    /// variable is unset, plus the build mode.
    pub fn from_env_values(
        addr: Option<String>,
        controlplane: Option<String>,
        registry: Option<String>,
        is_dev: bool,
        time: Option<String>,
        resource_ttl: Option<String>,
    ) -> (r: ServerConfig)
        ensures
            r.addr@ == spec_or_default(addr, "[::1]:50003"@),
            r.controlplane_clinet@ == spec_or_default(controlplane, "http://localhost:50002"@),
            r.registry_clinet@ == spec_or_default(registry, "http://localhost:50001"@),
            r.env == if is_dev {
                Environment::Development
            } else {
                Environment::Production
            },
            r.background_config.time == spec_env_u64(time, 10),
            r.background_config.resource_ttl == spec_env_u64(resource_ttl, 30),
    {
        let t = env_u64(&time, 10);
        let ttl = env_u64(&resource_ttl, 30);
        ServerConfig {
            addr: or_default(addr, "[::1]:50003"),
            controlplane_clinet: or_default(controlplane, "http://localhost:50002"),
            registry_clinet: or_default(registry, "http://localhost:50001"),
            env: if is_dev {
                Environment::Development
            } else {
                Environment::Production
            },
            background_config: BackgroundConfig { time: t, resource_ttl: ttl },
        }
    }
}

} // verus!
