//! Stash configuration. Values come from a getter, so the process environment stays out of it.
//! Numeric knobs are clamped to sane bounds.

use crate::retention::{window_ms, RetentionPolicy};
use crate::text::{
    characters, decimal, first_position, hex_bytes, hex_text, law_hex_reads_sixteens_then_ones,
    lemma_first_position, lemma_hex_writes_back, parse_decimal, parse_hex_32, split_once, str_view, string_view, trim, trimmed,
};
use vstd::prelude::*;
use vstd::string::*;

verus! {

/// Control-API port.
pub const DEFAULT_PORT: u16 = 8787;

/// Default retention window.
pub const DEFAULT_RETENTION_HOURS: u64 = 48;

/// Below an hour, a phone that is away briefly could miss its own gap.
pub const MIN_RETENTION_HOURS: u64 = 1;

/// Two weeks: keeps the memory footprint bounded.
pub const MAX_RETENTION_HOURS: u64 = 24 * 14;

/// How often the prune sweep runs.
pub const DEFAULT_PRUNE_INTERVAL_MIN: u64 = 15;

pub const MIN_PRUNE_INTERVAL_MIN: u64 = 1;

pub const MAX_PRUNE_INTERVAL_MIN: u64 = 24 * 60;

/// Fully resolved stash configuration.
#[derive(Debug, Clone, PartialEq, Eq)]
pub struct StashConfig {
    pub port: u16,
    pub retention: RetentionPolicy,
    pub prune_interval_min: u64,
    /// Control-API pre-shared key; without one the API is open.
    pub psk: Option<String>,
    /// Custom relays; none means the built-in ones.
    pub relay_urls: Vec<String>,
    /// Bearer token for the custom relays.
    pub relay_token: Option<String>,
}

/// What a [`StashConfig`] holds.
#[verifier::ext_equal]
pub struct ConfigView {
    pub port: nat,
    /// The retention window in milliseconds.
    pub window: nat,
    pub prune_interval_min: nat,
    pub psk: Option<Seq<char>>,
    pub relay_urls: Seq<Seq<char>>,
    pub relay_token: Option<Seq<char>>,
}

impl View for StashConfig {
    type V = ConfigView;

    open spec fn view(&self) -> ConfigView {
        ConfigView {
            port: self.port as nat,
            window: self.retention@,
            prune_interval_min: self.prune_interval_min as nat,
            psk: string_view(self.psk),
            relay_urls: self.relay_urls@.map_values(|s: String| s@),
            relay_token: string_view(self.relay_token),
        }
    }
}

/// The number no greater than `max` that a value holds; white space around it does not count.
pub open spec fn number(value: Option<Seq<char>>, max: nat) -> Option<nat> {
    match value {
        Some(v) => decimal(trimmed(v), max),
        None => None,
    }
}

/// `n` moved into the range from `low` to `high`.
pub open spec fn clamped(n: nat, low: nat, high: nat) -> nat {
    if n < low {
        low
    } else if n > high {
        high
    } else {
        n
    }
}

/// A number from a value, or `default`, in the range from `low` to `high`.
pub open spec fn knob(value: Option<Seq<char>>, default: nat, low: nat, high: nat) -> nat {
    match number(value, u64::MAX as nat) {
        Some(n) => clamped(n, low, high),
        None => clamped(default, low, high),
    }
}

/// The port that a value names: the default where there is none, or zero.
pub open spec fn port_of(value: Option<Seq<char>>) -> nat {
    match number(value, u16::MAX as nat) {
        Some(n) if n != 0 => n,
        _ => DEFAULT_PORT as nat,
    }
}

/// A value without the white space around it; one of white space alone counts as unset.
pub open spec fn setting(value: Option<Seq<char>>) -> Option<Seq<char>> {
    match value {
        Some(v) if trimmed(v).len() > 0 => Some(trimmed(v)),
        _ => None,
    }
}

/// The parts of a comma-separated list, without white space around them; empty ones are left out.
pub open spec fn list_parts(s: Seq<char>) -> Seq<Seq<char>>
    decreases s.len(),
    via list_parts_decreases
{
    match first_position(s, ',') {
        Some(i) => part(s.take(i)) + list_parts(s.skip(i + 1)),
        None => part(s),
    }
}

#[via_fn]
proof fn list_parts_decreases(s: Seq<char>) {
    lemma_first_position(s, ',');
}

/// One part of a list: nothing, if it is white space alone.
pub open spec fn part(s: Seq<char>) -> Seq<Seq<char>> {
    if trimmed(s).len() > 0 {
        seq![trimmed(s)]
    } else {
        Seq::empty()
    }
}

/// The configuration that six values give.
pub open spec fn resolved(
    port: Option<Seq<char>>,
    retention_hours: Option<Seq<char>>,
    prune_interval_min: Option<Seq<char>>,
    psk: Option<Seq<char>>,
    relay_urls: Option<Seq<char>>,
    relay_token: Option<Seq<char>>,
) -> ConfigView {
    ConfigView {
        port: port_of(port),
        window: window_ms(
            knob(
                retention_hours,
                DEFAULT_RETENTION_HOURS as nat,
                MIN_RETENTION_HOURS as nat,
                MAX_RETENTION_HOURS as nat,
            ),
        ),
        prune_interval_min: knob(
            prune_interval_min,
            DEFAULT_PRUNE_INTERVAL_MIN as nat,
            MIN_PRUNE_INTERVAL_MIN as nat,
            MAX_PRUNE_INTERVAL_MIN as nat,
        ),
        psk: setting(psk),
        relay_urls: match relay_urls {
            Some(list) => list_parts(list),
            None => Seq::empty(),
        },
        relay_token: setting(relay_token),
    }
}

fn parse_number(value: &Option<String>, max: u64) -> (r: Option<u64>)
    ensures
        match number(string_view(*value), max as nat) {
            Some(n) => r == Some(n as u64),
            None => r is None,
        },
        r matches Some(n) ==> n <= max,
{
    match value {
        Some(v) => parse_decimal(&characters(trim(v.as_str())), max),
        None => None,
    }
}

fn parse_knob(value: &Option<String>, default: u64, low: u64, high: u64) -> (r: u64)
    ensures
        r == knob(string_view(*value), default as nat, low as nat, high as nat),
{
    let n: u64 = match parse_number(value, u64::MAX) {
        Some(n) => n,
        None => default,
    };
    if n < low {
        low
    } else if n > high {
        high
    } else {
        n
    }
}

fn parse_setting(value: &Option<String>) -> (r: Option<String>)
    ensures
        string_view(r) == setting(string_view(*value)),
{
    match value {
        Some(v) => {
            let t = trim(v.as_str());
            if t.is_empty() {
                None
            } else {
                Some(t.to_string())
            }
        },
        None => None,
    }
}

fn push_part(out: &mut Vec<String>, s: &str)
    ensures
        final(out)@.map_values(|x: String| x@) == old(out)@.map_values(|x: String| x@) + part(s@),
{
    let t = trim(s);
    let ghost before = out@;
    if !t.is_empty() {
        out.push(t.to_string());
    }
    assert(out@.map_values(|x: String| x@) =~= before.map_values(|x: String| x@) + part(s@));
}

/// Splits a comma-separated list into its parts.
pub fn parse_list(list: &str) -> (r: Vec<String>)
    ensures
        r@.map_values(|s: String| s@) == list_parts(list@),
{
    let mut out: Vec<String> = Vec::new();
    let mut rest = list;
    assert(out@.map_values(|s: String| s@) + list_parts(rest@) =~= list_parts(list@));
    loop
        invariant
            out@.map_values(|s: String| s@) + list_parts(rest@) == list_parts(list@),
        decreases rest@.len(),
    {
        proof {
            lemma_first_position(rest@, ',');
        }
        let ghost before = out@.map_values(|s: String| s@);
        match split_once(rest, ',') {
            Some((head, tail)) => {
                push_part(&mut out, head);
                assert(before + (part(head@) + list_parts(tail@)) =~= out@.map_values(
                    |s: String| s@,
                ) + list_parts(tail@));
                rest = tail;
            },
            None => {
                push_part(&mut out, rest);
                return out;
            },
        }
    }
}

/// Whether `get` may give `value` for `key`.
pub open spec fn gives<F: Fn(&str) -> Option<String>>(
    get: F,
    key: Seq<char>,
    value: Option<Seq<char>>,
) -> bool {
    exists|k: &str, v: Option<String>|
        k@ == key && string_view(v) == value && #[trigger] get.ensures((k,), v)
}

impl StashConfig {
    /// Resolves the configuration from the values of its environment variables. Unset or unreadable
    /// ones fall back to the defaults; numbers out of range are clamped.
    pub fn resolve(
        port: Option<String>,
        retention_hours: Option<String>,
        prune_interval_min: Option<String>,
        psk: Option<String>,
        relay_urls: Option<String>,
        relay_token: Option<String>,
    ) -> (r: Self)
        ensures
            r@ == resolved(
                string_view(port),
                string_view(retention_hours),
                string_view(prune_interval_min),
                string_view(psk),
                string_view(relay_urls),
                string_view(relay_token),
            ),
    {
        let port: u16 = match parse_number(&port, 65535) {
            Some(n) => if n != 0 {
                n as u16
            } else {
                DEFAULT_PORT
            },
            None => DEFAULT_PORT,
        };
        let hours: u64 = parse_knob(
            &retention_hours,
            DEFAULT_RETENTION_HOURS,
            MIN_RETENTION_HOURS,
            MAX_RETENTION_HOURS,
        );
        let prune_interval_min: u64 = parse_knob(
            &prune_interval_min,
            DEFAULT_PRUNE_INTERVAL_MIN,
            MIN_PRUNE_INTERVAL_MIN,
            MAX_PRUNE_INTERVAL_MIN,
        );
        let urls = match &relay_urls {
            Some(list) => parse_list(list.as_str()),
            None => Vec::new(),
        };
        assert(relay_urls is None ==> urls@.map_values(|s: String| s@) =~= Seq::empty());
        StashConfig {
            port,
            retention: RetentionPolicy::from_hours(hours),
            prune_interval_min,
            psk: parse_setting(&psk),
            relay_urls: urls,
            relay_token: parse_setting(&relay_token),
        }
    }

    /// Resolves the configuration from a getter over environment variables: `PORT`,
    /// `TRAIL_STASH_RETENTION_HOURS`, `TRAIL_STASH_PRUNE_INTERVAL_MIN`, `TRAIL_STASH_PSK`,
    /// `TRAIL_STASH_RELAY_URLS` and `TRAIL_STASH_RELAY_TOKEN`.
    pub fn from_env<F: Fn(&str) -> Option<String>>(get: F) -> (r: Self)
        requires
            forall|key: &str| #[trigger] get.requires((key,)),
        ensures
            exists|
                port: Option<Seq<char>>,
                hours: Option<Seq<char>>,
                interval: Option<Seq<char>>,
                psk: Option<Seq<char>>,
                urls: Option<Seq<char>>,
                token: Option<Seq<char>>,
            |
                {
                    &&& gives(get, "PORT"@, port)
                    &&& gives(get, "TRAIL_STASH_RETENTION_HOURS"@, hours)
                    &&& gives(get, "TRAIL_STASH_PRUNE_INTERVAL_MIN"@, interval)
                    &&& gives(get, "TRAIL_STASH_PSK"@, psk)
                    &&& gives(get, "TRAIL_STASH_RELAY_URLS"@, urls)
                    &&& gives(get, "TRAIL_STASH_RELAY_TOKEN"@, token)
                    &&& r@ == #[trigger] resolved(port, hours, interval, psk, urls, token)
                },
    {
        let port = get("PORT");
        let hours = get("TRAIL_STASH_RETENTION_HOURS");
        let interval = get("TRAIL_STASH_PRUNE_INTERVAL_MIN");
        let psk = get("TRAIL_STASH_PSK");
        let urls = get("TRAIL_STASH_RELAY_URLS");
        let token = get("TRAIL_STASH_RELAY_TOKEN");
        assert(gives(get, "PORT"@, string_view(port)));
        assert(gives(get, "TRAIL_STASH_RETENTION_HOURS"@, string_view(hours)));
        assert(gives(get, "TRAIL_STASH_PRUNE_INTERVAL_MIN"@, string_view(interval)));
        assert(gives(get, "TRAIL_STASH_PSK"@, string_view(psk)));
        assert(gives(get, "TRAIL_STASH_RELAY_URLS"@, string_view(urls)));
        assert(gives(get, "TRAIL_STASH_RELAY_TOKEN"@, string_view(token)));
        StashConfig::resolve(port, hours, interval, psk, urls, token)
    }
}

/// Why there is no identity to run under.
#[derive(Debug, Clone, Copy, PartialEq, Eq, Structural)]
pub enum SecretKeyError {
    Missing,
    Malformed,
}

impl SecretKeyError {
    /// The text that an operator is told.
    pub open spec fn text(self) -> Seq<char> {
        match self {
            SecretKeyError::Missing =>
                "TRAIL_STASH_SECRET_KEY is required (64 hex chars). Generate one with: openssl rand -hex 32"@,
            SecretKeyError::Malformed =>
                "TRAIL_STASH_SECRET_KEY must be exactly 64 lowercase hex chars"@,
        }
    }

    /// The text that an operator is told.
    pub fn message(&self) -> (r: &'static str)
        ensures
            r@ == self.text(),
    {
        match self {
            SecretKeyError::Missing =>
                "TRAIL_STASH_SECRET_KEY is required (64 hex chars). Generate one with: openssl rand -hex 32",
            SecretKeyError::Malformed =>
                "TRAIL_STASH_SECRET_KEY must be exactly 64 lowercase hex chars",
        }
    }
}

/// The seed of the stash's stable identity: 64 lowercase hexadecimal digits, with or without white
/// space around them.
pub fn parse_secret_key(value: Option<&str>) -> (r: Result<[u8; 32], SecretKeyError>)
    ensures
        match str_view(value) {
            None => r == Err::<[u8; 32], SecretKeyError>(SecretKeyError::Missing),
            Some(v) => match hex_bytes(trimmed(v), false) {
                Some(bytes) if bytes.len() == 32 => r matches Ok(seed) && seed@ == bytes,
                _ => r == Err::<[u8; 32], SecretKeyError>(SecretKeyError::Malformed),
            },
        },
{
    match value {
        None => Err(SecretKeyError::Missing),
        Some(v) => match parse_hex_32(trim(v)) {
            Some(seed) => Ok(seed),
            None => Err(SecretKeyError::Malformed),
        },
    }
}

/// Law: whatever the environment holds, the knobs are in bounds: a usable port, a window from one
/// hour to two weeks, a sweep from every minute to every day, and no empty key, token or relay.
pub proof fn law_knobs_are_in_bounds(
    port: Option<Seq<char>>,
    hours: Option<Seq<char>>,
    interval: Option<Seq<char>>,
    psk: Option<Seq<char>>,
    urls: Option<Seq<char>>,
    token: Option<Seq<char>>,
)
    ensures
        ({
            let config = resolved(port, hours, interval, psk, urls, token);
            &&& 1 <= config.port <= u16::MAX
            &&& window_ms(MIN_RETENTION_HOURS as nat) <= config.window <= window_ms(
                MAX_RETENTION_HOURS as nat,
            )
            &&& MIN_PRUNE_INTERVAL_MIN <= config.prune_interval_min <= MAX_PRUNE_INTERVAL_MIN
            &&& config.psk matches Some(key) ==> key.len() > 0
            &&& config.relay_token matches Some(t) ==> t.len() > 0
            &&& forall|i: int|
                0 <= i < config.relay_urls.len() ==> (#[trigger] config.relay_urls[i]).len() > 0
        }),
{
    match urls {
        Some(list) => lemma_parts_are_not_empty(list),
        None => {},
    }
}

proof fn lemma_parts_are_not_empty(s: Seq<char>)
    ensures
        forall|i: int| 0 <= i < list_parts(s).len() ==> (#[trigger] list_parts(s)[i]).len() > 0,
    decreases s.len(),
{
    lemma_first_position(s, ',');
    match first_position(s, ',') {
        Some(i) => {
            let head = part(s.take(i));
            let tail = list_parts(s.skip(i + 1));
            lemma_parts_are_not_empty(s.skip(i + 1));
            assert forall|k: int| 0 <= k < list_parts(s).len() implies (#[trigger] list_parts(s)[k]).len()
                > 0 by {
                assert(list_parts(s) == head + tail);
                if k >= head.len() {
                    assert(list_parts(s)[k] == tail[k - head.len()]);
                }
            }
        },
        None => {},
    }
}

/// The number no greater than `max` that stands in a value without the white space around it.
pub open spec fn number_in(value: Option<String>, max: nat) -> Option<nat> {
    match value {
        Some(v) => decimal(trimmed(v@), max),
        None => None,
    }
}

/// Law: every setting comes from its own value. The port is the number from 1 to 65535 that its value
/// holds, else 8787. The window is so many hours as its value holds, from 1 to 336, else 48; the sweep
/// every so many minutes, from 1 to 1440, else 15. The key and the token are their values without the
/// white space around them, where anything is left.
pub proof fn law_every_setting_comes_from_its_value(
    port: Option<String>,
    hours: Option<String>,
    interval: Option<String>,
    psk: Option<String>,
    urls: Option<String>,
    token: Option<String>,
    config: StashConfig,
)
    requires
        call_ensures(StashConfig::resolve, (port, hours, interval, psk, urls, token), config),
    ensures
        number_in(port, 65_535) matches Some(n) ==> (n > 0 ==> config.port == n),
        number_in(port, 65_535) is None || number_in(port, 65_535) == Some(0nat) ==> config.port
            == 8787,
        number_in(hours, 18_446_744_073_709_551_615) is None ==> config.retention@ == 48
            * 3_600_000,
        number_in(hours, 18_446_744_073_709_551_615) matches Some(n) ==> {
            &&& n < 1 ==> config.retention@ == 3_600_000
            &&& 1 <= n <= 336 ==> config.retention@ == n * 3_600_000
            &&& n > 336 ==> config.retention@ == 336 * 3_600_000
        },
        number_in(interval, 18_446_744_073_709_551_615) is None ==> config.prune_interval_min == 15,
        number_in(interval, 18_446_744_073_709_551_615) matches Some(n) ==> {
            &&& n < 1 ==> config.prune_interval_min == 1
            &&& 1 <= n <= 1440 ==> config.prune_interval_min == n
            &&& n > 1440 ==> config.prune_interval_min == 1440
        },
        config.psk is Some <==> (psk matches Some(v) && trimmed(v@).len() > 0),
        config.psk matches Some(key) ==> key@ == trimmed(psk->0@),
        config.relay_token is Some <==> (token matches Some(v) && trimmed(v@).len() > 0),
        config.relay_token matches Some(t) ==> t@ == trimmed(token->0@),
        urls is None ==> config.relay_urls@.len() == 0,
        urls matches Some(list) ==> config.relay_urls@.map_values(|s: String| s@) == list_parts(
            list@,
        ),
{
    assert(config@.relay_urls.len() == config.relay_urls@.len());
}

/// Law: every setting has its own variable. Where the getter can give but one value for each, these
/// are the values that the configuration is resolved from.
pub proof fn law_every_setting_has_its_variable<F: Fn(&str) -> Option<String>>(
    get: F,
    config: StashConfig,
    port: Option<Seq<char>>,
    hours: Option<Seq<char>>,
    interval: Option<Seq<char>>,
    psk: Option<Seq<char>>,
    urls: Option<Seq<char>>,
    token: Option<Seq<char>>,
)
    requires
        call_ensures(StashConfig::from_env::<F>, (get,), config),
        forall|v: Option<Seq<char>>| #[trigger] gives(get, "PORT"@, v) ==> v == port,
        forall|v: Option<Seq<char>>| #[trigger]
            gives(get, "TRAIL_STASH_RETENTION_HOURS"@, v) ==> v == hours,
        forall|v: Option<Seq<char>>| #[trigger]
            gives(get, "TRAIL_STASH_PRUNE_INTERVAL_MIN"@, v) ==> v == interval,
        forall|v: Option<Seq<char>>| #[trigger] gives(get, "TRAIL_STASH_PSK"@, v) ==> v == psk,
        forall|v: Option<Seq<char>>| #[trigger]
            gives(get, "TRAIL_STASH_RELAY_URLS"@, v) ==> v == urls,
        forall|v: Option<Seq<char>>| #[trigger]
            gives(get, "TRAIL_STASH_RELAY_TOKEN"@, v) ==> v == token,
    ensures
        config@ == resolved(port, hours, interval, psk, urls, token),
{
}

/// Law: a list is split at every comma: the part before the first one, without the white space around
/// it, then the parts of the rest. A part of white space alone is left out.
pub proof fn law_list_is_split_at_every_comma(head: Seq<char>, tail: Seq<char>)
    requires
        forall|i: int| 0 <= i < head.len() ==> #[trigger] head[i] != ',',
    ensures
        trimmed(head).len() > 0 ==> list_parts(head + seq![','] + tail) == seq![trimmed(head)]
            + list_parts(tail),
        trimmed(head).len() == 0 ==> list_parts(head + seq![','] + tail) == list_parts(tail),
        trimmed(head).len() > 0 ==> list_parts(head) == seq![trimmed(head)],
        trimmed(head).len() == 0 ==> list_parts(head).len() == 0,
{
    let s = head + seq![','] + tail;
    let n = head.len() as int;
    lemma_first_position(s, ',');
    lemma_first_position(head, ',');
    assert(s[n] == ',');
    assert forall|k: int| 0 <= k < n implies #[trigger] s[k] != ',' by {
        assert(s[k] == head[k]);
    }
    assert(first_position(s, ',') == Some(n));
    assert(s.take(n) =~= head);
    assert(s.skip(n + 1) =~= tail);
    assert(Seq::<Seq<char>>::empty() + list_parts(tail) =~= list_parts(tail));
}

/// Law: the secret key is read exactly from 64 lowercase hexadecimal digits, white space around them
/// aside, and reads as the bytes that they write.
pub proof fn law_secret_key_is_read_from_its_digits(
    value: Option<&str>,
    r: Result<[u8; 32], SecretKeyError>,
)
    requires
        call_ensures(parse_secret_key, (value,), r),
    ensures
        value is None ==> (r matches Err(error) && error is Missing),
        value matches Some(v) ==> {
            let digits = trimmed(v@);
            let good = digits.len() == 64 && forall|i: int|
                0 <= i < digits.len() ==> ('0' <= #[trigger] digits[i] <= '9' || 'a' <= digits[i]
                    <= 'f');
            &&& good ==> (r matches Ok(seed) && hex_text(seed@) == digits)
            &&& !good ==> (r matches Err(error) && error is Malformed)
        },
{
    if let Some(v) = value {
        law_hex_reads_sixteens_then_ones(trimmed(v@), false, 0);
        if hex_bytes(trimmed(v@), false) is Some {
            lemma_hex_writes_back(trimmed(v@));
        }
    }
}

} // verus!
