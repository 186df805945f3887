//! Control-API pre-shared key: an anti-abuse guard, not an authentication boundary. Envelopes are
//! encrypted end to end whoever passes it.

use crate::config::setting;
use crate::text::{
    ascii_lowered, eq_ignore_case, equal_ignoring_case, first_position, is_white_space,
    lemma_first_position, lemma_trimmed, split_once, str_view, trim, trimmed,
};
use vstd::prelude::*;
use vstd::string::*;
use vstd::utf8::*;

verus! {

/// Outcome of checking a request's bearer token against the configured key.
#[derive(Debug, Clone, Copy, PartialEq, Eq, Structural)]
pub enum AuthOutcome {
    /// No key is configured, so nothing is asked for. Allowed.
    Disabled,
    /// The token matched the configured key.
    Matched,
    /// A key is configured, and the token was missing or wrong.
    Denied,
}

impl AuthOutcome {
    /// Whether a request with this outcome may proceed.
    pub open spec fn allows(self) -> bool {
        !(self is Denied)
    }

    /// Whether a request with this outcome may proceed.
    pub fn is_allowed(&self) -> (r: bool)
        ensures
            r == self.allows(),
    {
        match self {
            AuthOutcome::Denied => false,
            _ => true,
        }
    }
}

/// The outcome for a configured key and a token.
pub open spec fn outcome(expected: Option<Seq<char>>, provided: Option<Seq<char>>) -> AuthOutcome {
    if expected is None {
        AuthOutcome::Disabled
    } else if provided == expected {
        AuthOutcome::Matched
    } else {
        AuthOutcome::Denied
    }
}

/// Decides whether a request may proceed. `expected` is the configured key, `provided` the token
/// from the request's `Authorization: Bearer` header.
pub fn authorize(expected: Option<&str>, provided: Option<&str>) -> (r: AuthOutcome)
    ensures
        r == outcome(str_view(expected), str_view(provided)),
{
    match expected {
        None => AuthOutcome::Disabled,
        Some(psk) => match provided {
            Some(tok) => {
                proof {
                    encode_utf8_decode_utf8(psk@);
                    encode_utf8_decode_utf8(tok@);
                }
                if ct_eq(psk.as_bytes(), tok.as_bytes()) {
                    AuthOutcome::Matched
                } else {
                    AuthOutcome::Denied
                }
            },
            None => AuthOutcome::Denied,
        },
    }
}

/// The token of an `Authorization` header of the form `Bearer <token>`, whatever the case of the
/// scheme.
pub open spec fn token_of(header: Option<Seq<char>>) -> Option<Seq<char>> {
    match header {
        Some(value) => {
            let v = trimmed(value);
            match first_position(v, ' ') {
                Some(i) => {
                    let token = trimmed(v.skip(i + 1));
                    if equal_ignoring_case(v.take(i), "bearer"@) && token.len() > 0 {
                        Some(token)
                    } else {
                        None
                    }
                },
                None => None,
            }
        },
        None => None,
    }
}

/// Extracts the token from an `Authorization` header value. `None` if the header is missing or
/// malformed.
pub fn bearer_token<'a>(header_value: Option<&'a str>) -> (r: Option<&'a str>)
    ensures
        str_view(r) == token_of(str_view(header_value)),
{
    match header_value {
        Some(value) => match split_once(trim(value), ' ') {
            Some((scheme, rest)) => {
                let token = trim(rest);
                if eq_ignore_case(scheme, "bearer") && !token.is_empty() {
                    Some(token)
                } else {
                    None
                }
            },
            None => None,
        },
        None => None,
    }
}

/// Compares bytes without stopping at the first difference, so that timing does not tell where it
/// is. The lengths are not secret.
pub fn ct_eq(a: &[u8], b: &[u8]) -> (r: bool)
    ensures
        r == (a@ == b@),
{
    if a.len() != b.len() {
        return false;
    }
    let mut diff: u8 = 0;
    let mut i: usize = 0;
    while i < a.len()
        invariant
            a@.len() == b@.len(),
            i <= a@.len(),
            diff == 0 <==> forall|k: int| 0 <= k < i ==> #[trigger] a@[k] == b@[k],
        decreases a@.len() - i,
    {
        let x = a[i];
        let y = b[i];
        assert((diff | (x ^ y)) == 0 <==> diff == 0 && x == y) by (bit_vector);
        diff = diff | (x ^ y);
        i = i + 1;
    }
    assert(diff == 0 ==> a@ =~= b@);
    diff == 0
}

/// Law: a request passes exactly when no key is configured or its token is that key.
pub proof fn law_gate_opens_only_for_the_key(
    expected: Option<Seq<char>>,
    provided: Option<Seq<char>>,
)
    ensures
        outcome(expected, provided).allows() <==> expected is None || provided == expected,
{
}

/// Law: a token that a client sends as `Bearer <token>`, whatever the case of the scheme, is the
/// token that is read.
pub proof fn law_bearer_header_carries_its_token(scheme: Seq<char>, token: Seq<char>)
    requires
        equal_ignoring_case(scheme, "bearer"@),
        token.len() > 0,
        trimmed(token) == token,
    ensures
        token_of(Some(scheme + " "@ + token)) == Some(token),
{
    reveal_strlit("bearer");
    reveal_strlit(" ");
    let header = scheme + " "@ + token;
    lemma_trimmed(token);
    assert forall|k: int| 0 <= k < scheme.len() implies !is_white_space(#[trigger] scheme[k]) by {
        assert(ascii_lowered(scheme[k]) == ascii_lowered("bearer"@[k]));
    }
    assert(header[0] == scheme[0]);
    assert(header.last() == token.last());
    assert(trimmed(header) == header);
    lemma_first_position(header, ' ');
    let n = scheme.len() as int;
    assert(header[n] == ' ');
    assert forall|k: int| 0 <= k < n implies #[trigger] header[k] != ' ' by {
        assert(header[k] == scheme[k]);
    }
    assert(header.take(n) =~= scheme);
    assert(header.skip(n + 1) =~= token);
}

/// Law: a client that sends the configured key passes. The key is what configuration makes of its
/// setting: trimmed, and not empty.
pub proof fn law_configured_key_passes(value: Seq<char>, key: Seq<char>, scheme: Seq<char>)
    requires
        setting(Some(value)) == Some(key),
        equal_ignoring_case(scheme, "bearer"@),
    ensures
        outcome(Some(key), token_of(Some(scheme + " "@ + key))) is Matched,
{
    lemma_trimmed(value);
    law_bearer_header_carries_its_token(scheme, key);
}

/// Law: the outcome says why: nothing is asked for exactly when no key is configured, and a token
/// matches exactly when it is the key, to the last character.
pub proof fn law_outcome_says_why(expected: Option<Seq<char>>, provided: Option<Seq<char>>)
    ensures
        outcome(expected, provided) is Disabled <==> expected is None,
        outcome(expected, provided) is Matched <==> (expected matches Some(key) && (
        provided matches Some(token) && token.len() == key.len() && forall|i: int|
            0 <= i < key.len() ==> #[trigger] token[i] == key[i])),
        outcome(expected, provided).allows() <==> !(outcome(expected, provided) is Denied),
{
    if let (Some(key), Some(token)) = (expected, provided) {
        if token.len() == key.len() && (forall|i: int|
            0 <= i < key.len() ==> #[trigger] token[i] == key[i]) {
            assert(token =~= key);
        }
    }
}

/// Law: a header carries a token exactly when, without the white space around it, it starts with the
/// six letters of the scheme in either case, then a space, and something follows that is not white
/// space alone; the token is what follows, without the white space around it.
pub proof fn law_only_bearer_headers_carry_a_token(header: Seq<char>)
    ensures
        ({
            let v = trimmed(header);
            let bearer = v.len() > 6 && (v[0] == 'b' || v[0] == 'B') && (v[1] == 'e' || v[1] == 'E')
                && (v[2] == 'a' || v[2] == 'A') && (v[3] == 'r' || v[3] == 'R') && (v[4] == 'e'
                || v[4] == 'E') && (v[5] == 'r' || v[5] == 'R') && v[6] == ' ';
            &&& bearer && trimmed(v.skip(7)).len() > 0 ==> token_of(Some(header)) == Some(
                trimmed(v.skip(7)),
            )
            &&& !bearer || trimmed(v.skip(7)).len() == 0 ==> token_of(Some(header)) is None
        }),
        token_of(None) is None,
{
    reveal_strlit("bearer");
    let v = trimmed(header);
    let b = "bearer"@;
    lemma_first_position(v, ' ');
    if v.len() > 6 && (v[0] == 'b' || v[0] == 'B') && (v[1] == 'e' || v[1] == 'E') && (v[2] == 'a'
        || v[2] == 'A') && (v[3] == 'r' || v[3] == 'R') && (v[4] == 'e' || v[4] == 'E') && (v[5]
        == 'r' || v[5] == 'R') && v[6] == ' ' {
        assert(first_position(v, ' ') == Some(6int));
        let scheme = v.take(6);
        assert forall|i: int| 0 <= i < scheme.len() implies #[trigger] ascii_lowered(scheme[i])
            == ascii_lowered(b[i]) by {
            assert(scheme[i] == v[i]);
            assert(i == 0 || i == 1 || i == 2 || i == 3 || i == 4 || i == 5);
        }
        assert(equal_ignoring_case(scheme, b));
    } else if token_of(Some(header)) is Some {
        let i = first_position(v, ' ')->0;
        let scheme = v.take(i);
        assert(equal_ignoring_case(scheme, b));
        assert(i == 6);
        assert(ascii_lowered(scheme[0]) == ascii_lowered(b[0]));
        assert(ascii_lowered(scheme[1]) == ascii_lowered(b[1]));
        assert(ascii_lowered(scheme[2]) == ascii_lowered(b[2]));
        assert(ascii_lowered(scheme[3]) == ascii_lowered(b[3]));
        assert(ascii_lowered(scheme[4]) == ascii_lowered(b[4]));
        assert(ascii_lowered(scheme[5]) == ascii_lowered(b[5]));
        assert(false);
    }
}

} // verus!
