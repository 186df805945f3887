//! Telemetry: the join keys that spans carry, and where traces and logs go.

use crate::log_redaction::{
    answers, are_found, is_candidate, is_punctuation, law_short_line_is_unchanged, may_be_address,
    redaction, Class, Span,
};
use crate::text::{hex_text, string_view, to_hex, trim, trimmed};
use crate::waker::or_empty;
use vstd::prelude::*;
use vstd::string::*;

verus! {

/// How many bytes of an id a join key shows.
pub const SHORT_BYTES: usize = 5;

/// The first bytes of an id in hexadecimal.
pub open spec fn short_text(bytes: Seq<u8>) -> Seq<char> {
    hex_text(
        bytes.take(
            if bytes.len() < SHORT_BYTES {
                bytes.len() as int
            } else {
                SHORT_BYTES as int
            },
        ),
    )
}

/// The first ten hexadecimal digits of an id: short enough not to identify.
pub fn short_hex(bytes: &[u8]) -> (r: String)
    ensures
        r@ == short_text(bytes@),
{
    let mut head: Vec<u8> = Vec::new();
    let mut i: usize = 0;
    while i < bytes.len() && i < SHORT_BYTES
        invariant
            i <= bytes@.len(),
            i <= SHORT_BYTES,
            head@ == bytes@.take(i as int),
        decreases bytes@.len() - i,
    {
        head.push(bytes[i]);
        assert(head@ =~= bytes@.take(i + 1));
        i = i + 1;
    }
    to_hex(head.as_slice())
}

/// The stash's `service.instance.id`: its public key, shortened.
pub fn instance_id(endpoint_id: &[u8; 32]) -> (r: String)
    ensures
        r@ == short_text(endpoint_id@),
{
    short_hex(endpoint_id.as_slice())
}

/// Law: a join key survives redaction. It is never taken for an identifier, and no test that
/// rejects every text without a dot and a colon takes a part of it for an address.
pub proof fn law_short_hex_survives_redaction<F: Fn(&str) -> bool>(
    bytes: Seq<u8>,
    addresses: Seq<Span>,
    test: F,
)
    requires
        are_found(addresses, short_text(bytes), test),
        forall|text: Seq<char>|
            (forall|i: int| 0 <= i < text.len() ==> !is_punctuation(#[trigger] text[i])) ==> !(
            #[trigger] answers(test, text, true)),
    ensures
        redaction(short_text(bytes), addresses) == short_text(bytes),
{
    let s = short_text(bytes);
    assert forall|i: int| 0 <= i < s.len() implies !is_punctuation(#[trigger] s[i]) by {}
    assert(addresses.len() == 0) by {
        if addresses.len() > 0 {
            let x = addresses[0];
            assert(addresses.contains(x));
            assert(is_candidate(s, x));
            let text = x.of(s);
            assert(answers(test, text, true));
            let run = choose|run: Span| #[trigger]
                run.is_run(s, Class::Network) && may_be_address(s, run, x);
            assert forall|i: int| 0 <= i < text.len() implies !is_punctuation(
                #[trigger] text[i],
            ) by {
                assert(text[i] == s[x.start + i]);
            }
        }
    }
    assert(addresses =~= Seq::empty());
    law_short_line_is_unchanged(s);
}

/// `s` without the slashes at its end.
pub open spec fn without_trailing_slashes(s: Seq<char>) -> Seq<char>
    decreases s.len(),
{
    if s.len() > 0 && s.last() == '/' {
        without_trailing_slashes(s.drop_last())
    } else {
        s
    }
}

fn trim_slashes(s: &str) -> (r: &str)
    ensures
        r@ == without_trailing_slashes(s@),
{
    let cs = crate::text::characters(s);
    let mut end: usize = cs.len();
    assert(s@.take(end as int) =~= s@);
    while end > 0 && cs[end - 1] == '/'
        invariant
            end <= cs@.len(),
            cs@ == s@,
            without_trailing_slashes(s@.take(end as int)) == without_trailing_slashes(s@),
        decreases end,
    {
        assert(s@.take(end as int).drop_last() =~= s@.take(end - 1));
        end = end - 1;
    }
    assert(s@.take(end as int) =~= s@.subrange(0, end as int));
    s.substring_char(0, end)
}

/// The name that spans and logs go under unless another is given.
pub const DEFAULT_SERVICE_NAME: &'static str = "trail-stash";

/// Where traces and logs go, and under which name.
#[derive(Debug, PartialEq, Eq)]
pub struct ExportPlan {
    pub traces_url: String,
    pub logs_url: String,
    pub service_name: String,
}

/// What an [`ExportPlan`] holds.
#[verifier::ext_equal]
pub struct ExportView {
    pub traces_url: Seq<char>,
    pub logs_url: Seq<char>,
    pub service_name: Seq<char>,
}

impl View for ExportPlan {
    type V = ExportView;

    open spec fn view(&self) -> ExportView {
        ExportView {
            traces_url: self.traces_url@,
            logs_url: self.logs_url@,
            service_name: self.service_name@,
        }
    }
}

/// The export that the environment asks for: none without a collector's endpoint.
pub open spec fn export(
    endpoint: Option<Seq<char>>,
    service_name: Option<Seq<char>>,
) -> Option<ExportView> {
    let base = without_trailing_slashes(trimmed(or_empty(endpoint)));
    if base.len() == 0 {
        None
    } else {
        Some(
            ExportView {
                traces_url: base + "/v1/traces"@,
                logs_url: base + "/v1/logs"@,
                service_name: match service_name {
                    Some(name) if trimmed(name).len() > 0 => name,
                    _ => DEFAULT_SERVICE_NAME@,
                },
            },
        )
    }
}

/// Decides whether and where to export. Without an endpoint telemetry stays dormant.
pub fn export_plan(endpoint: Option<String>, service_name: Option<String>) -> (r: Option<ExportPlan>)
    ensures
        (match r {
            Some(plan) => Some(plan@),
            None => None,
        }) == export(string_view(endpoint), string_view(service_name)),
{
    let endpoint = match endpoint {
        Some(e) => e,
        None => String::new(),
    };
    let base = trim_slashes(trim(endpoint.as_str()));
    if base.is_empty() {
        return None;
    }
    let mut traces_url = base.to_string();
    traces_url.append("/v1/traces");
    let mut logs_url = base.to_string();
    logs_url.append("/v1/logs");
    let service_name = match service_name {
        Some(name) => if trim(name.as_str()).is_empty() {
            DEFAULT_SERVICE_NAME.to_string()
        } else {
            name
        },
        None => DEFAULT_SERVICE_NAME.to_string(),
    };
    Some(ExportPlan { traces_url, logs_url, service_name })
}

/// Law: a join key is the first ten hexadecimal digits of an id, or all of a shorter one.
pub proof fn law_join_key_is_a_short_prefix(bytes: &[u8], r: String)
    requires
        call_ensures(short_hex, (bytes,), r),
    ensures
        r@.is_prefix_of(hex_text(bytes@)),
        bytes@.len() >= 5 ==> r@.len() == 10,
        bytes@.len() < 5 ==> r@ == hex_text(bytes@),
{
    if bytes@.len() < 5 {
        assert(bytes@.take(bytes@.len() as int) =~= bytes@);
    } else {
        assert(r@ =~= hex_text(bytes@).take(10));
    }
    assert(r@ =~= hex_text(bytes@).take(r@.len() as int));
}

/// Only slashes are taken, all of them, and at the end.
proof fn lemma_slashes(s: Seq<char>, n: int)
    requires
        0 <= n <= s.len(),
        n > 0 ==> s[n - 1] != '/',
        forall|k: int| n <= k < s.len() ==> #[trigger] s[k] == '/',
    ensures
        without_trailing_slashes(s) == s.take(n),
    decreases s.len(),
{
    if n < s.len() {
        assert(s.last() == '/');
        assert forall|k: int| n <= k < s.drop_last().len() implies #[trigger] s.drop_last()[k]
            == '/' by {
            assert(s.drop_last()[k] == s[k]);
        }
        lemma_slashes(s.drop_last(), n);
        assert(s.drop_last().take(n) =~= s.take(n));
    } else {
        assert(s.take(n) =~= s);
    }
}

/// Law: traces and logs go to the collector's endpoint, without the white space around it and the
/// slashes at its end, under `/v1/traces` and `/v1/logs`; where nothing is left of it, nowhere. The
/// service name is the one given, unless it is white space alone, else `trail-stash`.
pub proof fn law_export_goes_below_the_endpoint(
    endpoint: Option<String>,
    service_name: Option<String>,
    r: Option<ExportPlan>,
    n: int,
)
    requires
        call_ensures(export_plan, (endpoint, service_name), r),
        endpoint matches Some(e) ==> {
            &&& 0 <= n <= trimmed(e@).len()
            &&& n > 0 ==> trimmed(e@)[n - 1] != '/'
            &&& forall|k: int| n <= k < trimmed(e@).len() ==> #[trigger] trimmed(e@)[k] == '/'
        },
    ensures
        endpoint is None ==> r is None,
        endpoint is Some ==> (r is Some <==> n > 0),
        r matches Some(plan) ==> {
            &&& plan.traces_url@ == trimmed(endpoint->0@).take(n) + "/v1/traces"@
            &&& plan.logs_url@ == trimmed(endpoint->0@).take(n) + "/v1/logs"@
            &&& service_name matches Some(name) ==> (trimmed(name@).len() > 0
                ==> plan.service_name@ == name@)
            &&& service_name is None || trimmed(service_name->0@).len() == 0
                ==> plan.service_name@ == "trail-stash"@
        },
{
    if let Some(e) = endpoint {
        lemma_slashes(trimmed(e@), n);
    } else {
        let nothing = Seq::<char>::empty();
        assert(trimmed(nothing) =~= nothing);
        assert(without_trailing_slashes(nothing).len() == 0);
    }
}

/// Law: the instance id is the first ten hexadecimal digits of the public key.
pub proof fn law_instance_id_is_a_short_prefix(endpoint_id: [u8; 32], r: String)
    requires
        call_ensures(instance_id, (&endpoint_id,), r),
    ensures
        r@ == hex_text(endpoint_id@).take(10),
{
    assert(r@ =~= hex_text(endpoint_id@).take(10));
}

} // verus!
