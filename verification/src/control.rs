//! The control API's answers, but for the transport.

use crate::api::{
    parse_namespace_hex, parse_platform, platform_named, validate_register, validation, ApiError,
    RegisterRequest, ValidRegister,
};
use crate::auth::{authorize, bearer_token, outcome, token_of};
use crate::json::{
    document, json_number, json_object, json_text, leaf, set_member, with_member, Document, Node,
};
use crate::node::StashNode;
use crate::stash_model::NodeView;
use crate::subscriptions::{
    law_unsubscribe_stops_one_wake, NamespaceId, PushSubscription, RegistryView, SubscriptionView,
};
use crate::text::{
    hex_bytes, hex_text, hex_value, law_hex_reads_sixteens_then_ones, lemma_hex_reads_back,
    lemma_hex_writes_back, str_view, string_view, trim, trimmed,
};
use vstd::prelude::*;
use vstd::string::*;

verus! {

pub const CREATED: u16 = 201;

pub const NO_CONTENT: u16 = 204;

pub const BAD_REQUEST: u16 = 400;

pub const UNAUTHORIZED: u16 = 401;

pub const BAD_GATEWAY: u16 = 502;

/// An answer: a status and a text.
#[derive(Debug, PartialEq, Eq)]
pub struct Reply {
    pub status: u16,
    pub text: String,
}

/// What a [`Reply`] holds.
#[verifier::ext_equal]
pub struct ReplyView {
    pub status: u16,
    pub text: Seq<char>,
}

impl View for Reply {
    type V = ReplyView;

    open spec fn view(&self) -> ReplyView {
        ReplyView { status: self.status, text: self.text@ }
    }
}

fn reply(status: u16, text: &str) -> (r: Reply)
    ensures
        r@ == (ReplyView { status, text: text@ }),
{
    Reply { status, text: text.to_string() }
}

/// The refusal of a bad request.
pub open spec fn refusal(error: ApiError) -> ReplyView {
    ReplyView { status: BAD_REQUEST, text: error.text() }
}

/// The pre-shared key guard. `None` lets the request through; otherwise it is answered with this.
pub fn psk_guard(psk: Option<&str>, authorization: Option<&str>) -> (r: Option<Reply>)
    ensures
        if outcome(str_view(psk), token_of(str_view(authorization))).allows() {
            r is None
        } else {
            r matches Some(answer) && answer@ == (ReplyView {
                status: UNAUTHORIZED,
                text: "missing or invalid pre-shared key"@,
            })
        },
{
    if authorize(psk, bearer_token(authorization)).is_allowed() {
        None
    } else {
        Some(reply(UNAUTHORIZED, "missing or invalid pre-shared key"))
    }
}

/// Checks a registration: what it asks for, or how it is refused.
pub fn check_register(req: &RegisterRequest) -> (r: Result<ValidRegister, Reply>)
    ensures
        match validation(req.read_ticket@, string_view(req.push_token), string_view(req.platform)) {
            Ok(valid) => r matches Ok(v) && v@ == valid,
            Err(error) => r matches Err(answer) && answer@ == refusal(error),
        },
{
    match validate_register(req) {
        Ok(valid) => Ok(valid),
        Err(error) => Err(reply(BAD_REQUEST, error.message())),
    }
}

/// Why a valid registration could not be carried out, with what the replica said.
#[derive(Debug, PartialEq, Eq)]
pub enum RegisterFailure {
    /// The ticket does not parse.
    Ticket(String),
    /// The namespace could not be imported.
    Import(String),
    /// The namespace could not be joined.
    Join(String),
}

impl RegisterFailure {
    /// The text that the client is told.
    pub open spec fn text(self) -> Seq<char> {
        match self {
            RegisterFailure::Ticket(e) => "parse doc ticket: "@ + e@,
            RegisterFailure::Import(e) => "import namespace capability: "@ + e@,
            RegisterFailure::Join(e) => "join namespace without bootstrap peers: "@ + e@,
        }
    }

    /// The text that the client is told.
    pub fn message(&self) -> (r: String)
        ensures
            r@ == self.text(),
    {
        match self {
            RegisterFailure::Ticket(e) => "parse doc ticket: ".to_string().concat(e.as_str()),
            RegisterFailure::Import(e) => "import namespace capability: ".to_string().concat(
                e.as_str(),
            ),
            RegisterFailure::Join(e) => "join namespace without bootstrap peers: ".to_string().concat(
                e.as_str(),
            ),
        }
    }
}

/// Answers a valid registration once it has been carried out. A ticket that does not parse is the
/// client's fault; a failure to import or join is not.
pub fn register_reply(outcome: &Result<(), RegisterFailure>) -> (r: Reply)
    ensures
        r@ == (match *outcome {
            Ok(_) => ReplyView { status: CREATED, text: Seq::empty() },
            Err(failure) => ReplyView {
                status: if failure is Ticket {
                    BAD_REQUEST
                } else {
                    BAD_GATEWAY
                },
                text: failure.text(),
            },
        }),
{
    match outcome {
        Ok(_) => Reply { status: CREATED, text: String::new() },
        Err(failure) => {
            let status: u16 = match failure {
                RegisterFailure::Ticket(_) => BAD_REQUEST,
                _ => BAD_GATEWAY,
            };
            Reply { status, text: failure.message() }
        },
    }
}

/// What an unsubscription asks for, or why it is refused. As in a registration, white space around
/// the token does not count.
pub open spec fn unsubscription(
    id: Seq<char>,
    platform: Seq<char>,
    token: Seq<char>,
) -> Result<(Seq<u8>, SubscriptionView), ApiError> {
    match hex_bytes(id, false) {
        Some(ns) if ns.len() == 32 => match platform_named(platform) {
            Some(platform) => Ok((ns, SubscriptionView { platform, token: trimmed(token) })),
            None => Err(ApiError::BadPlatform),
        },
        _ => Err(ApiError::BadNamespace),
    }
}

/// The answer to an unsubscription. It depends on the request alone, so it does not tell whether
/// there was anything to drop.
pub open spec fn unsubscribe_answer(
    id: Seq<char>,
    platform: Seq<char>,
    token: Seq<char>,
) -> ReplyView {
    match unsubscription(id, platform, token) {
        Ok(_) => ReplyView { status: NO_CONTENT, text: Seq::empty() },
        Err(error) => refusal(error),
    }
}

/// Drops a wake subscription and answers. The answer does not tell whether there was one.
pub fn unsubscribe_reply(node: &mut StashNode, id: &str, platform: &str, token: String) -> (r: Reply)
    requires
        old(node).wf(),
    ensures
        final(node).wf(),
        r@ == unsubscribe_answer(id@, platform@, token@),
        match unsubscription(id@, platform@, token@) {
            Ok((ns, sub)) => exists|key: NamespaceId|
                #![trigger key@]
                key@ == ns && final(node)@ == (NodeView {
                    registry: old(node)@.registry.after_unsubscribe(key, sub),
                    ..old(node)@
                }),
            Err(_) => final(node)@ == old(node)@,
        },
{
    let ns = match parse_namespace_hex(id) {
        Ok(ns) => ns,
        Err(error) => {
            return reply(BAD_REQUEST, error.message());
        },
    };
    let platform = match parse_platform(platform) {
        Some(platform) => platform,
        None => {
            return reply(BAD_REQUEST, ApiError::BadPlatform.message());
        },
    };
    let sub = PushSubscription { platform, token: trim(token.as_str()).to_string() };
    let _ = node.unsubscribe(&ns, &sub);
    assert(ns@ == hex_bytes(id@, false)->0);
    Reply { status: NO_CONTENT, text: String::new() }
}

/// Law: an unsubscription with the very fields of an accepted registration stops the wake that the
/// registration arranged, and leaves the namespace known.
pub proof fn law_unsubscribing_stops_the_registered_wake(
    v: RegistryView,
    ns: NamespaceId,
    read_ticket: Seq<char>,
    push_token: Seq<char>,
    platform: Seq<char>,
)
    requires
        validation(read_ticket, Some(push_token), Some(platform)) is Ok,
    ensures
        validation(read_ticket, Some(push_token), Some(platform))->Ok_0.subscription matches Some(
            sub,
        ) && unsubscription(hex_text(ns@), platform, push_token) == Ok::<
            (Seq<u8>, SubscriptionView),
            ApiError,
        >((ns@, sub)) && ({
            let registered = v.after_register(ns, Some(sub));
            let after = registered.after_unsubscribe(ns, sub);
            &&& registered.targets(ns).contains(sub)
            &&& after.targets(ns) == registered.targets(ns).remove(sub)
            &&& after.known.contains(ns)
        }),
{
    lemma_hex_reads_back(ns@, false);
    let sub = validation(read_ticket, Some(push_token), Some(platform))->Ok_0.subscription->0;
    law_unsubscribe_stops_one_wake(v.after_register(ns, Some(sub)), ns, sub, ns);
}

/// What the health endpoint reports.
pub open spec fn health_document(missing: nat, held: nat) -> Document {
    with_member(
        with_member(
            with_member(leaf(Node::Object), "status"@, leaf(Node::Text("ok"@))),
            "content_missing"@,
            leaf(Node::Number(missing)),
        ),
        "content_tracked"@,
        leaf(Node::Number(held)),
    )
}

/// Liveness and the content readout: how many entries the stash holds, and how many of them it
/// cannot serve yet.
pub fn healthz(node: &StashNode) -> (r: serde_json::Value)
    requires
        node.wf(),
    ensures
        document(r) == health_document(
            node@.content.missing().len(),
            node@.content.state.dom().len(),
        ),
{
    let (missing, held) = node.content_stats();
    let mut out = json_object();
    set_member(&mut out, "status", json_text("ok"));
    set_member(&mut out, "content_missing", json_number(missing as u64));
    set_member(&mut out, "content_tracked", json_number(held as u64));
    out
}

/// Law: an unsubscription is for the namespace whose lowercase hexadecimal id was given, the platform
/// whose wire name was given, and the token without the white space around it; and it is accepted
/// exactly when the id and the platform name read as such.
pub proof fn law_unsubscription_is_for_what_was_given(
    id: Seq<char>,
    platform: Seq<char>,
    token: Seq<char>,
)
    ensures
        unsubscription(id, platform, token) matches Ok((ns, sub)) ==> {
            &&& hex_text(ns) == id
            &&& ns.len() == 32
            &&& sub.platform.name() == platform
            &&& sub.token == trimmed(token)
        },
        unsubscription(id, platform, token) is Ok <==> id.len() == 64 && (forall|i: int|
            0 <= i < id.len() ==> ('0' <= #[trigger] id[i] <= '9' || 'a' <= id[i] <= 'f')) && (
        platform == "apns"@ || platform == "fcm"@),
{
    if hex_bytes(id, false) is Some {
        lemma_hex_writes_back(id);
        assert forall|i: int| 0 <= i < id.len() implies ('0' <= #[trigger] id[i] <= '9' || 'a'
            <= id[i] <= 'f') by {
            assert(hex_value(id[i], false) is Some);
        }
    }
    if id.len() == 64 && (forall|i: int|
        0 <= i < id.len() ==> ('0' <= #[trigger] id[i] <= '9' || 'a' <= id[i] <= 'f')) {
        assert forall|i: int| 0 <= i < id.len() implies hex_value(#[trigger] id[i], false) is Some by {}
    }
}

/// Law: an unsubscription is answered 204 or, where it is refused, 400 with the reason; the answer
/// is the same for every token.
pub proof fn law_unsubscribe_answers(
    id: Seq<char>,
    platform: Seq<char>,
    token: Seq<char>,
    other: Seq<char>,
)
    ensures
        unsubscribe_answer(id, platform, token).status == 204 || unsubscribe_answer(
            id,
            platform,
            token,
        ).status == 400,
        unsubscribe_answer(id, platform, token).status == 204 <==> unsubscription(
            id,
            platform,
            token,
        ) is Ok,
        unsubscribe_answer(id, platform, token) == unsubscribe_answer(id, platform, other),
{
}

/// Law: the health report tells how many hashes are missing and how many are held, each under its
/// own name, and that the service is up.
pub proof fn law_health_report_tells_both_numbers(missing: nat, held: nat)
    ensures
        health_document(missing, held)[seq!["content_missing"@]] == Node::Number(missing),
        health_document(missing, held)[seq!["content_tracked"@]] == Node::Number(held),
        health_document(missing, held)[seq!["status"@]] == Node::Text("ok"@),
{
    reveal_strlit("content_missing");
    reveal_strlit("content_tracked");
    reveal_strlit("status");
    assert("content_missing"@[8] != "content_tracked"@[8]);
    assert("status"@.len() == 6 && "content_missing"@.len() == 15 && "content_tracked"@.len() == 15);
    let none = Seq::<Seq<char>>::empty();
    assert(seq!["content_missing"@].skip(1) =~= none);
    assert(seq!["content_tracked"@].skip(1) =~= none);
    assert(seq!["status"@].skip(1) =~= none);
}

/// Law: a request passes the guard exactly when no key is configured or its header carries that key;
/// otherwise it is answered 401, whatever it asked for.
pub proof fn law_guard_passes_exactly_the_key(
    psk: Option<&str>,
    authorization: Option<&str>,
    r: Option<Reply>,
)
    requires
        call_ensures(psk_guard, (psk, authorization), r),
    ensures
        r is None <==> (psk is None || token_of(str_view(authorization)) == str_view(psk)),
        r matches Some(answer) ==> answer.status == 401,
{
}

/// Law: a registration that was carried out is answered 201 and nothing more; one whose ticket does
/// not parse 400, and any other failure 502, each with the reason at its end.
pub proof fn law_registration_answers(outcome: Result<(), RegisterFailure>, r: Reply)
    requires
        call_ensures(register_reply, (&outcome,), r),
    ensures
        outcome is Ok ==> r.status == 201 && r.text@.len() == 0,
        outcome matches Err(failure) ==> (match failure {
            RegisterFailure::Ticket(reason) => r.status == 400 && r.text@ == "parse doc ticket: "@
                + reason@,
            RegisterFailure::Import(reason) => r.status == 502 && r.text@
                == "import namespace capability: "@ + reason@,
            RegisterFailure::Join(reason) => r.status == 502 && r.text@
                == "join namespace without bootstrap peers: "@ + reason@,
        }),
{
}

/// Law: a registration that is refused is answered 400 with the reason, and one that is not is passed
/// on as it was validated.
pub proof fn law_refused_registration_is_answered(
    req: RegisterRequest,
    r: Result<ValidRegister, Reply>,
)
    requires
        call_ensures(check_register, (&req,), r),
    ensures
        ({
            let expected = validation(
                req.read_ticket@,
                string_view(req.push_token),
                string_view(req.platform),
            );
            &&& r is Ok <==> expected is Ok
            &&& r matches Ok(valid) ==> valid@ == expected->Ok_0
            &&& r matches Err(answer) ==> answer.status == 400 && answer.text@
                == expected->Err_0.text()
        }),
{
}

/// Law: the health report counts the hashes that are wanted and the hashes that are held.
pub proof fn law_health_report_counts_content(node: StashNode, r: serde_json::Value)
    requires
        call_ensures(healthz, (&node,), r),
    ensures
        document(r)[seq!["content_missing"@]] == Node::Number(
            node@.content.state.dom().filter(
                |hash: crate::content::ContentHash|
                    node@.content.state[hash] == crate::content::State::Wanted,
            ).len(),
        ),
        document(r)[seq!["content_tracked"@]] == Node::Number(node@.content.state.dom().len()),
        document(r)[seq!["status"@]] == Node::Text("ok"@),
{
    law_health_report_tells_both_numbers(
        node@.content.missing().len(),
        node@.content.state.dom().len(),
    );
    assert(node@.content.missing() =~= node@.content.state.dom().filter(
        |hash: crate::content::ContentHash|
            node@.content.state[hash] == crate::content::State::Wanted,
    ));
}

/// Law: an unsubscription that is accepted drops exactly that wake from that namespace and leaves
/// everything else; one that is not accepted changes nothing.
pub proof fn law_unsubscribing_drops_what_was_named(
    node: &mut StashNode,
    id: &str,
    platform: &str,
    token: String,
    r: Reply,
    other: NamespaceId,
    s: SubscriptionView,
)
    requires
        call_ensures(unsubscribe_reply, (node, id, platform, token), r),
    ensures
        r.status == 204 || r.status == 400,
        r.status == 204 <==> unsubscription(id@, platform@, token@) is Ok,
        final(node)@.content == old(node)@.content,
        final(node)@.entries == old(node)@.entries,
        final(node)@.window == old(node)@.window,
        final(node)@.registry.known == old(node)@.registry.known,
        final(node)@.registry.subscriptions.contains((other, s)) <==> old(node)@.registry.subscriptions.contains((other, s)) && !(r.status == 204 && hex_text(other@)
            == id@ && s.platform.name() == platform@ && s.token == trimmed(token@)),
{
    law_unsubscription_is_for_what_was_given(id@, platform@, token@);
    reveal_strlit("apns");
    reveal_strlit("fcm");
    assert("apns"@.len() != "fcm"@.len());
    if let Ok((ns, sub)) = unsubscription(id@, platform@, token@) {
        let key = choose|key: NamespaceId|
            #![trigger key@]
            key@ == ns && final(node)@ == (NodeView {
                registry: old(node)@.registry.after_unsubscribe(key, sub),
                ..old(node)@
            });
        if hex_text(other@) == id@ {
            lemma_hex_reads_back(other@, false);
            assert(other@ == key@);
            assert(other =~= key);
        }
    }
}

/// Law: an unsubscription is refused for its namespace id first, and for its platform only where the
/// id reads.
pub proof fn law_unsubscription_refusal_names_the_first_fault(
    id: Seq<char>,
    platform: Seq<char>,
    token: Seq<char>,
)
    ensures
        ({
            let id_reads = id.len() == 64 && forall|i: int|
                0 <= i < id.len() ==> ('0' <= #[trigger] id[i] <= '9' || 'a' <= id[i] <= 'f');
            &&& !id_reads ==> unsubscription(id, platform, token) == Err::<
                (Seq<u8>, SubscriptionView),
                ApiError,
            >(ApiError::BadNamespace)
            &&& id_reads && platform != "apns"@ && platform != "fcm"@ ==> unsubscription(
                id,
                platform,
                token,
            ) == Err::<(Seq<u8>, SubscriptionView), ApiError>(ApiError::BadPlatform)
        }),
        unsubscription(id, platform, token) matches Err(error) ==> unsubscribe_answer(
            id,
            platform,
            token,
        ).text == error.text(),
{
    law_unsubscription_is_for_what_was_given(id, platform, token);
    law_hex_reads_sixteens_then_ones(id, false, 0);
}

} // verus!
