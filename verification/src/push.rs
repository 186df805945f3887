//! Silent push requests for APNs and FCM.
//!
//! A push wakes the app's headless runtime and nothing more: no alert, no sound, no location. It
//! carries a type and the id of the namespace that changed. Sending it, and the credential for
//! that, are the sender's.

use crate::json::{
    document, is_object, json_member, json_number, json_object, json_text, leads_into, leaf,
    member_of, set_member, with_member, Document, Node,
};
use crate::subscriptions::{NamespaceId, Platform};
use crate::text::{hex_text, to_hex};
use vstd::prelude::*;
use vstd::string::*;

verus! {

/// The type that every push carries: a hint to sync.
pub const PUSH_TYPE: &'static str = "trail-sync";

/// A push request but for its `Authorization` header.
#[derive(Debug, PartialEq, Eq)]
pub struct PushRequest {
    pub url: String,
    pub headers: Vec<(String, String)>,
    pub body: serde_json::Value,
}

/// What a [`PushRequest`] holds.
#[verifier::ext_equal]
pub struct PushView {
    pub url: Seq<char>,
    pub headers: Seq<(Seq<char>, Seq<char>)>,
    pub body: Document,
}

impl View for PushRequest {
    type V = PushView;

    open spec fn view(&self) -> PushView {
        PushView {
            url: self.url@,
            headers: self.headers@.map_values(|h: (String, String)| (h.0@, h.1@)),
            body: document(self.body),
        }
    }
}

/// A namespace id in lowercase hexadecimal.
pub fn namespace_hex(ns: &NamespaceId) -> (r: String)
    ensures
        r@ == hex_text(ns@),
{
    to_hex(ns.as_slice())
}

/// `{ "content-available": 1 }`: deliver silently.
pub open spec fn silent() -> Document {
    with_member(leaf(Node::Object), "content-available"@, leaf(Node::Number(1)))
}

/// `{ "type": …, "ns": … }`: which namespace to sync.
pub open spec fn hint(doc: Document, ns: NamespaceId) -> Document {
    with_member(
        with_member(doc, "type"@, leaf(Node::Text(PUSH_TYPE@))),
        "ns"@,
        leaf(Node::Text(hex_text(ns@))),
    )
}

/// The headers of a silent APNs push.
pub open spec fn apns_headers(bundle_id: Seq<char>) -> Seq<(Seq<char>, Seq<char>)> {
    seq![
        ("apns-push-type"@, "background"@),
        ("apns-priority"@, "5"@),
        ("apns-topic"@, bundle_id),
        ("apns-expiration"@, "0"@),
    ]
}

/// The body of a silent APNs push.
pub open spec fn apns_body(ns: NamespaceId) -> Document {
    hint(with_member(leaf(Node::Object), "aps"@, silent()), ns)
}

fn silent_value() -> (r: serde_json::Value)
    ensures
        document(r) == silent(),
{
    let mut aps = json_object();
    set_member(&mut aps, "content-available", json_number(1));
    aps
}

fn add_hint(object: &mut serde_json::Value, ns: &NamespaceId)
    requires
        is_object(document(*old(object))),
    ensures
        document(*final(object)) == hint(document(*old(object)), *ns),
{
    set_member(object, "type", json_text(PUSH_TYPE));
    set_member(object, "ns", json_text(namespace_hex(ns).as_str()));
}

fn header(key: &str, value: &str) -> (r: (String, String))
    ensures
        r.0@ == key@,
        r.1@ == value@,
{
    (key.to_string(), value.to_string())
}

/// Builds an APNs background push for one device. `host` is Apple's production or sandbox host,
/// `bundle_id` the app's.
pub fn apns_request(host: &str, bundle_id: &str, device_token: &str, ns: &NamespaceId) -> (r:
    PushRequest)
    ensures
        r@ == (PushView {
            url: "https://"@ + host@ + "/3/device/"@ + device_token@,
            headers: apns_headers(bundle_id@),
            body: apns_body(*ns),
        }),
        can_trace(r@.body, Platform::Apns),
{
    let mut url = "https://".to_string();
    url.append(host);
    url.append("/3/device/");
    url.append(device_token);
    let mut headers: Vec<(String, String)> = Vec::new();
    headers.push(header("apns-push-type", "background"));
    headers.push(header("apns-priority", "5"));
    headers.push(header("apns-topic", bundle_id));
    headers.push(header("apns-expiration", "0"));
    let mut body = json_object();
    set_member(&mut body, "aps", silent_value());
    add_hint(&mut body, ns);
    let r = PushRequest { url, headers, body };
    assert(r@.headers =~= apns_headers(bundle_id@));
    proof {
        law_push_has_room_for_a_trace(Seq::empty(), *ns);
    }
    r
}

/// `{ "apns-push-type": "background", "apns-priority": "5" }`.
pub open spec fn background_headers() -> Document {
    with_member(
        with_member(leaf(Node::Object), "apns-push-type"@, leaf(Node::Text("background"@))),
        "apns-priority"@,
        leaf(Node::Text("5"@)),
    )
}

/// The part of an FCM message for a token that fronts an iOS device: the same silent delivery.
pub open spec fn fcm_apns() -> Document {
    with_member(
        with_member(leaf(Node::Object), "headers"@, background_headers()),
        "payload"@,
        with_member(leaf(Node::Object), "aps"@, silent()),
    )
}

/// The part of an FCM message that names the device and carries the hint.
pub open spec fn fcm_data(device_token: Seq<char>, ns: NamespaceId) -> Document {
    with_member(
        with_member(leaf(Node::Object), "token"@, leaf(Node::Text(device_token))),
        "data"@,
        hint(leaf(Node::Object), ns),
    )
}

/// `{ "priority": "high" }`.
pub open spec fn high_priority() -> Document {
    with_member(leaf(Node::Object), "priority"@, leaf(Node::Text("high"@)))
}

/// A data-only FCM message.
pub open spec fn fcm_message(device_token: Seq<char>, ns: NamespaceId) -> Document {
    with_member(
        with_member(fcm_data(device_token, ns), "android"@, high_priority()),
        "apns"@,
        fcm_apns(),
    )
}

/// The body of a data-only FCM push.
pub open spec fn fcm_body(device_token: Seq<char>, ns: NamespaceId) -> Document {
    with_member(leaf(Node::Object), "message"@, fcm_message(device_token, ns))
}

fn fcm_apns_value() -> (r: serde_json::Value)
    ensures
        document(r) == fcm_apns(),
{
    let mut headers = json_object();
    set_member(&mut headers, "apns-push-type", json_text("background"));
    set_member(&mut headers, "apns-priority", json_text("5"));
    let mut payload = json_object();
    set_member(&mut payload, "aps", silent_value());
    let mut apns = json_object();
    set_member(&mut apns, "headers", headers);
    set_member(&mut apns, "payload", payload);
    apns
}

/// Builds a data-only FCM message for one device, so that Android hands it to the app and not to
/// the system tray.
pub fn fcm_request(project_id: &str, device_token: &str, ns: &NamespaceId) -> (r: PushRequest)
    ensures
        r@ == (PushView {
            url: "https://fcm.googleapis.com/v1/projects/"@ + project_id@ + "/messages:send"@,
            headers: Seq::empty(),
            body: fcm_body(device_token@, *ns),
        }),
        can_trace(r@.body, Platform::Fcm),
{
    let mut url = "https://fcm.googleapis.com/v1/projects/".to_string();
    url.append(project_id);
    url.append("/messages:send");
    let headers: Vec<(String, String)> = Vec::new();
    let mut data = json_object();
    add_hint(&mut data, ns);
    let mut android = json_object();
    set_member(&mut android, "priority", json_text("high"));
    let mut message = json_object();
    set_member(&mut message, "token", json_text(device_token));
    set_member(&mut message, "data", data);
    set_member(&mut message, "android", android);
    set_member(&mut message, "apns", fcm_apns_value());
    let mut body = json_object();
    set_member(&mut body, "message", message);
    let r = PushRequest { url, headers, body };
    assert(r@.headers =~= Seq::empty());
    proof {
        law_push_has_room_for_a_trace(device_token@, *ns);
    }
    r
}

/// `body` with a trace context where the woken app finds it: beside the hint.
pub open spec fn with_trace(body: Document, platform: Platform, traceparent: Seq<char>) -> Document {
    let trace = leaf(Node::Text(traceparent));
    match platform {
        Platform::Apns => with_member(body, "traceparent"@, trace),
        Platform::Fcm => {
            let message = member_of(body, "message"@);
            let data = member_of(message, "data"@);
            with_member(
                body,
                "message"@,
                with_member(message, "data"@, with_member(data, "traceparent"@, trace)),
            )
        },
    }
}

/// Whether `body` has the place for a trace context.
pub open spec fn can_trace(body: Document, platform: Platform) -> bool {
    match platform {
        Platform::Apns => is_object(body),
        Platform::Fcm => {
            let message = member_of(body, "message"@);
            &&& is_object(body)
            &&& is_object(message)
            &&& is_object(member_of(message, "data"@))
        },
    }
}

/// Adds a trace context to a push: at the top level for APNs, in the data for FCM, which is the
/// only payload that the app's handler gets.
pub fn embed_traceparent(req: &mut PushRequest, platform: Platform, traceparent: &str)
    requires
        can_trace(document(old(req).body), platform),
    ensures
        final(req)@ == (PushView {
            body: with_trace(old(req)@.body, platform, traceparent@),
            ..old(req)@
        }),
{
    match platform {
        Platform::Apns => {
            set_member(&mut req.body, "traceparent", json_text(traceparent));
        },
        Platform::Fcm => {
            assert(document(req.body).contains_key(seq!["message"@])) by {
                assert(seq!["message"@] + Seq::<Seq<char>>::empty() =~= seq!["message"@]);
            }
            assert(member_of(document(req.body), "message"@).contains_key(seq!["data"@])) by {
                assert(seq!["data"@] + Seq::<Seq<char>>::empty() =~= seq!["data"@]);
            }
            let message = json_member(&mut req.body, "message");
            let data = json_member(message, "data");
            set_member(data, "traceparent", json_text(traceparent));
        },
    }
}

/// The keys of a push, told apart.
proof fn lemma_keys_differ()
    ensures
        "aps"@ != "type"@,
        "aps"@ != "ns"@,
        "type"@ != "ns"@,
        "token"@ != "data"@,
        "token"@ != "android"@,
        "token"@ != "apns"@,
        "data"@ != "android"@,
        "data"@ != "apns"@,
        "android"@ != "apns"@,
        "headers"@ != "payload"@,
        "apns-push-type"@ != "apns-priority"@,
        "alert"@ != "content-available"@,
        "sound"@ != "content-available"@,
        "notification"@ != "token"@,
        "notification"@ != "data"@,
        "notification"@ != "android"@,
        "notification"@ != "apns"@,
{
    reveal_strlit("aps");
    reveal_strlit("type");
    reveal_strlit("ns");
    reveal_strlit("token");
    reveal_strlit("data");
    reveal_strlit("android");
    reveal_strlit("apns");
    reveal_strlit("headers");
    reveal_strlit("payload");
    reveal_strlit("apns-push-type");
    reveal_strlit("apns-priority");
    reveal_strlit("alert");
    reveal_strlit("sound");
    reveal_strlit("content-available");
    reveal_strlit("notification");
    assert("aps"@.len() == 3 && "type"@.len() == 4 && "ns"@.len() == 2);
    assert("token"@.len() == 5 && "data"@.len() == 4 && "android"@.len() == 7 && "apns"@.len() == 4);
    assert("data"@[0] != "apns"@[0]);
    assert("headers"@[0] != "payload"@[0]);
    assert("apns-push-type"@.len() == 14 && "apns-priority"@.len() == 13);
    assert("alert"@.len() == 5 && "sound"@.len() == 5 && "content-available"@.len() == 17);
    assert("notification"@.len() == 12);
}

/// A member under `key` stands at the paths that lead into it, and nowhere else.
proof fn lemma_member_paths(doc: Document, key: Seq<char>, member: Document, path: Seq<Seq<char>>)
    ensures
        with_member(doc, key, member).contains_key(seq![key] + path) == member.contains_key(path),
        member.contains_key(path) ==> with_member(doc, key, member)[seq![key] + path]
            == member[path],
        member_of(with_member(doc, key, member), key) == member,
{
    assert forall|p: Seq<Seq<char>>| (#[trigger] (seq![key] + p)).skip(1) == p by {
        assert((seq![key] + p).skip(1) =~= p);
    }
    assert(leads_into(seq![key] + path, key));
    let built = with_member(doc, key, member);
    assert forall|p: Seq<Seq<char>>| #[trigger] member_of(built, key).contains_key(p)
        == member.contains_key(p) by {
        assert(leads_into(seq![key] + p, key));
    }
    assert(member_of(built, key) =~= member);
}

/// A member under another key is not touched.
proof fn lemma_other_member(doc: Document, key: Seq<char>, member: Document, other: Seq<char>)
    requires
        key != other,
    ensures
        member_of(with_member(doc, key, member), other) == member_of(doc, other),
{
    assert(member_of(with_member(doc, key, member), other) =~= member_of(doc, other));
}

/// Law: both kinds of push have the place for a trace context.
pub proof fn law_push_has_room_for_a_trace(device_token: Seq<char>, ns: NamespaceId)
    ensures
        can_trace(apns_body(ns), Platform::Apns),
        can_trace(fcm_body(device_token, ns), Platform::Fcm),
{
    lemma_keys_differ();
    let body = fcm_body(device_token, ns);
    let message = fcm_message(device_token, ns);
    lemma_member_paths(leaf(Node::Object), "message"@, message, Seq::empty());
    let before = with_member(fcm_data(device_token, ns), "android"@, high_priority());
    lemma_other_member(before, "apns"@, fcm_apns(), "data"@);
    lemma_other_member(fcm_data(device_token, ns), "android"@, high_priority(), "data"@);
    lemma_member_paths(
        with_member(leaf(Node::Object), "token"@, leaf(Node::Text(device_token))),
        "data"@,
        hint(leaf(Node::Object), ns),
        Seq::empty(),
    );
}

/// A path is its first key and the rest.
proof fn lemma_path(path: Seq<Seq<char>>)
    requires
        path.len() > 0,
    ensures
        path == seq![path[0]] + path.skip(1),
{
    assert(path =~= seq![path[0]] + path.skip(1));
}

/// Law: an APNs push is silent, and all that it carries is the type and the namespace. It asks for
/// background delivery; there is no alert and no sound in it.
pub proof fn law_apns_push_is_silent(ns: NamespaceId, path: Seq<Seq<char>>)
    ensures
        apns_body(ns).contains_key(path) <==> {
            ||| path == Seq::<Seq<char>>::empty()
            ||| path == seq!["aps"@]
            ||| path == seq!["aps"@, "content-available"@]
            ||| path == seq!["type"@]
            ||| path == seq!["ns"@]
        },
        apns_body(ns)[seq!["aps"@, "content-available"@]] == Node::Number(1),
        apns_body(ns)[seq!["type"@]] == Node::Text(PUSH_TYPE@),
        apns_body(ns)[seq!["ns"@]] == Node::Text(hex_text(ns@)),
        !apns_body(ns).contains_key(seq!["aps"@, "alert"@]),
        !apns_body(ns).contains_key(seq!["aps"@, "sound"@]),
        !apns_body(ns).contains_key(seq!["alert"@]),
        !apns_body(ns).contains_key(seq!["sound"@]),
{
    lemma_keys_differ();
    reveal_strlit("aps");
    reveal_strlit("type");
    reveal_strlit("ns");
    reveal_strlit("alert");
    reveal_strlit("sound");
    assert("alert"@.len() == 5 && "sound"@.len() == 5 && "aps"@.len() == 3 && "type"@.len() == 4
        && "ns"@.len() == 2);
    let none = Seq::<Seq<char>>::empty();
    assert(seq!["aps"@].skip(1) =~= none);
    assert(seq!["type"@].skip(1) =~= none);
    assert(seq!["ns"@].skip(1) =~= none);
    assert(seq!["content-available"@].skip(1) =~= none);
    assert(seq!["aps"@, "content-available"@].skip(1) =~= seq!["content-available"@]);
    assert(seq!["aps"@, "alert"@].skip(1) =~= seq!["alert"@]);
    assert(seq!["aps"@, "sound"@].skip(1) =~= seq!["sound"@]);
    if apns_body(ns).contains_key(path) && path.len() > 0 {
        lemma_path(path);
        if leads_into(path, "aps"@) {
            let rest = path.skip(1);
            assert(silent().contains_key(rest));
            if rest.len() > 0 {
                lemma_path(rest);
                assert(path =~= seq!["aps"@, "content-available"@]);
            } else {
                assert(path =~= seq!["aps"@]);
            }
        } else if leads_into(path, "type"@) {
            assert(path =~= seq!["type"@]);
        } else {
            assert(path =~= seq!["ns"@]);
        }
    }
}

/// Law: an FCM push is one data-only message of high priority: the device, the hint, the priority
/// and the silent delivery for iOS, and no notification, which would go to the system tray.
pub proof fn law_fcm_push_is_data_only(device_token: Seq<char>, ns: NamespaceId, key: Seq<char>)
    ensures
        fcm_body(device_token, ns).contains_key(seq![key]) <==> key == "message"@,
        fcm_body(device_token, ns).contains_key(seq!["message"@, key]) <==> {
            ||| key == "token"@
            ||| key == "data"@
            ||| key == "android"@
            ||| key == "apns"@
        },
        !fcm_body(device_token, ns).contains_key(seq!["message"@, "notification"@]),
        fcm_body(device_token, ns)[seq!["message"@, "token"@]] == Node::Text(device_token),
        member_of(member_of(fcm_body(device_token, ns), "message"@), "data"@) == hint(
            leaf(Node::Object),
            ns,
        ),
        member_of(member_of(fcm_body(device_token, ns), "message"@), "android"@)
            == high_priority(),
        member_of(member_of(fcm_body(device_token, ns), "message"@), "apns"@) == fcm_apns(),
{
    lemma_keys_differ();
    let body = fcm_body(device_token, ns);
    let message = fcm_message(device_token, ns);
    let none = Seq::<Seq<char>>::empty();
    assert forall|k: Seq<char>| (#[trigger] seq!["message"@, k]).skip(1) == seq![k] by {
        assert(seq!["message"@, k].skip(1) =~= seq![k]);
    }
    assert forall|k: Seq<char>| (#[trigger] seq![k]).skip(1) == none by {
        assert(seq![k].skip(1) =~= none);
    }
    assert(leads_into(seq!["message"@, key], "message"@));
    assert(leads_into(seq!["message"@, "notification"@], "message"@));
    assert(leads_into(seq!["message"@, "token"@], "message"@));
    assert(seq!["message"@, "token"@].skip(1) == seq!["token"@]);
    assert(seq!["token"@].skip(1) == none);
    assert(seq!["message"@, key].skip(1) == seq![key]);
    assert(seq![key].skip(1) == none);
    assert(seq!["message"@].skip(1) == none);
    assert(seq!["message"@, "notification"@].skip(1) == seq!["notification"@]);
    lemma_member_paths(leaf(Node::Object), "message"@, message, none);
    let before = with_member(fcm_data(device_token, ns), "android"@, high_priority());
    lemma_member_paths(before, "apns"@, fcm_apns(), none);
    lemma_other_member(before, "apns"@, fcm_apns(), "data"@);
    lemma_other_member(before, "apns"@, fcm_apns(), "android"@);
    lemma_member_paths(fcm_data(device_token, ns), "android"@, high_priority(), none);
    lemma_other_member(fcm_data(device_token, ns), "android"@, high_priority(), "data"@);
    lemma_member_paths(
        with_member(leaf(Node::Object), "token"@, leaf(Node::Text(device_token))),
        "data"@,
        hint(leaf(Node::Object), ns),
        none,
    );
}

/// Whether `node` stands at `path` of `doc`.
pub open spec fn stands_at(doc: Document, path: Seq<Seq<char>>, node: Node) -> bool {
    doc.contains_key(path) && doc[path] == node
}

/// What stands in a member that was set is read under its key.
proof fn lemma_set_is_read(
    doc: Document,
    key: Seq<char>,
    member: Document,
    path: Seq<Seq<char>>,
    node: Node,
)
    requires
        stands_at(member, path, node),
    ensures
        stands_at(with_member(doc, key, member), seq![key] + path, node),
{
    assert((seq![key] + path).skip(1) =~= path);
}

/// Setting a member leaves what stands under another key.
proof fn lemma_set_keeps_others(
    doc: Document,
    key: Seq<char>,
    member: Document,
    other: Seq<char>,
    path: Seq<Seq<char>>,
    node: Node,
)
    requires
        key != other,
        stands_at(doc, seq![other] + path, node),
    ensures
        stands_at(with_member(doc, key, member), seq![other] + path, node),
{
    assert((seq![other] + path)[0] == other);
}

/// What the hint of an FCM push holds.
proof fn lemma_hint_values(ns: NamespaceId)
    ensures
        stands_at(hint(leaf(Node::Object), ns), seq!["type"@], Node::Text("trail-sync"@)),
        stands_at(hint(leaf(Node::Object), ns), seq!["ns"@], Node::Text(hex_text(ns@))),
{
    lemma_keys_differ();
    let none = Seq::<Seq<char>>::empty();
    assert(seq!["type"@].skip(1) =~= none);
    assert(seq!["ns"@].skip(1) =~= none);
}

/// What the iOS part of an FCM push holds.
proof fn lemma_fcm_apns_values()
    ensures
        stands_at(
            fcm_apns(),
            seq!["payload"@] + seq!["aps"@, "content-available"@],
            Node::Number(1),
        ),
        stands_at(
            fcm_apns(),
            seq!["headers"@] + seq!["apns-push-type"@],
            Node::Text("background"@),
        ),
        stands_at(fcm_apns(), seq!["headers"@] + seq!["apns-priority"@], Node::Text("5"@)),
{
    lemma_keys_differ();
    let none = Seq::<Seq<char>>::empty();
    let empty = leaf(Node::Object);
    let headers = with_member(empty, "headers"@, background_headers());
    let payload = with_member(empty, "aps"@, silent());
    assert(seq!["content-available"@] =~= seq!["content-available"@] + none);
    lemma_set_is_read(empty, "content-available"@, leaf(Node::Number(1)), none, Node::Number(1));
    assert(seq!["aps"@, "content-available"@] =~= seq!["aps"@] + seq!["content-available"@]);
    lemma_set_is_read(empty, "aps"@, silent(), seq!["content-available"@], Node::Number(1));
    lemma_set_is_read(
        headers,
        "payload"@,
        payload,
        seq!["aps"@, "content-available"@],
        Node::Number(1),
    );
    assert(seq!["apns-push-type"@].skip(1) =~= none);
    assert(seq!["apns-priority"@].skip(1) =~= none);
    let background = Node::Text("background"@);
    let five = Node::Text("5"@);
    assert(stands_at(background_headers(), seq!["apns-push-type"@], background));
    assert(stands_at(background_headers(), seq!["apns-priority"@], five));
    lemma_set_is_read(
        empty,
        "headers"@,
        background_headers(),
        seq!["apns-push-type"@],
        background,
    );
    lemma_set_is_read(empty, "headers"@, background_headers(), seq!["apns-priority"@], five);
    lemma_set_keeps_others(
        headers,
        "payload"@,
        payload,
        "headers"@,
        seq!["apns-push-type"@],
        background,
    );
    lemma_set_keeps_others(headers, "payload"@, payload, "headers"@, seq!["apns-priority"@], five);
}

/// What stands in the data, under `android` and under `apns` stands there in the whole body.
proof fn lemma_fcm_part(
    device_token: Seq<char>,
    ns: NamespaceId,
    key: Seq<char>,
    part: Document,
    path: Seq<Seq<char>>,
    node: Node,
)
    requires
        ({
            ||| key == "data"@ && part == hint(leaf(Node::Object), ns)
            ||| key == "android"@ && part == high_priority()
            ||| key == "apns"@ && part == fcm_apns()
        }),
        stands_at(part, path, node),
    ensures
        stands_at(fcm_body(device_token, ns), seq!["message"@] + (seq![key] + path), node),
{
    lemma_keys_differ();
    let data = fcm_data(device_token, ns);
    let android = with_member(data, "android"@, high_priority());
    let message = fcm_message(device_token, ns);
    if key == "data"@ {
        let token = with_member(leaf(Node::Object), "token"@, leaf(Node::Text(device_token)));
        lemma_set_is_read(token, key, part, path, node);
        lemma_set_keeps_others(data, "android"@, high_priority(), key, path, node);
        lemma_set_keeps_others(android, "apns"@, fcm_apns(), key, path, node);
    } else if key == "android"@ {
        lemma_set_is_read(data, key, part, path, node);
        lemma_set_keeps_others(android, "apns"@, fcm_apns(), key, path, node);
    } else {
        lemma_set_is_read(android, key, part, path, node);
    }
    lemma_set_is_read(leaf(Node::Object), "message"@, message, seq![key] + path, node);
}

/// Law: an FCM message carries the type and the namespace as its data, high priority for Android, and
/// the silent background delivery for iOS.
pub proof fn law_fcm_push_values(device_token: Seq<char>, ns: NamespaceId)
    ensures
        ({
            let body = fcm_body(device_token, ns);
            &&& stands_at(body, seq!["message"@, "data"@, "ns"@], Node::Text(hex_text(ns@)))
            &&& stands_at(body, seq!["message"@, "data"@, "type"@], Node::Text("trail-sync"@))
            &&& stands_at(body, seq!["message"@, "android"@, "priority"@], Node::Text("high"@))
            &&& stands_at(
                body,
                seq!["message"@, "apns"@, "payload"@, "aps"@, "content-available"@],
                Node::Number(1),
            )
            &&& stands_at(
                body,
                seq!["message"@, "apns"@, "headers"@, "apns-push-type"@],
                Node::Text("background"@),
            )
            &&& stands_at(
                body,
                seq!["message"@, "apns"@, "headers"@, "apns-priority"@],
                Node::Text("5"@),
            )
        }),
{
    let data = hint(leaf(Node::Object), ns);
    lemma_hint_values(ns);
    lemma_fcm_apns_values();
    let d = "data"@;
    let a = "apns"@;
    lemma_fcm_part(device_token, ns, d, data, seq!["ns"@], Node::Text(hex_text(ns@)));
    lemma_fcm_part(device_token, ns, d, data, seq!["type"@], Node::Text("trail-sync"@));
    assert(seq!["priority"@].skip(1) =~= Seq::<Seq<char>>::empty());
    lemma_fcm_part(
        device_token,
        ns,
        "android"@,
        high_priority(),
        seq!["priority"@],
        Node::Text("high"@),
    );
    let p = seq!["payload"@] + seq!["aps"@, "content-available"@];
    let t = seq!["headers"@] + seq!["apns-push-type"@];
    let r = seq!["headers"@] + seq!["apns-priority"@];
    lemma_fcm_part(device_token, ns, a, fcm_apns(), p, Node::Number(1));
    lemma_fcm_part(device_token, ns, a, fcm_apns(), t, Node::Text("background"@));
    lemma_fcm_part(device_token, ns, a, fcm_apns(), r, Node::Text("5"@));
    let m = seq!["message"@];
    assert(m + (seq![d] + seq!["ns"@]) =~= seq!["message"@, "data"@, "ns"@]);
    assert(m + (seq![d] + seq!["type"@]) =~= seq!["message"@, "data"@, "type"@]);
    assert(m + (seq!["android"@] + seq!["priority"@]) =~= seq![
        "message"@,
        "android"@,
        "priority"@,
    ]);
    assert(m + (seq![a] + p) =~= seq![
        "message"@,
        "apns"@,
        "payload"@,
        "aps"@,
        "content-available"@,
    ]);
    assert(m + (seq![a] + t) =~= seq!["message"@, "apns"@, "headers"@, "apns-push-type"@]);
    assert(m + (seq![a] + r) =~= seq!["message"@, "apns"@, "headers"@, "apns-priority"@]);
}

/// The paths of the iOS part of an FCM push.
proof fn lemma_fcm_apns_paths(path: Seq<Seq<char>>)
    requires
        fcm_apns().contains_key(path),
    ensures
        ({
            ||| path == Seq::<Seq<char>>::empty()
            ||| path == seq!["headers"@]
            ||| path == seq!["headers"@, "apns-push-type"@]
            ||| path == seq!["headers"@, "apns-priority"@]
            ||| path == seq!["payload"@]
            ||| path == seq!["payload"@, "aps"@]
            ||| path == seq!["payload"@, "aps"@, "content-available"@]
        }),
{
    if path.len() > 0 {
        let rest = path.skip(1);
        if leads_into(path, "payload"@) {
            assert(with_member(leaf(Node::Object), "aps"@, silent()).contains_key(rest));
            if rest.len() == 0 {
                assert(path =~= seq!["payload"@]);
            } else {
                let tail = rest.skip(1);
                assert(silent().contains_key(tail));
                if tail.len() == 0 {
                    assert(path =~= seq!["payload"@, "aps"@]);
                } else {
                    assert(tail.skip(1) == Seq::<Seq<char>>::empty());
                    assert(rest[0] == path[1] && tail[0] == path[2] && tail.len() == 1);
                    assert(path =~= seq!["payload"@, "aps"@, "content-available"@]);
                }
            }
        } else {
            assert(background_headers().contains_key(rest));
            if rest.len() == 0 {
                assert(path =~= seq!["headers"@]);
            } else {
                assert(rest.skip(1) == Seq::<Seq<char>>::empty());
                assert(rest[0] == path[1] && rest.len() == 1);
                assert(path =~= seq!["headers"@, rest[0]]);
            }
        }
    }
}

/// Law: nothing else stands in an FCM push: no path but these, and so no alert and no sound.
pub proof fn law_fcm_push_carries_nothing_else(
    device_token: Seq<char>,
    ns: NamespaceId,
    path: Seq<Seq<char>>,
)
    requires
        fcm_body(device_token, ns).contains_key(path),
    ensures
        ({
            ||| path == Seq::<Seq<char>>::empty()
            ||| path == seq!["message"@]
            ||| path == seq!["message"@, "token"@]
            ||| path == seq!["message"@, "data"@]
            ||| path == seq!["message"@, "data"@, "type"@]
            ||| path == seq!["message"@, "data"@, "ns"@]
            ||| path == seq!["message"@, "android"@]
            ||| path == seq!["message"@, "android"@, "priority"@]
            ||| path == seq!["message"@, "apns"@]
            ||| path == seq!["message"@, "apns"@, "headers"@]
            ||| path == seq!["message"@, "apns"@, "headers"@, "apns-push-type"@]
            ||| path == seq!["message"@, "apns"@, "headers"@, "apns-priority"@]
            ||| path == seq!["message"@, "apns"@, "payload"@]
            ||| path == seq!["message"@, "apns"@, "payload"@, "aps"@]
            ||| path == seq!["message"@, "apns"@, "payload"@, "aps"@, "content-available"@]
        }),
{
    if path.len() > 0 {
        let rest = path.skip(1);
        assert(fcm_message(device_token, ns).contains_key(rest));
        if rest.len() == 0 {
            assert(path =~= seq!["message"@]);
        } else {
            let tail = rest.skip(1);
            assert(path =~= seq!["message"@, rest[0]] + tail);
            if leads_into(rest, "apns"@) {
                assert(fcm_apns().contains_key(tail));
                lemma_fcm_apns_paths(tail);
                let m = seq!["message"@, "apns"@];
                assert(m + Seq::<Seq<char>>::empty() =~= m);
                assert(m + seq!["headers"@] =~= seq!["message"@, "apns"@, "headers"@]);
                assert(m + seq!["headers"@, "apns-push-type"@] =~= seq![
                    "message"@,
                    "apns"@,
                    "headers"@,
                    "apns-push-type"@,
                ]);
                assert(m + seq!["headers"@, "apns-priority"@] =~= seq![
                    "message"@,
                    "apns"@,
                    "headers"@,
                    "apns-priority"@,
                ]);
                assert(m + seq!["payload"@] =~= seq!["message"@, "apns"@, "payload"@]);
                assert(m + seq!["payload"@, "aps"@] =~= seq![
                    "message"@,
                    "apns"@,
                    "payload"@,
                    "aps"@,
                ]);
                assert(m + seq!["payload"@, "aps"@, "content-available"@] =~= seq![
                    "message"@,
                    "apns"@,
                    "payload"@,
                    "aps"@,
                    "content-available"@,
                ]);
            } else if leads_into(rest, "android"@) {
                assert(high_priority().contains_key(tail));
                if tail.len() == 0 {
                    assert(path =~= seq!["message"@, "android"@]);
                } else {
                    assert(tail.skip(1) == Seq::<Seq<char>>::empty());
                    assert(tail.len() == 1);
                    assert(path =~= seq!["message"@, "android"@, "priority"@]);
                }
            } else if leads_into(rest, "data"@) {
                assert(hint(leaf(Node::Object), ns).contains_key(tail));
                if tail.len() == 0 {
                    assert(path =~= seq!["message"@, "data"@]);
                } else {
                    assert(tail.skip(1) == Seq::<Seq<char>>::empty());
                    assert(tail.len() == 1);
                    assert(path =~= seq!["message"@, "data"@, tail[0]]);
                }
            } else {
                assert(tail == Seq::<Seq<char>>::empty());
                assert(path =~= seq!["message"@, "token"@]);
            }
        }
    }
}

/// Law: a trace context is added where the app finds it, at the top level for APNs and in the data
/// for FCM, and nothing else of the body changes.
pub proof fn law_trace_context_is_added_beside_the_hint(
    body: Document,
    platform: Platform,
    traceparent: Seq<char>,
    path: Seq<Seq<char>>,
)
    requires
        can_trace(body, platform),
    ensures
        ({
            let place = match platform {
                Platform::Apns => seq!["traceparent"@],
                Platform::Fcm => seq!["message"@, "data"@, "traceparent"@],
            };
            let traced = with_trace(body, platform, traceparent);
            &&& traced.contains_key(place) && traced[place] == Node::Text(traceparent)
            &&& !place.is_prefix_of(path) ==> (traced.contains_key(path) <==> body.contains_key(path))
            &&& !place.is_prefix_of(path) && body.contains_key(path) ==> traced[path] == body[path]
        }),
{
    let none = Seq::<Seq<char>>::empty();
    let traced = with_trace(body, platform, traceparent);
    match platform {
        Platform::Apns => {
            let place = seq!["traceparent"@];
            assert(place.skip(1) =~= none);
            if leads_into(path, "traceparent"@) {
                assert(path.subrange(0, 1) =~= place);
                assert(place.is_prefix_of(path));
            }
        },
        Platform::Fcm => {
            let place = seq!["message"@, "data"@, "traceparent"@];
            assert(place.skip(1) =~= seq!["data"@, "traceparent"@]);
            assert(place.skip(1).skip(1) =~= seq!["traceparent"@]);
            assert(place.skip(1).skip(1).skip(1) =~= none);
            if leads_into(path, "message"@) {
                let p1 = path.skip(1);
                lemma_path(path);
                if leads_into(p1, "data"@) {
                    let p2 = p1.skip(1);
                    lemma_path(p1);
                    if leads_into(p2, "traceparent"@) {
                        assert(path.subrange(0, 3) =~= place);
                        assert(place.is_prefix_of(path));
                    } else {
                        assert(seq!["message"@] + (seq!["data"@] + p2) == path);
                    }
                }
            }
        },
    }
}

/// Law: adding a trace context to a push changes neither where it goes nor its headers, and of its
/// body only the place for the context.
pub proof fn law_trace_context_changes_nothing_else(
    req: &mut PushRequest,
    platform: Platform,
    traceparent: &str,
    path: Seq<Seq<char>>,
)
    requires
        can_trace(document(old(req).body), platform),
        call_ensures(embed_traceparent, (req, platform, traceparent), ()),
    ensures
        ({
            let place = match platform {
                Platform::Apns => seq!["traceparent"@],
                Platform::Fcm => seq!["message"@, "data"@, "traceparent"@],
            };
            let before = document(old(req).body);
            let after = document(final(req).body);
            &&& final(req).url@ == old(req).url@
            &&& final(req).headers@.len() == old(req).headers@.len()
            &&& forall|i: int|
                0 <= i < old(req).headers@.len() ==> (#[trigger] final(req).headers@[i]).0@
                    == old(req).headers@[i].0@ && final(req).headers@[i].1@
                    == old(req).headers@[i].1@
            &&& stands_at(after, place, Node::Text(traceparent@))
            &&& !place.is_prefix_of(path) ==> (after.contains_key(path) <==> before.contains_key(
                path,
            ))
            &&& !place.is_prefix_of(path) && before.contains_key(path) ==> after[path]
                == before[path]
        }),
{
    law_trace_context_is_added_beside_the_hint(
        document(old(req).body),
        platform,
        traceparent@,
        path,
    );
    let b = old(req)@.headers;
    let a = final(req)@.headers;
    assert(a == b);
    assert(a.len() == final(req).headers@.len() && b.len() == old(req).headers@.len());
    assert forall|i: int| 0 <= i < old(req).headers@.len() implies (#[trigger] final(req).headers@[i]).0@
        == old(req).headers@[i].0@ && final(req).headers@[i].1@ == old(req).headers@[i].1@ by {
        assert(a[i] == (final(req).headers@[i].0@, final(req).headers@[i].1@));
        assert(b[i] == (old(req).headers@[i].0@, old(req).headers@[i].1@));
    }
}

} // verus!
