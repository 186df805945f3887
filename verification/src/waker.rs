//! The push-to-sync seam. When the replica can serve a new entry, it asks a [`Waker`] to send a
//! silent push to the namespace's subscribers, so that their headless runtime comes up and syncs.

use crate::json::{document, Node};
use crate::push::{
    apns_body, apns_headers, apns_request, can_trace, fcm_body, fcm_request,
    law_apns_push_is_silent, law_fcm_push_is_data_only, law_fcm_push_values, stands_at, PushRequest,
    PushView,
};
use crate::subscriptions::{NamespaceId, Platform, PushSubscription, SubscriptionView};
use crate::text::{hex_text, string_view};
use vstd::prelude::*;
use vstd::string::*;

verus! {

/// Sends a wake-up to a set of push destinations. An implementation must not block its caller for
/// long and must never log full tokens.
pub trait Waker: Send + Sync {
    /// Wakes every target because `namespace` has new entries.
    fn wake(&self, namespace: &NamespaceId, targets: &[PushSubscription]);
}

/// Does nothing: for a stash without push credentials.
#[derive(Debug, Default, Clone, Copy)]
pub struct NoopWaker;

impl Waker for NoopWaker {
    fn wake(&self, _namespace: &NamespaceId, _targets: &[PushSubscription]) {
    }
}

/// Supplies the short-lived bearer credential of each platform at send time.
pub trait PushCredentials: Send + Sync {
    /// The credential for APNs, if there is one.
    fn apns_bearer(&self) -> Option<String>;

    /// The credential for FCM, if there is one.
    fn fcm_bearer(&self) -> Option<String>;
}

/// Where the pushes of each platform go.
#[derive(Debug, Clone)]
pub struct PushConfig {
    /// Apple's production or sandbox host.
    pub apns_host: String,
    /// The app's bundle id.
    pub bundle_id: String,
    /// The Firebase project id.
    pub fcm_project_id: String,
}

/// Apple's production host.
pub const DEFAULT_APNS_HOST: &'static str = "api.push.apple.com";

/// What a [`PushConfig`] holds.
#[verifier::ext_equal]
pub struct PushConfigView {
    pub apns_host: Seq<char>,
    pub bundle_id: Seq<char>,
    pub fcm_project_id: Seq<char>,
}

impl View for PushConfig {
    type V = PushConfigView;

    open spec fn view(&self) -> PushConfigView {
        PushConfigView {
            apns_host: self.apns_host@,
            bundle_id: self.bundle_id@,
            fcm_project_id: self.fcm_project_id@,
        }
    }
}

/// `value`, or nothing.
pub open spec fn or_empty(value: Option<Seq<char>>) -> Seq<char> {
    match value {
        Some(v) => v,
        None => Seq::empty(),
    }
}

/// The routes that the environment asks for: none without a bundle id or a project id.
pub open spec fn routes(
    bundle_id: Option<Seq<char>>,
    fcm_project_id: Option<Seq<char>>,
    apns_host: Option<Seq<char>>,
) -> Option<PushConfigView> {
    if or_empty(bundle_id).len() == 0 && or_empty(fcm_project_id).len() == 0 {
        None
    } else {
        Some(
            PushConfigView {
                apns_host: match apns_host {
                    Some(host) => host,
                    None => DEFAULT_APNS_HOST@,
                },
                bundle_id: or_empty(bundle_id),
                fcm_project_id: or_empty(fcm_project_id),
            },
        )
    }
}

/// `value` if it is there and not empty.
pub fn non_empty(value: Option<String>) -> (r: Option<String>)
    ensures
        string_view(r) == if or_empty(string_view(value)).len() == 0 {
            None::<Seq<char>>
        } else {
            string_view(value)
        },
{
    match value {
        Some(v) => if v.as_str().is_empty() {
            None
        } else {
            Some(v)
        },
        None => None,
    }
}

impl PushConfig {
    /// The routes that the environment asks for. Without a bundle id or a project id nothing is to
    /// be pushed.
    pub fn from_values(
        bundle_id: Option<String>,
        fcm_project_id: Option<String>,
        apns_host: Option<String>,
    ) -> (r: Option<PushConfig>)
        ensures
            (match r {
                Some(config) => Some(config@),
                None => None,
            }) == routes(
                string_view(bundle_id),
                string_view(fcm_project_id),
                string_view(apns_host),
            ),
    {
        let ghost expected = routes(
            string_view(bundle_id),
            string_view(fcm_project_id),
            string_view(apns_host),
        );
        let bundle_id = match non_empty(bundle_id) {
            Some(v) => v,
            None => String::new(),
        };
        let fcm_project_id = match non_empty(fcm_project_id) {
            Some(v) => v,
            None => String::new(),
        };
        if bundle_id.as_str().is_empty() && fcm_project_id.as_str().is_empty() {
            return None;
        }
        let apns_host = match apns_host {
            Some(host) => host,
            None => DEFAULT_APNS_HOST.to_string(),
        };
        let config = PushConfig { apns_host, bundle_id, fcm_project_id };
        assert(bundle_id@ =~= expected->0.bundle_id);
        assert(fcm_project_id@ =~= expected->0.fcm_project_id);
        Some(config)
    }
}

/// The push that tells one subscriber about a namespace.
pub open spec fn push_to(config: PushConfigView, ns: NamespaceId, sub: SubscriptionView) -> PushView {
    match sub.platform {
        Platform::Apns => PushView {
            url: "https://"@ + config.apns_host + "/3/device/"@ + sub.token,
            headers: apns_headers(config.bundle_id),
            body: apns_body(ns),
        },
        Platform::Fcm => PushView {
            url: "https://fcm.googleapis.com/v1/projects/"@ + config.fcm_project_id
                + "/messages:send"@,
            headers: Seq::empty(),
            body: fcm_body(sub.token, ns),
        },
    }
}

/// Whether `credentials` may supply `bearer` for `platform`.
pub open spec fn supplies<C: PushCredentials>(
    credentials: &C,
    platform: Platform,
    bearer: Option<String>,
) -> bool {
    match platform {
        Platform::Apns => call_ensures(C::apns_bearer, (credentials,), bearer),
        Platform::Fcm => call_ensures(C::fcm_bearer, (credentials,), bearer),
    }
}

/// Whether `built` is the push to `sub` about `ns` with the credential `bearer`, or nothing where
/// there is no credential.
pub open spec fn is_push_with(
    built: Option<(PushRequest, String)>,
    bearer: Option<String>,
    config: PushConfigView,
    ns: NamespaceId,
    sub: SubscriptionView,
) -> bool {
    match bearer {
        Some(credential) => built matches Some((req, b)) && b@ == credential@ && req@ == push_to(
            config,
            ns,
            sub,
        ) && can_trace(req@.body, sub.platform),
        None => built is None,
    }
}

/// Whether `built` is the push to `sub` about `ns` with a credential that `credentials` may supply
/// for its platform, or nothing where they supply none.
pub open spec fn is_push_for<C: PushCredentials>(
    built: Option<(PushRequest, String)>,
    credentials: &C,
    config: PushConfigView,
    ns: NamespaceId,
    sub: SubscriptionView,
) -> bool {
    exists|bearer: Option<String>| #[trigger]
        supplies(credentials, sub.platform, bearer) && is_push_with(built, bearer, config, ns, sub)
}

/// The push that tells one subscriber about a namespace, with the credential to send it by, if
/// there is one.
pub fn build_given(
    config: &PushConfig,
    ns: &NamespaceId,
    sub: &PushSubscription,
    bearer: Option<String>,
) -> (r: Option<(PushRequest, String)>)
    ensures
        is_push_with(r, bearer, config@, *ns, sub@),
{
    match bearer {
        Some(credential) => {
            let req = match sub.platform {
                Platform::Apns => apns_request(
                    config.apns_host.as_str(),
                    config.bundle_id.as_str(),
                    sub.token.as_str(),
                    ns,
                ),
                Platform::Fcm => fcm_request(
                    config.fcm_project_id.as_str(),
                    sub.token.as_str(),
                    ns,
                ),
            };
            Some((req, credential))
        },
        None => None,
    }
}

/// The push that tells one subscriber about a namespace, with its platform's credential. `None`
/// where there is no such credential.
pub fn build<C: PushCredentials>(
    config: &PushConfig,
    credentials: &C,
    ns: &NamespaceId,
    sub: &PushSubscription,
) -> (r: Option<(PushRequest, String)>)
    ensures
        is_push_for(r, credentials, config@, *ns, sub@),
{
    let bearer = match sub.platform {
        Platform::Apns => credentials.apns_bearer(),
        Platform::Fcm => credentials.fcm_bearer(),
    };
    assert(supplies(credentials, sub.platform, bearer));
    build_given(config, ns, sub, bearer)
}

/// The pushes that tell `targets` about a namespace, given the credential for each: one outcome per
/// target, in order. A target without a credential is skipped, and stops nobody after it.
pub fn build_all_given(
    config: &PushConfig,
    ns: &NamespaceId,
    targets: &[PushSubscription],
    bearers: Vec<Option<String>>,
) -> (r: Vec<Option<(PushRequest, String)>>)
    requires
        bearers@.len() == targets@.len(),
    ensures
        r@.len() == targets@.len(),
        forall|i: int|
            0 <= i < r@.len() ==> is_push_with(
                #[trigger] r@[i],
                bearers@[i],
                config@,
                *ns,
                targets@[i]@,
            ),
{
    let mut out: Vec<Option<(PushRequest, String)>> = Vec::new();
    let mut i: usize = 0;
    while i < targets.len()
        invariant
            i <= targets@.len(),
            bearers@.len() == targets@.len(),
            out@.len() == i,
            forall|k: int|
                0 <= k < i ==> is_push_with(
                    #[trigger] out@[k],
                    bearers@[k],
                    config@,
                    *ns,
                    targets@[k]@,
                ),
        decreases targets@.len() - i,
    {
        let bearer = match &bearers[i] {
            Some(credential) => Some(credential.clone()),
            None => None,
        };
        out.push(build_given(config, ns, &targets[i], bearer));
        i = i + 1;
    }
    out
}

/// The pushes that tell `targets` about a namespace: one outcome per target, in order, as [`build`]
/// gives it.
pub fn build_all<C: PushCredentials>(
    config: &PushConfig,
    credentials: &C,
    ns: &NamespaceId,
    targets: &[PushSubscription],
) -> (r: Vec<Option<(PushRequest, String)>>)
    ensures
        r@.len() == targets@.len(),
        forall|i: int|
            0 <= i < r@.len() ==> is_push_for(
                #[trigger] r@[i],
                credentials,
                config@,
                *ns,
                targets@[i]@,
            ),
{
    let mut bearers: Vec<Option<String>> = Vec::new();
    let mut i: usize = 0;
    while i < targets.len()
        invariant
            i <= targets@.len(),
            bearers@.len() == i,
            forall|k: int|
                0 <= k < i ==> supplies(
                    credentials,
                    targets@[k].platform,
                    #[trigger] bearers@[k],
                ),
        decreases targets@.len() - i,
    {
        let bearer = match targets[i].platform {
            Platform::Apns => credentials.apns_bearer(),
            Platform::Fcm => credentials.fcm_bearer(),
        };
        assert(supplies(credentials, targets@[i as int].platform, bearer));
        bearers.push(bearer);
        i = i + 1;
    }
    let ghost given = bearers@;
    let out = build_all_given(config, ns, targets, bearers);
    assert forall|k: int| 0 <= k < out@.len() implies is_push_for(
        #[trigger] out@[k],
        credentials,
        config@,
        *ns,
        targets@[k]@,
    ) by {
        assert(supplies(credentials, targets@[k]@.platform, given[k]));
    }
    out
}

/// What went wrong with one push.
#[derive(Debug)]
pub enum PushTrouble {
    /// There is no credential for its platform.
    NoCredential,
    /// The push service answered with this status.
    Status(String),
    /// It could not be sent, for this reason.
    Failed(String),
}

/// The log line for a push to `sub` that went wrong.
pub open spec fn trouble_text(sub: SubscriptionView, trouble: PushTrouble) -> Seq<char> {
    let label = sub.platform.name() + ":[REDACTED]"@;
    match trouble {
        PushTrouble::NoCredential => "stash: no push credential for "@ + label,
        PushTrouble::Status(status) => "stash: push "@ + label + " -> "@ + status@,
        PushTrouble::Failed(reason) => "stash: push "@ + label + " failed: "@ + reason@,
    }
}

/// The log line for a push that went wrong. It names the subscription by its platform only.
pub fn trouble_line(sub: &PushSubscription, trouble: &PushTrouble) -> (r: String)
    ensures
        r@ == trouble_text(sub@, *trouble),
{
    let label = sub.log_label();
    match trouble {
        PushTrouble::NoCredential => {
            let mut line = "stash: no push credential for ".to_string();
            line.append(label.as_str());
            line
        },
        PushTrouble::Status(status) => {
            let mut line = "stash: push ".to_string();
            line.append(label.as_str());
            line.append(" -> ");
            line.append(status.as_str());
            line
        },
        PushTrouble::Failed(reason) => {
            let mut line = "stash: push ".to_string();
            line.append(label.as_str());
            line.append(" failed: ");
            line.append(reason.as_str());
            line
        },
    }
}

/// Law: log lines do not tell tokens apart: for two subscriptions of one platform, the same trouble
/// gives the same line.
pub proof fn law_log_lines_do_not_tell_tokens(
    a: SubscriptionView,
    b: SubscriptionView,
    trouble: PushTrouble,
)
    requires
        a.platform == b.platform,
    ensures
        trouble_text(a, trouble) == trouble_text(b, trouble),
{
}

/// How many headers of a request have the name `name`.
pub open spec fn count_headers(headers: Seq<(String, String)>, name: Seq<char>) -> nat
    decreases headers.len(),
{
    if headers.len() == 0 {
        0
    } else {
        count_headers(headers.drop_last(), name) + if headers.last().0@ == name {
            1nat
        } else {
            0nat
        }
    }
}

/// Law: a push to an APNs device goes to the configured host and that device, as a background push
/// of low priority that is not stored, with exactly one topic: the configured bundle id. It carries
/// nothing of the Firebase project.
pub proof fn law_apns_push_goes_to_its_device(
    req: PushRequest,
    bearer: String,
    given: Option<String>,
    config: PushConfig,
    ns: NamespaceId,
    sub: PushSubscription,
)
    requires
        is_push_with(Some((req, bearer)), given, config@, ns, sub@),
        sub.platform is Apns,
    ensures
        given matches Some(credential) && bearer@ == credential@,
        req.url@ == "https://"@ + config.apns_host@ + "/3/device/"@ + sub.token@,
        req.headers@.len() == 4,
        count_headers(req.headers@, "apns-topic"@) == 1,
        count_headers(req.headers@, "apns-push-type"@) == 1,
        count_headers(req.headers@, "apns-priority"@) == 1,
        count_headers(req.headers@, "apns-expiration"@) == 1,
        forall|i: int|
            0 <= i < req.headers@.len() ==> {
                &&& (#[trigger] req.headers@[i]).0@ == "apns-topic"@ ==> req.headers@[i].1@
                    == config.bundle_id@
                &&& req.headers@[i].0@ == "apns-push-type"@ ==> req.headers@[i].1@ == "background"@
                &&& req.headers@[i].0@ == "apns-priority"@ ==> req.headers@[i].1@ == "5"@
                &&& req.headers@[i].0@ == "apns-expiration"@ ==> req.headers@[i].1@ == "0"@
            },
        document(req.body)[seq!["ns"@]] == Node::Text(hex_text(ns@)),
        document(req.body)[seq!["type"@]] == Node::Text("trail-sync"@),
        document(req.body)[seq!["aps"@, "content-available"@]]
            == Node::Number(1),
{
    law_apns_push_is_silent(ns, Seq::empty());
    reveal_strlit("apns-topic");
    reveal_strlit("apns-push-type");
    reveal_strlit("apns-priority");
    reveal_strlit("apns-expiration");
    assert("apns-topic"@.len() == 10 && "apns-push-type"@.len() == 14 && "apns-priority"@.len()
        == 13 && "apns-expiration"@.len() == 15);
    let h = req.headers@;
    let views = h.map_values(|x: (String, String)| (x.0@, x.1@));
    assert(views == apns_headers(config.bundle_id@));
    assert(views.len() == h.len());
    assert forall|i: int| 0 <= i < 4 implies (#[trigger] h[i]).0@ == views[i].0 && h[i].1@
        == views[i].1 by {}
    reveal_with_fuel(count_headers, 5);
    assert(h.drop_last().drop_last().drop_last().drop_last() =~= Seq::empty());
    assert(h.drop_last().last() == h[2] && h.drop_last().drop_last().last() == h[1]
        && h.drop_last().drop_last().drop_last().last() == h[0]);
}

/// Law: a push to an FCM device goes to the configured project and names that device, with the hint
/// as its data and high priority. It carries nothing of the APNs route.
pub proof fn law_fcm_push_goes_to_its_device(
    req: PushRequest,
    bearer: String,
    given: Option<String>,
    config: PushConfig,
    ns: NamespaceId,
    sub: PushSubscription,
)
    requires
        is_push_with(Some((req, bearer)), given, config@, ns, sub@),
        sub.platform is Fcm,
    ensures
        given matches Some(credential) && bearer@ == credential@,
        req.url@ == "https://fcm.googleapis.com/v1/projects/"@ + config.fcm_project_id@
            + "/messages:send"@,
        req.headers@.len() == 0,
        document(req.body)[seq!["message"@, "token"@]] == Node::Text(
            sub.token@,
        ),
        stands_at(
            document(req.body),
            seq!["message"@, "data"@, "ns"@],
            Node::Text(hex_text(ns@)),
        ),
        stands_at(
            document(req.body),
            seq!["message"@, "data"@, "type"@],
            Node::Text("trail-sync"@),
        ),
        stands_at(
            document(req.body),
            seq!["message"@, "android"@, "priority"@],
            Node::Text("high"@),
        ),
        !document(req.body).contains_key(seq!["message"@, "notification"@]),
{
    law_fcm_push_is_data_only(sub.token@, ns, Seq::empty());
    law_fcm_push_values(sub.token@, ns);
    let h = req.headers@.map_values(|x: (String, String)| (x.0@, x.1@));
    assert(h.len() == req.headers@.len());
}

/// Law: without a credential nothing is built, and with one something is.
pub proof fn law_no_credential_no_push(
    built: Option<(PushRequest, String)>,
    given: Option<String>,
    config: PushConfigView,
    ns: NamespaceId,
    sub: SubscriptionView,
)
    requires
        is_push_with(built, given, config, ns, sub),
    ensures
        built is Some <==> given is Some,
{
}

/// Law: each route comes from its own setting. There is a route exactly when a bundle id or a project
/// id is set and not empty; an unset one is empty; the host is Apple's production host unless another
/// is set.
pub proof fn law_routes_come_from_their_settings(
    bundle_id: Option<Seq<char>>,
    project_id: Option<Seq<char>>,
    host: Option<Seq<char>>,
)
    ensures
        routes(bundle_id, project_id, host) is Some <==> (bundle_id matches Some(b) && b.len() > 0)
            || (project_id matches Some(p) && p.len() > 0),
        routes(bundle_id, project_id, host) matches Some(config) ==> {
            &&& bundle_id matches Some(b) ==> config.bundle_id == b
            &&& bundle_id is None ==> config.bundle_id.len() == 0
            &&& project_id matches Some(p) ==> config.fcm_project_id == p
            &&& project_id is None ==> config.fcm_project_id.len() == 0
            &&& host matches Some(h) ==> config.apns_host == h
            &&& host is None ==> config.apns_host == "api.push.apple.com"@
        },
{
}

/// Law: each push carries a credential of its own platform: one that the source of credentials may
/// give for APNs with an APNs push, and for FCM with an FCM push. Without one there is no push.
pub proof fn law_push_carries_its_platforms_credential<C: PushCredentials>(
    config: PushConfig,
    credentials: C,
    ns: NamespaceId,
    sub: PushSubscription,
    built: Option<(PushRequest, String)>,
)
    requires
        call_ensures(build::<C>, (&config, &credentials, &ns, &sub), built),
    ensures
        sub.platform is Apns ==> exists|given: Option<String>| #[trigger]
            call_ensures(C::apns_bearer, (&credentials,), given) && (match given {
                Some(credential) => built matches Some((_, bearer)) && bearer@ == credential@,
                None => built is None,
            }),
        sub.platform is Fcm ==> exists|given: Option<String>| #[trigger]
            call_ensures(C::fcm_bearer, (&credentials,), given) && (match given {
                Some(credential) => built matches Some((_, bearer)) && bearer@ == credential@,
                None => built is None,
            }),
{
    let given = choose|given: Option<String>| #[trigger]
        supplies(&credentials, sub.platform, given) && is_push_with(
            built,
            given,
            config@,
            ns,
            sub@,
        );
    match sub.platform {
        Platform::Apns => {
            assert(call_ensures(C::apns_bearer, (&credentials,), given));
        },
        Platform::Fcm => {
            assert(call_ensures(C::fcm_bearer, (&credentials,), given));
        },
    }
}

/// Law: a fan-out leaves nobody out. There is one outcome per target, in order, each the push to
/// that target with the credential given for it; a target without one gets none, whatever the others
/// have.
pub proof fn law_fan_out_reaches_every_target(
    config: PushConfig,
    ns: NamespaceId,
    targets: &[PushSubscription],
    bearers: Vec<Option<String>>,
    out: Vec<Option<(PushRequest, String)>>,
    i: int,
)
    requires
        call_ensures(build_all_given, (&config, &ns, targets, bearers), out),
        0 <= i < targets@.len(),
    ensures
        out@.len() == targets@.len(),
        out@[i] is Some <==> bearers@[i] is Some,
        out@[i] matches Some((req, bearer)) ==> {
            &&& bearer@ == bearers@[i]->0@
            &&& targets@[i].platform is Apns ==> req.url@ == "https://"@ + config.apns_host@
                + "/3/device/"@ + targets@[i].token@
            &&& targets@[i].platform is Fcm ==> stands_at(
                document(req.body),
                seq!["message"@, "token"@],
                Node::Text(targets@[i].token@),
            )
        },
{
    assert(is_push_with(out@[i], bearers@[i], config@, ns, targets@[i]@));
    law_fcm_push_is_data_only(targets@[i].token@, ns, "token"@);
}

/// Law: a log line about a push names its platform and the trouble, and nothing of its token.
pub proof fn law_log_line_names_platform_and_trouble(
    sub: PushSubscription,
    trouble: PushTrouble,
    line: String,
)
    requires
        call_ensures(trouble_line, (&sub, &trouble), line),
    ensures
        ({
            let platform = if sub.platform is Apns {
                "apns"@
            } else {
                "fcm"@
            };
            match trouble {
                PushTrouble::NoCredential => line@ == "stash: no push credential for "@ + platform
                    + ":[REDACTED]"@,
                PushTrouble::Status(status) => line@ == "stash: push "@ + platform
                    + ":[REDACTED]"@ + " -> "@ + status@,
                PushTrouble::Failed(reason) => line@ == "stash: push "@ + platform
                    + ":[REDACTED]"@ + " failed: "@ + reason@,
            }
        }),
{
    let platform = sub.platform.name();
    match trouble {
        PushTrouble::NoCredential => {
            assert(line@ =~= "stash: no push credential for "@ + platform + ":[REDACTED]"@);
        },
        PushTrouble::Status(status) => {
            assert(line@ =~= "stash: push "@ + platform + ":[REDACTED]"@ + " -> "@ + status@);
        },
        PushTrouble::Failed(reason) => {
            assert(line@ =~= "stash: push "@ + platform + ":[REDACTED]"@ + " failed: "@ + reason@);
        },
    }
}

/// Law: with credentials from a source, a fan-out still leaves nobody out: one outcome per target, in
/// order, each with a credential that the source may give for that target's platform.
pub proof fn law_fan_out_uses_each_targets_credential<C: PushCredentials>(
    config: PushConfig,
    credentials: C,
    ns: NamespaceId,
    targets: &[PushSubscription],
    out: Vec<Option<(PushRequest, String)>>,
    i: int,
)
    requires
        call_ensures(build_all::<C>, (&config, &credentials, &ns, targets), out),
        0 <= i < targets@.len(),
    ensures
        out@.len() == targets@.len(),
        targets@[i].platform is Apns ==> exists|given: Option<String>| #[trigger]
            call_ensures(C::apns_bearer, (&credentials,), given) && (match given {
                Some(credential) => out@[i] matches Some((req, bearer)) && bearer@ == credential@
                    && req.url@ == "https://"@ + config.apns_host@ + "/3/device/"@
                    + targets@[i].token@,
                None => out@[i] is None,
            }),
        targets@[i].platform is Fcm ==> exists|given: Option<String>| #[trigger]
            call_ensures(C::fcm_bearer, (&credentials,), given) && (match given {
                Some(credential) => out@[i] matches Some((req, bearer)) && bearer@ == credential@
                    && req.url@ == "https://fcm.googleapis.com/v1/projects/"@
                    + config.fcm_project_id@ + "/messages:send"@,
                None => out@[i] is None,
            }),
{
    let sub = targets@[i]@;
    assert(is_push_for(out@[i], &credentials, config@, ns, sub));
    let given = choose|given: Option<String>| #[trigger]
        supplies(&credentials, sub.platform, given) && is_push_with(
            out@[i],
            given,
            config@,
            ns,
            sub,
        );
    match sub.platform {
        Platform::Apns => {
            assert(call_ensures(C::apns_bearer, (&credentials,), given));
        },
        Platform::Fcm => {
            assert(call_ensures(C::fcm_bearer, (&credentials,), given));
        },
    }
}

/// Law: the routes are what the three values say, field by field.
pub proof fn law_push_config_holds_its_values(
    bundle_id: Option<String>,
    project_id: Option<String>,
    host: Option<String>,
    r: Option<PushConfig>,
)
    requires
        call_ensures(PushConfig::from_values, (bundle_id, project_id, host), r),
    ensures
        r is Some <==> (bundle_id matches Some(b) && b@.len() > 0) || (project_id matches Some(p)
            && p@.len() > 0),
        r matches Some(config) ==> {
            &&& bundle_id matches Some(b) ==> config.bundle_id@ == b@
            &&& bundle_id is None ==> config.bundle_id@.len() == 0
            &&& project_id matches Some(p) ==> config.fcm_project_id@ == p@
            &&& project_id is None ==> config.fcm_project_id@.len() == 0
            &&& host matches Some(h) ==> config.apns_host@ == h@
            &&& host is None ==> config.apns_host@ == "api.push.apple.com"@
        },
{
    law_routes_come_from_their_settings(
        string_view(bundle_id),
        string_view(project_id),
        string_view(host),
    );
    if let Some(config) = r {
        assert(routes(string_view(bundle_id), string_view(project_id), string_view(host)) == Some(
            config@,
        ));
    }
}

} // verus!
