//! Control-API requests and their validation. Presenting a read ticket is the grant, so there is no
//! separate step to replicate a namespace.

use crate::subscriptions::{NamespaceId, Platform, PushSubscription, SubscriptionView};
use crate::text::{
    alphanumeric, characters, hex_bytes, hex_text, is_alphanumeric, law_hex_reads_sixteens_then_ones,
    lemma_hex_reads_back, lemma_hex_writes_back, parse_hex_32, same_text, string_view, trim, trimmed,
};
use vstd::prelude::*;
use vstd::string::*;
use vstd::utf8::*;

verus! {

/// Upper bound on a read ticket.
pub const MAX_TICKET_LEN: usize = 4096;

/// Upper bound on a push token, in bytes.
pub const MAX_TOKEN_LEN: usize = 512;

/// Anything shorter is no ticket.
pub const MIN_TICKET_LEN: usize = 16;

/// The body of `POST /v1/namespaces`. Push token and platform are optional but go together.
#[derive(Debug, Clone)]
pub struct RegisterRequest {
    pub read_ticket: String,
    pub push_token: Option<String>,
    pub platform: Option<String>,
}

/// A registration that the node can act on.
#[derive(Debug, Clone, PartialEq, Eq)]
pub struct ValidRegister {
    pub read_ticket: String,
    pub subscription: Option<PushSubscription>,
}

/// What a [`ValidRegister`] holds.
#[verifier::ext_equal]
pub struct ValidView {
    pub read_ticket: Seq<char>,
    pub subscription: Option<SubscriptionView>,
}

impl View for ValidRegister {
    type V = ValidView;

    open spec fn view(&self) -> ValidView {
        ValidView {
            read_ticket: self.read_ticket@,
            subscription: match self.subscription {
                Some(s) => Some(s@),
                None => None,
            },
        }
    }
}

/// Why a request is refused.
#[derive(Debug, Clone, Copy, PartialEq, Eq, Structural)]
pub enum ApiError {
    BadTicket,
    BadToken,
    BadPlatform,
    IncompletePush,
    BadNamespace,
}

impl ApiError {
    /// The text that a client is told.
    pub open spec fn text(self) -> Seq<char> {
        match self {
            ApiError::BadTicket => "read ticket missing or malformed"@,
            ApiError::BadToken => "push token missing or too long"@,
            ApiError::BadPlatform => "platform must be 'apns' or 'fcm'"@,
            ApiError::IncompletePush => "push token and platform must be provided together"@,
            ApiError::BadNamespace => "namespace id must be 64 lowercase hex characters"@,
        }
    }

    /// The text that a client is told.
    pub fn message(&self) -> (r: &'static str)
        ensures
            r@ == self.text(),
    {
        match self {
            ApiError::BadTicket => "read ticket missing or malformed",
            ApiError::BadToken => "push token missing or too long",
            ApiError::BadPlatform => "platform must be 'apns' or 'fcm'",
            ApiError::IncompletePush => "push token and platform must be provided together",
            ApiError::BadNamespace => "namespace id must be 64 lowercase hex characters",
        }
    }
}

/// The platform that a wire name denotes.
pub open spec fn platform_named(name: Seq<char>) -> Option<Platform> {
    if name == Platform::Apns.name() {
        Some(Platform::Apns)
    } else if name == Platform::Fcm.name() {
        Some(Platform::Fcm)
    } else {
        None
    }
}

/// Parses the wire name of a platform.
pub fn parse_platform(s: &str) -> (r: Option<Platform>)
    ensures
        r == platform_named(s@),
{
    if same_text(s, "apns") {
        Some(Platform::Apns)
    } else if same_text(s, "fcm") {
        Some(Platform::Fcm)
    } else {
        None
    }
}

/// Whether `s` may be a ticket: of plausible length, ASCII letters and digits only.
pub open spec fn is_ticket_like(s: Seq<char>) -> bool {
    &&& MIN_TICKET_LEN <= s.len() <= MAX_TICKET_LEN
    &&& forall|i: int| 0 <= i < s.len() ==> is_alphanumeric(#[trigger] s[i])
}

/// A light guard on a ticket: bounded length, ASCII letters and digits only.
pub fn looks_like_ticket(s: &str) -> (r: bool)
    ensures
        r == is_ticket_like(s@),
{
    let cs = characters(s);
    if cs.len() < MIN_TICKET_LEN || cs.len() > MAX_TICKET_LEN {
        return false;
    }
    let mut i: usize = 0;
    while i < cs.len()
        invariant
            cs@ == s@,
            i <= cs@.len(),
            forall|k: int| 0 <= k < i ==> is_alphanumeric(#[trigger] s@[k]),
        decreases cs@.len() - i,
    {
        if !alphanumeric(cs[i]) {
            assert(!is_alphanumeric(s@[i as int]));
            return false;
        }
        i = i + 1;
    }
    true
}

/// The wake subscription that a token and a platform name ask for; both or neither must be there.
pub open spec fn requested_push(
    push_token: Option<Seq<char>>,
    platform: Option<Seq<char>>,
) -> Result<Option<SubscriptionView>, ApiError> {
    match (push_token, platform) {
        (None, None) => Ok(None),
        (Some(raw), Some(name)) => {
            let token = trimmed(raw);
            if token.len() == 0 || encode_utf8(token).len() > MAX_TOKEN_LEN {
                Err(ApiError::BadToken)
            } else {
                match platform_named(name) {
                    Some(platform) => Ok(Some(SubscriptionView { platform, token })),
                    None => Err(ApiError::BadPlatform),
                }
            }
        },
        _ => Err(ApiError::IncompletePush),
    }
}

/// What a registration asks for, or why it is refused.
pub open spec fn validation(
    read_ticket: Seq<char>,
    push_token: Option<Seq<char>>,
    platform: Option<Seq<char>>,
) -> Result<ValidView, ApiError> {
    let ticket = trimmed(read_ticket);
    if !is_ticket_like(ticket) {
        Err(ApiError::BadTicket)
    } else {
        match requested_push(push_token, platform) {
            Ok(subscription) => Ok(ValidView { read_ticket: ticket, subscription }),
            Err(error) => Err(error),
        }
    }
}

/// Validates a registration. The ticket itself is parsed when it is imported; here only obvious
/// junk is refused.
pub fn validate_register(req: &RegisterRequest) -> (r: Result<ValidRegister, ApiError>)
    ensures
        match validation(req.read_ticket@, string_view(req.push_token), string_view(req.platform)) {
            Ok(valid) => r matches Ok(v) && v@ == valid,
            Err(error) => r == Err::<ValidRegister, ApiError>(error),
        },
{
    let ticket = trim(req.read_ticket.as_str());
    if !looks_like_ticket(ticket) {
        return Err(ApiError::BadTicket);
    }
    let subscription = match (&req.push_token, &req.platform) {
        (None, None) => None,
        (Some(token), Some(name)) => {
            let token = trim(token.as_str());
            if token.is_empty() || token.as_bytes().len() > MAX_TOKEN_LEN {
                return Err(ApiError::BadToken);
            }
            match parse_platform(name.as_str()) {
                Some(platform) => Some(PushSubscription { platform, token: token.to_string() }),
                None => {
                    return Err(ApiError::BadPlatform);
                },
            }
        },
        _ => {
            return Err(ApiError::IncompletePush);
        },
    };
    Ok(ValidRegister { read_ticket: ticket.to_string(), subscription })
}

/// Parses a namespace id: exactly 64 lowercase hexadecimal digits.
pub fn parse_namespace_hex(s: &str) -> (r: Result<NamespaceId, ApiError>)
    ensures
        match hex_bytes(s@, false) {
            Some(bytes) if bytes.len() == 32 => r matches Ok(ns) && ns@ == bytes,
            _ => r == Err::<NamespaceId, ApiError>(ApiError::BadNamespace),
        },
{
    match parse_hex_32(s) {
        Some(ns) => Ok(ns),
        None => Err(ApiError::BadNamespace),
    }
}

/// Law: each namespace id has exactly one wire form: its lowercase hexadecimal text parses to it,
/// and any text that parses to it is that text.
pub proof fn law_namespace_text_is_canonical(ns: NamespaceId, text: Seq<char>)
    ensures
        hex_bytes(hex_text(ns@), false) == Some(ns@),
        hex_bytes(text, false) == Some(ns@) ==> text == hex_text(ns@),
{
    lemma_hex_reads_back(ns@, false);
    if hex_bytes(text, false) is Some {
        lemma_hex_writes_back(text);
    }
}

/// Law: a platform's wire name parses to that platform, and no other text does.
pub proof fn law_platform_names_round_trip(platform: Platform, name: Seq<char>)
    ensures
        platform_named(platform.name()) == Some(platform),
        platform_named(name) == Some(platform) ==> name == platform.name(),
{
    reveal_strlit("apns");
    reveal_strlit("fcm");
    assert("apns"@.len() != "fcm"@.len());
}

/// Law: what passes validation is fit for the node: its ticket is plausible, and its token, if any,
/// is neither empty nor too long.
pub proof fn law_valid_registration_is_bounded(
    read_ticket: Seq<char>,
    push_token: Option<Seq<char>>,
    platform: Option<Seq<char>>,
)
    ensures
        validation(read_ticket, push_token, platform) matches Ok(valid) ==> {
            &&& is_ticket_like(valid.read_ticket)
            &&& valid.subscription is Some <==> push_token is Some
            &&& valid.subscription matches Some(sub) ==> sub.token.len() > 0 && encode_utf8(
                sub.token,
            ).len() <= MAX_TOKEN_LEN
        },
{
}

/// Law: an accepted registration records what was asked for. Its ticket is the ticket without the
/// white space around it. Without push fields there is no subscription; with them, the subscription's
/// platform is the one whose wire name was given, and its token is the token without the white space
/// around it.
pub proof fn law_registration_records_what_was_asked(
    read_ticket: Seq<char>,
    push_token: Option<Seq<char>>,
    platform: Option<Seq<char>>,
)
    requires
        validation(read_ticket, push_token, platform) is Ok,
    ensures
        ({
            let valid = validation(read_ticket, push_token, platform)->Ok_0;
            &&& valid.read_ticket == trimmed(read_ticket)
            &&& push_token is Some <==> platform is Some
            &&& push_token is None ==> valid.subscription is None
            &&& push_token matches Some(token) ==> (valid.subscription matches Some(sub)
                && sub.platform.name() == platform->0 && sub.token == trimmed(token))
        }),
{
}

/// Law: exactly what the API promises is accepted: a ticket of 16 to 4096 ASCII letters and digits,
/// and a token and a platform together or not at all, the token of 1 to 512 bytes, the platform
/// `apns` or `fcm`.
pub proof fn law_registration_is_accepted_exactly(
    read_ticket: Seq<char>,
    push_token: Option<Seq<char>>,
    platform: Option<Seq<char>>,
)
    ensures
        validation(read_ticket, push_token, platform) is Ok <==> {
            let ticket = trimmed(read_ticket);
            &&& 16 <= ticket.len() <= 4096
            &&& forall|i: int|
                0 <= i < ticket.len() ==> ('0' <= #[trigger] ticket[i] <= '9' || 'a' <= ticket[i]
                    <= 'z' || 'A' <= ticket[i] <= 'Z')
            &&& push_token is Some <==> platform is Some
            &&& push_token matches Some(token) ==> 1 <= encode_utf8(trimmed(token)).len() <= 512
            &&& platform matches Some(name) ==> name == "apns"@ || name == "fcm"@
        },
{
    let ticket = trimmed(read_ticket);
    if push_token is Some {
        lemma_empty_in_bytes(trimmed(push_token->0));
    }
    if is_ticket_like(ticket) {
        assert forall|i: int| 0 <= i < ticket.len() implies ('0' <= #[trigger] ticket[i] <= '9'
            || 'a' <= ticket[i] <= 'z' || 'A' <= ticket[i] <= 'Z') by {
            assert(is_alphanumeric(ticket[i]));
        }
    }
}

/// A text is empty exactly when its bytes are.
proof fn lemma_empty_in_bytes(s: Seq<char>)
    ensures
        encode_utf8(s).len() == 0 <==> s.len() == 0,
{
    encode_utf8_decode_utf8(s);
    encode_utf8_decode_utf8(Seq::<char>::empty());
    if encode_utf8(s).len() == 0 {
        reveal_with_fuel(encode_utf8, 1);
        assert(encode_utf8(s) =~= encode_utf8(Seq::<char>::empty()));
    }
    if s.len() == 0 {
        assert(s =~= Seq::<char>::empty());
    }
}

/// Law: a refusal says what is wrong, the ticket first: an implausible ticket, then one push field
/// without the other, then the token, then the platform. A bad namespace id is not its concern.
pub proof fn law_refusal_names_the_first_fault(
    read_ticket: Seq<char>,
    push_token: Option<Seq<char>>,
    platform: Option<Seq<char>>,
)
    ensures
        ({
            let r = validation(read_ticket, push_token, platform);
            let bad_ticket = validation(read_ticket, None, None) is Err;
            &&& bad_ticket <==> r == Err::<ValidView, ApiError>(ApiError::BadTicket)
            &&& !bad_ticket && (push_token is Some) != (platform is Some) <==> r == Err::<
                ValidView,
                ApiError,
            >(ApiError::IncompletePush)
            &&& !bad_ticket && platform is Some && (push_token matches Some(token) && !(1
                <= encode_utf8(trimmed(token)).len() <= 512)) <==> r == Err::<ValidView, ApiError>(
                ApiError::BadToken,
            )
            &&& r == Err::<ValidView, ApiError>(ApiError::BadPlatform) ==> platform is Some
                && platform != Some("apns"@) && platform != Some("fcm"@)
            &&& r != Err::<ValidView, ApiError>(ApiError::BadNamespace)
        }),
{
    if push_token is Some {
        lemma_empty_in_bytes(trimmed(push_token->0));
    }
}

/// Law: what a validated request holds is what its fields say: an `apns` token is recorded for APNs
/// and an `fcm` token for FCM, each without the white space around it.
pub proof fn law_validated_request_holds_its_fields(req: RegisterRequest, valid: ValidRegister)
    requires
        call_ensures(
            validate_register,
            (&req,),
            Ok::<ValidRegister, ApiError>(valid),
        ),
    ensures
        valid.read_ticket@ == trimmed(req.read_ticket@),
        valid.subscription is Some <==> req.push_token is Some,
        valid.subscription is Some <==> req.platform is Some,
        valid.subscription matches Some(sub) ==> {
            &&& sub.token@ == trimmed(req.push_token->0@)
            &&& sub.platform.name() == req.platform->0@
            &&& sub.platform is Apns <==> req.platform->0@ == "apns"@
            &&& sub.platform is Fcm <==> req.platform->0@ == "fcm"@
        },
{
    law_registration_records_what_was_asked(
        req.read_ticket@,
        string_view(req.push_token),
        string_view(req.platform),
    );
    reveal_strlit("apns");
    reveal_strlit("fcm");
    assert("apns"@.len() != "fcm"@.len());
}

/// Law: a namespace id is read exactly from its 64 lowercase hexadecimal digits.
pub proof fn law_namespace_id_is_read_from_its_digits(
    text: &str,
    r: Result<NamespaceId, ApiError>,
)
    requires
        call_ensures(parse_namespace_hex, (text,), r),
    ensures
        r is Ok <==> text@.len() == 64 && forall|i: int|
            0 <= i < text@.len() ==> ('0' <= #[trigger] text@[i] <= '9' || 'a' <= text@[i] <= 'f'),
        r matches Ok(ns) ==> hex_text(ns@) == text@,
        r matches Err(error) ==> error is BadNamespace,
{
    law_hex_reads_sixteens_then_ones(text@, false, 0);
    if r is Ok {
        lemma_hex_writes_back(text@);
    }
}

} // verus!
