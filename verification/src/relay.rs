//! Custom relays.

use crate::text::str_view;
use vstd::prelude::*;
use vstd::string::*;

verus! {

/// The relays that an endpoint uses.
#[verifier::external_type_specification]
#[verifier::external_body]
pub struct ExRelayMap(iroh::RelayMap);

/// Why a text is no relay URL.
#[verifier::external_type_specification]
#[verifier::external_body]
pub struct ExRelayUrlParseError(iroh::RelayUrlParseError);

/// The URL that iroh reads from `text`, in its normal form, if it reads one.
pub uninterp spec fn relay_url(text: Seq<char>) -> Option<Seq<char>>;

/// The relays in a map, each by the normal form of its URL, with the token for it.
pub uninterp spec fn relays(map: iroh::RelayMap) -> Map<Seq<char>, Option<Seq<char>>>;

/// The views of a list of strings.
pub open spec fn texts(list: Seq<String>) -> Seq<Seq<char>> {
    list.map_values(|s: String| s@)
}

/// Whether every one of `urls` reads as a relay URL.
pub open spec fn all_read(urls: Seq<Seq<char>>) -> bool {
    forall|i: int| 0 <= i < urls.len() ==> relay_url(#[trigger] urls[i]) is Some
}

/// Each relay of `urls`, with `token`.
pub open spec fn relays_of(urls: Seq<Seq<char>>, token: Option<Seq<char>>) -> Map<
    Seq<char>,
    Option<Seq<char>>,
> {
    Map::new(
        |url: Seq<char>|
            exists|i: int| 0 <= i < urls.len() && relay_url(#[trigger] urls[i]) == Some(url),
        |url: Seq<char>| token,
    )
}

/// `iroh::RelayMap::try_from_iter`. Trusted: it succeeds exactly when every text reads as a relay
/// URL, and the map then holds those relays without a token. Which texts read as URLs is not
/// stated.
#[verifier::external_body]
fn relay_map(urls: &Vec<String>) -> (r: Result<iroh::RelayMap, iroh::RelayUrlParseError>)
    ensures
        r is Ok <==> forall|i: int|
            0 <= i < urls@.len() ==> relay_url(#[trigger] texts(urls@)[i]) is Some,
        r matches Ok(map) ==> relays(map) == relays_of(texts(urls@), None),
{
    iroh::RelayMap::try_from_iter(urls.iter().map(String::as_str))
}

/// `iroh::RelayMap::with_auth_token`. Trusted: the same relays, each with the token.
#[verifier::external_body]
fn with_auth_token(map: iroh::RelayMap, token: &str) -> (r: iroh::RelayMap)
    ensures
        relays(r) == relays(map).map_values(|t: Option<Seq<char>>| Some(token@)),
{
    map.with_auth_token(token)
}

/// Why the configured relays cannot be used.
#[derive(Debug, Clone, Copy, PartialEq, Eq, Structural)]
pub enum RelayError {
    /// One of the URLs does not read as such.
    InvalidUrl,
}

impl RelayError {
    /// The text that an operator is told.
    pub fn message(&self) -> (r: &'static str)
        ensures
            r@ == "invalid custom relay URL: Failed to parse relay URL"@,
    {
        "invalid custom relay URL: Failed to parse relay URL"
    }
}

/// `relays`, each with `token` if there is one.
pub open spec fn with_token(
    relays: Map<Seq<char>, Option<Seq<char>>>,
    token: Option<Seq<char>>,
) -> Map<Seq<char>, Option<Seq<char>>> {
    match token {
        Some(t) => relays.map_values(|old_token: Option<Seq<char>>| Some(t)),
        None => relays,
    }
}

/// The relays to use, given what became of reading their URLs.
pub fn custom_relays_given(
    read: Result<iroh::RelayMap, iroh::RelayUrlParseError>,
    token: Option<&str>,
) -> (r: Result<iroh::RelayMap, RelayError>)
    ensures
        match read {
            Ok(map) => r matches Ok(m) && relays(m) == with_token(relays(map), str_view(token)),
            Err(_) => r matches Err(RelayError::InvalidUrl),
        },
{
    match read {
        Ok(map) => match token {
            Some(t) => Ok(with_auth_token(map, t)),
            None => Ok(map),
        },
        Err(_) => Err(RelayError::InvalidUrl),
    }
}

/// The custom relays to use. With none configured the built-in ones serve; else those of `urls`,
/// each with the token if there is one.
pub fn custom_relays(urls: &Vec<String>, token: Option<&str>) -> (r: Result<
    Option<iroh::RelayMap>,
    RelayError,
>)
    ensures
        urls@.len() == 0 ==> r matches Ok(None),
        urls@.len() > 0 && all_read(texts(urls@)) ==> (r matches Ok(Some(map)) && relays(map)
            == relays_of(texts(urls@), str_view(token))),
        urls@.len() > 0 && !all_read(texts(urls@)) ==> r matches Err(RelayError::InvalidUrl),
{
    if urls.len() == 0 {
        return Ok(None);
    }
    let read = relay_map(urls);
    assert(read is Ok ==> with_token(relays(read->Ok_0), str_view(token)) =~= relays_of(
        texts(urls@),
        str_view(token),
    ));
    match custom_relays_given(read, token) {
        Ok(map) => Ok(Some(map)),
        Err(error) => Err(error),
    }
}

/// Law: with relays configured, those in use are the ones whose URLs were given, each with the token
/// that was given and none left out; and one URL that does not read refuses them all.
pub proof fn law_custom_relays_are_the_configured_ones(
    urls: Vec<String>,
    token: Option<&str>,
    r: Result<Option<iroh::RelayMap>, RelayError>,
    url: Seq<char>,
)
    requires
        call_ensures(custom_relays, (&urls, token), r),
    ensures
        urls@.len() == 0 <==> (r matches Ok(map) && map is None),
        r is Err <==> urls@.len() > 0 && exists|i: int|
            0 <= i < urls@.len() && relay_url((#[trigger] urls@[i])@) is None,
        r matches Ok(Some(map)) ==> {
            &&& relays(map).contains_key(url) <==> exists|i: int|
                0 <= i < urls@.len() && relay_url((#[trigger] urls@[i])@) == Some(url)
            &&& relays(map).contains_key(url) ==> relays(map)[url] == str_view(token)
        },
{
    let list = texts(urls@);
    assert forall|i: int| 0 <= i < urls@.len() implies #[trigger] list[i] == urls@[i]@ by {}
    if all_read(list) {
        assert forall|i: int| 0 <= i < urls@.len() implies relay_url((#[trigger] urls@[i])@) is Some by {
            assert(relay_url(list[i]) is Some);
        }
    } else {
        let i = choose|i: int| 0 <= i < list.len() && relay_url(#[trigger] list[i]) is None;
        assert(relay_url(urls@[i]@) is None);
    }
    if let Ok(Some(map)) = r {
        if relays(map).contains_key(url) {
            let i = choose|i: int|
                0 <= i < list.len() && relay_url(#[trigger] list[i]) == Some(url);
            assert(relay_url(urls@[i]@) == Some(url));
        }
        if exists|i: int| 0 <= i < urls@.len() && relay_url((#[trigger] urls@[i])@) == Some(url) {
            let i = choose|i: int|
                0 <= i < urls@.len() && relay_url((#[trigger] urls@[i])@) == Some(url);
            assert(relay_url(list[i]) == Some(url));
        }
    }
}

/// Law: relays that were read are used as they are, each with the token if one is given and with what
/// it had if not; and a URL that did not read is an error, whatever the token.
pub proof fn law_token_goes_to_every_relay(
    read: Result<iroh::RelayMap, iroh::RelayUrlParseError>,
    token: Option<&str>,
    r: Result<iroh::RelayMap, RelayError>,
    url: Seq<char>,
)
    requires
        call_ensures(custom_relays_given, (read, token), r),
    ensures
        r is Ok <==> read is Ok,
        r matches Ok(used) ==> {
            let before = relays(read->Ok_0);
            &&& relays(used).contains_key(url) <==> before.contains_key(url)
            &&& before.contains_key(url) && token is Some ==> relays(used)[url] == str_view(token)
            &&& before.contains_key(url) && token is None ==> relays(used)[url] == before[url]
        },
        r matches Err(error) ==> error is InvalidUrl,
{
}

} // verus!
