//! Custom relays.

use std::str::FromStr;

use iroh::{RelayMap, RelayUrl};
use trail_stash::relay::{custom_relays, custom_relays_given, RelayError};

fn urls(list: &[&str]) -> Vec<String> {
    list.iter().map(|s| s.to_string()).collect()
}

#[test]
fn no_urls_means_the_built_in_relays() {
    assert!(matches!(custom_relays(&Vec::new(), None), Ok(None)));
    assert!(matches!(custom_relays(&Vec::new(), Some("t")), Ok(None)));
}

#[test]
fn every_url_becomes_a_relay() {
    let map = custom_relays(
        &urls(&["https://relay.example.com", "https://other.example.com/"]),
        None,
    )
    .unwrap()
    .unwrap();
    let mut found: Vec<String> = map
        .urls::<Vec<RelayUrl>>()
        .iter()
        .map(|u| u.to_string())
        .collect();
    found.sort();
    assert_eq!(
        found,
        vec!["https://other.example.com/", "https://relay.example.com/"]
    );
    assert!(map
        .relays::<Vec<_>>()
        .iter()
        .all(|r| r.auth_token.is_none()));
}

#[test]
fn the_token_goes_to_every_relay() {
    let map = custom_relays(
        &urls(&["https://a.example.com", "https://b.example.com"]),
        Some("s3cret"),
    )
    .unwrap()
    .unwrap();
    let relays = map.relays::<Vec<_>>();
    assert_eq!(relays.len(), 2);
    assert!(relays
        .iter()
        .all(|r| r.auth_token.as_deref() == Some("s3cret")));
}

#[test]
fn one_bad_url_refuses_all() {
    let bad = urls(&["https://relay.example.com", "not a url"]);
    assert!(matches!(
        custom_relays(&bad, None),
        Err(RelayError::InvalidUrl)
    ));
    let error = RelayUrl::from_str("not a url").unwrap_err();
    assert_eq!(
        RelayError::InvalidUrl.message(),
        format!("invalid custom relay URL: {error}")
    );
}

#[test]
fn the_outcome_of_reading_decides() {
    let read = RelayMap::try_from_iter(["not a url"]);
    assert!(matches!(
        custom_relays_given(read, Some("t")),
        Err(RelayError::InvalidUrl)
    ));
    let read = RelayMap::try_from_iter(["https://relay.example.com"]);
    let map = custom_relays_given(read, Some("t")).unwrap();
    assert_eq!(map.relays::<Vec<_>>()[0].auth_token.as_deref(), Some("t"));
}
