//! Redaction of log lines.

use trail_stash::log_redaction::{redact_given, redact_log_line, Span, REDACTED};

fn is_ipv4(candidate: &str) -> bool {
    let octets: Vec<&str> = candidate.split('.').collect();
    octets.len() == 4 && octets.iter().all(|o| o.len() <= 3 && o.parse::<u8>().is_ok())
}

fn is_ipv6(candidate: &str) -> bool {
    let groups: Vec<&str> = candidate.split(':').collect();
    let compressed = candidate.matches("::").count() == 1 && !candidate.contains(":::");
    if candidate.starts_with(':') && !candidate.starts_with("::")
        || candidate.ends_with(':') && !candidate.ends_with("::")
    {
        return false;
    }
    groups.iter().all(|g| g.len() <= 4 && g.chars().all(|c| c.is_ascii_hexdigit()))
        && (compressed && groups.len() <= 8 || groups.len() == 8)
}

/// An IP address, with or without a port.
fn is_address(candidate: &str) -> bool {
    let with_port = match candidate.split_once(':') {
        Some((host, port)) => is_ipv4(host) && port.parse::<u16>().is_ok(),
        None => false,
    };
    is_ipv4(candidate) || is_ipv6(candidate) || with_port
}

#[test]
fn redacts_ipv4_and_ports() {
    let line = "peer=192.0.2.44 remote=198.51.100.8:443";
    let redacted = redact_log_line(line, is_address);
    assert_eq!(redacted, "peer=[REDACTED] remote=[REDACTED]");
}

#[test]
fn redacts_ipv6_addresses() {
    let line = "direct=2001:db8::8 relay=[2001:db8::9]:443";
    let redacted = redact_log_line(line, is_address);
    assert!(!redacted.contains("2001:db8"));
}

#[test]
fn redacts_identity_like_values() {
    let line = "node=0123456789abcdef0123456789abcdef0123456789abcdef0123456789abcdef token=AbCdEfGhIjKlMnOpQrStUvWxYz012345";
    let redacted = redact_log_line(line, is_address);
    assert_eq!(redacted.matches(REDACTED).count(), 2);
    assert!(!redacted.contains("0123456789abcdef"));
    assert!(!redacted.contains("AbCdEfGh"));
}

#[test]
fn preserves_normal_diagnostics() {
    let line = "2026-07-12T19:07:49Z stash: pruned 12 expired entries";
    assert_eq!(redact_log_line(line, is_address), line);
}

#[test]
fn identifiers_are_32_characters_or_more() {
    let short = "a1".repeat(15) + "b";
    assert_eq!(redact_log_line(&short, is_address), short);
    let long = "a1".repeat(16);
    assert_eq!(redact_log_line(&long, is_address), REDACTED);
    // Letters alone are taken for an identifier only where they are hexadecimal.
    let words = "z".repeat(40);
    assert_eq!(redact_log_line(&words, is_address), words);
    let hex = "f".repeat(32);
    assert_eq!(redact_log_line(&hex, is_address), REDACTED);
    let joined = format!("x={}=", "q_-+/".repeat(6) + "9");
    assert_eq!(redact_log_line(&joined, is_address), REDACTED);
}

#[test]
fn an_address_and_an_identifier_that_overlap_are_both_hidden() {
    let line = format!("at 192.0.2.4-{} end", "x".repeat(31));
    assert_eq!(
        redact_log_line(&line, is_address),
        "at [REDACTED][REDACTED] end"
    );
}

#[test]
fn text_around_what_is_hidden_is_kept() {
    let line = "ä192.0.2.44ö — ü";
    assert_eq!(redact_log_line(line, is_address), "ä[REDACTED]ö — ü");
    assert_eq!(redact_log_line("", is_address), "");
}

#[test]
fn an_address_is_hidden_though_punctuation_follows() {
    assert_eq!(
        redact_log_line("lost peer 192.0.2.44.", is_address),
        "lost peer [REDACTED]."
    );
    for (line, expected) in [
        ("192.0.2.44:", "[REDACTED]:"),
        ("192.0.2.44:443...", "[REDACTED]..."),
        ("peer 2001:db8::8: gone", "peer [REDACTED]: gone"),
        ("on ::1.", "on [REDACTED]."),
        ("on 2001:db8::.", "on [REDACTED]."),
        (":192.0.2.44", ":[REDACTED]"),
        ("..192.0.2.44..", "..[REDACTED].."),
    ] {
        assert_eq!(redact_log_line(line, is_address), expected);
    }
}

#[test]
fn an_address_is_hidden_behind_a_label() {
    for (line, expected) in [
        ("node:192.0.2.44", "node:[REDACTED]"),
        ("source:192.0.2.44:443.", "source:[REDACTED]."),
        ("192.0.2.44:bad", "[REDACTED]:bad"),
        ("remote:2001:db8:0:0:0:0:0:8", ""),
    ] {
        let redacted = redact_log_line(line, is_address);
        assert!(!redacted.contains("192.0.2.44"), "{redacted}");
        assert!(!redacted.contains("2001:db8"), "{redacted}");
        if !line.contains("2001") {
            assert_eq!(redacted, expected);
        }
    }
}

#[test]
fn a_double_colon_sets_nothing_off() {
    for line in ["x::bad::y", "a::b::c", ":::", "x::bad::y:", "dead::beef::cafe"] {
        assert_eq!(redact_log_line(line, is_address), line);
    }
    let asked = std::sync::Mutex::new(Vec::new());
    redact_log_line("x::bad::y", |candidate| {
        asked.lock().unwrap().push(candidate.to_string());
        false
    });
    assert_eq!(*asked.lock().unwrap(), vec!["::bad::", "bad"]);
}

#[test]
fn long_runs_are_asked_about_whole_and_stripped() {
    let core = "ab:".repeat(40) + "ab";
    let line = format!("..{core}..");
    let hidden = redact_log_line(&line, |candidate| candidate == core);
    assert_eq!(hidden, "..[REDACTED]..");
    let hidden = redact_log_line(&line, |candidate| candidate == line);
    assert_eq!(hidden, "[REDACTED]");
}

#[test]
fn numbers_with_more_dots_are_no_addresses() {
    for line in ["version 1.2.3.4.5", "at 19:07:49.", "10:20:30:40"] {
        assert_eq!(redact_log_line(line, is_address), line);
    }
}

#[test]
fn the_test_is_asked_about_parts_that_punctuation_sets_off() {
    let asked = std::sync::Mutex::new(Vec::new());
    redact_log_line("x 1.2.: y", |candidate| {
        asked.lock().unwrap().push(candidate.to_string());
        false
    });
    assert_eq!(
        *asked.lock().unwrap(),
        vec!["1.2.:", "1.2.", "1.2"]
    );
}

#[test]
fn what_is_given_as_an_address_is_hidden() {
    let spans = vec![Span { start: 0, end: 3 }];
    assert_eq!(redact_given("1.2 b 3", &spans), "[REDACTED] b 3");
    assert_eq!(redact_given("1.2 b 3", &Vec::new()), "1.2 b 3");
    // A span within another adds nothing; one that goes further does.
    let spans = vec![
        Span { start: 0, end: 4 },
        Span { start: 0, end: 2 },
        Span { start: 1, end: 3 },
        Span { start: 3, end: 6 },
    ];
    assert_eq!(redact_given("abcdefg", &spans), "[REDACTED][REDACTED]g");
}
