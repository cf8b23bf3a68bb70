use netdash::resolver::{accept_response, ip_echo_endpoints, resolve_from_outcomes, FetchOutcome, IpResolver};

#[test]
fn acceptable_response_is_trimmed() {
    assert_eq!(accept_response(true, "  203.0.113.5\n").as_deref(), Some("203.0.113.5"));
    assert_eq!(accept_response(true, "203.0.113.5").as_deref(), Some("203.0.113.5"));
}

#[test]
fn empty_or_failed_responses_are_rejected() {
    assert!(accept_response(true, "").is_none());
    assert!(accept_response(true, " \r\n\t ").is_none());
    assert!(accept_response(false, "203.0.113.5").is_none());
}

#[test]
fn second_provider_wins_and_third_is_never_consulted() {
    // Provider 1 answers with an empty body, provider 2 with an address:
    // the address is the result and no later provider is queried.
    let mut r = IpResolver::new(5);
    assert_eq!(r.pending_endpoint(), Some(0));
    r.on_outcome(true, "");
    assert_eq!(r.pending_endpoint(), Some(1));
    r.on_outcome(true, "203.0.113.5\n");
    assert!(r.finished);
    assert_eq!(r.pending_endpoint(), None);
    assert_eq!(r.resolved.as_deref(), Some("203.0.113.5"));
    assert_eq!(r.next_endpoint, 1);
}

#[test]
fn sequential_fold_stops_at_first_acceptable() {
    let outcomes = vec![
        FetchOutcome::Response { ok: true, body: "".to_string() },
        FetchOutcome::Response { ok: true, body: "203.0.113.5".to_string() },
        FetchOutcome::Response { ok: true, body: "9.9.9.9".to_string() },
    ];
    let (resolved, attempts) = resolve_from_outcomes(&outcomes);
    assert_eq!(resolved.as_deref(), Some("203.0.113.5"));
    assert_eq!(attempts, 2);
}

#[test]
fn exhausted_providers_resolve_to_unresolved() {
    let outcomes = vec![
        FetchOutcome::TransportError,
        FetchOutcome::Response { ok: false, body: "502 bad gateway".to_string() },
        FetchOutcome::Response { ok: true, body: "   ".to_string() },
    ];
    let (resolved, attempts) = resolve_from_outcomes(&outcomes);
    assert!(resolved.is_none());
    assert_eq!(attempts, 3);
}

#[test]
fn resolver_exhaustion_finishes_unresolved() {
    let mut r = IpResolver::new(2);
    r.on_outcome(false, "");
    assert!(!r.finished);
    r.on_outcome(true, "");
    assert!(r.finished);
    assert!(r.resolved.is_none());
}

#[test]
fn deadline_finishes_with_nothing() {
    let mut r = IpResolver::new(5);
    r.on_outcome(true, "");
    r.on_deadline();
    assert!(r.finished);
    assert!(r.resolved.is_none());
    assert_eq!(r.pending_endpoint(), None);
}

#[test]
fn no_providers_is_already_unresolved() {
    let r = IpResolver::new(0);
    assert!(r.finished);
    assert!(r.resolved.is_none());
}

#[test]
fn provider_list_is_ordered() {
    let urls = ip_echo_endpoints();
    assert_eq!(urls.len(), 5);
    assert_eq!(urls[0], "https://api.ipify.org");
    assert_eq!(urls[1], "https://ifconfig.me/ip");
    assert_eq!(urls[2], "https://icanhazip.com");
    assert_eq!(urls[3], "https://ipinfo.io/ip");
    assert_eq!(urls[4], "https://myexternalip.com/raw");
}
