//! End-to-end scenarios over the per-connection decision logic: the
//! initial TLS step under each blacklist mode, the canned responses, the
//! startup mode choice, and outbound candidate selection.

use nodpi::blacklist::{BlacklistManager, DomainMatching, ProbeOutcome};
use nodpi::connector::connect_attempt_order;
use nodpi::errors::ProxyError;
use nodpi::fragment::FragmentMethod;
use nodpi::handler::{
    connect_established_response, create_blacklist_manager, http_500_response, plan_initial_tls,
    Classification, Config,
};
use nodpi::parser::parse_http_request;
use nodpi::stats::Statistics;

fn test_config(no_blacklist: bool, auto_blacklist: bool) -> Config {
    Config {
        host: b"127.0.0.1".to_vec(),
        port: 8881,
        out_host: None,
        blacklist_file: b"blacklist.txt".to_vec(),
        fragment_method: FragmentMethod::Random,
        domain_matching: DomainMatching::Strict,
        log_access_file: None,
        log_error_file: None,
        no_blacklist,
        auto_blacklist,
        quiet: true,
    }
}

fn parse_record_bodies(out: &[u8]) -> Vec<Vec<u8>> {
    let mut bodies = Vec::new();
    let mut pos = 0;
    while pos < out.len() {
        assert!(out.len() - pos >= 5);
        assert_eq!(&out[pos..pos + 3], &[0x16, 0x03, 0x04]);
        let len = (out[pos + 3] as usize) * 256 + out[pos + 4] as usize;
        assert!(pos + 5 + len <= out.len());
        bodies.push(out[pos + 5..pos + 5 + len].to_vec());
        pos += 5 + len;
    }
    bodies
}

/// A 512-byte ClientHello-like body with a valid SNI block naming `name`.
fn body_512_with_sni(name: &[u8]) -> Vec<u8> {
    let mut body = vec![1u8; 80];
    let n = name.len() as u8;
    body.extend_from_slice(&[0, 0, 0, n + 5, 0, n + 3, 0, 0, n]);
    body.extend_from_slice(name);
    while body.len() < 512 {
        body.push(3);
    }
    body
}

#[test]
fn connect_to_listed_host_is_fragmented_and_counted_blocked() {
    let req = b"CONNECT dpi.test:443 HTTP/1.1\r\n\r\n";
    let p = parse_http_request(req).expect("parses");
    assert_eq!(p.host, b"dpi.test".to_vec());

    let manager = BlacklistManager::File {
        patterns: vec![b"dpi.test".to_vec()],
        matching: DomainMatching::Strict,
    };
    let head = [0x16u8, 0x03, 0x01, 0x02, 0x00];
    let body = body_512_with_sni(b"dpi.test");
    assert_eq!(body.len(), 512);

    let (bytes, class) =
        plan_initial_tls(FragmentMethod::Sni, &manager, &p.host, &head, &body);
    assert_eq!(class, Classification::Blocked);
    let bodies = parse_record_bodies(&bytes);
    assert_eq!(bodies.len(), 4);
    let total: usize = bodies.iter().map(|b| b.len()).sum();
    assert_eq!(total, 512, "record length fields sum to the body length");
    let mut joined = Vec::new();
    for b in &bodies {
        joined.extend_from_slice(b);
    }
    assert_eq!(joined, body);

    let mut stats = Statistics::new();
    match class {
        Classification::Allowed => stats.record_allowed(),
        Classification::Blocked => stats.record_blocked(),
    }
    assert_eq!(stats.total_connections, 1);
    assert_eq!(stats.blocked_connections, 1);
}

#[test]
fn connect_to_unlisted_host_passes_the_record_verbatim() {
    let manager = BlacklistManager::File {
        patterns: vec![b"dpi.test".to_vec()],
        matching: DomainMatching::Strict,
    };
    let head = [0x16u8, 0x03, 0x01, 0x00, 0x08];
    let body = [1u8, 2, 3, 4, 5, 6, 7, 8];
    let (bytes, class) =
        plan_initial_tls(FragmentMethod::Sni, &manager, b"safe.example", &head, &body);
    assert_eq!(class, Classification::Allowed);
    let mut expected = head.to_vec();
    expected.extend_from_slice(&body);
    assert_eq!(bytes, expected);

    let mut stats = Statistics::new();
    match class {
        Classification::Allowed => stats.record_allowed(),
        Classification::Blocked => stats.record_blocked(),
    }
    assert_eq!(stats.total_connections, 1);
    assert_eq!(stats.allowed_connections, 1);
}

#[test]
fn auto_mode_timeout_leads_to_fragmentation() {
    let mut manager = BlacklistManager::Auto { blocked: Vec::new(), allowed: Vec::new() };
    assert!(manager.probe_needed(b"slow.example"));
    // the probe of https://slow.example ran out of its budget
    let append = manager.apply_probe_result(b"slow.example", ProbeOutcome::Timeout);
    assert!(append, "a timed-out domain is appended to the blacklist file");

    let head = [0x16u8, 0x03, 0x01, 0x00, 0x04];
    let body = [9u8, 0, 8, 7];
    let (bytes, class) =
        plan_initial_tls(FragmentMethod::Random, &manager, b"slow.example", &head, &body);
    assert_eq!(class, Classification::Blocked);
    let bodies = parse_record_bodies(&bytes);
    assert_eq!(bodies[0], vec![9, 0], "first chunk ends after the first zero");
    let mut joined = Vec::new();
    for b in &bodies {
        joined.extend_from_slice(b);
    }
    assert_eq!(joined, body.to_vec());
}

#[test]
fn off_mode_fragments_every_connect() {
    let manager = BlacklistManager::Off;
    let head = [0x16u8, 0x03, 0x01, 0x00, 0x01];
    let (bytes, class) =
        plan_initial_tls(FragmentMethod::Random, &manager, b"any.example", &head, &[0x42]);
    assert_eq!(class, Classification::Blocked);
    assert_eq!(bytes, vec![0x16, 0x03, 0x04, 0x00, 0x01, 0x42]);
}

#[test]
fn invalid_request_yields_500_and_one_error_count() {
    let r = parse_http_request(b"BREW / HTCPCP/1.0\r\n");
    assert_eq!(r.err(), Some(ProxyError::InvalidRequest));
    let response = http_500_response();
    assert_eq!(response, b"HTTP/1.1 500 Internal Server Error\r\n\r\n".to_vec());
    let mut stats = Statistics::new();
    stats.record_error();
    assert_eq!(stats.errors_connections, 1);
    assert_eq!(stats.total_connections, 1);
}

#[test]
fn connect_tunnel_acknowledgement_bytes() {
    assert_eq!(
        connect_established_response(),
        b"HTTP/1.1 200 Connection Established\r\n\r\n".to_vec()
    );
}

#[test]
fn startup_picks_the_configured_blacklist_mode() {
    let m = create_blacklist_manager(&test_config(true, false), None).expect("off mode");
    assert!(matches!(m, BlacklistManager::Off));

    let m = create_blacklist_manager(&test_config(false, true), None).expect("auto mode");
    match m {
        BlacklistManager::Auto { blocked, allowed } => {
            assert!(blocked.is_empty());
            assert!(allowed.is_empty());
        }
        _ => panic!("expected auto mode"),
    }

    match create_blacklist_manager(&test_config(false, false), None) {
        Err(err) => assert_eq!(err, ProxyError::BlacklistIo),
        Ok(_) => panic!("file mode without a file must refuse to start"),
    }

    let m = create_blacklist_manager(&test_config(false, false), Some(b"dpi.test\n# c\n"))
        .expect("file mode");
    match m {
        BlacklistManager::File { patterns, matching } => {
            assert_eq!(patterns, vec![b"dpi.test".to_vec()]);
            assert_eq!(matching, DomainMatching::Strict);
        }
        _ => panic!("expected file mode"),
    }
}

#[test]
fn source_pinning_skips_other_address_families() {
    // destination resolves only to IPv6, source is IPv4: nothing to try,
    // the connector reports Unreachable
    let cands = vec![false, false];
    let order = connect_attempt_order(&cands, Some(true));
    assert!(order.is_empty());

    let mixed = vec![true, false, true];
    assert_eq!(connect_attempt_order(&mixed, Some(true)), vec![0, 2]);
    assert_eq!(connect_attempt_order(&mixed, Some(false)), vec![1]);
    assert_eq!(connect_attempt_order(&mixed, None), vec![0, 1, 2]);
}

#[test]
fn empty_tls_body_fragments_to_an_empty_stream() {
    let manager = BlacklistManager::Off;
    let head = [0x16u8, 0x03, 0x01, 0x00, 0x00];
    let (bytes, class) =
        plan_initial_tls(FragmentMethod::Random, &manager, b"a.example", &head, &[]);
    assert_eq!(class, Classification::Blocked);
    assert!(bytes.is_empty());
}

#[test]
fn loose_matching_reaches_the_decision_through_the_manager() {
    let manager = BlacklistManager::File {
        patterns: vec![b"pi.te".to_vec()],
        matching: DomainMatching::Loose,
    };
    assert!(manager.is_fragment_target(b"dpi.test"));
    assert!(!manager.is_fragment_target(b"other.org"));
    let strict = BlacklistManager::File {
        patterns: vec![b"pi.te".to_vec()],
        matching: DomainMatching::Strict,
    };
    assert!(!strict.is_fragment_target(b"dpi.test"));
}
