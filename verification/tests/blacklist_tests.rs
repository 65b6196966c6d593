//! Tests of domain normalization, pattern matching, the file loader, and
//! the three blacklist modes.

use nodpi::blacklist::{
    contains_bytes, is_domain_blocked, normalize_domain, parse_blacklist, BlacklistManager,
    DomainMatching, ProbeOutcome,
};

fn patterns(list: &[&[u8]]) -> Vec<Vec<u8>> {
    list.iter().map(|p| p.to_vec()).collect()
}

#[test]
fn normalize_lowercases_and_strips_www() {
    assert_eq!(normalize_domain(b"WWW.Example.COM"), b"example.com".to_vec());
    assert_eq!(normalize_domain(b"example.com"), b"example.com".to_vec());
    assert_eq!(normalize_domain(b"www.www.x"), b"x".to_vec());
    assert_eq!(normalize_domain(b"wwww.x"), b"wwww.x".to_vec());
}

#[test]
fn normalize_is_idempotent() {
    for d in [
        b"WWW.Example.COM".as_slice(),
        b"www.www.hidden.org".as_slice(),
        b"plain.net".as_slice(),
        b"".as_slice(),
    ] {
        let once = normalize_domain(d);
        let twice = normalize_domain(&once);
        assert_eq!(twice, once);
    }
}

#[test]
fn matching_is_case_and_www_insensitive_on_the_query() {
    let pats = patterns(&[b"dpi.test"]);
    assert!(is_domain_blocked(&pats, DomainMatching::Strict, b"dpi.test"));
    assert!(is_domain_blocked(&pats, DomainMatching::Strict, b"DPI.TEST"));
    assert!(is_domain_blocked(&pats, DomainMatching::Strict, b"www.dpi.test"));
    assert!(is_domain_blocked(&pats, DomainMatching::Strict, b"WWW.Dpi.Test"));
    assert!(!is_domain_blocked(&pats, DomainMatching::Strict, b"other.test"));
}

#[test]
fn matching_is_www_insensitive_on_the_pattern_side_through_the_loader() {
    let loaded = parse_blacklist(b"WWW.Dpi.TEST\n");
    assert_eq!(loaded, vec![b"dpi.test".to_vec()]);
    assert!(is_domain_blocked(&loaded, DomainMatching::Strict, b"dpi.test"));
}

#[test]
fn parent_suffix_matches() {
    let pats = patterns(&[b"b.c"]);
    assert!(is_domain_blocked(&pats, DomainMatching::Strict, b"a.b.c"));
    assert!(is_domain_blocked(&pats, DomainMatching::Strict, b"x.a.b.c"));
    assert!(!is_domain_blocked(&pats, DomainMatching::Strict, b"ab.c"));
}

#[test]
fn loose_matching_accepts_substrings() {
    let pats = patterns(&[b"pi.te"]);
    assert!(is_domain_blocked(&pats, DomainMatching::Loose, b"dpi.test"));
    assert!(!is_domain_blocked(&pats, DomainMatching::Strict, b"dpi.test"));
}

#[test]
fn parse_blacklist_skips_comments_blanks_and_short_lines() {
    let data = b"# comment\n\ndpi.test\n a \nWWW.Blocked.ORG\r\n#x\nxy\n";
    let loaded = parse_blacklist(data);
    assert_eq!(
        loaded,
        vec![b"dpi.test".to_vec(), b"blocked.org".to_vec(), b"xy".to_vec()]
    );
}

#[test]
fn off_mode_fragments_everything() {
    let m = BlacklistManager::Off;
    assert!(m.is_fragment_target(b"anything.example"));
    assert!(!m.probe_needed(b"anything.example"));
}

#[test]
fn file_mode_fragments_only_matches() {
    let m = BlacklistManager::File {
        patterns: patterns(&[b"dpi.test"]),
        matching: DomainMatching::Strict,
    };
    assert!(m.is_fragment_target(b"dpi.test"));
    assert!(!m.is_fragment_target(b"safe.example"));
    assert!(!m.probe_needed(b"dpi.test"));
}

#[test]
fn auto_mode_learns_from_probe_outcomes() {
    let mut m = BlacklistManager::Auto { blocked: Vec::new(), allowed: Vec::new() };
    assert!(!m.is_fragment_target(b"slow.example"));
    assert!(m.probe_needed(b"slow.example"));

    // a timeout marks the domain blocked and asks for a file append
    let append = m.apply_probe_result(b"slow.example", ProbeOutcome::Timeout);
    assert!(append);
    assert!(m.is_fragment_target(b"slow.example"));
    assert!(!m.probe_needed(b"slow.example"));

    // a response marks another domain allowed, with no append
    let append = m.apply_probe_result(b"fast.example", ProbeOutcome::Response);
    assert!(!append);
    assert!(!m.is_fragment_target(b"fast.example"));
    assert!(!m.probe_needed(b"fast.example"));

    // any other error changes nothing
    let append = m.apply_probe_result(b"odd.example", ProbeOutcome::OtherError);
    assert!(!append);
    assert!(m.probe_needed(b"odd.example"));

    match &m {
        BlacklistManager::Auto { blocked, allowed } => {
            assert_eq!(blocked, &vec![b"slow.example".to_vec()]);
            assert_eq!(allowed, &vec![b"fast.example".to_vec()]);
        }
        _ => panic!("mode changed"),
    }
}

#[test]
fn probe_results_are_ignored_outside_auto_mode() {
    let mut m = BlacklistManager::Off;
    assert!(!m.apply_probe_result(b"a.example", ProbeOutcome::Timeout));
    assert!(m.is_fragment_target(b"a.example"));
}

#[test]
fn contains_bytes_is_exact_membership() {
    let list = patterns(&[b"a.example", b"b.example"]);
    assert!(contains_bytes(&list, b"a.example"));
    assert!(!contains_bytes(&list, b"A.example"));
    assert!(!contains_bytes(&list, b"c.example"));
}
