use domain_hunter::active::find_subdomains;
use domain_hunter::active::in_scope;
use domain_hunter::active::search_body;
use domain_hunter::active::subdomains_from_request;
use domain_hunter::active::Stats;
use domain_hunter::urls::parse_seed;
use domain_hunter::urls::Url;

fn parsed(s: &str) -> Url {
    match Url::parse(s) {
        Some(u) => u,
        None => panic!("expected {} to parse", s),
    }
}

#[test]
fn url_parse_normalizes() {
    let u = parsed("HTTPS://EXAMPLE.COM/Path");
    assert_eq!(u.host_str().map(|h| h.as_str()), Some("example.com"));
    assert_eq!(u.as_str(), "https://example.com/Path");
}

#[test]
fn url_parse_rejects_garbage() {
    assert!(Url::parse("ht!tp://bad url").is_none());
    assert!(Url::parse("not a url at all").is_none());
}

#[test]
fn parse_seed_takes_a_bare_domain() {
    let u = parse_seed("example.com").expect("bare domain should parse with https:// prefixed");
    assert_eq!(u.host_str().map(|h| h.as_str()), Some("example.com"));
    let v = parse_seed("http://x.org/p").expect("absolute URL should parse as given");
    assert_eq!(v.as_str(), "http://x.org/p");
}

#[test]
fn search_body_finds_quoted_absolute_links() {
    let body = "<a href=\"https://sub.example.com/page\"><a href=\"https://other.org/\">";
    let found = search_body(body);
    assert_eq!(found.len(), 2);
    assert_eq!(found[0].as_str(), "https://sub.example.com/page");
    assert_eq!(found[1].as_str(), "https://other.org/");
}

#[test]
fn search_body_drops_unparseable_candidates() {
    let body = "<a href=\"http://bad url\"><a href=\"https://good.example.com/\">";
    let found = search_body(body);
    assert_eq!(found.len(), 1);
    assert_eq!(found[0].as_str(), "https://good.example.com/");
}

#[test]
fn search_body_without_markers_is_empty() {
    assert_eq!(search_body("plain text, nothing quoted"), vec![]);
    assert_eq!(search_body(""), vec![]);
}

#[test]
fn in_scope_accepts_subdomains() {
    assert!(in_scope("example.com", "https://api.example.com/x"));
}

#[test]
fn in_scope_substring_heuristic_admits_lookalike_hosts() {
    // The scope policy is a textual substring test, so a host that merely
    // embeds the reference domain also passes; the filter documents this
    // as a heuristic, not a label-suffix match.
    assert!(in_scope("example.com", "https://evil-example.com.attacker.net"));
}

#[test]
fn in_scope_rejects_other_hosts_and_garbage() {
    assert!(!in_scope("example.com", "https://other.org/"));
    assert!(!in_scope("example.com", "ht!tp://bad url"));
    assert!(!in_scope("example.com", "mailto:root@example.com"));
}

#[test]
fn find_subdomains_filters_and_canonicalizes() {
    let root = parsed("https://example.com");
    let domains = vec![
        parsed("https://api.example.com/v1"),
        parsed("https://other.org/"),
        parsed("https://api.example.com/v2"),
        parsed("https://www.example.com/"),
    ];
    let out = find_subdomains(&root, &domains);
    assert_eq!(
        out,
        vec![
            Url::from_host("api.example.com"),
            Url::from_host("www.example.com"),
        ]
    );
}

#[test]
fn subdomains_from_request_counts_and_filters() {
    let root = parsed("https://example.com");
    let body = "<a href=\"https://sub.example.com/page\"><a href=\"https://other.org/\">";
    let mut stats = Stats { urls: 0 };
    let out = subdomains_from_request(&root, body, &mut stats);
    assert_eq!(stats.urls, 2);
    assert_eq!(out, vec![Url::from_host("sub.example.com")]);
}

#[test]
fn subdomains_from_request_tolerates_malformed_candidates() {
    let root = parsed("https://example.com");
    let body = "<a href=\"ht!tp://bad url\">";
    let mut stats = Stats { urls: 0 };
    let out = subdomains_from_request(&root, body, &mut stats);
    assert_eq!(out, vec![]);
    assert_eq!(stats.urls, 0);
}
