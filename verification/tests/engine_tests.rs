use domain_hunter::active::Engine;
use domain_hunter::common::MAX_DEPTH;
use domain_hunter::urls::Url;

fn parsed(s: &str) -> Url {
    match Url::parse(s) {
        Some(u) => u,
        None => panic!("expected {} to parse", s),
    }
}

#[test]
fn one_level_scenario() {
    // Seed example.com; the fetched body links one in-scope subdomain and
    // one foreign host. After one level the result set holds the
    // subdomain, excludes the foreign host, and both candidates count.
    let seed = parsed("https://example.com");
    let mut engine = Engine::new(&seed, MAX_DEPTH);
    assert!(!engine.is_done());
    assert_eq!(engine.frontier().len(), 1);
    assert_eq!(engine.frontier()[0].as_str(), "https://example.com/");

    let body = "<a href=\"https://sub.example.com/page\"><a href=\"https://other.org/\">";
    let bodies = vec![Some(String::from(body))];
    engine.process_level(&bodies);

    assert_eq!(engine.stats().urls, 2);
    assert_eq!(engine.level(), 1);
    assert_eq!(engine.results(), vec![Url::from_host("sub.example.com")]);
    assert_eq!(engine.frontier(), &vec![Url::from_host("sub.example.com")]);
    assert!(!engine.is_done());
}

#[test]
fn malformed_candidate_never_escapes_its_item() {
    let seed = parsed("https://example.com");
    let mut engine = Engine::new(&seed, MAX_DEPTH);
    let bodies = vec![Some(String::from("<a href=\"ht!tp://bad url\">"))];
    engine.process_level(&bodies);
    assert_eq!(engine.results(), vec![]);
    assert!(engine.is_done());
}

#[test]
fn depth_ceiling_stops_the_run() {
    // Every level yields a fresh unseen host, so only the ceiling stops
    // the run.
    let seed = parsed("https://example.com");
    let mut engine = Engine::new(&seed, 2);
    let first = vec![Some(String::from("<a href=\"https://a.example.com/\">"))];
    engine.process_level(&first);
    assert!(!engine.is_done());
    let second = vec![Some(String::from("<a href=\"https://b.example.com/\">"))];
    engine.process_level(&second);
    assert_eq!(engine.level(), 2);
    assert!(engine.is_done());
    assert_eq!(
        engine.results(),
        vec![
            Url::from_host("a.example.com"),
            Url::from_host("b.example.com"),
        ]
    );
}

#[test]
fn zero_ceiling_is_done_at_once() {
    let seed = parsed("https://example.com");
    let engine = Engine::new(&seed, 0);
    assert!(engine.is_done());
    assert_eq!(engine.results(), vec![]);
}

#[test]
fn empty_frontier_stops_before_the_ceiling() {
    let seed = parsed("https://example.com");
    let mut engine = Engine::new(&seed, 5);
    let bodies = vec![Some(String::from("nothing to see here"))];
    engine.process_level(&bodies);
    assert_eq!(engine.level(), 1);
    assert!(engine.is_done());
}

#[test]
fn failed_fetch_skips_only_its_member() {
    let seed = parsed("https://example.com");
    let mut engine = Engine::new(&seed, 3);
    let first = vec![Some(String::from(
        "<a href=\"https://a.example.com/\"><a href=\"https://b.example.com/\">",
    ))];
    engine.process_level(&first);
    assert_eq!(engine.frontier().len(), 2);

    // One fetch fails, the other still contributes.
    let second = vec![None, Some(String::from("<a href=\"https://c.example.com/\">"))];
    engine.process_level(&second);
    assert_eq!(
        engine.results(),
        vec![
            Url::from_host("a.example.com"),
            Url::from_host("b.example.com"),
            Url::from_host("c.example.com"),
        ]
    );
}

#[test]
fn results_are_deduplicated_across_levels() {
    let seed = parsed("https://example.com");
    let mut engine = Engine::new(&seed, 2);
    let body = "<a href=\"https://a.example.com/\">";
    engine.process_level(&vec![Some(String::from(body))]);
    engine.process_level(&vec![Some(String::from(body))]);
    assert_eq!(engine.results(), vec![Url::from_host("a.example.com")]);
}

#[test]
fn stats_count_candidates_before_filtering() {
    let seed = parsed("https://example.com");
    let mut engine = Engine::new(&seed, 1);
    let body = "<a href=\"https://one.org/\"><a href=\"https://two.org/\"><a href=\"nope\">";
    engine.process_level(&vec![Some(String::from(body))]);
    assert_eq!(engine.stats().urls, 2);
}
