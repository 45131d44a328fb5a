use domain_hunter::passive::dork_query;
use domain_hunter::spider::check_for_links;
use domain_hunter::spider::extract_link;
use domain_hunter::spider::ExtractError;
use domain_hunter::spider::Spider;
use domain_hunter::urls::Url;

fn parsed(s: &str) -> Url {
    match Url::parse(s) {
        Some(u) => u,
        None => panic!("expected {} to parse", s),
    }
}

#[test]
fn extract_link_resolves_a_relative_path() {
    let base = parsed("https://site.com/dir/page");
    let link = extract_link("a href=\"/about\"", &base).expect("should resolve");
    assert_eq!(link.as_str(), "https://site.com/about");
}

#[test]
fn extract_link_applies_join_semantics() {
    let base = parsed("https://site.com/a/b/c");
    let link = extract_link("a href=\"/a/../x\"", &base).expect("should resolve");
    assert_eq!(link.as_str(), "https://site.com/x");
}

#[test]
fn extract_link_without_candidate() {
    let base = parsed("https://site.com/");
    assert_eq!(
        extract_link("a plain line", &base),
        Err(ExtractError::NoCandidate)
    );
    assert_eq!(
        extract_link("a href=\"/unterminated", &base),
        Err(ExtractError::NoCandidate)
    );
}

#[test]
fn extract_link_with_unresolvable_candidate() {
    let base = parsed("https://site.com/");
    assert_eq!(
        extract_link("a href=\"//bad host/x\"", &base),
        Err(ExtractError::InvalidJoin)
    );
}

#[test]
fn check_for_links_collects_distinct_links() {
    let base = parsed("https://s.com/");
    let body = "<a href=\"/one\"><a href=\"/two\"><a href=\"/one\">";
    let out = check_for_links(&base, body);
    assert_eq!(out.len(), 2);
    assert_eq!(out[0].as_str(), "https://s.com/one");
    assert_eq!(out[1].as_str(), "https://s.com/two");
}

#[test]
fn check_for_links_on_plain_text_is_empty() {
    let base = parsed("https://s.com/");
    assert_eq!(check_for_links(&base, "no links here"), vec![]);
}

#[test]
fn spider_walks_levels_and_keeps_distinct_urls() {
    let start = parsed("https://s.com/");
    let mut spider = Spider::new(&start, 2);
    assert!(!spider.is_done());
    assert_eq!(spider.frontier().len(), 1);

    let body = "<a href=\"/one\"><a href=\"/two\">";
    spider.process_level(&vec![Some(String::from(body))]);
    assert_eq!(spider.level(), 1);
    assert_eq!(spider.frontier().len(), 2);
    assert_eq!(spider.results().len(), 2);

    // One page fails to fetch, the other links back to a known page and
    // to a new one; the level's frontier holds the two distinct links.
    let second = vec![None, Some(String::from("<a href=\"/one\"><a href=\"/three\">"))];
    spider.process_level(&second);
    assert_eq!(spider.level(), 2);
    assert!(spider.is_done());
    let texts: Vec<&str> = spider.results().iter().map(|u| u.as_str()).collect();
    assert_eq!(
        texts,
        vec![
            "https://s.com/one",
            "https://s.com/two",
            "https://s.com/one",
            "https://s.com/three",
        ]
    );
}

#[test]
fn spider_stops_on_an_empty_frontier() {
    let start = parsed("https://s.com/");
    let mut spider = Spider::new(&start, 9);
    spider.process_level(&vec![Some(String::from("nothing"))]);
    assert_eq!(spider.level(), 1);
    assert!(spider.is_done());
    assert_eq!(spider.results(), &vec![]);
}

#[test]
fn dork_query_builds_the_search_url() {
    assert_eq!(
        dork_query("example.com"),
        "https://duckduckgo.com/?q=site%3A*+example.com"
    );
}
