use domain_hunter::common::clear_dup_url;
use domain_hunter::common::clear_dupes;
use domain_hunter::log::log;
use domain_hunter::log::LogType;
use domain_hunter::urls::https;
use domain_hunter::urls::Url;

fn parsed(s: &str) -> Url {
    match Url::parse(s) {
        Some(u) => u,
        None => panic!("expected {} to parse", s),
    }
}

#[test]
fn https_prefixes_the_scheme() {
    assert_eq!(https(String::from("a.com")), "https://a.com");
    assert_eq!(https(String::from("")), "https://");
}

#[test]
fn clear_dupes_keeps_first_host_and_canonicalizes() {
    let input = vec![
        parsed("https://a.com/x"),
        parsed("http://b.org/some/path"),
        parsed("https://a.com/y?q=1"),
    ];
    let out = clear_dupes(input);
    assert_eq!(out, vec![Url::from_host("a.com"), Url::from_host("b.org")]);
    assert_eq!(out[0].as_str(), "https://a.com");
    assert_eq!(out[0].host_str().map(|h| h.as_str()), Some("a.com"));
}

#[test]
fn clear_dupes_drops_urls_without_host() {
    let input = vec![parsed("mailto:someone@a.com"), parsed("https://a.com/")];
    let out = clear_dupes(input);
    assert_eq!(out, vec![Url::from_host("a.com")]);
}

#[test]
fn clear_dupes_is_idempotent() {
    let input = vec![
        parsed("https://b.org/1"),
        parsed("https://a.com/2"),
        parsed("https://b.org/3"),
        parsed("https://c.net/4"),
    ];
    let once = clear_dupes(input.clone());
    let twice = clear_dupes(once.clone());
    assert_eq!(twice, once);
}

#[test]
fn clear_dupes_output_hosts_are_unique() {
    let input = vec![
        parsed("https://b.org/1"),
        parsed("https://a.com/2"),
        parsed("https://b.org/3"),
        parsed("https://a.com/4"),
    ];
    let out = clear_dupes(input);
    for i in 0..out.len() {
        for j in 0..out.len() {
            if i != j {
                assert_ne!(out[i].host_str(), out[j].host_str());
            }
        }
    }
}

#[test]
fn clear_dupes_preserves_first_seen_order() {
    let input = vec![
        parsed("https://b.org/1"),
        parsed("https://a.com/2"),
        parsed("https://b.org/3"),
        parsed("https://c.net/4"),
    ];
    let out = clear_dupes(input);
    assert_eq!(
        out,
        vec![
            Url::from_host("b.org"),
            Url::from_host("a.com"),
            Url::from_host("c.net"),
        ]
    );
}

#[test]
fn clear_dupes_of_nothing_is_nothing() {
    assert_eq!(clear_dupes(vec![]), vec![]);
    assert_eq!(clear_dup_url(vec![]), vec![]);
}

#[test]
fn clear_dup_url_keeps_distinct_paths() {
    let input = vec![
        parsed("https://a.com/x"),
        parsed("https://a.com/y"),
        parsed("https://a.com/x"),
    ];
    let out = clear_dup_url(input);
    assert_eq!(out.len(), 2);
    assert_eq!(out[0].as_str(), "https://a.com/x");
    assert_eq!(out[1].as_str(), "https://a.com/y");
}

#[test]
fn clear_dup_url_keeps_everything_distinct() {
    let input = vec![parsed("https://a.com/x"), parsed("https://b.org/x")];
    let out = clear_dup_url(input.clone());
    assert_eq!(out, input);
}

#[test]
fn log_labels_by_severity() {
    assert_eq!(log(LogType::LogInfo, String::from("hello")), "[INFO]: hello");
    assert_eq!(log(LogType::LogWarn, String::from("w")), "[WARN]: w");
    assert_eq!(log(LogType::LogErr, String::from("e")), "[ERR]: e");
    assert_eq!(log(LogType::LogCrit, String::from("c")), "[CRIT]: c");
}
