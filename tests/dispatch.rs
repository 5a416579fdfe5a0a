use url_search::dispatch::{search_url, Dispatch, Match, MatchResult, TransportError};
use url_search::options::Options;

fn config(urls: &[&str], query: &str) -> Options {
    Options { urls: urls.iter().map(|&s| s.to_string()).collect(), query: query.to_string() }
}

#[test]
fn empty_query_matches_any_body() {
    assert!(url_search::matcher::matches("", ""));
    assert!(url_search::matcher::matches("anything at all", ""));
}

#[test]
fn matches_is_substring_containment() {
    assert!(url_search::matcher::matches("hello world", "world"));
    assert!(!url_search::matcher::matches("hello world", "xyz"));
    assert!(!url_search::matcher::matches("hello world", "World"));
    assert!(!url_search::matcher::matches("", "a"));
}

#[test]
fn search_url_maps_each_fetch_result() {
    let q = "token".to_string();
    assert_eq!(
        MatchResult::Matched(Match { url: "u".to_string() }),
        search_url(&q, "u".to_string(), Ok("a token here".to_string()))
    );
    assert_eq!(
        MatchResult::NotMatched("u".to_string()),
        search_url(&q, "u".to_string(), Ok("nothing".to_string()))
    );
    assert_eq!(
        MatchResult::Failed("u".to_string(), TransportError::DecodeFailed),
        search_url(&q, "u".to_string(), Err(TransportError::DecodeFailed))
    );
}

#[test]
fn empty_configuration_gives_empty_report_and_no_fetches() {
    let (d, requests) = Dispatch::start(&config(&[], "q"));
    assert!(requests.is_empty());
    assert!(d.is_done());
    assert!(d.finish().is_empty());
}

#[test]
fn report_follows_input_order() {
    let (mut d, requests) =
        Dispatch::start(&config(&["http://a.example", "http://b.example"], "token"));
    assert_eq!(vec![0, 1], requests.iter().map(|r| r.index).collect::<Vec<_>>());
    assert_eq!("http://a.example/", requests[0].url.as_str());
    // b completes first
    d.complete(1, Ok("no match here".to_string()));
    assert!(!d.is_done());
    d.complete(0, Ok("has the token".to_string()));
    assert!(d.is_done());
    assert_eq!(
        vec![
            MatchResult::Matched(Match { url: "http://a.example".to_string() }),
            MatchResult::NotMatched("http://b.example".to_string()),
        ],
        d.finish()
    );
}

#[test]
fn failed_fetch_keeps_its_index_and_spares_the_others() {
    let urls = ["http://a.example", "http://down.example", "http://c.example"];
    let (mut d, requests) = Dispatch::start(&config(&urls, "x"));
    assert_eq!(3, requests.len());
    d.complete(2, Ok("x".to_string()));
    d.complete(1, Err(TransportError::ConnectFailed));
    d.complete(0, Ok("y".to_string()));
    assert_eq!(
        vec![
            MatchResult::NotMatched("http://a.example".to_string()),
            MatchResult::Failed("http://down.example".to_string(), TransportError::ConnectFailed),
            MatchResult::Matched(Match { url: "http://c.example".to_string() }),
        ],
        d.finish()
    );
}

#[test]
fn invalid_url_fails_without_a_fetch() {
    let (mut d, requests) = Dispatch::start(&config(&["not a url", "http://ok.example"], "q"));
    assert_eq!(1, requests.len());
    assert_eq!(1, requests[0].index);
    assert!(!d.is_done());
    d.complete(1, Ok("q".to_string()));
    assert_eq!(
        vec![
            MatchResult::Failed("not a url".to_string(), TransportError::InvalidUrl),
            MatchResult::Matched(Match { url: "http://ok.example".to_string() }),
        ],
        d.finish()
    );
}

#[test]
fn duplicate_urls_each_get_a_slot() {
    let (mut d, requests) = Dispatch::start(&config(&["http://a.example", "http://a.example"], ""));
    assert_eq!(2, requests.len());
    d.complete(0, Err(TransportError::HttpStatus(500)));
    d.complete(1, Ok(String::new()));
    assert_eq!(
        vec![
            MatchResult::Failed("http://a.example".to_string(), TransportError::HttpStatus(500)),
            MatchResult::Matched(Match { url: "http://a.example".to_string() }),
        ],
        d.finish()
    );
}
