use url_search::options::{split_urls, ConfigError, Options};

fn to_args(v: &[&str]) -> Vec<String> {
    v.iter().map(|&s| s.into()).collect()
}

#[test]
pub fn test_options_from() {
    let args: Vec<String> = to_args(&["prog", "--urls", "one,two,three", "query"]);
    let options = Options::from(&args).unwrap();
    assert_eq!(vec!["one", "two", "three"], options.urls);
    assert_eq!("query", options.query);
}

#[test]
pub fn test_options_from_empty_args() {
    let args: Vec<String> = vec![];
    let options = Options::from(&args).unwrap();
    assert_eq!(Vec::<String>::new(), options.urls);
    assert_eq!("", options.query);
}

#[test]
fn program_name_alone_gives_defaults() {
    let options = Options::from(&to_args(&["prog"])).unwrap();
    assert!(options.urls.is_empty());
    assert_eq!("", options.query);
}

#[test]
fn urls_flag_without_list_is_an_error() {
    let r = Options::from(&to_args(&["prog", "q", "--urls"]));
    assert_eq!(ConfigError::MissingUrlList, r.unwrap_err());
}

#[test]
fn last_free_argument_is_the_query() {
    let options = Options::from(&to_args(&["prog", "first", "--urls", "a", "second"])).unwrap();
    assert_eq!(vec!["a"], options.urls);
    assert_eq!("second", options.query);
}

#[test]
fn later_urls_flag_replaces_earlier_list() {
    let options = Options::from(&to_args(&["prog", "--urls", "a,b", "--urls", "c"])).unwrap();
    assert_eq!(vec!["c"], options.urls);
    assert_eq!("", options.query);
}

#[test]
fn split_keeps_empty_pieces() {
    assert_eq!(vec!["", "a", "", "b", ""], split_urls(",a,,b,"));
    assert_eq!(vec![""], split_urls(""));
    assert_eq!(vec!["é", "ü"], split_urls("é,ü"));
}
