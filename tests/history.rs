use url_search::history::{Firefox, History};

fn row(url: Option<&str>, title: Option<&str>, last: Option<u32>) -> History {
    History { url: url.map(|s| s.to_string()), title: title.map(|s| s.to_string()), last_visit_date: last }
}

#[test]
fn rows_without_url_are_skipped() {
    let rows = vec![
        row(Some("http://url.one"), Some("title one"), Some(7)),
        row(None, Some("no url"), None),
        row(Some("http://url.two"), None, None),
    ];
    assert_eq!(vec!["http://url.one", "http://url.two"], Firefox::urls_from_rows(&rows));
}

#[test]
fn no_rows_no_urls() {
    assert!(Firefox::urls_from_rows(&vec![]).is_empty());
}

#[test]
fn firefox_keeps_its_file() {
    let f = Firefox::new("/tmp/places.sqlite".to_string());
    assert_eq!("/tmp/places.sqlite", f.history_file());
}
