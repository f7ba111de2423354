use packtrack::errors::{Error, UrlError};
use packtrack::urls::{add, filter, find_one, remove};

fn urls() -> Vec<String> {
    vec![
        "www.example.com".into(),
        "www.ups.org".into(),
        "www.dhl.org".into(),
    ]
}

#[test]
fn urls_test_remove_pattern() {
    let mut urls = urls();
    let removed = remove(&mut urls, ".org").unwrap();
    assert_eq!(removed, vec!["www.ups.org", "www.dhl.org"]);
    let expected = vec!["www.example.com"];
    assert_eq!(urls, expected);
}

#[test]
fn urls_test_remove_exact() {
    let mut urls = urls();
    let removed = remove(&mut urls, "www.dhl.org").unwrap();
    assert_eq!(removed, vec!["www.dhl.org"]);
    let expected = vec!["www.example.com", "www.ups.org"];
    assert_eq!(urls, expected);
}

#[test]
fn urls_test_remove_not_found() {
    let mut urls: Vec<String> = vec!["www.dhl.org".into()];
    let removed = remove(&mut urls, "dhl.com");
    assert_eq!(
        removed.err().unwrap(),
        Error::Url(UrlError::NotFound("dhl.com".into()))
    );
    assert_eq!(urls, vec!["www.dhl.org"]);
}

#[test]
fn urls_test_add_happy() {
    let mut urls = urls();
    add(&mut urls, "foo.bar").unwrap();
    assert!(urls.contains(&"foo.bar".to_owned()));
    assert_eq!(
        urls,
        vec!["www.example.com", "www.ups.org", "www.dhl.org", "foo.bar"]
    );
}

#[test]
fn urls_test_add_sad() {
    let mut urls = urls();
    let result = add(&mut urls, "www.ups.org");
    assert_eq!(
        result.err().unwrap(),
        Error::Url(UrlError::AlreadyInFile("www.ups.org".into()))
    );
}

#[test]
fn test_find_one() {
    assert_eq!(find_one(vec![], "foo"), Ok(None));
    assert_eq!(find_one(urls(), "ups"), Ok(Some("www.ups.org".into())));
    assert_eq!(
        find_one(urls(), "org"),
        Err(Error::Url(UrlError::MultipleMatches("org".into())))
    );
}

#[test]
fn test_filter_url_list() {
    assert_eq!(
        filter(urls(), Some("org")),
        vec!["www.ups.org".to_owned(), "www.dhl.org".to_owned()]
    );
    assert_eq!(filter(urls(), None), urls());
    assert_eq!(filter(urls(), Some("zzz")), Vec::<String>::new());
}
