use saba_core::error::Error;
use saba_core::url::Url;

fn parts(url: &Url) -> (String, String, String, String) {
    (url.host(), url.port(), url.path(), url.searchpart())
}

fn expected(host: &str, port: &str, path: &str, searchpart: &str) -> (String, String, String, String) {
    (host.to_string(), port.to_string(), path.to_string(), searchpart.to_string())
}

/// How a successful parse shows: the whole value, the stored text included.
fn shown(url: &str, host: &str, port: &str, path: &str, searchpart: &str) -> String {
    format!(
        "Ok(Url {{ url: {:?}, host: {:?}, port: {:?}, path: {:?}, searchpart: {:?} }})",
        url, host, port, path, searchpart
    )
}

#[test]
fn should_parse_url_host() {
    let url = "http://example.com".to_string();
    let expected = shown(&url, "example.com", "80", "", "");
    assert_eq!(expected, format!("{:?}", Url::new(url).parse()));
}

#[test]
fn should_parse_url_host_port() {
    let url = "http://example.com:8888".to_string();
    let expected = shown(&url, "example.com", "8888", "", "");
    assert_eq!(expected, format!("{:?}", Url::new(url).parse()));
}

#[test]
fn should_parse_url_host_port_path() {
    let url = "http://example.com:8080/index.html".to_string();
    let expected = shown(&url, "example.com", "8080", "index.html", "");
    assert_eq!(expected, format!("{:?}", Url::new(url).parse()));
}

#[test]
fn should_parse_url_host_path() {
    let url = "http://example.com/test.json".to_string();
    let expected = shown(&url, "example.com", "80", "test.json", "");
    assert_eq!(expected, format!("{:?}", Url::new(url).parse()));
}

#[test]
fn should_parse_url_host_port_path_searchpart() {
    let url = "http://example.com:18080/index.html?a=123&b=456".to_string();
    let expected = shown(&url, "example.com", "18080", "index.html", "a=123&b=456");
    assert_eq!(expected, format!("{:?}", Url::new(url).parse()));
}

#[test]
fn parse_returns_a_copy_of_the_parsed_url() {
    let mut url = Url::new("http://example.com:8080/index.html?x=1".to_string());
    let parsed = url.parse();
    assert_eq!(Ok(url.clone()), parsed);
    assert_eq!(expected("example.com", "8080", "index.html", "x=1"), parts(&url));
}

#[test]
fn new_url_has_empty_parts() {
    let url = Url::new("http://example.com:8080/index.html".to_string());
    assert_eq!(expected("", "", "", ""), parts(&url));
}

#[test]
fn other_scheme_is_unsupported() {
    let mut url = Url::new("https://example.com".to_string());
    assert_eq!(Err(Error::UnsupportedScheme), url.parse());
    assert_eq!(expected("", "", "", ""), parts(&url));
}

#[test]
fn missing_scheme_is_unsupported() {
    assert_eq!(Err(Error::UnsupportedScheme), Url::new("example.com".to_string()).parse());
    assert_eq!(Err(Error::UnsupportedScheme), Url::new("".to_string()).parse());
    assert_eq!(Err(Error::UnsupportedScheme), Url::new("http:/".to_string()).parse());
    assert_eq!(Err(Error::UnsupportedScheme), Url::new("HTTP://example.com".to_string()).parse());
    assert_eq!(Err(Error::UnsupportedScheme), Url::new(" http://example.com".to_string()).parse());
}

#[test]
fn scheme_alone_gives_empty_host() {
    let parsed = Url::new("http://".to_string()).parse().expect("an http URL parses");
    assert_eq!(expected("", "80", "", ""), parts(&parsed));
}

#[test]
fn authority_without_path() {
    let parsed = Url::new("http://h".to_string()).parse().expect("an http URL parses");
    assert_eq!(expected("h", "80", "", ""), parts(&parsed));
}

#[test]
fn default_port_written_out() {
    let parsed = Url::new("http://h:80/p".to_string()).parse().expect("an http URL parses");
    assert_eq!(expected("h", "80", "p", ""), parts(&parsed));
}

#[test]
fn empty_port_after_colon() {
    let parsed = Url::new("http://h:/p".to_string()).parse().expect("an http URL parses");
    assert_eq!(expected("h", "", "p", ""), parts(&parsed));
}

#[test]
fn host_and_port_are_taken_verbatim() {
    let parsed = Url::new("http://exa mple:8a:9/p".to_string()).parse().expect("an http URL parses");
    assert_eq!(expected("exa mple", "8a:9", "p", ""), parts(&parsed));
}

#[test]
fn colon_after_the_authority_is_not_a_port() {
    let parsed = Url::new("http://h/a:b?c:d".to_string()).parse().expect("an http URL parses");
    assert_eq!(expected("h", "80", "a:b", "c:d"), parts(&parsed));
}

#[test]
fn only_the_first_slash_and_question_mark_split() {
    let parsed = Url::new("http://h/a/b?c?d/e".to_string()).parse().expect("an http URL parses");
    assert_eq!(expected("h", "80", "a/b", "c?d/e"), parts(&parsed));
}

#[test]
fn question_mark_in_the_authority_belongs_to_the_host() {
    let parsed = Url::new("http://h?q=1".to_string()).parse().expect("an http URL parses");
    assert_eq!(expected("h?q=1", "80", "", ""), parts(&parsed));
}

#[test]
fn empty_search_part_after_question_mark() {
    let parsed = Url::new("http://h/p?".to_string()).parse().expect("an http URL parses");
    assert_eq!(expected("h", "80", "p", ""), parts(&parsed));
}

#[test]
fn the_scheme_is_stripped_once() {
    let parsed = Url::new("http://http://h/p".to_string()).parse().expect("an http URL parses");
    assert_eq!(expected("http", "", "/h/p", ""), parts(&parsed));
}

#[test]
fn characters_beyond_ascii_are_kept() {
    let parsed = Url::new("http://例え.jp:80/パス?キー=値".to_string()).parse().expect("an http URL parses");
    assert_eq!(expected("例え.jp", "80", "パス", "キー=値"), parts(&parsed));
}

#[test]
fn port_is_default_exactly_without_colon() {
    for (url, colon) in [("http://a", false), ("http://a:1", true), ("http://a/b:c", false), ("http://a:81/b", true)] {
        let parsed = Url::new(url.to_string()).parse().expect("an http URL parses");
        assert_eq!(parsed.port() == "80", !colon);
    }
}

#[test]
fn parsed_url_keeps_its_text() {
    let url = "http://example.com:18080/index.html?a=123&b=456".to_string();
    let parsed = Url::new(url).parse().expect("an http URL parses");
    assert_eq!(
        format!("{:?}", parsed),
        "Url { url: \"http://example.com:18080/index.html?a=123&b=456\", host: \"example.com\", \
         port: \"18080\", path: \"index.html\", searchpart: \"a=123&b=456\" }"
    );
}
