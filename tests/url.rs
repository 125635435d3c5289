use rcurl::url::Url;
use rcurl::RequestError;

#[test]
fn from_str() {
    let url = "http://localhost:8080/test?name=1";
    let parsed_url: Url = Url::parse(url).unwrap();
    assert_eq!(parsed_url.scheme, "http");
    assert_eq!(parsed_url.host, "localhost");
    assert_eq!(parsed_url.port, Some(8080));
    assert_eq!(parsed_url.path, "/test");
    assert_eq!(parsed_url.query, Some("name=1".to_string()));
}

#[test]
fn to_str() {
    let url = Url {
        scheme: "http".to_string(),
        host: "localhost".to_string(),
        port: Some(8080),
        path: "/test".to_string(),
        query: Some("name=1".to_string()),
    };
    let url_str: String = url.to_string();
    assert_eq!(url_str, "http://localhost:8080/test?name=1".to_string());
}

#[test]
fn test_get_path() {
    let url = "http://localhost:8080/test?name=1";
    let parsed_url: Url = Url::parse(url).unwrap();
    assert!(parsed_url.get_path() == "/test?name=1");
    let url = "http://localhost:8080/test";
    let parsed_url: Url = Url::parse(url).unwrap();
    assert!(parsed_url.get_path() == "/test");
    let url = "http://localhost:8080";
    let parsed_url: Url = Url::parse(url).unwrap();
    assert!(parsed_url.get_path() == "/");
}

fn round_trip(text: &str) {
    let url = Url::parse(text).unwrap();
    let again = Url::parse(&url.to_string()).unwrap();
    assert_eq!(url.to_string(), text);
    assert_eq!(again.scheme, url.scheme);
    assert_eq!(again.host, url.host);
    assert_eq!(again.port, url.port);
    assert_eq!(again.path, url.path);
    assert_eq!(again.query, url.query);
}

#[test]
fn url_round_trip_keeps_every_part() {
    round_trip("http://localhost:8080/test?name=1");
    round_trip("https://example.com/a/b/c");
    round_trip("ftp://host:21");
    round_trip("http://h/p?x=1&y=2?z");
    round_trip("http://h:0/");
    round_trip("http://h:65535/p");
    round_trip("a:b://h/p");
    round_trip("x:/://h:1/q?r");
}

#[test]
fn url_round_trip_from_parts() {
    let url = Url {
        scheme: "https".to_string(),
        host: "api.example.org".to_string(),
        port: None,
        path: "/v1/items".to_string(),
        query: Some("page=2".to_string()),
    };
    let back = Url::parse(&url.to_string()).unwrap();
    assert_eq!(back.scheme, "https");
    assert_eq!(back.host, "api.example.org");
    assert_eq!(back.port, None);
    assert_eq!(back.path, "/v1/items");
    assert_eq!(back.query, Some("page=2".to_string()));
}

#[test]
fn empty_path_asks_for_root() {
    let url = Url::parse("http://example.com").unwrap();
    assert_eq!(url.path, "");
    assert_eq!(url.get_path(), "/");
    let url = Url {
        scheme: "http".to_string(),
        host: "example.com".to_string(),
        port: None,
        path: String::new(),
        query: Some("q=1".to_string()),
    };
    assert_eq!(url.get_path(), "/?q=1");
}

#[test]
fn url_without_scheme_is_all_host() {
    let url = Url::parse("localhost:3000").unwrap();
    assert_eq!(url.scheme, "");
    assert_eq!(url.host, "localhost");
    assert_eq!(url.port, Some(3000));
    assert_eq!(url.path, "");
    assert_eq!(url.query, None);
}

#[test]
fn url_port_must_be_a_16_bit_number() {
    for bad in ["http://h:abc/x", "http://h:65536/", "http://h:/", "http://h:-1"] {
        match Url::parse(bad) {
            Err(RequestError::InvalidUrl(t)) => assert_eq!(t, bad),
            other => panic!("{:?}", other.map(|u| u.to_string())),
        }
    }
    assert_eq!(Url::parse("http://h:+80/").unwrap().port, Some(80));
    assert_eq!(Url::parse("http://h:0080/").unwrap().port, Some(80));
}

#[test]
fn url_addr_defaults_to_port_80() {
    assert_eq!(Url::parse("http://example.com/x").unwrap().addr(), "example.com:80");
    assert_eq!(Url::parse("http://example.com:8443/x").unwrap().addr(), "example.com:8443");
    assert_eq!(Url::parse("http://example.com/x").unwrap().port_or_default(), 80);
    assert_eq!(Url::parse("http://example.com:8443/x").unwrap().port_or_default(), 8443);
}

#[test]
fn url_query_split_at_first_question_mark() {
    let url = Url::parse("http://h/p?a?b").unwrap();
    assert_eq!(url.path, "/p");
    assert_eq!(url.query, Some("a?b".to_string()));
    assert_eq!(url.get_path(), "/p?a?b");
}
