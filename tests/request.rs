use rcurl::url::Url;
use rcurl::{Headers, Method, Request, RequestError};

#[test]
fn test_request() {
    let mut headers = Headers::new();
    headers.add("Content-Type".to_string(), "application/json".to_string());
    headers.add("user_id".to_string(), "1".to_string());
    let request = Request {
        url: Url::parse("http://localhost:8008").unwrap(),
        method: "GET".to_string(),
        headers,
        body: Vec::new(),
        http_version: "1.1".to_string(),
    };
    let data = request.to_bytes();
    println!("{:?}", String::from_utf8_lossy(&data));
    assert_eq!(
        data,
        b"GET / HTTP/1.1\r\nContent-Type: application/json\r\nuser_id: 1\r\n\r\n"
    );
}

#[test]
fn get_request_serializes_exactly() {
    let mut headers = Headers::new();
    headers.set("Content-Type".to_string(), "application/json".to_string());
    let request = Request {
        url: Url::parse("http://localhost:8080").unwrap(),
        method: Method::GET.to_string(),
        headers,
        body: Vec::new(),
        http_version: "1.1".to_string(),
    };
    assert_eq!(
        request.to_bytes(),
        b"GET / HTTP/1.1\r\nContent-Type: application/json\r\n\r\n".to_vec()
    );
}

#[test]
fn body_follows_the_head_verbatim() {
    let mut request = Request {
        url: Url::parse("http://h/submit?x=1").unwrap(),
        method: "POST".to_string(),
        headers: Headers::new(),
        body: Vec::new(),
        http_version: "1.1".to_string(),
    };
    request.set_body(&[0, 159, 146, 150]);
    request.set("X-A".to_string(), "b".to_string());
    let mut expected = b"POST /submit?x=1 HTTP/1.1\r\nX-A: b\r\n\r\n".to_vec();
    expected.extend_from_slice(&[0, 159, 146, 150]);
    assert_eq!(request.to_bytes(), expected);
}

#[test]
fn non_ascii_text_goes_out_as_utf8() {
    let mut headers = Headers::new();
    headers.set("X-Name".to_string(), "é".to_string());
    let request = Request {
        url: Url::parse("http://h/ü").unwrap(),
        method: "GET".to_string(),
        headers,
        body: Vec::new(),
        http_version: "1.0".to_string(),
    };
    assert_eq!(
        request.to_bytes(),
        "GET /ü HTTP/1.0\r\nX-Name: é\r\n\r\n".as_bytes().to_vec()
    );
}

#[test]
fn build_seeds_defaults_and_host() {
    let request = Request::build("http://example.com:8080/path?q=1", Method::POST).unwrap();
    assert_eq!(request.method, "POST");
    assert_eq!(request.http_version, "1.1");
    assert!(request.body.is_empty());
    assert_eq!(request.headers.get("Host"), Some(&"example.com".to_string()));
    assert_eq!(request.headers.keys().len(), 6);
    assert_eq!(request.addr(), "example.com:8080");
    let bytes = request.to_bytes();
    let text = String::from_utf8(bytes).unwrap();
    assert!(text.starts_with("POST /path?q=1 HTTP/1.1\r\nUser-Agent: rcurl/1.0\r\n"));
    assert!(text.ends_with("Host: example.com\r\n\r\n"));
}

#[test]
fn build_rejects_a_bad_port() {
    match Request::build("http://example.com:http/", Method::GET) {
        Err(RequestError::InvalidUrl(t)) => assert_eq!(t, "http://example.com:http/"),
        _ => panic!("expected an invalid URL"),
    }
}

#[test]
fn method_names() {
    assert_eq!(Method::GET.as_str(), "GET");
    assert_eq!(Method::POST.as_str(), "POST");
    assert_eq!(Method::PUT.as_str(), "PUT");
    assert_eq!(Method::DELETE.as_str(), "DELETE");
    assert_eq!(Method::PATCH.as_str(), "PATCH");
    assert_eq!(Method::HEAD.as_str(), "HEAD");
    assert_eq!(Method::OPTIONS.as_str(), "OPTIONS");
    assert_eq!(Method::CONNECT.as_str(), "CONNECT");
    assert_eq!(Method::TRACE.to_string(), "TRACE");
}
