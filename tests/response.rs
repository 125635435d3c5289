use rcurl::{HttpVersion, ReadRequest, ReadState, RequestError, Response};

fn read_head(lines: &[&str]) -> Response {
    let mut response = Response::new();
    for line in lines {
        assert_eq!(response.next_request(), ReadRequest::Line);
        response.feed_line(line).unwrap();
    }
    response
}

/// Feeds the body from `stream`, as a connection would hand it over, and
/// returns how many reads were made.
fn read_body(response: &mut Response, stream: &[u8]) -> usize {
    let mut at = 0;
    let mut reads = 0;
    loop {
        match response.next_request() {
            ReadRequest::UpTo(n) => {
                let end = std::cmp::min(stream.len(), at + n);
                response.feed_body(&stream[at..end]);
                at = end;
                reads += 1;
            }
            ReadRequest::Nothing => return reads,
            ReadRequest::Line => panic!("the head is over"),
        }
    }
}

#[test]
fn declared_length_body_is_read_once() {
    let mut response = read_head(&["HTTP/1.1 200 OK\r\n", "Content-Length: 11\r\n", "\r\n"]);
    assert_eq!(response.content_length(), Some(11));
    assert_eq!(response.next_request(), ReadRequest::UpTo(11));
    let reads = read_body(&mut response, b"hello world");
    assert_eq!(reads, 1);
    assert_eq!(response.get_body().unwrap(), b"hello world");
    assert_eq!(response.get_body().unwrap(), b"hello world");
    assert_eq!(response.next_request(), ReadRequest::Nothing);
    assert_eq!(response.status, 200);
    assert_eq!(response.version, HttpVersion::Http1_1);
}

#[test]
fn body_stops_at_declared_length() {
    let mut response = read_head(&["HTTP/1.1 200 OK\r\n", "Content-Length: 11\r\n", "\r\n"]);
    read_body(&mut response, b"hello worldEXTRA");
    assert_eq!(response.get_body().unwrap(), b"hello world");
}

#[test]
fn short_stream_is_a_framing_error() {
    let mut response = read_head(&["HTTP/1.1 200 OK\r\n", "Content-Length: 11\r\n", "\r\n"]);
    read_body(&mut response, b"hello");
    assert_eq!(response.state(), ReadState::BodyComplete);
    assert_eq!(
        response.get_body(),
        Err(RequestError::IncompleteBody { expected: 11, received: 5 })
    );
    assert_eq!(
        response.get_body(),
        Err(RequestError::IncompleteBody { expected: 11, received: 5 })
    );
}

#[test]
fn large_body_comes_in_chunks() {
    let mut response = read_head(&["HTTP/1.0 200 OK\r\n", "Content-Length: 20000\r\n", "\r\n"]);
    assert_eq!(response.next_request(), ReadRequest::UpTo(8192));
    let stream = vec![7u8; 20000];
    let reads = read_body(&mut response, &stream);
    assert_eq!(reads, 3);
    assert_eq!(response.get_body().unwrap().len(), 20000);
}

#[test]
fn without_length_body_runs_to_end_of_stream() {
    let mut response = read_head(&["HTTP/1.1 404 Not Found\r\n", "\r\n"]);
    assert_eq!(response.next_request(), ReadRequest::UpTo(8192));
    read_body(&mut response, b"whatever came");
    assert_eq!(response.get_body().unwrap(), b"whatever came");
    assert_eq!(response.status, 404);
    assert_eq!(response.content_length(), None);
}

#[test]
fn zero_length_body_is_empty_at_once() {
    let response = read_head(&["HTTP/1.1 200 OK\r\n", "Content-Length: 0\r\n", "\r\n"]);
    assert_eq!(response.content_length(), Some(0));
    assert_eq!(response.state(), ReadState::BodyComplete);
    assert_eq!(response.next_request(), ReadRequest::Nothing);
    assert_eq!(response.get_body().unwrap(), b"");
}

#[test]
fn header_lines_are_trimmed_and_last_wins() {
    let response = read_head(&[
        "HTTP/2.0 201 Created\r\n",
        "X-A:  one \r\n",
        "no colon here\r\n",
        "X-A: two\r\n",
        "Content-Disposition: attachment; filename=a.txt\r\n",
        "\r\n",
    ]);
    assert_eq!(response.version, HttpVersion::Http2_0);
    assert_eq!(response.status, 201);
    assert_eq!(response.headers.get("X-A"), Some(&"two".to_string()));
    assert_eq!(response.headers.keys().len(), 2);
    assert_eq!(
        response.content_disposition(),
        Some(&"attachment; filename=a.txt".to_string())
    );
    assert_eq!(response.state(), ReadState::BodyPending);
}

#[test]
fn end_of_stream_inside_the_head_is_an_error() {
    let mut response = read_head(&["HTTP/1.1 200 OK\r\n", "Content-Length: 3\r\n"]);
    assert_eq!(response.feed_line(""), Err(RequestError::IncompleteHead));
    assert_eq!(response.state(), ReadState::Headers);
}

#[test]
fn status_line_with_unknown_version_is_refused() {
    let mut response = Response::new();
    assert_eq!(
        response.feed_line("HTTP/3 200 OK\r\n"),
        Err(RequestError::UnsupportedVersion("HTTP/3".to_string()))
    );
    assert_eq!(response.state(), ReadState::StatusLine);
}

#[test]
fn status_line_without_a_code_is_refused() {
    for line in ["HTTP/1.1\r\n", "HTTP/1.1 abc\r\n", "HTTP/1.1 70000 Big\r\n", ""] {
        assert_eq!(
            Response::parse_status_line(line),
            Err(RequestError::InvalidStatusLine(line.to_string()))
        );
    }
    assert_eq!(
        Response::parse_status_line("HTTP/1.0 301 Moved\r\n"),
        Ok((HttpVersion::Http1_0, 301))
    );
}

#[test]
fn versions_by_label() {
    assert_eq!(HttpVersion::try_from("HTTP/1.1"), Ok(HttpVersion::Http1_1));
    assert_eq!(HttpVersion::try_from("HTTP/1.0"), Ok(HttpVersion::Http1_0));
    assert_eq!(HttpVersion::try_from("HTTP/2.0"), Ok(HttpVersion::Http2_0));
    assert_eq!(
        HttpVersion::try_from("http/1.1"),
        Err(RequestError::UnsupportedVersion("http/1.1".to_string()))
    );
    assert_eq!(HttpVersion::Http2_0.as_str(), "HTTP/2.0");
}
