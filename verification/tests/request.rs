use flax::request::{
    parse_request_line, read_request, request_len, Request, RequestProgress, MAX_REQUEST_BYTES,
};
use flax::status::StatusCode;

fn complete(received: &[u8], ended: bool) -> Request {
    match read_request(received, ended) {
        RequestProgress::Complete(request) => request,
        _ => panic!("expected a request"),
    }
}

fn refused(received: &[u8], ended: bool) -> StatusCode {
    match read_request(received, ended) {
        RequestProgress::Refused(status) => status,
        _ => panic!("expected a refusal"),
    }
}

fn incomplete(received: &[u8]) -> bool {
    matches!(read_request(received, false), RequestProgress::Incomplete)
}

#[test]
fn a_whole_request() {
    let request = complete(b"GET /index.html HTTP/1.1\r\nHost: x\r\n\r\n", false);
    assert_eq!(request.method, "GET");
    assert_eq!(request.path, "/index.html");
}

#[test]
fn bare_line_feeds_will_do() {
    let request = complete(b"head / HTTP/1.0\nHost: x\n\nrest", false);
    assert_eq!(request.method, "HEAD");
    assert_eq!(request.path, "/");
}

#[test]
fn pieces_of_a_request() {
    let whole = b"GET / HTTP/1.1\r\nA: b\r\n\r\n";
    for n in 0..whole.len() {
        assert!(incomplete(&whole[..n]), "{} bytes", n);
    }
    assert_eq!(complete(whole, false).path, "/");
}

#[test]
fn a_settled_request_ignores_what_follows() {
    let request = complete(b"GET /a HTTP/1.1\r\n\r\nGET /b HTTP/1.1\r\n\r\n", false);
    assert_eq!(request.path, "/a");
    let request = complete(b"GET /a HTTP/1.1\r\n\r\n\xff\xff", true);
    assert_eq!(request.path, "/a");
}

#[test]
fn the_length_of_a_request() {
    assert_eq!(request_len(b"GET /a HTTP/1.1\r\n\r\nGET /b HTTP/1.1\r\n\r\n"), 19);
    assert_eq!(request_len(b"GET /a HTTP/1.1\nA: b\n\nrest"), 22);
    assert_eq!(request_len(b"GET /a HTTP/1.1\r\nA: b"), 21);
    // An empty first line is a request line, if not a good one.
    assert_eq!(request_len(b"\r\n\r\nrest"), 4);
    assert_eq!(request_len(b""), 0);
}

#[test]
fn a_request_is_its_head_alone() {
    let received = b"GET /a HTTP/1.1\r\nA: b\r\n\r\nGET /b HTTP/1.1\r\n\r\n";
    let head = &received[..request_len(received)];
    assert_eq!(complete(head, true).path, "/a");
    assert_eq!(complete(&received[head.len()..], false).path, "/b");
}

#[test]
fn the_end_of_the_stream() {
    assert!(matches!(read_request(b"", true), RequestProgress::Closed));
    assert!(matches!(read_request(b"", false), RequestProgress::Incomplete));
    // The headers need not end where the stream does.
    assert_eq!(complete(b"GET /a HTTP/1.1", true).path, "/a");
    assert_eq!(complete(b"GET /a HTTP/1.1\r\nHost: x", true).path, "/a");
    assert_eq!(refused(b"GET /a", true), StatusCode::BadRequest);
}

#[test]
fn malformed_request_lines() {
    assert_eq!(refused(b"\r\n\r\n", false), StatusCode::BadRequest);
    assert_eq!(refused(b"GET /\r\n\r\n", false), StatusCode::BadRequest);
    assert_eq!(refused(b"GET / HTTP/1.1 x\r\n\r\n", false), StatusCode::BadRequest);
    assert_eq!(refused(b"GET / HTTP/1.9\r\n\r\n", false), StatusCode::BadRequest);
    assert_eq!(refused(b"GET / HTTP/2.0\r\n\r\n", false), StatusCode::BadRequest);
    assert_eq!(refused(b"GET / http/1.1\r\n\r\n", false), StatusCode::BadRequest);
}

#[test]
fn lines_that_are_not_text() {
    assert_eq!(refused(b"GET /\xff HTTP/1.1\r\n", false), StatusCode::BadRequest);
    assert_eq!(refused(b"GET / HTTP/1.1\r\nA: \xc0\xaf\r\n", false), StatusCode::BadRequest);
    assert_eq!(refused(b"GET / HTTP/1.1\r\nA: \xc0", true), StatusCode::BadRequest);
    assert!(incomplete(b"GET / HTTP/1.1\r\nA: \xc0"));
}

#[test]
fn the_size_limit() {
    assert_eq!(MAX_REQUEST_BYTES, 8192);
    let line = b"GET / HTTP/1.1\r\n";
    let mut request = line.to_vec();
    request.extend_from_slice(b"A: ");
    request.resize(MAX_REQUEST_BYTES - 4, b'x');
    request.extend_from_slice(b"\r\n\r\n");
    assert_eq!(request.len(), MAX_REQUEST_BYTES);
    assert_eq!(complete(&request, false).path, "/");
    // One byte more is too much.
    request.insert(20, b'x');
    assert_eq!(refused(&request, false), StatusCode::PayloadTooLarge);
    assert_eq!(refused(&request, true), StatusCode::PayloadTooLarge);
}

#[test]
fn excess_without_a_line_end() {
    let mut request = vec![b'a'; MAX_REQUEST_BYTES];
    assert!(incomplete(&request));
    request.push(b'a');
    assert_eq!(refused(&request, false), StatusCode::PayloadTooLarge);
    let mut junk = vec![0xffu8; MAX_REQUEST_BYTES];
    assert!(incomplete(&junk));
    junk.push(b'\n');
    assert_eq!(refused(&junk, false), StatusCode::PayloadTooLarge);
}

#[test]
fn request_lines() {
    match parse_request_line("\tgEt\u{a0}/ü\u{3000}HTTP/1.1\r\n") {
        RequestProgress::Complete(request) => {
            assert_eq!(request.method, "GET");
            assert_eq!(request.path, "/ü");
        }
        _ => panic!("expected a request"),
    }
    match parse_request_line("pösT / HTTP/1.0") {
        RequestProgress::Complete(request) => assert_eq!(request.method, "PöST"),
        _ => panic!("expected a request"),
    }
    assert!(matches!(
        parse_request_line(""),
        RequestProgress::Refused(StatusCode::BadRequest)
    ));
    for version in ["HTTP/1", "HTTP/1.", "HTTP/1.2", "HTTP/1.9", "HTTP/1.10", "HTTP/2.0", "http/1.1", "1.1"] {
        assert!(matches!(
            parse_request_line(&format!("GET / {}\r\n", version)),
            RequestProgress::Refused(StatusCode::BadRequest)
        ));
    }
}
