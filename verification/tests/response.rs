use flax::response::{write_error, write_response};
use flax::status::StatusCode;

#[test]
fn a_response_byte_by_byte() {
    let mut out = Vec::new();
    write_response(
        &mut out,
        StatusCode::Success,
        "text/html; charset=utf-8",
        b"<h1>ok</h1>",
        3600,
        false,
        false,
    );
    let expected = "HTTP/1.1 200 OK\r\n\
        Content-Type: text/html; charset=utf-8\r\n\
        Content-Length: 11\r\n\
        X-Content-Type-Options: nosniff\r\n\
        X-Frame-Options: DENY\r\n\
        Content-Security-Policy: default-src 'none'; style-src 'self'; img-src 'self'; font-src 'self'\r\n\
        Referrer-Policy: no-referrer\r\n\
        Cache-Control: public, max-age=3600\r\n\
        Connection: close\r\n\
        \r\n\
        <h1>ok</h1>";
    assert_eq!(String::from_utf8(out).unwrap(), expected);
}

#[test]
fn head_leaves_out_the_body() {
    let mut get = Vec::new();
    write_response(&mut get, StatusCode::Success, "text/css; charset=utf-8", b"body{}", 0, false, true);
    let mut head = Vec::new();
    write_response(&mut head, StatusCode::Success, "text/css; charset=utf-8", b"body{}", 0, true, true);
    head.extend_from_slice(b"body{}");
    assert_eq!(get, head);
    let text = String::from_utf8(get).unwrap();
    assert!(text.contains("\r\nConnection: keep-alive\r\n"));
    assert!(text.contains("\r\nContent-Length: 6\r\n"));
    assert!(text.contains("max-age=0\r\n"));
}

#[test]
fn responses_are_appended() {
    let mut out = b"before".to_vec();
    write_error(&mut out, StatusCode::NotFound, 7, false);
    assert!(out.starts_with(b"beforeHTTP/1.1 404 Not Found\r\nContent-Type: text/html; charset=utf-8\r\n"));
    assert!(out.ends_with(b"\r\n\r\n404 Not Found"));
}

#[test]
fn every_error_has_its_body() {
    for (status, code, body) in [
        (StatusCode::BadRequest, 400, "400 Bad Request"),
        (StatusCode::Forbidden, 403, "403 Forbidden"),
        (StatusCode::NotFound, 404, "404 Not Found"),
        (StatusCode::MethodNotAllowed, 405, "405 Method Not Allowed"),
        (StatusCode::PayloadTooLarge, 413, "413 Payload Too Large"),
        (StatusCode::InternalServerError, 500, "500 Internal Server Error"),
    ] {
        let mut out = Vec::new();
        write_error(&mut out, status, 3600, false);
        let text = String::from_utf8(out).unwrap();
        assert_eq!(status.code(), code);
        assert_eq!(format!("{} {}", status.code(), status.phrase()), body);
        assert!(text.starts_with(&format!("HTTP/1.1 {}\r\n", body)));
        assert!(text.contains("\r\nContent-Type: text/html; charset=utf-8\r\n"));
        assert!(text.contains(&format!("Content-Length: {}\r\n", body.len())));
        assert!(text.contains("X-Content-Type-Options: nosniff\r\nX-Frame-Options: DENY\r\n"));
        assert!(text.ends_with(&format!("\r\n\r\n{}", body)));
    }
}

#[test]
fn success_has_no_error_body() {
    let mut out = Vec::new();
    write_error(&mut out, StatusCode::Success, u64::MAX, true);
    let text = String::from_utf8(out).unwrap();
    assert_eq!(StatusCode::Success.code(), 200);
    assert_eq!(StatusCode::Success.phrase(), "OK");
    assert!(text.contains("Content-Length: 0\r\n"));
    assert!(text.contains("max-age=18446744073709551615\r\n"));
    assert!(text.ends_with("\r\n\r\n"));
}
