use flax::config::Config;
use flax::connection::{
    handle_connection, Action, ConnectionFacts, Report, StreamState, MAX_KEPT_REQUESTS,
};
use flax::resolve::Answer;
use flax::status::StatusCode;

fn config() -> Config {
    Config {
        bind: "127.0.0.1:8080".to_string(),
        root: b"/srv".to_vec(),
        max_concurrent: 1024,
        cache_max_age: 60,
        keep_alive: false,
        drop_user: None,
    }
}

/// A world in which `/srv/index.html` is the only file there is.
struct World {
    incoming: Vec<u8>,
    readable: bool,
    openable: bool,
    sending_works: bool,
}

struct Outcome {
    sent: Vec<String>,
    earlier: Vec<Report>,
    report: Report,
    actions: usize,
}

/// Handles a connection, a few bytes at a time.
fn serve(config: &Config, world: &World) -> Outcome {
    let mut facts = ConnectionFacts::new();
    let mut at = 0;
    let mut sent = Vec::new();
    let mut earlier = Vec::new();
    let mut actions = 0;
    loop {
        actions += 1;
        match handle_connection(config, &facts) {
            Action::Receive => {
                let end = world.incoming.len().min(at + 7);
                if end == at {
                    facts.stream = StreamState::Ended;
                } else {
                    facts.received.extend_from_slice(&world.incoming[at..end]);
                    at = end;
                }
            }
            Action::Canonicalize(path) => {
                facts.canonical = match path.as_slice() {
                    b"/srv/index.html" | b"/srv/a/link.html" => Answer::Got(b"/srv/index.html".to_vec()),
                    b"/srv/out.html" => Answer::Got(b"/etc/out.html".to_vec()),
                    _ => Answer::Failed,
                }
            }
            Action::Inspect(path) => {
                facts.regular = if path == b"/srv/index.html" { Answer::Got(true) } else { Answer::Failed }
            }
            Action::Open(path) => {
                assert_eq!(path, b"/srv/index.html");
                facts.opened = Some(world.openable);
            }
            Action::Load => {
                facts.body =
                    if world.readable { Answer::Got(b"<h1>ok</h1>".to_vec()) } else { Answer::Failed }
            }
            Action::Send(bytes) => {
                sent.push(String::from_utf8(bytes).unwrap());
                facts.sent.push(world.sending_works);
            }
            Action::Next { report, consumed } => {
                earlier.push(report);
                facts = facts.next(consumed);
            }
            Action::Close(report) => return Outcome { sent, earlier, report, actions },
        }
    }
}

fn world(incoming: &str) -> World {
    World { incoming: incoming.as_bytes().to_vec(), readable: true, openable: true, sending_works: true }
}

fn failure(incoming: &str) -> (StatusCode, usize) {
    let outcome = serve(&config(), &world(incoming));
    match outcome.report {
        Report::Failed(status) => {
            for response in &outcome.sent {
                assert!(response.starts_with(&format!("HTTP/1.1 {} {}\r\n", status.code(), status.phrase())));
                assert!(response.contains("\r\nContent-Type: text/html; charset=utf-8\r\n"));
                assert!(response.contains("\r\nConnection: close\r\n\r\n"));
            }
            (status, outcome.sent.len())
        }
        _ => panic!("expected a failure"),
    }
}

#[test]
fn a_file_is_served() {
    let outcome = serve(&config(), &world("GET / HTTP/1.1\r\nHost: x\r\n\r\n"));
    assert_eq!(outcome.sent.len(), 1);
    assert!(outcome.sent[0].starts_with("HTTP/1.1 200 OK\r\nContent-Type: text/html; charset=utf-8\r\n"));
    assert!(outcome.sent[0].contains("Content-Length: 11\r\n"));
    assert!(outcome.sent[0].contains("max-age=60\r\nConnection: close\r\n"));
    assert!(outcome.sent[0].ends_with("\r\n\r\n<h1>ok</h1>"));
    match outcome.report {
        Report::Served { method, relative, bytes } => {
            assert_eq!(method, "GET");
            assert_eq!(relative, "index.html");
            assert_eq!(bytes, 11);
        }
        _ => panic!("expected a served file"),
    }
}

#[test]
fn head_gets_no_body() {
    let outcome = serve(&config(), &world("head /a/link.html HTTP/1.0\r\n\r\n"));
    assert_eq!(outcome.sent.len(), 1);
    assert!(outcome.sent[0].contains("Content-Length: 11\r\n"));
    assert!(outcome.sent[0].ends_with("\r\n\r\n"));
    match outcome.report {
        Report::Served { method, relative, bytes } => {
            assert_eq!(method, "HEAD");
            assert_eq!(relative, "a/link.html");
            assert_eq!(bytes, 11);
        }
        _ => panic!("expected a served file"),
    }
}

#[test]
fn keep_alive_is_said_of_files_only() {
    let config = keeping();
    let served = serve(&config, &world("GET / HTTP/1.1\r\n\r\n"));
    assert!(served.sent[0].contains("\r\nConnection: keep-alive\r\n"));
    let missing = serve(&config, &world("GET /x HTTP/1.1\r\n\r\n"));
    assert!(missing.sent[0].contains("\r\nConnection: close\r\n"));
}

fn keeping() -> Config {
    let mut config = config();
    config.keep_alive = true;
    config
}

#[test]
fn two_requests_at_once_get_two_responses() {
    let two = "GET / HTTP/1.1\r\nHost: x\r\n\r\nHEAD /a/link.html HTTP/1.1\r\n\r\n";
    let outcome = serve(&keeping(), &world(two));
    assert_eq!(outcome.sent.len(), 2);
    assert!(outcome.sent[0].starts_with("HTTP/1.1 200 OK\r\n"));
    assert!(outcome.sent[0].contains("\r\nConnection: keep-alive\r\n"));
    assert!(outcome.sent[0].ends_with("<h1>ok</h1>"));
    assert!(outcome.sent[1].starts_with("HTTP/1.1 200 OK\r\n"));
    assert!(outcome.sent[1].ends_with("\r\n\r\n"));
    assert_eq!(outcome.earlier.len(), 2);
    match &outcome.earlier[1] {
        Report::Served { method, relative, bytes } => {
            assert_eq!(method, "HEAD");
            assert_eq!(relative, "a/link.html");
            assert_eq!(*bytes, 11);
        }
        _ => panic!("expected a served file"),
    }
    // The client then leaves, and nothing is left to answer.
    assert!(matches!(outcome.report, Report::Silent));
}

#[test]
fn without_keep_alive_one_request_is_all() {
    let outcome = serve(&config(), &world(&"GET / HTTP/1.1\r\n\r\n".repeat(2)));
    assert_eq!(outcome.sent.len(), 1);
    assert!(outcome.sent[0].contains("\r\nConnection: close\r\n"));
    assert!(outcome.earlier.is_empty());
    assert!(matches!(outcome.report, Report::Served { .. }));
}

#[test]
fn keep_alive_is_short() {
    let outcome = serve(&keeping(), &world(&"GET / HTTP/1.1\r\n\r\n".repeat(20)));
    assert_eq!(outcome.sent.len(), MAX_KEPT_REQUESTS);
    for (i, response) in outcome.sent.iter().enumerate() {
        let last = i + 1 == MAX_KEPT_REQUESTS;
        let expected = if last { "close" } else { "keep-alive" };
        assert!(response.contains(&format!("\r\nConnection: {}\r\n", expected)));
    }
    assert_eq!(outcome.earlier.len(), MAX_KEPT_REQUESTS - 1);
    assert!(matches!(outcome.report, Report::Served { .. }));
}

#[test]
fn an_error_ends_a_kept_connection() {
    let requests = "GET / HTTP/1.1\r\n\r\nGET /x.html HTTP/1.1\r\n\r\nGET / HTTP/1.1\r\n\r\n";
    let outcome = serve(&keeping(), &world(requests));
    assert_eq!(outcome.sent.len(), 2);
    assert!(outcome.sent[1].starts_with("HTTP/1.1 404 "));
    assert!(outcome.sent[1].contains("\r\nConnection: close\r\n"));
    assert!(matches!(outcome.report, Report::Failed(StatusCode::NotFound)));
}

#[test]
fn an_idle_kept_connection_is_closed_silently() {
    let mut facts = ConnectionFacts::new();
    facts.stream = StreamState::Failed;
    match handle_connection(&keeping(), &facts) {
        Action::Send(bytes) => assert!(bytes.starts_with(b"HTTP/1.1 400 ")),
        _ => panic!("expected a response"),
    }
    facts.served = 1;
    assert!(matches!(handle_connection(&keeping(), &facts), Action::Close(Report::Silent)));
    facts.received = b"GET".to_vec();
    match handle_connection(&keeping(), &facts) {
        Action::Send(bytes) => assert!(bytes.starts_with(b"HTTP/1.1 400 ")),
        _ => panic!("expected a response"),
    }
}

#[test]
fn the_next_request_starts_where_the_last_one_ended() {
    let mut facts = ConnectionFacts::new();
    facts.received = b"GET / HTTP/1.1\r\n\r\nGET".to_vec();
    facts.canonical = Answer::Got(b"/srv/index.html".to_vec());
    facts.regular = Answer::Got(true);
    facts.opened = Some(true);
    facts.body = Answer::Got(Vec::new());
    facts.sent = vec![true];
    match handle_connection(&keeping(), &facts) {
        Action::Next { report, consumed } => {
            assert!(matches!(report, Report::Served { bytes: 0, .. }));
            assert_eq!(consumed, 18);
        }
        _ => panic!("expected the next request"),
    }
    let next = facts.next(18);
    assert_eq!(next.received, b"GET");
    assert_eq!(next.served, 1);
    assert_eq!(next.stream, StreamState::Open);
    assert_eq!(next.opened, None);
    assert!(next.sent.is_empty());
    assert!(matches!(next.canonical, Answer::Unasked));
    assert!(matches!(next.regular, Answer::Unasked));
    assert!(matches!(next.body, Answer::Unasked));
    assert!(matches!(handle_connection(&keeping(), &next), Action::Receive));
}

#[test]
fn every_error_is_answered() {
    assert_eq!(failure("GET /x.html HTTP/1.1\r\n\r\n"), (StatusCode::NotFound, 1));
    assert_eq!(failure("GET /out.html HTTP/1.1\r\n\r\n"), (StatusCode::Forbidden, 1));
    assert_eq!(failure("GET /../x HTTP/1.1\r\n\r\n"), (StatusCode::Forbidden, 1));
    assert_eq!(failure("GET /%zz HTTP/1.1\r\n\r\n"), (StatusCode::BadRequest, 1));
    assert_eq!(failure("hello\r\n\r\n"), (StatusCode::BadRequest, 1));
    assert_eq!(failure(&"x".repeat(9000)), (StatusCode::PayloadTooLarge, 1));
}

#[test]
fn other_methods_are_answered_once() {
    assert_eq!(failure("POST /index.html HTTP/1.1\r\n\r\n"), (StatusCode::MethodNotAllowed, 1));
    assert_eq!(failure("OPTIONS /../ HTTP/1.1\r\n\r\n"), (StatusCode::MethodNotAllowed, 1));
}

#[test]
fn a_silent_client_gets_silence() {
    let outcome = serve(&config(), &world(""));
    assert!(outcome.sent.is_empty());
    assert!(matches!(outcome.report, Report::Silent));
}

#[test]
fn files_that_go_away() {
    let request = "GET / HTTP/1.1\r\n\r\n";
    let unopenable = serve(&config(), &World { openable: false, ..world(request) });
    assert!(matches!(unopenable.report, Report::Failed(StatusCode::NotFound)));
    let unreadable = serve(&config(), &World { readable: false, ..world(request) });
    assert!(matches!(unreadable.report, Report::Failed(StatusCode::InternalServerError)));
    assert_eq!(unreadable.sent.len(), 1);
}

#[test]
fn a_file_that_cannot_be_sent() {
    let world = World { sending_works: false, ..world("GET / HTTP/1.1\r\n\r\n") };
    let outcome = serve(&config(), &world);
    assert!(matches!(outcome.report, Report::Failed(StatusCode::InternalServerError)));
    assert_eq!(outcome.sent.len(), 2);
    assert!(outcome.sent[0].starts_with("HTTP/1.1 200 "));
    assert!(outcome.sent[1].starts_with("HTTP/1.1 500 "));
}

#[test]
fn streams_that_fail() {
    let mut facts = ConnectionFacts::new();
    facts.received = b"GET / HT".to_vec();
    facts.stream = StreamState::Failed;
    match handle_connection(&config(), &facts) {
        Action::Send(bytes) => assert!(bytes.starts_with(b"HTTP/1.1 400 ")),
        _ => panic!("expected a response"),
    }
    facts.stream = StreamState::Unavailable;
    match handle_connection(&config(), &facts) {
        Action::Send(bytes) => assert!(bytes.starts_with(b"HTTP/1.1 500 ")),
        _ => panic!("expected a response"),
    }
}

#[test]
fn late_bytes_change_nothing() {
    let mut facts = ConnectionFacts::new();
    facts.received = b"GET / HTTP/1.1\r\n\r\nmore".to_vec();
    facts.stream = StreamState::Failed;
    match handle_connection(&config(), &facts) {
        Action::Canonicalize(path) => assert_eq!(path, b"/srv/index.html"),
        _ => panic!("expected a question to the file system"),
    }
}

#[test]
fn connections_end() {
    let outcome = serve(&config(), &world("GET / HTTP/1.1\r\n\r\n"));
    // Three receptions, four questions, one response and the end.
    assert_eq!(outcome.actions, 9);
}
