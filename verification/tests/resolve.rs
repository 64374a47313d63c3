use flax::resolve::{resolve_safe_path, sanitize, Answer, ResolveStep, SafePath};
use flax::status::StatusCode;

const ROOT: &[u8] = b"/srv/static";

/// What a path leads to in a file system held in memory.
enum Node {
    File,
    Directory,
    Link(&'static str),
}

fn node(path: &str) -> Option<Node> {
    match path {
        "/srv/static" | "/srv/static/sub" | "/etc" => Some(Node::Directory),
        "/srv/static/index.html" | "/srv/static/style.css" | "/srv/static/secret.txt" => Some(Node::File),
        "/srv/static/sub/page.html" | "/srv/static/UPPER.HTML" | "/etc/passwd" | "/etc/evil.html" => {
            Some(Node::File)
        }
        "/srv/static/escape.html" => Some(Node::Link("/etc/evil.html")),
        "/srv/static/inside.html" => Some(Node::Link("/srv/static/index.html")),
        _ => None,
    }
}

fn canonicalize(path: &[u8]) -> Answer<Vec<u8>> {
    let mut parts: Vec<&str> = Vec::new();
    for part in std::str::from_utf8(path).unwrap().split('/') {
        match part {
            "" | "." => {}
            ".." => {
                parts.pop();
            }
            name => parts.push(name),
        }
    }
    let plain = format!("/{}", parts.join("/"));
    match node(&plain) {
        Some(Node::Link(to)) => Answer::Got(to.as_bytes().to_vec()),
        Some(_) => Answer::Got(plain.into_bytes()),
        None => Answer::Failed,
    }
}

fn inspect(path: &[u8]) -> Answer<bool> {
    match node(std::str::from_utf8(path).unwrap()) {
        Some(Node::File) => Answer::Got(true),
        Some(_) => Answer::Got(false),
        None => Answer::Failed,
    }
}

fn resolve(raw: &str) -> Result<SafePath, StatusCode> {
    let mut canonical = Answer::Unasked;
    let mut regular = Answer::Unasked;
    loop {
        match resolve_safe_path(ROOT, raw, &canonical, &regular) {
            ResolveStep::Canonicalize(path) => canonical = canonicalize(&path),
            ResolveStep::Inspect(path) => regular = inspect(&path),
            ResolveStep::Found(safe) => return Ok(safe),
            ResolveStep::Refused(status) => return Err(status),
        }
    }
}

fn refusal(raw: &str) -> StatusCode {
    match resolve(raw) {
        Ok(_) => panic!("{:?} was resolved", raw),
        Err(status) => status,
    }
}

#[test]
fn allow_html_and_css() {
    assert!(resolve("/index.html").is_ok());
    assert!(resolve("/style.css").is_ok());
    assert!(resolve("/sub/page.html").is_ok());
    assert!(resolve("/").is_ok()); // → index.html
}

#[test]
fn reject_other_extensions() {
    assert_eq!(refusal("/secret.txt"), StatusCode::NotFound);
}

#[test]
fn reject_directory() {
    // Requesting the directory itself must 404 (no listing).
    assert_eq!(refusal("/sub"), StatusCode::NotFound);
}

#[test]
fn reject_path_traversal() {
    // Classic ..
    assert!(matches!(
        resolve("/../etc/passwd"),
        Err(StatusCode::Forbidden) | Err(StatusCode::NotFound)
    ));
    assert!(matches!(
        resolve("/sub/../../etc/passwd"),
        Err(StatusCode::Forbidden) | Err(StatusCode::NotFound)
    ));
    // Encoded ..
    assert!(matches!(
        resolve("/%2e%2e/etc/passwd"),
        Err(StatusCode::Forbidden) | Err(StatusCode::NotFound) | Err(StatusCode::BadRequest)
    ));
    // Null byte
    assert_eq!(refusal("/index.html%00.jpg"), StatusCode::BadRequest);
}

#[test]
fn extension_case_insensitive() {
    assert!(resolve("/UPPER.HTML").is_ok());
}

#[test]
fn resolved_paths_are_the_canonical_ones() {
    let safe = resolve("//sub//page.html?q=1#top").unwrap_or_else(|_| panic!("not resolved"));
    assert_eq!(safe.absolute, b"/srv/static/sub/page.html");
    assert_eq!(safe.relative, "sub//page.html");
    let linked = resolve("/inside.html").unwrap_or_else(|_| panic!("not resolved"));
    assert_eq!(linked.absolute, b"/srv/static/index.html");
    assert_eq!(linked.relative, "inside.html");
}

#[test]
fn links_out_of_the_root_are_forbidden() {
    assert_eq!(refusal("/escape.html"), StatusCode::Forbidden);
}

#[test]
fn missing_files_are_not_found() {
    assert_eq!(refusal("/nowhere.html"), StatusCode::NotFound);
    assert_eq!(refusal("//"), StatusCode::NotFound);
}

#[test]
fn candidates_are_joined_to_the_root() {
    match resolve_safe_path(ROOT, "/a%20b/c.css", &Answer::Unasked, &Answer::Unasked) {
        ResolveStep::Canonicalize(path) => assert_eq!(path, b"/srv/static/a b/c.css"),
        _ => panic!("expected a question to the file system"),
    }
}

#[test]
fn a_file_that_cannot_be_inspected_is_not_found() {
    let canonical = Answer::Got(b"/srv/static/index.html".to_vec());
    match resolve_safe_path(ROOT, "/", &canonical, &Answer::Failed) {
        ResolveStep::Refused(status) => assert_eq!(status, StatusCode::NotFound),
        _ => panic!("expected a refusal"),
    }
}

#[test]
fn sanitized_targets() {
    assert_eq!(sanitize("/").as_deref(), Ok("index.html"));
    assert_eq!(sanitize("").as_deref(), Ok("index.html"));
    assert_eq!(sanitize("/?x").as_deref(), Ok("index.html"));
    assert_eq!(sanitize("/#x").as_deref(), Ok("index.html"));
    assert_eq!(sanitize("///a.css").as_deref(), Ok("a.css"));
    assert_eq!(sanitize("/a%3fb").as_deref(), Ok("a"));
    assert_eq!(sanitize("a.html").as_deref(), Ok("a.html"));
    assert_eq!(sanitize("/a/./b.html").as_deref(), Ok("a/./b.html"));
    assert_eq!(sanitize("/a..b/c.html").as_deref(), Ok("a..b/c.html"));
}

#[test]
fn refused_targets() {
    assert_eq!(sanitize("/a\0b"), Err(StatusCode::BadRequest));
    assert_eq!(sanitize("/%zz"), Err(StatusCode::BadRequest));
    assert_eq!(sanitize("/%ff.html"), Err(StatusCode::BadRequest));
    assert_eq!(sanitize("/.."), Err(StatusCode::Forbidden));
    assert_eq!(sanitize("/a/../b.html"), Err(StatusCode::Forbidden));
    assert_eq!(sanitize("/%2E%2E%2Fb.html"), Err(StatusCode::Forbidden));
    assert_eq!(sanitize("/./index.html"), Err(StatusCode::Forbidden));
    assert_eq!(sanitize("/."), Err(StatusCode::Forbidden));
}
