use flax::paths::{components, extension, file_kind, join, mime_for_path, starts_with, Component, FileKind};

fn shape(path: &str) -> Vec<String> {
    components(path.as_bytes())
        .iter()
        .map(|c| match c {
            Component::RootDir => "<root>".to_string(),
            Component::CurDir => "<cur>".to_string(),
            Component::ParentDir => "<parent>".to_string(),
            Component::Normal(name) => String::from_utf8(name.clone()).unwrap(),
        })
        .collect()
}

#[test]
fn components_agree_with_the_standard_library() {
    for path in [
        "", "/", "//", ".", "./", "..", "a", "a/", "a//b", "./a", "a/./b", "a/.", "/.", "/./a", "/a/../b",
        "../a", "...", "a..b/c", ".hidden", "/srv/www/index.html", "./..", ".//.", "a/..",
    ] {
        let expected: Vec<String> = std::path::Path::new(path)
            .components()
            .map(|c| match c {
                std::path::Component::RootDir => "<root>".to_string(),
                std::path::Component::CurDir => "<cur>".to_string(),
                std::path::Component::ParentDir => "<parent>".to_string(),
                std::path::Component::Normal(name) => name.to_str().unwrap().to_string(),
                std::path::Component::Prefix(_) => unreachable!(),
            })
            .collect();
        assert_eq!(shape(path), expected, "components of {:?}", path);
    }
}

#[test]
fn extension_agrees_with_the_standard_library() {
    for path in [
        "", "/", "a", "a.html", ".html", "a.", "a.b.css", "x/.css", "x/a.css/", "x/a.css/.", "x/..", "..",
        "...", "a..", ".a.b", "/srv/UPPER.HTML", "dir.html/file",
    ] {
        let expected = std::path::Path::new(path).extension().map(|e| e.to_str().unwrap().to_string());
        let actual = extension(path.as_bytes()).map(|e| String::from_utf8(e).unwrap());
        assert_eq!(actual, expected, "extension of {:?}", path);
    }
}

#[test]
fn starts_with_compares_components() {
    assert!(starts_with(b"/srv/www/a.html", b"/srv/www"));
    assert!(starts_with(b"/srv/www", b"/srv/www"));
    assert!(starts_with(b"/srv/www/", b"/srv/www"));
    assert!(starts_with(b"/srv/www/a", b"/"));
    assert!(!starts_with(b"/srv/www2/a.html", b"/srv/www"));
    assert!(!starts_with(b"/srv", b"/srv/www"));
    assert!(!starts_with(b"srv/www", b"/srv"));
    assert!(!starts_with(b"/etc/passwd", b"/srv/www"));
}

#[test]
fn join_agrees_with_the_standard_library() {
    for (root, rel) in [("/srv/www", "a/b.html"), ("/", "a"), ("/srv/", "a"), ("/srv", ""), ("/srv", "a/")] {
        let expected = std::path::Path::new(root).join(rel);
        assert_eq!(join(root.as_bytes(), rel.as_bytes()), expected.to_str().unwrap().as_bytes());
    }
}

#[test]
fn file_kinds() {
    assert_eq!(file_kind(b"/a/index.html"), Some(FileKind::Html));
    assert_eq!(file_kind(b"/a/INDEX.HtMl"), Some(FileKind::Html));
    assert_eq!(file_kind(b"/a/style.CSS"), Some(FileKind::Css));
    assert_eq!(file_kind(b"/a/page.htm"), None);
    assert_eq!(file_kind(b"/a/page.html.bak"), None);
    assert_eq!(file_kind(b"/a/.html"), None);
    assert_eq!(file_kind(b"/a/\xffx.css"), Some(FileKind::Css));
    assert_eq!(file_kind(b"/a/x.\xff"), None);
}

#[test]
fn mime_types() {
    assert_eq!(mime_for_path(b"/a/index.html"), "text/html; charset=utf-8");
    assert_eq!(mime_for_path(b"/a/STYLE.CSS"), "text/css; charset=utf-8");
    assert_eq!(mime_for_path(b"/a/secret.txt"), "application/octet-stream");
    assert_eq!(mime_for_path(b"/"), "application/octet-stream");
}
