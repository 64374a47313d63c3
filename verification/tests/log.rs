use flax::connection::Report;
use flax::log::{log_line, now_rfc3339, report_line, timestamp, Level};
use flax::status::StatusCode;

#[test]
fn timestamps() {
    assert_eq!(timestamp(Some(1234567890)), "unix:1234567890");
    assert_eq!(timestamp(Some(0)), "unix:0");
    assert_eq!(timestamp(None), "unix:0");
}

#[test]
fn the_present_moment() {
    let before = std::time::SystemTime::now()
        .duration_since(std::time::UNIX_EPOCH)
        .unwrap()
        .as_secs();
    let stamp = now_rfc3339();
    let secs: u64 = stamp.strip_prefix("unix:").unwrap().parse().unwrap();
    assert!(before <= secs && secs <= before + 60);
}

#[test]
fn lines() {
    assert_eq!(log_line(Level::Info, "unix:1", "hello"), "[unix:1] INFO  hello");
    assert_eq!(log_line(Level::Warn, "unix:1", "hello"), "[unix:1] WARN  hello");
    assert_eq!(log_line(Level::Error, "unix:1", ""), "[unix:1] ERROR ");
}

#[test]
fn reports() {
    let served = Report::Served {
        method: "GET".to_string(),
        relative: "index.html".to_string(),
        bytes: 11,
    };
    assert_eq!(
        report_line(&served, "Some(127.0.0.1:4000)", "1.5ms"),
        Some((
            Level::Info,
            "Some(127.0.0.1:4000) GET index.html → 200 (11 bytes, 1.5ms)".to_string()
        ))
    );
    assert_eq!(
        report_line(&Report::Failed(StatusCode::NotFound), "None", "1.5ms"),
        Some((Level::Warn, "None → 404".to_string()))
    );
    assert_eq!(report_line(&Report::Silent, "None", "1.5ms"), None);
}
