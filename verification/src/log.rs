//! Log lines and their timestamps.
use crate::connection::{Ending, Report};
use crate::status;
use crate::text;
use vstd::prelude::*;
use vstd::string::*;

verus! {

/// A point in time, as the system's clock gives it.
#[verifier::external_type_specification]
#[verifier::external_body]
pub struct ExSystemTime(std::time::SystemTime);

/// The error that `SystemTime::duration_since` hands back for an earlier point in time.
#[verifier::external_type_specification]
#[verifier::external_body]
pub struct ExSystemTimeError(std::time::SystemTimeError);

/// `SystemTime::now` reads the system's clock. Nothing is promised of what it shows.
pub assume_specification[ std::time::SystemTime::now ]() -> std::time::SystemTime
;

/// `Duration::as_secs` gives the whole seconds of a duration. How many there are rests on the
/// clock here, so nothing is promised of the number.
pub assume_specification[ core::time::Duration::as_secs ](d: &core::time::Duration) -> u64
;

/// `SystemTime::duration_since` with the start of 1970: the time that has passed since then, or
/// an error where the clock is set to an earlier time. Which it is rests on the clock, so nothing
/// is promised of the result.
#[verifier::external_body]
fn since_epoch(time: std::time::SystemTime) -> Result<
    core::time::Duration,
    std::time::SystemTimeError,
> {
    time.duration_since(std::time::UNIX_EPOCH)
}

/// The timestamp of a number of seconds since the start of 1970; a clock set to an earlier time
/// counts as standing at that start.
pub open spec fn timestamp_text(secs: Option<u64>) -> Seq<char> {
    "unix:"@ + text::decimal(
        match secs {
            Some(n) => n as nat,
            None => 0,
        },
    )
}

/// Writes a timestamp.
pub fn timestamp(secs: Option<u64>) -> (r: String)
    ensures
        r@ == timestamp_text(secs),
        r@ == "unix:"@ + text::decimal(
            match secs {
                Some(n) => n as nat,
                None => 0,
            },
        ),
{
    let mut out = text::copy_text("unix:");
    match secs {
        Some(n) => text::push_decimal(&mut out, n),
        None => text::push_decimal(&mut out, 0),
    }
    out
}

/// Minimal RFC-3339-ish timestamp of the present moment.
pub fn now_rfc3339() -> (r: String)
    ensures
        exists|secs: Option<u64>| r@ == #[trigger] timestamp_text(secs),
        exists|n: u64| r@ == "unix:"@ + #[trigger] text::decimal(n as nat),
{
    match since_epoch(std::time::SystemTime::now()) {
        Ok(d) => timestamp(Some(d.as_secs())),
        Err(_) => timestamp(None),
    }
}

/// How much a log line matters.
#[derive(Clone, Copy, Debug, PartialEq, Eq, Structural)]
pub enum Level {
    Info,
    Warn,
    Error,
}

/// What stands between the timestamp and the message, padded to one width.
pub open spec fn level_mark(level: Level) -> Seq<char> {
    match level {
        Level::Info => "] INFO  "@,
        Level::Warn => "] WARN  "@,
        Level::Error => "] ERROR "@,
    }
}

/// Writes a log line.
pub fn log_line(level: Level, timestamp: &str, message: &str) -> (r: String)
    ensures
        r@ == "["@ + timestamp@ + level_mark(level) + message@,
{
    let mut out = text::copy_text("[");
    out.append(timestamp);
    out.append(
        match level {
            Level::Info => "] INFO  ",
            Level::Warn => "] WARN  ",
            Level::Error => "] ERROR ",
        },
    );
    out.append(message);
    out
}

/// What is logged when a request or a connection ends: nothing for a client that left without a
/// request.
pub open spec fn report_text(ending: Ending, peer: Seq<char>, elapsed: Seq<char>) -> Option<
    (Level, Seq<char>),
> {
    match ending {
        Ending::Silent => None,
        Ending::Served { method, relative, bytes } => Some(
            (
                Level::Info,
                peer + " "@ + method + " "@ + relative + " → 200 ("@ + text::decimal(bytes)
                    + " bytes, "@ + elapsed + ")"@,
            ),
        ),
        Ending::Failed(status) => Some(
            (
                Level::Warn,
                peer + " → "@ + text::decimal(status::status_number(status) as nat),
            ),
        ),
    }
}

/// Writes what is logged when a request or a connection ends.
pub fn report_line(report: &Report, peer: &str, elapsed: &str) -> (r: Option<(Level, String)>)
    ensures
        match r {
            Some((level, line)) => report_text(report@, peer@, elapsed@) == Some((level, line@)),
            None => report_text(report@, peer@, elapsed@) is None,
        },
        match *report {
            Report::Silent => r is None,
            Report::Served { method, relative, bytes } => r matches Some((level, line)) && level
                == Level::Info && line@ == peer@ + " "@ + method@ + " "@ + relative@ + " → 200 ("@
                + text::decimal(bytes as nat) + " bytes, "@ + elapsed@ + ")"@,
            Report::Failed(status) => r matches Some((level, line)) && level == Level::Warn && line@
                == peer@ + " → "@ + text::decimal(status::status_number(status) as nat),
        },
{
    match report {
        Report::Silent => None,
        Report::Served { method, relative, bytes } => {
            let mut out = text::copy_text(peer);
            out.append(" ");
            out.append(method.as_str());
            out.append(" ");
            out.append(relative.as_str());
            out.append(" → 200 (");
            text::push_decimal(&mut out, *bytes as u64);
            out.append(" bytes, ");
            out.append(elapsed);
            out.append(")");
            Some((Level::Info, out))
        },
        Report::Failed(status) => {
            let mut out = text::copy_text(peer);
            out.append(" → ");
            text::push_decimal(&mut out, status.code() as u64);
            Some((Level::Warn, out))
        },
    }
}

} // verus!
