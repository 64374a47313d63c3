//! One connection, from the first byte received to the last byte sent.
use crate::client;
use crate::config::{Config, Setup};
use crate::paths;
use crate::percent;
use crate::request;
use crate::request::{Reading, RequestProgress};
use crate::resolve;
use crate::resolve::{Answer, ResolveStep, Resolving};
use crate::response;
use crate::status;
use crate::status::StatusCode;
use crate::text;
use vstd::prelude::*;
use vstd::string::*;
use vstd::utf8::*;

verus! {

/// The state of a connection's receiving side.
#[derive(Clone, Copy, Debug, PartialEq, Eq, Structural)]
pub enum StreamState {
    /// More may come.
    Open,
    /// The client has closed its side.
    Ended,
    /// The last attempt to receive failed, or took too long.
    Failed,
    /// The connection cannot be read from at all.
    Unavailable,
}

/// How many requests a connection may carry where keep-alive is on.
pub const MAX_KEPT_REQUESTS: usize = 8;

/// All that has been learned on a connection so far, of the request that is under way.
pub struct ConnectionFacts {
    /// The bytes received, from the start of the request.
    pub received: Vec<u8>,
    pub stream: StreamState,
    /// The canonical path of the file that was asked for.
    pub canonical: Answer<Vec<u8>>,
    /// Whether that is a regular file.
    pub regular: Answer<bool>,
    /// Whether it could be opened, once that was tried.
    pub opened: Option<bool>,
    /// What it holds.
    pub body: Answer<Vec<u8>>,
    /// For each response sent, whether it could be sent.
    pub sent: Vec<bool>,
    /// How many requests the connection has carried before.
    pub served: usize,
}

/// How a request, or a connection, ended.
pub enum Report {
    /// The client left without a request, or without a further one.
    Silent,
    /// A file was sent.
    Served { method: String, relative: String, bytes: usize },
    /// The request was answered with this error.
    Failed(StatusCode),
}

/// What to do next on a connection.
pub enum Action {
    /// Receive more bytes.
    Receive,
    /// Find the canonical form of this path.
    Canonicalize(Vec<u8>),
    /// Find out whether this path is a regular file.
    Inspect(Vec<u8>),
    /// Open this file.
    Open(Vec<u8>),
    /// Read the whole of the open file.
    Load,
    /// Send these bytes.
    Send(Vec<u8>),
    /// Report this, and go on with the next request, which starts after so many bytes.
    Next { report: Report, consumed: usize },
    /// Close the connection, and report this.
    Close(Report),
}

/// What a `Report` stands for.
pub enum Ending {
    Silent,
    Served { method: Seq<char>, relative: Seq<char>, bytes: nat },
    Failed(StatusCode),
}

/// What an `Action` stands for.
pub enum Acting {
    Receive,
    Canonicalize(Seq<u8>),
    Inspect(Seq<u8>),
    Open(Seq<u8>),
    Load,
    Send(Seq<u8>),
    Next { report: Ending, consumed: nat },
    Close(Ending),
}

impl View for Report {
    type V = Ending;

    open spec fn view(&self) -> Ending {
        match *self {
            Report::Silent => Ending::Silent,
            Report::Served { method, relative, bytes } => Ending::Served {
                method: method@,
                relative: relative@,
                bytes: bytes as nat,
            },
            Report::Failed(status) => Ending::Failed(status),
        }
    }
}

impl View for Action {
    type V = Acting;

    open spec fn view(&self) -> Acting {
        match *self {
            Action::Receive => Acting::Receive,
            Action::Canonicalize(path) => Acting::Canonicalize(path@),
            Action::Inspect(path) => Acting::Inspect(path@),
            Action::Open(path) => Acting::Open(path@),
            Action::Load => Acting::Load,
            Action::Send(bytes) => Acting::Send(bytes@),
            Action::Next { report, consumed } => Acting::Next {
                report: report@,
                consumed: consumed as nat,
            },
            Action::Close(report) => Acting::Close(report@),
        }
    }
}

/// What to do on a connection that ends in an error, of whose responses `done` were sent before
/// the error came up: the error is answered once, and the connection closed.
pub open spec fn failing(setup: Setup, status: StatusCode, done: nat, sent: nat) -> Acting {
    if sent <= done {
        Acting::Send(response::error_bytes(status, setup.cache_max_age, false))
    } else {
        Acting::Close(Ending::Failed(status))
    }
}

/// Whether a connection that has carried so many requests is kept for another once the one under
/// way is served.
pub open spec fn stays(setup: Setup, served: nat) -> bool {
    setup.keep_alive && served + 1 < MAX_KEPT_REQUESTS
}

/// Whether all that is known is that these bytes were received, on a connection in this state that
/// has carried so many requests before.
pub open spec fn starting(
    facts: ConnectionFacts,
    received: Seq<u8>,
    stream: StreamState,
    served: nat,
) -> bool {
    &&& facts.received@ == received
    &&& facts.stream == stream
    &&& facts.canonical@ is Unasked
    &&& facts.regular@ is Unasked
    &&& facts.opened is None
    &&& facts.body@ is Unasked
    &&& facts.sent@.len() == 0
    &&& facts.served == served
}

/// Whether a method is one of the two that are served.
pub open spec fn is_allowed(method: Seq<char>) -> bool {
    method == "GET"@ || method == "HEAD"@
}

/// The response that delivers a file, and says whether the connection is kept.
pub open spec fn delivery(
    setup: Setup,
    method: Seq<char>,
    path: Seq<u8>,
    body: Seq<u8>,
    kept: bool,
) -> Seq<u8> {
    response::response_bytes(
        StatusCode::Success,
        paths::mime_of(path),
        body,
        setup.cache_max_age,
        method == "HEAD"@,
        kept,
    )
}

/// What to do for a request whose file was found.
pub open spec fn delivering(
    setup: Setup,
    method: Seq<char>,
    absolute: Seq<u8>,
    relative: Seq<char>,
    facts: ConnectionFacts,
) -> Acting {
    match facts.opened {
        None => Acting::Open(absolute),
        Some(false) => failing(setup, StatusCode::NotFound, 0, facts.sent@.len()),
        Some(true) => match facts.body@ {
            Answer::Unasked => Acting::Load,
            Answer::Failed => failing(setup, StatusCode::InternalServerError, 0, facts.sent@.len()),
            Answer::Got(body) => if facts.sent@.len() == 0 {
                Acting::Send(
                    delivery(setup, method, absolute, body, stays(setup, facts.served as nat)),
                )
            } else if facts.sent@[0] {
                let report = Ending::Served { method, relative, bytes: body.len() };
                if stays(setup, facts.served as nat) {
                    Acting::Next { report, consumed: request::head_len(facts.received@, true) }
                } else {
                    Acting::Close(report)
                }
            } else {
                failing(setup, StatusCode::InternalServerError, 1, facts.sent@.len())
            },
        },
    }
}

/// What to do for a complete request.
pub open spec fn serving(
    setup: Setup,
    method: Seq<char>,
    path: Seq<char>,
    facts: ConnectionFacts,
) -> Acting {
    if !is_allowed(method) {
        failing(setup, StatusCode::MethodNotAllowed, 0, facts.sent@.len())
    } else {
        match resolve::resolving(setup.root, path, facts.canonical@, facts.regular@) {
            Resolving::Canonicalize(path) => Acting::Canonicalize(path),
            Resolving::Inspect(path) => Acting::Inspect(path),
            Resolving::Refused(status) => failing(setup, status, 0, facts.sent@.len()),
            Resolving::Found { absolute, relative } => delivering(
                setup,
                method,
                absolute,
                relative,
                facts,
            ),
        }
    }
}

/// What to do on a connection, given all that has been learned on it. Where receiving fails before
/// the first byte of a further request, there is nothing to answer.
pub open spec fn handling(setup: Setup, facts: ConnectionFacts) -> Acting {
    if facts.stream == StreamState::Unavailable {
        failing(setup, StatusCode::InternalServerError, 0, facts.sent@.len())
    } else {
        match request::reading(facts.received@, facts.stream == StreamState::Ended) {
            Reading::Incomplete => if facts.stream == StreamState::Failed && facts.served > 0
                && facts.received@.len() == 0 {
                Acting::Close(Ending::Silent)
            } else if facts.stream == StreamState::Failed {
                failing(setup, StatusCode::BadRequest, 0, facts.sent@.len())
            } else {
                Acting::Receive
            },
            Reading::Closed => Acting::Close(Ending::Silent),
            Reading::Refused(status) => failing(setup, status, 0, facts.sent@.len()),
            Reading::Complete { method, path } => serving(setup, method, path, facts),
        }
    }
}

/// What to do on a connection that ends in an error.
fn fail(config: &Config, status: StatusCode, done: usize, sent: usize) -> (r: Action)
    ensures
        r@ == failing(config@, status, done as nat, sent as nat),
{
    if sent <= done {
        let mut out: Vec<u8> = Vec::new();
        response::write_error(&mut out, status, config.cache_max_age, false);
        assert(out@ =~= response::error_bytes(status, config.cache_max_age as nat, false));
        Action::Send(out)
    } else {
        Action::Close(Report::Failed(status))
    }
}

impl ConnectionFacts {
    /// What is known of a new connection.
    pub fn new() -> (r: ConnectionFacts)
        ensures
            starting(r, Seq::empty(), StreamState::Open, 0),
            r.received@.len() == 0,
            r.stream == StreamState::Open,
            r.canonical is Unasked,
            r.regular is Unasked,
            r.opened is None,
            r.body is Unasked,
            r.sent@.len() == 0,
            r.served == 0,
    {
        ConnectionFacts {
            received: Vec::new(),
            stream: StreamState::Open,
            canonical: Answer::Unasked,
            regular: Answer::Unasked,
            opened: None,
            body: Answer::Unasked,
            sent: Vec::new(),
            served: 0,
        }
    }

    /// What is known of the next request, once one that took so many bytes is done with.
    pub fn next(&self, consumed: usize) -> (r: ConnectionFacts)
        requires
            consumed <= self.received@.len(),
            self.served < MAX_KEPT_REQUESTS,
        ensures
            starting(
                r,
                self.received@.skip(consumed as int),
                self.stream,
                (self.served + 1) as nat,
            ),
            r.received@ == self.received@.skip(consumed as int),
            r.stream == self.stream,
            r.canonical is Unasked,
            r.regular is Unasked,
            r.opened is None,
            r.body is Unasked,
            r.sent@.len() == 0,
            r.served == self.served + 1,
    {
        let rest = text::copy_bytes(
            vstd::slice::slice_subrange(&self.received, consumed, self.received.len()),
        );
        assert(rest@ =~= self.received@.skip(consumed as int));
        ConnectionFacts {
            received: rest,
            stream: self.stream,
            canonical: Answer::Unasked,
            regular: Answer::Unasked,
            opened: None,
            body: Answer::Unasked,
            sent: Vec::new(),
            served: self.served + 1,
        }
    }
}

/// Handles a connection, one action at a time: reads the request, checks the method, resolves
/// the path, reads the file and answers.
pub fn handle_connection(config: &Config, facts: &ConnectionFacts) -> (r: Action)
    ensures
        r@ == handling(config@, *facts),
        r matches Action::Next { report: _, consumed } ==> consumed <= facts.received@.len()
            && facts.served + 1 < MAX_KEPT_REQUESTS,
        match r {
            Action::Receive => handling(config@, *facts) is Receive,
            Action::Canonicalize(path) => handling(config@, *facts) == Acting::Canonicalize(path@),
            Action::Inspect(path) => handling(config@, *facts) == Acting::Inspect(path@),
            Action::Open(path) => handling(config@, *facts) == Acting::Open(path@),
            Action::Load => handling(config@, *facts) is Load,
            Action::Send(bytes) => handling(config@, *facts) == Acting::Send(bytes@),
            Action::Next { report, consumed } => handling(config@, *facts) == (Acting::Next {
                report: report@,
                consumed: consumed as nat,
            }),
            Action::Close(report) => handling(config@, *facts) == Acting::Close(report@),
        },
{
    let kept: bool = config.keep_alive && facts.served < MAX_KEPT_REQUESTS - 1;
    let sent: usize = facts.sent.len();
    if facts.stream == StreamState::Unavailable {
        return fail(config, StatusCode::InternalServerError, 0, sent);
    }
    let req = match request::read_request(&facts.received, facts.stream == StreamState::Ended) {
        RequestProgress::Incomplete => {
            if facts.stream == StreamState::Failed {
                if facts.served > 0 && facts.received.len() == 0 {
                    return Action::Close(Report::Silent);
                }
                return fail(config, StatusCode::BadRequest, 0, sent);
            }
            return Action::Receive;
        },
        RequestProgress::Closed => return Action::Close(Report::Silent),
        RequestProgress::Refused(status) => return fail(config, status, 0, sent),
        RequestProgress::Complete(req) => req,
    };
    let head_only: bool = text::same_text(req.method.as_str(), "HEAD");
    if !head_only && !text::same_text(req.method.as_str(), "GET") {
        return fail(config, StatusCode::MethodNotAllowed, 0, sent);
    }
    let safe = match resolve::resolve_safe_path(
        &config.root,
        req.path.as_str(),
        &facts.canonical,
        &facts.regular,
    ) {
        ResolveStep::Canonicalize(path) => return Action::Canonicalize(path),
        ResolveStep::Inspect(path) => return Action::Inspect(path),
        ResolveStep::Refused(status) => return fail(config, status, 0, sent),
        ResolveStep::Found(safe) => safe,
    };
    match facts.opened {
        None => return Action::Open(safe.absolute),
        Some(opened) => {
            if !opened {
                return fail(config, StatusCode::NotFound, 0, sent);
            }
        },
    }
    let body = match &facts.body {
        Answer::Unasked => return Action::Load,
        Answer::Failed => return fail(config, StatusCode::InternalServerError, 0, sent),
        Answer::Got(body) => body,
    };
    if sent == 0 {
        let mut out: Vec<u8> = Vec::new();
        response::write_response(
            &mut out,
            StatusCode::Success,
            paths::mime_for_path(&safe.absolute),
            body,
            config.cache_max_age,
            head_only,
            kept,
        );
        assert(out@ =~= delivery(config@, req.method@, safe.absolute@, body@, kept));
        Action::Send(out)
    } else if facts.sent[0] {
        let report = Report::Served {
            method: req.method,
            relative: safe.relative,
            bytes: body.len(),
        };
        if kept {
            Action::Next { report, consumed: request::request_len(&facts.received) }
        } else {
            Action::Close(report)
        }
    } else {
        fail(config, StatusCode::InternalServerError, 1, sent)
    }
}

/// No file is opened that does not lie under the document root, is not a regular file, or has
/// an extension other than the two that are served.
pub proof fn only_jailed_files_are_opened(setup: Setup, facts: ConnectionFacts)
    ensures
        handling(setup, facts) is Open ==> {
            let path = handling(setup, facts)->Open_0;
            &&& facts.canonical@ == Answer::Got(path)
            &&& facts.regular@ == Answer::Got(true)
            &&& paths::is_under(path, setup.root)
            &&& paths::kind_of(path) is Some
        },
{
}

/// Whatever is sent is either one of the fixed error responses, or a file that lies under the
/// document root, with the one of the two media types that its extension names.
pub proof fn only_errors_and_jailed_files_are_sent(setup: Setup, facts: ConnectionFacts)
    ensures
        handling(setup, facts) is Send ==> {
            let bytes = handling(setup, facts)->Send_0;
            ||| exists|status: StatusCode|
                status != StatusCode::Success && bytes == #[trigger] response::error_bytes(
                    status,
                    setup.cache_max_age,
                    false,
                )
            ||| {
                &&& facts.canonical@ is Got
                &&& facts.body@ is Got
                &&& paths::is_under(facts.canonical@->Got_0, setup.root)
                &&& paths::kind_of(facts.canonical@->Got_0) is Some
                &&& exists|method: Seq<char>|
                    is_allowed(method) && bytes == #[trigger] delivery(
                        setup,
                        method,
                        facts.canonical@->Got_0,
                        facts.body@->Got_0,
                        stays(setup, facts.served as nat),
                    )
            }
        },
{
    request_errors_are_errors(facts.received@, facts.stream == StreamState::Ended);
    match request::reading(facts.received@, facts.stream == StreamState::Ended) {
        Reading::Complete { method, path } => {
            resolution_errors_are_errors(setup.root, path, facts.canonical@, facts.regular@);
        },
        _ => {},
    }
}

/// A request that is refused is refused with an error.
proof fn request_errors_are_errors(received: Seq<u8>, ended: bool)
    ensures
        request::reading(received, ended) matches Reading::Refused(status) ==> status
            != StatusCode::Success,
{
}

/// A path that is refused is refused with an error.
proof fn resolution_errors_are_errors(
    root: Seq<u8>,
    raw: Seq<char>,
    canonical: Answer<Seq<u8>>,
    regular: Answer<bool>,
)
    ensures
        resolve::resolving(root, raw, canonical, regular) matches Resolving::Refused(status)
            ==> status != StatusCode::Success,
{
}

/// Everything that is sent carries the security headers.
pub proof fn everything_sent_is_guarded(setup: Setup, facts: ConnectionFacts)
    ensures
        handling(setup, facts) is Send ==> text::occurs_in(
            encode_utf8(response::security_headers(setup.cache_max_age)),
            handling(setup, facts)->Send_0,
        ),
{
    if handling(setup, facts) is Send {
        let bytes = handling(setup, facts)->Send_0;
        only_errors_and_jailed_files_are_sent(setup, facts);
        if exists|status: StatusCode|
            status != StatusCode::Success && bytes == #[trigger] response::error_bytes(
                status,
                setup.cache_max_age,
                false,
            ) {
            let status = choose|status: StatusCode|
                status != StatusCode::Success && bytes == #[trigger] response::error_bytes(
                    status,
                    setup.cache_max_age,
                    false,
                );
            response::every_error_is_guarded(status, setup.cache_max_age, false);
        } else {
            let path = facts.canonical@->Got_0;
            let body = facts.body@->Got_0;
            let kept = stays(setup, facts.served as nat);
            let method = choose|method: Seq<char>|
                is_allowed(method) && bytes == #[trigger] delivery(setup, method, path, body, kept);
            response::every_response_is_guarded(
                StatusCode::Success,
                paths::mime_of(path),
                body,
                setup.cache_max_age,
                method == "HEAD"@,
                kept,
            );
        }
    }
}

/// Whatever is sent has one of two media types, an error no less than a file.
pub proof fn only_two_media_types_are_sent(setup: Setup, facts: ConnectionFacts)
    ensures
        handling(setup, facts) is Send ==> exists|
            status: StatusCode,
            content_type: Seq<char>,
            body: Seq<u8>,
            head_only: bool,
            keep_alive: bool,
        |
            (content_type == "text/html; charset=utf-8"@ || content_type
                == "text/css; charset=utf-8"@) && handling(setup, facts)->Send_0
                == #[trigger] response::response_bytes(
                status,
                content_type,
                body,
                setup.cache_max_age,
                head_only,
                keep_alive,
            ),
{
    only_errors_and_jailed_files_are_sent(setup, facts);
}

/// What may be served is served: once a file that an allowed request names has been found, opened
/// and read, the client is sent the whole of it.
pub proof fn what_may_be_served_is_served(setup: Setup, facts: ConnectionFacts)
    requires
        facts.stream != StreamState::Unavailable,
        request::reading(facts.received@, facts.stream == StreamState::Ended) matches
            Reading::Complete { method, path } && is_allowed(method) && resolve::relative_path(path)
            is Ok,
        facts.canonical@ is Got,
        paths::is_under(facts.canonical@->Got_0, setup.root),
        paths::kind_of(facts.canonical@->Got_0) is Some,
        facts.regular@ == Answer::Got(true),
        facts.opened == Some(true),
        facts.body@ is Got,
        facts.sent@.len() == 0,
    ensures
        handling(setup, facts) == Acting::Send(
            delivery(
                setup,
                request::reading(facts.received@, facts.stream == StreamState::Ended)->method,
                facts.canonical@->Got_0,
                facts.body@->Got_0,
                stays(setup, facts.served as nat),
            ),
        ),
{
}

/// Whether what comes next is to send a file.
pub open spec fn delivers(setup: Setup, facts: ConnectionFacts) -> bool {
    &&& facts.stream != StreamState::Unavailable
    &&& request::reading(facts.received@, facts.stream == StreamState::Ended) matches
        Reading::Complete { method, path }
    &&& is_allowed(method)
    &&& resolve::resolving(setup.root, path, facts.canonical@, facts.regular@) is Found
    &&& facts.opened == Some(true)
    &&& facts.body@ is Got
    &&& facts.sent@.len() == 0
}

/// A connection is kept after a file exactly as the response with the file says: where it says so,
/// the next request starts right after the one that was served, and otherwise the connection is
/// closed.
pub proof fn connections_are_kept_as_announced(
    setup: Setup,
    before: ConnectionFacts,
    after: ConnectionFacts,
)
    requires
        delivers(setup, before),
        performed(before, handling(setup, before), after),
        after.sent@[0],
    ensures
        match handling(setup, after) {
            Acting::Next { report, consumed } => {
                &&& stays(setup, before.served as nat)
                &&& report is Served
                &&& consumed == request::head_len(before.received@, true)
                &&& 0 < consumed <= before.received@.len()
            },
            Acting::Close(report) => !stays(setup, before.served as nat) && report is Served,
            _ => false,
        },
{
    request::a_request_is_its_head(before.received@, before.stream == StreamState::Ended);
}

/// A connection is kept only where keep-alive is on, and then only after a file that was sent.
pub proof fn only_served_connections_are_kept(setup: Setup, facts: ConnectionFacts)
    ensures
        handling(setup, facts) is Next ==> {
            &&& stays(setup, facts.served as nat)
            &&& facts.sent@.len() > 0
            &&& facts.sent@[0]
        },
        !setup.keep_alive ==> !(handling(setup, facts) is Next),
{
}

/// A further request is taken up as the first on a new connection would be that had received the
/// bytes that remain, except that a failure to receive any of it is not answered.
pub proof fn a_kept_connection_starts_afresh(
    setup: Setup,
    before: ConnectionFacts,
    after: ConnectionFacts,
    fresh: ConnectionFacts,
)
    requires
        handling(setup, before) is Next,
        performed(before, handling(setup, before), after),
        starting(
            fresh,
            before.received@.skip(handling(setup, before)->consumed as int),
            before.stream,
            0,
        ),
    ensures
        handling(setup, after) == (if fresh.stream == StreamState::Failed && fresh.received@.len()
            == 0 {
            Acting::Close(Ending::Silent)
        } else {
            handling(setup, fresh)
        }),
{
    request::only_an_empty_stream_is_no_request(
        fresh.received@,
        fresh.stream == StreamState::Ended,
    );
}

/// How many requests came before matters only to whether the connection is kept, and to a failure
/// to receive any of a further request.
pub proof fn earlier_requests_do_not_matter(
    setup: Setup,
    a: ConnectionFacts,
    b: ConnectionFacts,
)
    requires
        a.received@ == b.received@,
        a.stream == b.stream,
        a.canonical@ == b.canonical@,
        a.regular@ == b.regular@,
        a.opened == b.opened,
        a.body@ == b.body@,
        a.sent@ == b.sent@,
        stays(setup, a.served as nat) == stays(setup, b.served as nat),
        !(a.stream == StreamState::Failed && a.received@.len() == 0),
    ensures
        handling(setup, a) == handling(setup, b),
{
}

/// A method other than `GET` and `HEAD` is answered with 405, once, and nothing else: no file is so
/// much as looked for.
pub proof fn other_methods_are_not_allowed(setup: Setup, facts: ConnectionFacts)
    requires
        facts.stream != StreamState::Unavailable,
        request::reading(facts.received@, facts.stream == StreamState::Ended) is Complete,
        !is_allowed(
            request::reading(facts.received@, facts.stream == StreamState::Ended)->method,
        ),
    ensures
        handling(setup, facts) == (if facts.sent@.len() == 0 {
            Acting::Send(
                response::error_bytes(StatusCode::MethodNotAllowed, setup.cache_max_age, false),
            )
        } else {
            Acting::Close(Ending::Failed(StatusCode::MethodNotAllowed))
        }),
{
}

/// A request is left behind, by going on to the next or by closing the connection, only after at
/// least one response to it, or where the client sent no byte of it.
pub proof fn every_request_is_answered(setup: Setup, facts: ConnectionFacts)
    ensures
        handling(setup, facts) is Next ==> facts.sent@.len() > 0,
        handling(setup, facts) is Close ==> facts.sent@.len() > 0 || facts.received@.len() == 0,
        handling(setup, facts) == Acting::Close(Ending::Silent) ==> facts.received@.len() == 0,
{
    request::only_an_empty_stream_is_no_request(
        facts.received@,
        facts.stream == StreamState::Ended,
    );
}

/// At most two responses are sent to a request. Only the first can be a file, and there is a
/// second only where the first could not be sent.
pub proof fn responses_are_bounded(setup: Setup, facts: ConnectionFacts)
    ensures
        handling(setup, facts) is Send ==> facts.sent@.len() < 2,
        handling(setup, facts) is Send && facts.sent@.len() > 0 ==> !facts.sent@[0],
        handling(setup, facts) is Send && facts.sent@.len() > 0 ==> exists|status: StatusCode|
            handling(setup, facts)->Send_0 == #[trigger] response::error_bytes(
                status,
                setup.cache_max_age,
                false,
            ),
{
}

/// For each request a question to the file system is asked at most once, and reading the client
/// stops once its request is settled: what is asked for has not been learned yet.
pub proof fn nothing_is_asked_twice(setup: Setup, facts: ConnectionFacts)
    ensures
        handling(setup, facts) is Receive ==> facts.stream == StreamState::Open
            && facts.received@.len() <= request::MAX_REQUEST_BYTES,
        handling(setup, facts) is Canonicalize ==> facts.canonical@ is Unasked,
        handling(setup, facts) is Inspect ==> facts.canonical@ is Got && facts.regular@ is Unasked,
        handling(setup, facts) is Open ==> facts.regular@ is Got && facts.opened is None,
        handling(setup, facts) is Load ==> facts.opened == Some(true) && facts.body@ is Unasked,
{
    let ended = facts.stream == StreamState::Ended;
    if handling(setup, facts) is Receive {
        if facts.received@.len() > request::MAX_REQUEST_BYTES || ended {
            request::no_request_waits_past_the_limit(facts.received@, ended);
        }
    }
}

/// Whether `after` is what is known once `action` was performed on what was known `before`. A
/// wait for more bytes ends with at least one, or with the receiving side no longer open.
pub open spec fn performed(
    before: ConnectionFacts,
    action: Acting,
    after: ConnectionFacts,
) -> bool {
    &&& action is Receive || after.stream == before.stream
    &&& action is Receive || action is Next || after.received@ == before.received@
    &&& action is Canonicalize || action is Next || after.canonical@ == before.canonical@
    &&& action is Inspect || action is Next || after.regular@ == before.regular@
    &&& action is Open || action is Next || after.opened == before.opened
    &&& action is Load || action is Next || after.body@ == before.body@
    &&& action is Send || action is Next || after.sent@ == before.sent@
    &&& action is Next || after.served == before.served
    &&& match action {
        Acting::Receive => after.stream != StreamState::Open || after.received@.len()
            > before.received@.len(),
        Acting::Canonicalize(_) => !(after.canonical@ is Unasked),
        Acting::Inspect(_) => !(after.regular@ is Unasked),
        Acting::Open(_) => after.opened is Some,
        Acting::Load => !(after.body@ is Unasked),
        Acting::Send(_) => after.sent@.len() == before.sent@.len() + 1,
        Acting::Next { report: _, consumed } => starting(
            after,
            before.received@.skip(consumed as int),
            before.stream,
            before.served as nat + 1,
        ),
        Acting::Close(_) => false,
    }
}

/// A bound on how many more requests a connection can carry.
pub open spec fn requests_left(facts: ConnectionFacts) -> nat {
    if facts.served < MAX_KEPT_REQUESTS {
        (MAX_KEPT_REQUESTS - facts.served) as nat
    } else {
        0
    }
}

/// A bound on how many more actions a request can take.
pub open spec fn actions_left(facts: ConnectionFacts) -> nat {
    let limit = request::MAX_REQUEST_BYTES as int + 1;
    let receiving: int = if facts.stream != StreamState::Open {
        0
    } else if facts.received@.len() < limit {
        limit - facts.received@.len() + 1
    } else {
        1
    };
    let sending: int = if facts.sent@.len() < 2 {
        2 - facts.sent@.len()
    } else {
        0
    };
    let looking_up: int = if facts.canonical@ is Unasked {
        1
    } else {
        0
    };
    let inspecting: int = if facts.regular@ is Unasked {
        1
    } else {
        0
    };
    let opening: int = if facts.opened is None {
        1
    } else {
        0
    };
    let loading: int = if facts.body@ is Unasked {
        1
    } else {
        0
    };
    (receiving + sending + looking_up + inspecting + opening + loading) as nat
}

/// Every connection comes to an end: each action, once performed, leaves fewer requests to come, or
/// as many requests and fewer actions for the one under way.
pub proof fn every_connection_ends(setup: Setup, before: ConnectionFacts, after: ConnectionFacts)
    requires
        performed(before, handling(setup, before), after),
    ensures
        requests_left(after) < requests_left(before) || (requests_left(after) == requests_left(
            before,
        ) && actions_left(after) < actions_left(before)),
{
    nothing_is_asked_twice(setup, before);
    responses_are_bounded(setup, before);
}

/// Bytes that come after a request is settled change nothing.
pub proof fn late_bytes_do_not_matter(
    setup: Setup,
    before: ConnectionFacts,
    after: ConnectionFacts,
    more: Seq<u8>,
)
    requires
        before.stream == StreamState::Open,
        !(request::reading(before.received@, false) is Incomplete),
        after.received@ == before.received@ + more,
        after.stream != StreamState::Unavailable,
        after.canonical@ == before.canonical@,
        after.regular@ == before.regular@,
        after.opened == before.opened,
        after.body@ == before.body@,
        after.sent@ == before.sent@,
        after.served == before.served,
    ensures
        handling(setup, after) == handling(setup, before),
{
    if request::reading(before.received@, false) is Complete {
        request::a_complete_request_takes_no_more(before.received@, more);
    }
    request::a_settled_request_stands(
        before.received@,
        more,
        after.stream == StreamState::Ended,
    );
}

/// What a client reads of the answer to `GET` or `HEAD` for a file that it may have: 200, the media
/// type that the extension of the file spells in either case of its letters, the number of bytes of
/// the file, the security headers, and the whole of the file, which `HEAD` leaves out.
pub proof fn a_client_gets_the_file(
    setup: Setup,
    facts: ConnectionFacts,
    path: Seq<Seq<u8>>,
    stem: Seq<u8>,
    ext: Seq<u8>,
)
    requires
        delivers(setup, facts),
        facts.canonical@ == Answer::Got(paths::canonical_path(path)),
        paths::all_ordinary(path),
        path.len() > 0,
        stem.len() > 0,
        !ext.contains(0x2e),
        path.last() == stem + seq![0x2eu8] + ext,
    ensures
        ({
            let method = request::reading(
                facts.received@,
                facts.stream == StreamState::Ended,
            )->method;
            let file = facts.body@->Got_0;
            let bytes = handling(setup, facts)->Send_0;
            let lines = client::head_lines(bytes);
            &&& handling(setup, facts) is Send
            &&& lines[0] == encode_utf8("HTTP/1.1 200 OK"@)
            &&& paths::spells(ext, "html"@, "HTML"@) || paths::spells(ext, "css"@, "CSS"@)
            &&& paths::spells(ext, "html"@, "HTML"@) ==> client::field(lines, "Content-Type"@)
                == Some(encode_utf8("text/html; charset=utf-8"@))
            &&& paths::spells(ext, "css"@, "CSS"@) ==> client::field(lines, "Content-Type"@)
                == Some(encode_utf8("text/css; charset=utf-8"@))
            &&& client::field(lines, "Content-Length"@) == Some(
                encode_utf8(text::decimal(file.len())),
            )
            &&& client::field(lines, "X-Content-Type-Options"@) == Some(encode_utf8("nosniff"@))
            &&& client::field(lines, "X-Frame-Options"@) == Some(encode_utf8("DENY"@))
            &&& client::field(lines, "Content-Security-Policy"@) == Some(
                encode_utf8(
                    "default-src 'none'; style-src 'self'; img-src 'self'; font-src 'self'"@,
                ),
            )
            &&& client::field(lines, "Referrer-Policy"@) == Some(encode_utf8("no-referrer"@))
            &&& client::field(lines, "Cache-Control"@) == Some(
                encode_utf8("public, max-age="@ + text::decimal(setup.cache_max_age)),
            )
            &&& method == "GET"@ || method == "HEAD"@
            &&& client::body(bytes) == (if method == "GET"@ {
                file
            } else {
                Seq::<u8>::empty()
            })
        }),
{
    let method = request::reading(facts.received@, facts.stream == StreamState::Ended)->method;
    let absolute = paths::canonical_path(path);
    resolve::a_canonical_path_has_the_type_of_its_extension(path, stem, ext);
    resolve::the_kind_of_a_canonical_path(path, stem, ext);
    let kept = stays(setup, facts.served as nat);
    assert(handling(setup, facts) == Acting::Send(
        delivery(setup, method, absolute, facts.body@->Got_0, kept),
    ));
    lemma_delivery_is_read(setup, method, absolute, facts.body@->Got_0, kept);
}

proof fn lemma_delivery_is_read(
    setup: Setup,
    method: Seq<char>,
    absolute: Seq<u8>,
    file: Seq<u8>,
    kept: bool,
)
    requires
        is_allowed(method),
        paths::mime_of(absolute) == "text/html; charset=utf-8"@ || paths::mime_of(absolute)
            == "text/css; charset=utf-8"@,
    ensures
        ({
            let bytes = delivery(setup, method, absolute, file, kept);
            let lines = client::head_lines(bytes);
            &&& lines[0] == encode_utf8("HTTP/1.1 200 OK"@)
            &&& client::field(lines, "Content-Type"@) == Some(
                encode_utf8(paths::mime_of(absolute)),
            )
            &&& client::field(lines, "Content-Length"@) == Some(
                encode_utf8(text::decimal(file.len())),
            )
            &&& client::field(lines, "X-Content-Type-Options"@) == Some(encode_utf8("nosniff"@))
            &&& client::field(lines, "X-Frame-Options"@) == Some(encode_utf8("DENY"@))
            &&& client::field(lines, "Content-Security-Policy"@) == Some(
                encode_utf8(
                    "default-src 'none'; style-src 'self'; img-src 'self'; font-src 'self'"@,
                ),
            )
            &&& client::field(lines, "Referrer-Policy"@) == Some(encode_utf8("no-referrer"@))
            &&& client::field(lines, "Cache-Control"@) == Some(
                encode_utf8("public, max-age="@ + text::decimal(setup.cache_max_age)),
            )
            &&& client::body(bytes) == (if method == "GET"@ {
                file
            } else {
                Seq::<u8>::empty()
            })
        }),
{
    let content_type = paths::mime_of(absolute);
    assert(!content_type.contains('\r')) by {
        reveal_strlit("text/html; charset=utf-8");
        reveal_strlit("text/css; charset=utf-8");
    }
    assert("GET"@ != "HEAD"@) by {
        reveal_strlit("GET");
        reveal_strlit("HEAD");
        assert("GET"@.len() != "HEAD"@.len());
    }
    let head_only = method == "HEAD"@;
    response::a_client_reads_what_was_answered(
        StatusCode::Success,
        content_type,
        file,
        setup.cache_max_age,
        head_only,
        kept,
    );
    response::a_client_finds_the_fields(
        StatusCode::Success,
        content_type,
        file,
        setup.cache_max_age,
        head_only,
        kept,
    );
    lemma_success_line();
}

proof fn lemma_success_line()
    ensures
        "HTTP/1.1"@ + " "@ + text::decimal(status::status_number(StatusCode::Success) as nat) + " "@
            + status::reason(StatusCode::Success) == "HTTP/1.1 200 OK"@,
{
    reveal_strlit("HTTP/1.1");
    reveal_strlit(" ");
    reveal_strlit("OK");
    reveal_strlit("HTTP/1.1 200 OK");
    reveal_with_fuel(text::decimal, 3);
    assert("HTTP/1.1"@ + " "@ + text::decimal(200) + " "@ + "OK"@ =~= "HTTP/1.1 200 OK"@);
}

/// Whether a client reads these bytes as this error, and that the connection is closed.
pub open spec fn reads_as_error(bytes: Seq<u8>, status: StatusCode) -> bool {
    let line = text::decimal(status::status_number(status) as nat) + " "@ + status::reason(status);
    &&& client::head_lines(bytes)[0] == encode_utf8("HTTP/1.1"@ + " "@ + line)
    &&& client::field(client::head_lines(bytes), "Content-Type"@) == Some(
        encode_utf8("text/html; charset=utf-8"@),
    )
    &&& client::field(client::head_lines(bytes), "Connection"@) == Some(encode_utf8("close"@))
    &&& client::body(bytes) == encode_utf8(line)
}

/// Whether the connection ends in this error: after `done` responses it is answered, and then the
/// connection is closed.
pub open spec fn ends_in(
    setup: Setup,
    facts: ConnectionFacts,
    status: StatusCode,
    done: nat,
) -> bool {
    if facts.sent@.len() <= done {
        handling(setup, facts) is Send && reads_as_error(handling(setup, facts)->Send_0, status)
    } else {
        handling(setup, facts) == Acting::Close(Ending::Failed(status))
    }
}

/// Every error is answered with its status, once: a connection that cannot be read, a request that
/// is refused or breaks off, a method that is not allowed, a target that is refused, and a file that
/// cannot be opened, read or sent.
pub proof fn every_error_is_answered_with_its_status(setup: Setup, facts: ConnectionFacts)
    ensures
        ({
            let reading = request::reading(facts.received@, facts.stream == StreamState::Ended);
            &&& facts.stream == StreamState::Unavailable ==> ends_in(
                setup,
                facts,
                StatusCode::InternalServerError,
                0,
            )
            &&& facts.stream != StreamState::Unavailable ==> {
                &&& reading matches Reading::Refused(status) ==> ends_in(setup, facts, status, 0)
                &&& reading is Incomplete && facts.stream == StreamState::Failed && (facts.served
                    == 0 || facts.received@.len() > 0) ==> ends_in(
                    setup,
                    facts,
                    StatusCode::BadRequest,
                    0,
                )
                &&& reading matches Reading::Complete { method, path } ==> {
                    let allowed = method == "GET"@ || method == "HEAD"@;
                    let step = resolve::resolving(
                        setup.root,
                        path,
                        facts.canonical@,
                        facts.regular@,
                    );
                    &&& !allowed ==> ends_in(setup, facts, StatusCode::MethodNotAllowed, 0)
                    &&& allowed ==> (step matches Resolving::Refused(status) ==> ends_in(
                        setup,
                        facts,
                        status,
                        0,
                    ))
                    &&& allowed && step is Found ==> {
                        &&& facts.opened == Some(false) ==> ends_in(
                            setup,
                            facts,
                            StatusCode::NotFound,
                            0,
                        )
                        &&& facts.opened == Some(true) && facts.body@ is Failed ==> ends_in(
                            setup,
                            facts,
                            StatusCode::InternalServerError,
                            0,
                        )
                        &&& facts.opened == Some(true) && facts.body@ is Got && facts.sent@.len()
                            > 0 && !facts.sent@[0] ==> ends_in(
                            setup,
                            facts,
                            StatusCode::InternalServerError,
                            1,
                        )
                    }
                }
            }
        }),
{
    lemma_errors_are_read(setup.cache_max_age);
    request_errors_are_errors(facts.received@, facts.stream == StreamState::Ended);
    match request::reading(facts.received@, facts.stream == StreamState::Ended) {
        Reading::Complete { method, path } => {
            resolution_errors_are_errors(setup.root, path, facts.canonical@, facts.regular@);
        },
        _ => {},
    }
}

proof fn lemma_errors_are_read(cache_max_age: nat)
    ensures
        forall|status: StatusCode|
            status != StatusCode::Success ==> reads_as_error(
                #[trigger] response::error_bytes(status, cache_max_age, false),
                status,
            ),
{
    assert forall|status: StatusCode| status != StatusCode::Success implies reads_as_error(
        #[trigger] response::error_bytes(status, cache_max_age, false),
        status,
    ) by {
        response::a_client_reads_an_error(status, cache_max_age, false);
    }
}

/// A request is taken from step to step: it is received until it is settled, its target is looked
/// up and inspected, and the file that was found is opened and read. Nothing is skipped.
pub proof fn a_request_is_taken_step_by_step(setup: Setup, facts: ConnectionFacts)
    requires
        facts.stream != StreamState::Unavailable,
    ensures
        ({
            let reading = request::reading(facts.received@, facts.stream == StreamState::Ended);
            &&& reading is Incomplete && facts.stream == StreamState::Open ==> handling(
                setup,
                facts,
            ) is Receive
            &&& reading is Closed ==> handling(setup, facts) == Acting::Close(Ending::Silent)
            &&& reading matches Reading::Complete { method, path } ==> (method == "GET"@ || method
                == "HEAD"@ ==> {
                let step = resolve::resolving(
                    setup.root,
                    path,
                    facts.canonical@,
                    facts.regular@,
                );
                &&& step matches Resolving::Canonicalize(candidate) ==> handling(setup, facts)
                    == Acting::Canonicalize(candidate)
                &&& step matches Resolving::Inspect(absolute) ==> handling(setup, facts)
                    == Acting::Inspect(absolute)
                &&& step matches Resolving::Found { absolute, relative } ==> {
                    &&& facts.opened is None ==> handling(setup, facts) == Acting::Open(absolute)
                    &&& facts.opened == Some(true) && facts.body@ is Unasked ==> handling(
                        setup,
                        facts,
                    ) is Load
                }
            })
        }),
{
}

/// Once a file was sent, the report names the method, the path and the number of bytes of the file;
/// and the connection is kept exactly where the client was told so. It is told so on the first
/// request of a connection where keep-alive is on, and never where it is off.
pub proof fn a_client_is_told_whether_the_connection_stays(
    setup: Setup,
    before: ConnectionFacts,
    after: ConnectionFacts,
)
    requires
        delivers(setup, before),
        performed(before, handling(setup, before), after),
        after.sent@[0],
    ensures
        ({
            let reading = request::reading(before.received@, before.stream == StreamState::Ended);
            let told = client::field(
                client::head_lines(handling(setup, before)->Send_0),
                "Connection"@,
            );
            let report = Ending::Served {
                method: reading->method,
                relative: resolve::relative_path(reading->path)->Ok_0,
                bytes: before.body@->Got_0.len(),
            };
            &&& told == Some(encode_utf8("keep-alive"@)) || told == Some(encode_utf8("close"@))
            &&& handling(setup, after) == (if told == Some(encode_utf8("keep-alive"@)) {
                Acting::Next { report, consumed: request::head_len(before.received@, true) }
            } else {
                Acting::Close(report)
            })
            &&& setup.keep_alive && before.served == 0 ==> told == Some(
                encode_utf8("keep-alive"@),
            )
            &&& !setup.keep_alive ==> told == Some(encode_utf8("close"@))
        }),
{
    let reading = request::reading(before.received@, before.stream == StreamState::Ended);
    let method = reading->method;
    let absolute = before.canonical@->Got_0;
    let kept = stays(setup, before.served as nat);
    resolve::found_files_are_jailed(
        setup.root,
        reading->path,
        before.canonical@,
        before.regular@,
    );
    reveal_strlit("text/html; charset=utf-8");
    reveal_strlit("text/css; charset=utf-8");
    response::a_client_finds_the_fields(
        StatusCode::Success,
        paths::mime_of(absolute),
        before.body@->Got_0,
        setup.cache_max_age,
        method == "HEAD"@,
        kept,
    );
    reveal_strlit("keep-alive");
    reveal_strlit("close");
    text::bytes_tell_texts_apart("keep-alive"@, "close"@);
    assert("keep-alive"@.len() != "close"@.len());
}

/// A report stands for what it says.
pub proof fn a_report_says_how_it_ended(report: Report)
    ensures
        match report {
            Report::Silent => report@ is Silent,
            Report::Served { method, relative, bytes } => report@ == (Ending::Served {
                method: method@,
                relative: relative@,
                bytes: bytes as nat,
            }),
            Report::Failed(status) => report@ == Ending::Failed(status),
        },
{
}

/// A `GET` or a `HEAD`, in either case of its letters, for a path of ordinary names is looked up
/// under the root as it was written, whatever headers come with it and whatever follows.
pub proof fn a_request_for_a_file_is_looked_up(
    setup: Setup,
    facts: ConnectionFacts,
    method: Seq<char>,
    version: Seq<char>,
    headers: Seq<Seq<char>>,
    more: Seq<u8>,
    pieces: Seq<Seq<char>>,
)
    requires
        text::uppered(method) == "GET"@ || text::uppered(method) == "HEAD"@,
        request::is_word(method),
        version == "HTTP/1.0"@ || version == "HTTP/1.1"@,
        forall|i: int| 0 <= i < headers.len() ==> request::is_header(#[trigger] headers[i]),
        pieces.len() > 0,
        pieces[0].len() > 0,
        pieces[0] != seq!['.'],
        forall|i: int| 0 <= i < pieces.len() ==> resolve::is_plain(#[trigger] pieces[i]),
        request::is_word(resolve::with_slashes(pieces)),
        !resolve::with_slashes(pieces).contains('%'),
        setup.root.len() > 0,
        setup.root.last() != 0x2f,
        ({
            let target = seq!['/'] + resolve::with_slashes(pieces);
            let line = method + seq![' '] + target + seq![' '] + version;
            let bytes = encode_utf8(request::written_request(line, headers));
            bytes.len() <= request::MAX_REQUEST_BYTES && facts.received@ == bytes + more
        }),
        facts.stream != StreamState::Unavailable,
        facts.canonical@ is Unasked,
    ensures
        handling(setup, facts) == Acting::Canonicalize(
            setup.root + seq![0x2fu8] + encode_utf8(resolve::with_slashes(pieces)),
        ),
{
    let path = resolve::with_slashes(pieces);
    let target = seq!['/'] + path;
    assert forall|i: int| 0 <= i < target.len() implies !text::is_white(#[trigger] target[i]) by {
        if i > 0 {
            assert(target[i] == path[i - 1]);
        }
    }
    request::an_ordinary_request_is_understood(
        method,
        target,
        version,
        headers,
        more,
        facts.stream == StreamState::Ended,
    );
    assert(!target.contains('%')) by {
        if target.contains('%') {
            let i = choose|i: int| 0 <= i < target.len() && target[i] == '%';
            assert(path[i - 1] == '%');
        }
    }
    percent::plain_text_stands_for_itself(target);
    let none = Seq::<char>::empty();
    assert(resolve::slashes(1) + path + none =~= target);
    resolve::lemma_plain_pieces_hold_no_nul(pieces);
    resolve::a_target_is_looked_up_as_it_stands(
        setup.root,
        target,
        1,
        pieces,
        none,
        facts.regular@,
    );
}

} // verus!
