//! Reading one HTTP request off a byte stream, within the size limit.
use crate::client;
use crate::status::StatusCode;
use crate::text;
use vstd::prelude::*;
use vstd::string::*;
use vstd::utf8::*;

verus! {

/// The most bytes that a request line and its headers may take together.
pub const MAX_REQUEST_BYTES: usize = 8192;

/// How long, in seconds, a read on a connection may wait.
pub const READ_TIMEOUT_SECS: u64 = 10;

/// How long, in seconds, a write on a connection may wait.
pub const WRITE_TIMEOUT_SECS: u64 = 10;

/// A request, as far as the server looks at it: headers count only towards the size limit.
pub struct Request {
    /// The method, in upper case.
    pub method: String,
    /// The request target, as it was sent.
    pub path: String,
}

/// What the bytes received so far amount to.
pub enum RequestProgress {
    /// The request may still go on.
    Incomplete,
    /// The client closed the connection before it sent anything.
    Closed,
    /// A whole request.
    Complete(Request),
    /// Something that is answered with an error.
    Refused(StatusCode),
}

/// What a `RequestProgress` stands for.
pub enum Reading {
    Incomplete,
    Closed,
    Complete { method: Seq<char>, path: Seq<char> },
    Refused(StatusCode),
}

impl View for RequestProgress {
    type V = Reading;

    open spec fn view(&self) -> Reading {
        match *self {
            RequestProgress::Incomplete => Reading::Incomplete,
            RequestProgress::Closed => Reading::Closed,
            RequestProgress::Complete(request) => Reading::Complete {
                method: request.method@,
                path: request.path@,
            },
            RequestProgress::Refused(status) => Reading::Refused(status),
        }
    }
}

/// How far the lines of a request go.
pub enum Extent {
    /// More lines, or the rest of one, must follow.
    Open,
    /// The stream ended before the first byte.
    Nothing,
    /// The request line and the headers are all there.
    Whole,
    /// They take more bytes than are allowed.
    TooLarge,
    /// A line is not UTF-8.
    NotText,
}

/// The length of the first line with its line feed; `None` where no line feed has come.
pub open spec fn line_len(s: Seq<u8>) -> Option<nat>
    decreases s.len(),
{
    if s.len() == 0 {
        None
    } else if s[0] == 0x0a {
        Some(1)
    } else {
        match line_len(s.skip(1)) {
            Some(n) => Some(n + 1),
            None => None,
        }
    }
}

/// Whether a line is the empty one that ends the headers.
pub open spec fn is_blank_line(line: Seq<u8>) -> bool {
    line == seq![0x0au8] || line == seq![0x0du8, 0x0au8]
}

/// How far a request goes whose next line starts at the start of `s`. `first` tells that this is
/// the request line, which may not be the empty line that ends the headers; `budget` is how many
/// more bytes are allowed, and `ended` tells that nothing follows `s`.
pub open spec fn extent(s: Seq<u8>, first: bool, budget: int, ended: bool) -> Extent
    decreases s.len(),
{
    match line_len(s) {
        Some(n) => {
            let line = s.take(n as int);
            if n > budget {
                Extent::TooLarge
            } else if !valid_utf8(line) {
                Extent::NotText
            } else if !first && is_blank_line(line) {
                Extent::Whole
            } else if 0 < n <= s.len() {
                extent(s.skip(n as int), false, budget - n, ended)
            } else {
                Extent::Open
            }
        },
        None => {
            if s.len() > budget {
                Extent::TooLarge
            } else if !ended {
                Extent::Open
            } else if s.len() == 0 && first {
                Extent::Nothing
            } else if !valid_utf8(s) {
                Extent::NotText
            } else {
                Extent::Whole
            }
        },
    }
}

/// The first line of what was received.
pub open spec fn first_line(s: Seq<u8>) -> Seq<u8> {
    match line_len(s) {
        Some(n) => s.take(n as int),
        None => s,
    }
}

/// How many bytes a request takes, its line and its headers, up to and with the empty line that
/// ends them; all bytes where no such line has come. `first` tells that `s` starts with the request
/// line.
pub open spec fn head_len(s: Seq<u8>, first: bool) -> nat
    decreases s.len(),
{
    match line_len(s) {
        Some(n) => if (first || !is_blank_line(s.take(n as int))) && 0 < n <= s.len() {
            n + head_len(s.skip(n as int), false)
        } else {
            n
        },
        None => s.len(),
    }
}

/// What a request line asks for: three words, of which the last is `HTTP/1.0` or `HTTP/1.1`.
pub open spec fn request_of_line(line: Seq<char>) -> Reading {
    let w = text::words(line);
    if w.len() == 3 && (w[2] == "HTTP/1.0"@ || w[2] == "HTTP/1.1"@) {
        Reading::Complete { method: text::uppered(w[0]), path: w[1] }
    } else {
        Reading::Refused(StatusCode::BadRequest)
    }
}

/// What the bytes received so far amount to; `ended` tells that the client sent no more.
pub open spec fn reading(received: Seq<u8>, ended: bool) -> Reading {
    match extent(received, true, MAX_REQUEST_BYTES as int, ended) {
        Extent::Open => Reading::Incomplete,
        Extent::Nothing => Reading::Closed,
        Extent::Whole => request_of_line(decode_utf8(first_line(received))),
        Extent::TooLarge => Reading::Refused(StatusCode::PayloadTooLarge),
        Extent::NotText => Reading::Refused(StatusCode::BadRequest),
    }
}

/// A line takes at least one byte and ends in the first line feed.
pub proof fn line_fits_its_stream(s: Seq<u8>)
    ensures
        line_len(s) is Some ==> 0 < line_len(s)->Some_0 <= s.len(),
        line_len(s) is Some ==> s[line_len(s)->Some_0 - 1] == 0x0a,
        line_len(s) is Some ==> forall|i: int|
            0 <= i < line_len(s)->Some_0 - 1 ==> s[i] != 0x0a,
        line_len(s) is None ==> forall|i: int| 0 <= i < s.len() ==> s[i] != 0x0a,
    decreases s.len(),
{
    if s.len() > 0 && s[0] != 0x0a {
        let rest = s.skip(1);
        line_fits_its_stream(rest);
        assert forall|i: int| 1 <= i < s.len() implies s[i] == #[trigger] rest[i - 1] by {}
        if line_len(rest) is None {
            assert forall|i: int| 0 <= i < s.len() implies s[i] != 0x0a by {
                if i > 0 {
                    assert(s[i] == rest[i - 1]);
                }
            }
        } else {
            let n = line_len(rest)->Some_0;
            assert forall|i: int| 0 <= i < n implies s[i] != 0x0a by {
                if i > 0 {
                    assert(s[i] == rest[i - 1]);
                }
            }
            assert(s[n as int] == rest[n - 1]);
        }
    }
}

proof fn lemma_line_len(s: Seq<u8>, n: int)
    requires
        0 < n <= s.len(),
        s[n - 1] == 0x0a,
        forall|i: int| 0 <= i < n - 1 ==> s[i] != 0x0a,
    ensures
        line_len(s) == Some(n as nat),
    decreases s.len(),
{
    if n > 1 {
        assert(s[0] != 0x0a);
        lemma_line_len(s.skip(1), n - 1);
    }
}

proof fn lemma_no_line(s: Seq<u8>)
    requires
        forall|i: int| 0 <= i < s.len() ==> s[i] != 0x0a,
    ensures
        line_len(s) is None,
    decreases s.len(),
{
    if s.len() > 0 {
        assert(s[0] != 0x0a);
        lemma_no_line(s.skip(1));
    }
}

/// The position after the first line feed at or after `start`, if there is one.
fn line_end(s: &[u8], start: usize) -> (r: Option<usize>)
    requires
        start <= s@.len(),
    ensures
        r is Some <==> line_len(s@.skip(start as int)) is Some,
        r is Some ==> start < r->Some_0 <= s@.len(),
        r is Some ==> r->Some_0 - start == line_len(s@.skip(start as int))->Some_0,
{
    let ghost rest = s@.skip(start as int);
    let mut i: usize = start;
    while i < s.len()
        invariant
            start <= i <= s@.len(),
            rest == s@.skip(start as int),
            forall|j: int| 0 <= j < i - start ==> rest[j] != 0x0a,
        decreases s@.len() - i,
    {
        if s[i] == 0x0a {
            proof {
                lemma_line_len(rest, i - start + 1);
            }
            return Some(i + 1);
        }
        i += 1;
    }
    proof {
        lemma_no_line(rest);
    }
    None
}

/// Whether a line is the empty one that ends the headers.
fn is_blank(line: &[u8]) -> (r: bool)
    ensures
        r == is_blank_line(line@),
{
    let blank: bool = (line.len() == 1 && line[0] == 0x0a) || (line.len() == 2 && line[0] == 0x0d
        && line[1] == 0x0a);
    proof {
        if blank {
            if line@.len() == 1 {
                assert(line@ =~= seq![0x0au8]);
            } else {
                assert(line@ =~= seq![0x0du8, 0x0au8]);
            }
        } else if is_blank_line(line@) {
            assert(line@[line@.len() - 1] == 0x0a);
        }
    }
    blank
}

/// How many bytes the first request takes of what was received.
pub fn request_len(received: &[u8]) -> (r: usize)
    ensures
        r == head_len(received@, true),
        r <= received@.len(),
{
    let mut start: usize = 0;
    let mut first: bool = true;
    assert(received@.skip(0) =~= received@);
    loop
        invariant
            start <= received@.len(),
            head_len(received@, true) == start + head_len(received@.skip(start as int), first),
        decreases received@.len() - start,
    {
        let ghost rest = received@.skip(start as int);
        let end: usize = match line_end(received, start) {
            Some(end) => end,
            None => return received.len(),
        };
        let line = text::copy_bytes(vstd::slice::slice_subrange(received, start, end));
        assert(line@ =~= rest.take(end - start));
        if !first && is_blank(&line) {
            return end;
        }
        assert(rest.skip(end - start) =~= received@.skip(end as int));
        first = false;
        start = end;
    }
}

/// Parses a request line: METHOD SP PATH SP HTTP/VERSION. Only HTTP/1.0 and HTTP/1.1 are accepted.
pub fn parse_request_line(line: &str) -> (r: RequestProgress)
    ensures
        r@ == request_of_line(line@),
{
    let parts = text::split_words(line);
    let ghost w = text::words(line@);
    assert(w.len() == parts@.len());
    if parts.len() != 3 {
        return RequestProgress::Refused(StatusCode::BadRequest);
    }
    assert(w[0] == parts@[0]@ && w[1] == parts@[1]@ && w[2] == parts@[2]@);
    let version = parts[2].as_str();
    if !text::same_text(version, "HTTP/1.0") && !text::same_text(version, "HTTP/1.1") {
        return RequestProgress::Refused(StatusCode::BadRequest);
    }
    let method = text::ascii_uppercase(parts[0].as_str());
    let path = text::copy_text(parts[1].as_str());
    RequestProgress::Complete(Request { method, path })
}

/// Reads a single HTTP request, enforcing the 8 KiB limit, out of all that a connection has
/// received so far. `ended` tells that the client has closed its side.
pub fn read_request(received: &[u8], ended: bool) -> (r: RequestProgress)
    ensures
        r@ == reading(received@, ended),
        match r {
            RequestProgress::Incomplete => r@ is Incomplete,
            RequestProgress::Closed => r@ is Closed,
            RequestProgress::Complete(request) => r@ == (Reading::Complete {
                method: request.method@,
                path: request.path@,
            }),
            RequestProgress::Refused(status) => r@ == Reading::Refused(status),
        },
{
    let mut start: usize = 0;
    let mut first: bool = true;
    let mut request_line = String::new();
    assert(received@.skip(0) =~= received@);
    loop
        invariant_except_break
            first ==> start == 0,
            !first ==> request_line@ == decode_utf8(first_line(received@)),
        invariant
            start <= received@.len(),
            start <= MAX_REQUEST_BYTES,
            extent(received@, true, MAX_REQUEST_BYTES as int, ended) == extent(
                received@.skip(start as int),
                first,
                MAX_REQUEST_BYTES - start,
                ended,
            ),
        ensures
            extent(received@, true, MAX_REQUEST_BYTES as int, ended) is Whole,
            request_line@ == decode_utf8(first_line(received@)),
        decreases received@.len() - start,
    {
        let ghost rest = received@.skip(start as int);
        assert(first ==> rest =~= received@);
        let end: usize = match line_end(received, start) {
            Some(end) => end,
            None => {
                if received.len() - start > MAX_REQUEST_BYTES - start {
                    return RequestProgress::Refused(StatusCode::PayloadTooLarge);
                }
                if !ended {
                    return RequestProgress::Incomplete;
                }
                if received.len() == start && first {
                    return RequestProgress::Closed;
                }
                let line = text::copy_bytes(
                    vstd::slice::slice_subrange(received, start, received.len()),
                );
                assert(line@ =~= rest);
                match String::from_utf8(line) {
                    Ok(text) => {
                        if first {
                            request_line = text;
                        }
                    },
                    Err(_) => {
                        return RequestProgress::Refused(StatusCode::BadRequest);
                    },
                }
                break;
            },
        };
        let ghost n = end - start;
        if end > MAX_REQUEST_BYTES {
            return RequestProgress::Refused(StatusCode::PayloadTooLarge);
        }
        let line = text::copy_bytes(vstd::slice::slice_subrange(received, start, end));
        assert(line@ =~= rest.take(n));
        let blank: bool = is_blank(&line);
        match String::from_utf8(line) {
            Ok(text) => {
                if first {
                    request_line = text;
                } else if blank {
                    break;
                }
            },
            Err(_) => {
                return RequestProgress::Refused(StatusCode::BadRequest);
            },
        }
        assert(rest.skip(n) =~= received@.skip(end as int));
        first = false;
        start = end;
    }
    parse_request_line(request_line.as_str())
}

proof fn lemma_line_len_extends(s: Seq<u8>, t: Seq<u8>)
    ensures
        line_len(s) is Some ==> line_len(s + t) == line_len(s),
        line_len(s) is None && line_len(s + t) is Some ==> line_len(s + t)->Some_0 > s.len(),
{
    line_fits_its_stream(s);
    line_fits_its_stream(s + t);
    if line_len(s) is Some {
        let n = line_len(s)->Some_0 as int;
        assert forall|i: int| 0 <= i < n - 1 implies (s + t)[i] != 0x0a by {
            assert((s + t)[i] == s[i]);
        }
        lemma_line_len(s + t, n);
    } else if line_len(s + t) is Some {
        let n = line_len(s + t)->Some_0 as int;
        if n <= s.len() {
            assert((s + t)[n - 1] == s[n - 1]);
        }
    }
}

proof fn lemma_extent_stands(s: Seq<u8>, t: Seq<u8>, first: bool, budget: int, ended: bool)
    requires
        !(extent(s, first, budget, false) is Open),
    ensures
        extent(s + t, first, budget, ended) == extent(s, first, budget, false),
        extent(s, first, budget, false) is Whole && first ==> line_len(s) is Some,
    decreases s.len(),
{
    lemma_line_len_extends(s, t);
    line_fits_its_stream(s);
    if line_len(s) is Some {
        let n = line_len(s)->Some_0 as int;
        assert((s + t).take(n) =~= s.take(n));
        assert((s + t).skip(n) =~= s.skip(n) + t);
        let line = s.take(n);
        if n <= budget && valid_utf8(line) && (first || !is_blank_line(line)) {
            lemma_extent_stands(s.skip(n), t, false, budget - n, ended);
        }
    }
}

/// Once the bytes received settle what a request is, no later byte changes that, and neither
/// does the end of the stream.
pub proof fn a_settled_request_stands(received: Seq<u8>, more: Seq<u8>, ended: bool)
    requires
        !(reading(received, false) is Incomplete),
    ensures
        reading(received + more, ended) == reading(received, false),
{
    lemma_request_is_no_wait(decode_utf8(first_line(received)));
    lemma_extent_stands(received, more, true, MAX_REQUEST_BYTES as int, ended);
    lemma_line_len_extends(received, more);
    line_fits_its_stream(received);
    if line_len(received) is Some {
        let n = line_len(received)->Some_0 as int;
        assert((received + more).take(n) =~= received.take(n));
    }
}

proof fn lemma_request_is_no_wait(line: Seq<char>)
    ensures
        !(request_of_line(line) is Incomplete),
        !(request_of_line(line) is Closed),
{
}

proof fn lemma_extent_within_budget(s: Seq<u8>, first: bool, budget: int, ended: bool)
    requires
        extent(s, first, budget, ended) is Open,
    ensures
        s.len() <= budget,
        !ended,
    decreases s.len(),
{
    line_fits_its_stream(s);
    if line_len(s) is Some {
        let n = line_len(s)->Some_0 as int;
        lemma_extent_within_budget(s.skip(n), false, budget - n, ended);
    }
}

/// A request is settled by the time the limit is passed, and as soon as the stream ends.
pub proof fn no_request_waits_past_the_limit(received: Seq<u8>, ended: bool)
    requires
        received.len() > MAX_REQUEST_BYTES || ended,
    ensures
        !(reading(received, ended) is Incomplete),
{
    lemma_request_is_no_wait(decode_utf8(first_line(received)));
    if extent(received, true, MAX_REQUEST_BYTES as int, ended) is Open {
        lemma_extent_within_budget(received, true, MAX_REQUEST_BYTES as int, ended);
    }
}

proof fn lemma_excess(s: Seq<u8>, t: Seq<u8>, first: bool, budget: int, ended: bool)
    requires
        extent(s, first, budget, false) is Open,
        s.len() == budget,
        t.len() > 0,
    ensures
        extent(s + t, first, budget, ended) is TooLarge,
    decreases s.len(),
{
    lemma_line_len_extends(s, t);
    line_fits_its_stream(s);
    if line_len(s) is Some {
        let n = line_len(s)->Some_0 as int;
        assert((s + t).take(n) =~= s.take(n));
        assert((s + t).skip(n) =~= s.skip(n) + t);
        lemma_excess(s.skip(n), t, false, budget - n, ended);
    }
}

/// A request whose line and headers do not end within the limit is too large, whatever the
/// bytes beyond it are.
pub proof fn excess_is_too_large(received: Seq<u8>, ended: bool)
    requires
        received.len() > MAX_REQUEST_BYTES,
        reading(received.take(MAX_REQUEST_BYTES as int), false) is Incomplete,
    ensures
        reading(received, ended) == Reading::Refused(StatusCode::PayloadTooLarge),
{
    let s = received.take(MAX_REQUEST_BYTES as int);
    let t = received.skip(MAX_REQUEST_BYTES as int);
    assert(s + t =~= received);
    lemma_request_is_no_wait(decode_utf8(first_line(s)));
    lemma_excess(s, t, true, MAX_REQUEST_BYTES as int, ended);
}

proof fn lemma_head(s: Seq<u8>, first: bool, budget: int, ended: bool)
    requires
        extent(s, first, budget, ended) is Whole,
    ensures
        head_len(s, first) <= s.len(),
        head_len(s, first) <= budget,
        first ==> head_len(s, first) > 0,
        extent(s.take(head_len(s, first) as int), first, budget, true) is Whole,
        first_line(s.take(head_len(s, first) as int)) == first_line(s) || !first,
    decreases s.len(),
{
    line_fits_its_stream(s);
    let h = head_len(s, first) as int;
    if line_len(s) is Some {
        let n = line_len(s)->Some_0 as int;
        if first || !is_blank_line(s.take(n)) {
            lemma_head(s.skip(n), false, budget - n, ended);
            assert(s.take(h).skip(n) =~= s.skip(n).take(h - n));
        }
        assert forall|i: int| 0 <= i < n - 1 implies s.take(h)[i] != 0x0a by {
            assert(s.take(h)[i] == s[i]);
        }
        assert(s.take(h)[n - 1] == s[n - 1]);
        lemma_line_len(s.take(h), n);
        assert(s.take(h).take(n) =~= s.take(n));
    } else {
        assert(s.take(h) =~= s);
    }
}

/// A request is made by the bytes that it takes, at least one and no more than the limit: what
/// follows them plays no part.
pub proof fn a_request_is_its_head(received: Seq<u8>, ended: bool)
    requires
        reading(received, ended) is Complete,
    ensures
        0 < head_len(received, true) <= received.len(),
        head_len(received, true) <= MAX_REQUEST_BYTES,
        reading(received.take(head_len(received, true) as int), true) == reading(received, ended),
{
    lemma_head(received, true, MAX_REQUEST_BYTES as int, ended);
}

proof fn lemma_head_stands(s: Seq<u8>, t: Seq<u8>, first: bool, budget: int)
    requires
        extent(s, first, budget, false) is Whole,
    ensures
        head_len(s + t, first) == head_len(s, first),
    decreases s.len(),
{
    lemma_line_len_extends(s, t);
    line_fits_its_stream(s);
    let n = line_len(s)->Some_0 as int;
    assert((s + t).take(n) =~= s.take(n));
    assert((s + t).skip(n) =~= s.skip(n) + t);
    if first || !is_blank_line(s.take(n)) {
        lemma_head_stands(s.skip(n), t, false, budget - n);
    }
}

/// A request that is complete before the stream ends takes no more bytes as more come in.
pub proof fn a_complete_request_takes_no_more(received: Seq<u8>, more: Seq<u8>)
    requires
        reading(received, false) is Complete,
    ensures
        head_len(received + more, true) == head_len(received, true),
{
    lemma_head_stands(received, more, true, MAX_REQUEST_BYTES as int);
}

/// The only stream that counts as closed without a request is the empty one.
pub proof fn only_an_empty_stream_is_no_request(received: Seq<u8>, ended: bool)
    ensures
        reading(received, ended) is Closed <==> received.len() == 0 && ended,
{
    lemma_request_is_no_wait(decode_utf8(first_line(received)));
    line_fits_its_stream(received);
    if line_len(received) is Some {
        let n = line_len(received)->Some_0 as int;
        lemma_later_lines_are_something(
            received.skip(n),
            MAX_REQUEST_BYTES - n,
            ended,
        );
    }
}

proof fn lemma_later_lines_are_something(s: Seq<u8>, budget: int, ended: bool)
    ensures
        !(extent(s, false, budget, ended) is Nothing),
    decreases s.len(),
{
    line_fits_its_stream(s);
    if line_len(s) is Some {
        let n = line_len(s)->Some_0 as int;
        lemma_later_lines_are_something(s.skip(n), budget - n, ended);
    }
}

/// Whether a text can stand in a header line: not nothing, and no line feed.
pub open spec fn is_header(line: Seq<char>) -> bool {
    line.len() > 0 && !line.contains('\n')
}

/// A request as a client writes it: a line, its headers, and an empty line.
pub open spec fn written_request(line: Seq<char>, headers: Seq<Seq<char>>) -> Seq<char> {
    line + "\r\n"@ + client::written(headers) + "\r\n"@
}

/// A line of text, with its end, at the start of a stream.
proof fn lemma_written_line(line: Seq<char>, rest: Seq<u8>)
    requires
        !line.contains('\n'),
    ensures
        ({
            let bytes = encode_utf8(line + "\r\n"@);
            let s = bytes + rest;
            &&& line_len(s) == Some(bytes.len())
            &&& s.take(bytes.len() as int) == bytes
            &&& s.skip(bytes.len() as int) == rest
            &&& valid_utf8(bytes)
            &&& decode_utf8(bytes) == line + "\r\n"@
            &&& is_blank_line(bytes) <==> line.len() == 0
            &&& bytes.len() >= 2
        }),
{
    let bytes = encode_utf8(line + "\r\n"@);
    let s = bytes + rest;
    let l = encode_utf8(line);
    client::lemma_line_break();
    text::encoding_of_a_concatenation(line, "\r\n"@);
    assert(0x0au8 as char == '\n');
    text::absent_ascii_stays_absent(line, 0x0a);
    let n = bytes.len() as int;
    assert forall|i: int| 0 <= i < n - 1 implies s[i] != 0x0a by {
        if i < l.len() {
            assert(s[i] == l[i]);
        } else {
            assert(s[i] == 0x0d);
        }
    }
    assert(s[n - 1] == 0x0a);
    lemma_line_len(s, n);
    assert(s.take(n) =~= bytes);
    assert(s.skip(n) =~= rest);
    encode_utf8_valid_utf8(line + "\r\n"@);
    encode_utf8_decode_utf8(line + "\r\n"@);
    let none = Seq::<char>::empty();
    assert(encode_utf8(none) =~= Seq::<u8>::empty());
    text::bytes_tell_texts_apart(line, none);
    if line.len() == 0 {
        assert(line =~= none);
        assert(bytes =~= seq![0x0du8, 0x0au8]);
    } else {
        assert(l.len() > 0) by {
            if l.len() == 0 {
                assert(l =~= encode_utf8(none));
            }
        }
        assert(bytes.len() > 2);
    }
}

proof fn lemma_written_headers(headers: Seq<Seq<char>>, more: Seq<u8>, budget: int, ended: bool)
    requires
        forall|i: int| 0 <= i < headers.len() ==> is_header(#[trigger] headers[i]),
        encode_utf8(client::written(headers) + "\r\n"@).len() <= budget,
    ensures
        extent(
            encode_utf8(client::written(headers) + "\r\n"@) + more,
            false,
            budget,
            ended,
        ) is Whole,
        head_len(encode_utf8(client::written(headers) + "\r\n"@) + more, false) == encode_utf8(
            client::written(headers) + "\r\n"@,
        ).len(),
    decreases headers.len(),
{
    let all = encode_utf8(client::written(headers) + "\r\n"@);
    if headers.len() == 0 {
        let none = Seq::<char>::empty();
        assert(client::written(headers) + "\r\n"@ =~= none + "\r\n"@);
        lemma_written_line(none, more);
    } else {
        let line = headers[0];
        let others = headers.skip(1);
        assert(is_header(line));
        assert forall|i: int| 0 <= i < others.len() implies is_header(#[trigger] others[i]) by {
            assert(others[i] == headers[i + 1]);
        }
        let tail = client::written(others) + "\r\n"@;
        assert(client::written(headers) + "\r\n"@ =~= (line + "\r\n"@) + tail);
        text::encoding_of_a_concatenation(line + "\r\n"@, tail);
        let rest = encode_utf8(tail) + more;
        assert(all + more =~= encode_utf8(line + "\r\n"@) + rest);
        lemma_written_line(line, rest);
        lemma_written_headers(
            others,
            more,
            budget - encode_utf8(line + "\r\n"@).len(),
            ended,
        );
    }
}

/// A request is read as it was written, whatever its headers are and whatever follows it, as long
/// as it keeps within the limit: three words, of which the last is one of the two versions, are a
/// method in either case of its letters and a target that is kept as it is; any other line is a bad
/// request. It takes the bytes that were written, and no others.
pub proof fn a_request_is_read_as_it_was_written(
    line: Seq<char>,
    headers: Seq<Seq<char>>,
    more: Seq<u8>,
    ended: bool,
)
    requires
        !line.contains('\n'),
        forall|i: int| 0 <= i < headers.len() ==> is_header(#[trigger] headers[i]),
        encode_utf8(written_request(line, headers)).len() <= MAX_REQUEST_BYTES,
    ensures
        ({
            let received = encode_utf8(written_request(line, headers)) + more;
            let w = text::words(line);
            &&& reading(received, ended) == (if w.len() == 3 && (w[2] == "HTTP/1.0"@ || w[2]
                == "HTTP/1.1"@) {
                Reading::Complete { method: text::uppered(w[0]), path: w[1] }
            } else {
                Reading::Refused(StatusCode::BadRequest)
            })
            &&& head_len(received, true) == encode_utf8(written_request(line, headers)).len()
        }),
{
    let tail = client::written(headers) + "\r\n"@;
    let request = written_request(line, headers);
    assert(request =~= (line + "\r\n"@) + tail);
    text::encoding_of_a_concatenation(line + "\r\n"@, tail);
    let rest = encode_utf8(tail) + more;
    let received = encode_utf8(request) + more;
    assert(received =~= encode_utf8(line + "\r\n"@) + rest);
    lemma_written_line(line, rest);
    lemma_written_headers(
        headers,
        more,
        MAX_REQUEST_BYTES - encode_utf8(line + "\r\n"@).len(),
        ended,
    );
    assert(first_line(received) == encode_utf8(line + "\r\n"@));
    lemma_words_of_line(line);
}

proof fn lemma_words_of_line(line: Seq<char>)
    ensures
        text::words(line + "\r\n"@) == text::words(line),
{
    let none = Seq::<char>::empty();
    reveal_strlit("\r\n");
    assert(line + "\r\n"@ =~= (line + seq!['\r'] + none) + seq!['\n'] + none);
    text::words_end_at_white_space(line + seq!['\r'] + none, '\n', none);
    text::words_end_at_white_space(line, '\r', none);
    assert(text::words(none) =~= Seq::<Seq<char>>::empty());
    assert(text::words(line) + text::words(none) =~= text::words(line));
}

/// Whether a text can be one word of a request line.
pub open spec fn is_word(w: Seq<char>) -> bool {
    w.len() > 0 && forall|i: int| 0 <= i < w.len() ==> !text::is_white(#[trigger] w[i])
}

/// A method, a target and one of the two versions, with a space between each two of them, are read
/// as that method and that target.
pub proof fn an_ordinary_request_is_understood(
    method: Seq<char>,
    target: Seq<char>,
    version: Seq<char>,
    headers: Seq<Seq<char>>,
    more: Seq<u8>,
    ended: bool,
)
    requires
        is_word(method),
        is_word(target),
        version == "HTTP/1.0"@ || version == "HTTP/1.1"@,
        forall|i: int| 0 <= i < headers.len() ==> is_header(#[trigger] headers[i]),
        encode_utf8(
            written_request(method + seq![' '] + target + seq![' '] + version, headers),
        ).len() <= MAX_REQUEST_BYTES,
    ensures
        reading(
            encode_utf8(
                written_request(method + seq![' '] + target + seq![' '] + version, headers),
            ) + more,
            ended,
        ) == (Reading::Complete { method: text::uppered(method), path: target }),
{
    reveal_strlit("HTTP/1.0");
    reveal_strlit("HTTP/1.1");
    let line = method + seq![' '] + target + seq![' '] + version;
    text::a_word_is_kept_whole(method);
    text::a_word_is_kept_whole(target);
    text::a_word_is_kept_whole(version);
    text::words_end_at_white_space(method + seq![' '] + target, ' ', version);
    text::words_end_at_white_space(method, ' ', target);
    let w = text::words(line);
    assert(w =~= seq![method, target, version]);
    assert(!line.contains('\n')) by {
        if line.contains('\n') {
            let i = choose|i: int| 0 <= i < line.len() && line[i] == '\n';
            let m = method.len() as int;
            let t = target.len() as int;
            if i < m {
                assert(method[i] == '\n');
            } else if m < i < m + 1 + t {
                assert(target[i - m - 1] == '\n');
            } else if i > m + 1 + t {
                assert(version[i - m - t - 2] == '\n');
            }
        }
    }
    a_request_is_read_as_it_was_written(line, headers, more, ended);
}

/// As long as some of a request is missing, there is more to wait for.
pub proof fn a_request_is_waited_for(line: Seq<char>, headers: Seq<Seq<char>>, k: int)
    requires
        !line.contains('\n'),
        forall|i: int| 0 <= i < headers.len() ==> is_header(#[trigger] headers[i]),
        encode_utf8(written_request(line, headers)).len() <= MAX_REQUEST_BYTES,
        0 <= k < encode_utf8(written_request(line, headers)).len(),
    ensures
        reading(encode_utf8(written_request(line, headers)).take(k), false) is Incomplete,
{
    let all = encode_utf8(written_request(line, headers));
    let some = all.take(k);
    let rest = all.skip(k);
    let none = Seq::<u8>::empty();
    assert(some + rest =~= all);
    assert(all + none =~= all);
    let budget = MAX_REQUEST_BYTES as int;
    lemma_written_extent(line, headers);
    if !(extent(some, true, budget, false) is Open) {
        lemma_extent_stands(some, rest, true, budget, false);
        lemma_head(some, true, budget, false);
        lemma_head_stands(some, rest, true, budget);
    }
}

proof fn lemma_written_extent(line: Seq<char>, headers: Seq<Seq<char>>)
    requires
        !line.contains('\n'),
        forall|i: int| 0 <= i < headers.len() ==> is_header(#[trigger] headers[i]),
        encode_utf8(written_request(line, headers)).len() <= MAX_REQUEST_BYTES,
    ensures
        extent(
            encode_utf8(written_request(line, headers)),
            true,
            MAX_REQUEST_BYTES as int,
            false,
        ) is Whole,
        head_len(encode_utf8(written_request(line, headers)), true) == encode_utf8(
            written_request(line, headers),
        ).len(),
{
    let none = Seq::<u8>::empty();
    let tail = client::written(headers) + "\r\n"@;
    let request = written_request(line, headers);
    assert(request =~= (line + "\r\n"@) + tail);
    text::encoding_of_a_concatenation(line + "\r\n"@, tail);
    assert(encode_utf8(tail) + none =~= encode_utf8(tail));
    lemma_written_line(line, encode_utf8(tail));
    lemma_written_headers(
        headers,
        none,
        MAX_REQUEST_BYTES - encode_utf8(line + "\r\n"@).len(),
        false,
    );
}

/// Headers, within the limit, and then a stream that goes on.
proof fn lemma_after_headers(headers: Seq<Seq<char>>, rest: Seq<u8>, budget: int, ended: bool)
    requires
        forall|i: int| 0 <= i < headers.len() ==> is_header(#[trigger] headers[i]),
        encode_utf8(client::written(headers)).len() <= budget,
    ensures
        extent(encode_utf8(client::written(headers)) + rest, false, budget, ended) == extent(
            rest,
            false,
            budget - encode_utf8(client::written(headers)).len(),
            ended,
        ),
    decreases headers.len(),
{
    let all = encode_utf8(client::written(headers));
    if headers.len() == 0 {
        assert(all + rest =~= rest);
    } else {
        let line = headers[0];
        let others = headers.skip(1);
        assert(is_header(line));
        assert forall|i: int| 0 <= i < others.len() implies is_header(#[trigger] others[i]) by {
            assert(others[i] == headers[i + 1]);
        }
        let tail = client::written(others);
        assert(client::written(headers) =~= (line + "\r\n"@) + tail);
        text::encoding_of_a_concatenation(line + "\r\n"@, tail);
        let after = encode_utf8(tail) + rest;
        assert(all + rest =~= encode_utf8(line + "\r\n"@) + after);
        lemma_written_line(line, after);
        lemma_after_headers(others, rest, budget - encode_utf8(line + "\r\n"@).len(), ended);
    }
}

/// A client that stops in the middle of its headers is answered as if it had ended them, and a
/// header that is not UTF-8 makes the request a bad one; so does a line that is cut off within a
/// character.
pub proof fn the_last_header_decides(
    line: Seq<char>,
    headers: Seq<Seq<char>>,
    last: Seq<u8>,
)
    requires
        !line.contains('\n'),
        forall|i: int| 0 <= i < headers.len() ==> is_header(#[trigger] headers[i]),
        !last.contains(0x0a),
        encode_utf8(line + "\r\n"@ + client::written(headers)).len() + last.len()
            < MAX_REQUEST_BYTES,
    ensures
        ({
            let start = encode_utf8(line + "\r\n"@ + client::written(headers));
            let w = text::words(line);
            &&& reading(start + last, true) == (if valid_utf8(last) && w.len() == 3 && (w[2]
                == "HTTP/1.0"@ || w[2] == "HTTP/1.1"@) {
                Reading::Complete { method: text::uppered(w[0]), path: w[1] }
            } else {
                Reading::Refused(StatusCode::BadRequest)
            })
            &&& reading(start + last, false) is Incomplete
            &&& !valid_utf8(last + seq![0x0au8]) ==> reading(start + (last + seq![0x0au8]), false)
                == Reading::Refused(StatusCode::BadRequest)
        }),
{
    let headed = client::written(headers);
    let first = encode_utf8(line + "\r\n"@);
    let budget = MAX_REQUEST_BYTES as int;
    assert(line + "\r\n"@ + headed =~= (line + "\r\n"@) + headed);
    text::encoding_of_a_concatenation(line + "\r\n"@, headed);
    let start = encode_utf8(line + "\r\n"@ + headed);
    let left = budget - first.len();
    lemma_words_of_line(line);
    assert forall|i: int| 0 <= i < last.len() implies last[i] != 0x0a by {
        assert(last.contains(last[i]));
    }
    lemma_no_line(last);
    // As the stream ends, and as it goes on.
    assert(start + last =~= first + (encode_utf8(headed) + last));
    lemma_written_line(line, encode_utf8(headed) + last);
    lemma_after_headers(headers, last, left, true);
    lemma_after_headers(headers, last, left, false);
    assert(first_line(start + last) == first);
    // With the end of the line.
    let ended_line = last + seq![0x0au8];
    assert(start + ended_line =~= first + (encode_utf8(headed) + ended_line));
    lemma_written_line(line, encode_utf8(headed) + ended_line);
    lemma_after_headers(headers, ended_line, left, false);
    assert forall|i: int| 0 <= i < ended_line.len() - 1 implies ended_line[i] != 0x0a by {
        assert(ended_line[i] == last[i]);
    }
    lemma_line_len(ended_line, ended_line.len() as int);
    assert(ended_line.take(ended_line.len() as int) =~= ended_line);
}

/// A request line that is not UTF-8 is a bad request.
pub proof fn a_line_that_is_not_text_is_refused(line: Seq<u8>, more: Seq<u8>, ended: bool)
    requires
        !line.contains(0x0a),
        !valid_utf8(line + seq![0x0au8]),
        line.len() < MAX_REQUEST_BYTES,
    ensures
        reading(line + seq![0x0au8] + more, ended) == Reading::Refused(StatusCode::BadRequest),
{
    let s = line + seq![0x0au8] + more;
    let n = line.len() as int + 1;
    assert forall|i: int| 0 <= i < n - 1 implies s[i] != 0x0a by {
        assert(s[i] == line[i]);
        assert(line.contains(line[i]));
    }
    lemma_line_len(s, n);
    assert(s.take(n) =~= line + seq![0x0au8]);
}

/// A line that goes on past the limit is too large, whether or not it is text and whether or not
/// the stream goes on.
pub proof fn a_line_past_the_limit_is_too_large(line: Seq<u8>, ended: bool)
    requires
        !line.contains(0x0a),
        line.len() > MAX_REQUEST_BYTES,
    ensures
        reading(line, ended) == Reading::Refused(StatusCode::PayloadTooLarge),
{
    assert forall|i: int| 0 <= i < line.len() implies line[i] != 0x0a by {
        assert(line.contains(line[i]));
    }
    lemma_no_line(line);
}

/// A request that keeps to its form but takes more bytes than the limit is too large.
pub proof fn a_request_past_the_limit_is_too_large(
    line: Seq<char>,
    headers: Seq<Seq<char>>,
    ended: bool,
)
    requires
        !line.contains('\n'),
        forall|i: int| 0 <= i < headers.len() ==> is_header(#[trigger] headers[i]),
        encode_utf8(written_request(line, headers)).len() > MAX_REQUEST_BYTES,
    ensures
        reading(encode_utf8(written_request(line, headers)), ended) == Reading::Refused(
            StatusCode::PayloadTooLarge,
        ),
{
    let tail = client::written(headers) + "\r\n"@;
    let request = written_request(line, headers);
    assert(request =~= (line + "\r\n"@) + tail);
    text::encoding_of_a_concatenation(line + "\r\n"@, tail);
    lemma_written_line(line, encode_utf8(tail));
    let left = MAX_REQUEST_BYTES - encode_utf8(line + "\r\n"@).len();
    if left >= 0 {
        lemma_headers_past_the_limit(headers, left, ended);
    }
}

proof fn lemma_headers_past_the_limit(headers: Seq<Seq<char>>, budget: int, ended: bool)
    requires
        forall|i: int| 0 <= i < headers.len() ==> is_header(#[trigger] headers[i]),
        encode_utf8(client::written(headers) + "\r\n"@).len() > budget,
        budget >= 0,
    ensures
        extent(
            encode_utf8(client::written(headers) + "\r\n"@),
            false,
            budget,
            ended,
        ) is TooLarge,
    decreases headers.len(),
{
    let none = Seq::<u8>::empty();
    if headers.len() == 0 {
        let empty = Seq::<char>::empty();
        assert(client::written(headers) + "\r\n"@ =~= empty + "\r\n"@);
        lemma_written_line(empty, none);
        assert(encode_utf8(empty + "\r\n"@) + none =~= encode_utf8(empty + "\r\n"@));
    } else {
        let line = headers[0];
        let others = headers.skip(1);
        assert(is_header(line));
        assert forall|i: int| 0 <= i < others.len() implies is_header(#[trigger] others[i]) by {
            assert(others[i] == headers[i + 1]);
        }
        let tail = client::written(others) + "\r\n"@;
        assert(client::written(headers) + "\r\n"@ =~= (line + "\r\n"@) + tail);
        text::encoding_of_a_concatenation(line + "\r\n"@, tail);
        lemma_written_line(line, encode_utf8(tail));
        let left = budget - encode_utf8(line + "\r\n"@).len();
        if left >= 0 {
            lemma_headers_past_the_limit(others, left, ended);
        }
    }
}

/// Lines of text, each with the line feed that ends it.
pub open spec fn fed(lines: Seq<Seq<char>>) -> Seq<char>
    decreases lines.len(),
{
    if lines.len() == 0 {
        Seq::empty()
    } else {
        lines[0] + seq!['\n'] + fed(lines.skip(1))
    }
}

/// Whether a line, without its line feed, is one that ends the headers.
pub open spec fn ends_headers(line: Seq<char>) -> bool {
    line.len() == 0 || line == seq!['\r']
}

proof fn lemma_fed_line(line: Seq<char>, rest: Seq<u8>)
    requires
        !line.contains('\n'),
    ensures
        ({
            let bytes = encode_utf8(line + seq!['\n']);
            let s = bytes + rest;
            &&& line_len(s) == Some(bytes.len())
            &&& s.take(bytes.len() as int) == bytes
            &&& s.skip(bytes.len() as int) == rest
            &&& valid_utf8(bytes)
            &&& decode_utf8(bytes) == line + seq!['\n']
            &&& is_blank_line(bytes) <==> ends_headers(line)
            &&& bytes.len() >= 1
        }),
{
    let feed = seq!['\n'];
    let bytes = encode_utf8(line + feed);
    let s = bytes + rest;
    let l = encode_utf8(line);
    assert(is_ascii_chars(feed));
    is_ascii_chars_encode_utf8(feed);
    assert(encode_utf8(feed) =~= seq![0x0au8]);
    text::encoding_of_a_concatenation(line, feed);
    assert(0x0au8 as char == '\n');
    text::absent_ascii_stays_absent(line, 0x0a);
    let n = bytes.len() as int;
    assert forall|i: int| 0 <= i < n - 1 implies s[i] != 0x0a by {
        assert(s[i] == l[i]);
    }
    assert(s[n - 1] == 0x0a);
    lemma_line_len(s, n);
    assert(s.take(n) =~= bytes);
    assert(s.skip(n) =~= rest);
    encode_utf8_valid_utf8(line + feed);
    encode_utf8_decode_utf8(line + feed);
    let none = Seq::<char>::empty();
    let back = seq!['\r'];
    assert(encode_utf8(none) =~= Seq::<u8>::empty());
    assert(is_ascii_chars(back));
    is_ascii_chars_encode_utf8(back);
    assert(encode_utf8(back) =~= seq![0x0du8]);
    text::bytes_tell_texts_apart(line, none);
    text::bytes_tell_texts_apart(line, back);
    if ends_headers(line) {
        if line.len() == 0 {
            assert(line =~= none);
            assert(bytes =~= seq![0x0au8]);
        } else {
            assert(bytes =~= seq![0x0du8, 0x0au8]);
        }
    }
    if is_blank_line(bytes) {
        assert(bytes.drop_last() =~= l);
        if bytes == seq![0x0au8] {
            assert(l =~= encode_utf8(none));
        } else {
            assert(l =~= encode_utf8(back));
        }
    }
}

proof fn lemma_fed_headers(
    headers: Seq<Seq<char>>,
    last: Seq<char>,
    more: Seq<u8>,
    budget: int,
    ended: bool,
)
    requires
        forall|i: int|
            0 <= i < headers.len() ==> !(#[trigger] headers[i]).contains('\n') && !ends_headers(
                headers[i],
            ),
        ends_headers(last),
        encode_utf8(fed(headers) + last + seq!['\n']).len() <= budget,
    ensures
        extent(
            encode_utf8(fed(headers) + last + seq!['\n']) + more,
            false,
            budget,
            ended,
        ) is Whole,
        head_len(encode_utf8(fed(headers) + last + seq!['\n']) + more, false) == encode_utf8(
            fed(headers) + last + seq!['\n'],
        ).len(),
    decreases headers.len(),
{
    let feed = seq!['\n'];
    let all = encode_utf8(fed(headers) + last + feed);
    assert(!last.contains('\n'));
    if headers.len() == 0 {
        assert(fed(headers) + last + feed =~= last + feed);
        lemma_fed_line(last, more);
    } else {
        let line = headers[0];
        let others = headers.skip(1);
        assert(!line.contains('\n') && !ends_headers(line));
        assert forall|i: int| 0 <= i < others.len() implies !(#[trigger] others[i]).contains('\n')
            && !ends_headers(others[i]) by {
            assert(others[i] == headers[i + 1]);
        }
        let tail = fed(others) + last + feed;
        assert(fed(headers) + last + feed =~= (line + feed) + tail);
        text::encoding_of_a_concatenation(line + feed, tail);
        let rest = encode_utf8(tail) + more;
        assert(all + more =~= encode_utf8(line + feed) + rest);
        lemma_fed_line(line, rest);
        lemma_fed_headers(others, last, more, budget - encode_utf8(line + feed).len(), ended);
    }
}

proof fn lemma_words_of_fed_line(line: Seq<char>)
    ensures
        text::words(line + seq!['\n']) == text::words(line),
{
    let none = Seq::<char>::empty();
    assert(line + seq!['\n'] =~= line + seq!['\n'] + none);
    text::words_end_at_white_space(line, '\n', none);
    assert(text::words(none) =~= Seq::<Seq<char>>::empty());
    assert(text::words(line) + text::words(none) =~= text::words(line));
}

/// Lines may end in a line feed alone: the first is the request line, and those that follow it up to
/// the first that is empty, but for a carriage return, are the headers.
pub proof fn a_request_is_read_line_by_line(
    line: Seq<char>,
    headers: Seq<Seq<char>>,
    last: Seq<char>,
    more: Seq<u8>,
    ended: bool,
)
    requires
        !line.contains('\n'),
        forall|i: int|
            0 <= i < headers.len() ==> !(#[trigger] headers[i]).contains('\n') && !ends_headers(
                headers[i],
            ),
        ends_headers(last),
        encode_utf8(line + seq!['\n'] + (fed(headers) + last + seq!['\n'])).len()
            <= MAX_REQUEST_BYTES,
    ensures
        ({
            let bytes = encode_utf8(line + seq!['\n'] + (fed(headers) + last + seq!['\n']));
            let w = text::words(line);
            &&& reading(bytes + more, ended) == (if w.len() == 3 && (w[2] == "HTTP/1.0"@ || w[2]
                == "HTTP/1.1"@) {
                Reading::Complete { method: text::uppered(w[0]), path: w[1] }
            } else {
                Reading::Refused(StatusCode::BadRequest)
            })
            &&& head_len(bytes + more, true) == bytes.len()
        }),
{
    let feed = seq!['\n'];
    let tail = fed(headers) + last + feed;
    text::encoding_of_a_concatenation(line + feed, tail);
    let first = encode_utf8(line + feed);
    let rest = encode_utf8(tail) + more;
    let received = encode_utf8(line + feed + tail) + more;
    assert(received =~= first + rest);
    lemma_fed_line(line, rest);
    lemma_fed_headers(headers, last, more, MAX_REQUEST_BYTES - first.len(), ended);
    assert(first_line(received) == first);
    lemma_words_of_fed_line(line);
}

/// A request line that does not end is waited for within the limit, and where the stream ends it
/// counts as it is.
pub proof fn a_line_without_an_end_is_waited_for(line: Seq<u8>)
    requires
        !line.contains(0x0a),
        0 < line.len() <= MAX_REQUEST_BYTES,
    ensures
        reading(line, false) is Incomplete,
        !valid_utf8(line) ==> reading(line, true) == Reading::Refused(StatusCode::BadRequest),
        valid_utf8(line) ==> reading(line, true) == ({
            let w = text::words(decode_utf8(line));
            if w.len() == 3 && (w[2] == "HTTP/1.0"@ || w[2] == "HTTP/1.1"@) {
                Reading::Complete { method: text::uppered(w[0]), path: w[1] }
            } else {
                Reading::Refused(StatusCode::BadRequest)
            }
        }),
{
    assert forall|i: int| 0 <= i < line.len() implies line[i] != 0x0a by {
        assert(line.contains(line[i]));
    }
    lemma_no_line(line);
}

} // verus!
