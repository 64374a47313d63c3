//! HTTP/1.1 responses, byte by byte.
use crate::client;
use crate::status;
use crate::status::StatusCode;
use crate::text;
use vstd::prelude::*;
use vstd::string::*;
use vstd::utf8::*;

verus! {

/// The header fields that every response carries, whatever it answers.
pub open spec fn security_headers(cache_max_age: nat) -> Seq<char> {
    "X-Content-Type-Options: nosniff\r\n"@ + "X-Frame-Options: DENY\r\n"@
        + "Content-Security-Policy: default-src 'none'; style-src 'self'; img-src 'self'; font-src 'self'\r\n"@
        + "Referrer-Policy: no-referrer\r\n"@ + "Cache-Control: public, max-age="@ + text::decimal(
        cache_max_age,
    ) + "\r\n"@
}

/// The status line and the header fields of a response, with the empty line that ends them.
pub open spec fn response_head(
    status: StatusCode,
    content_type: Seq<char>,
    length: nat,
    cache_max_age: nat,
    keep_alive: bool,
) -> Seq<char> {
    "HTTP/1.1 "@ + text::decimal(status::status_number(status) as nat) + " "@ + status::reason(
        status,
    ) + "\r\nContent-Type: "@ + content_type + "\r\nContent-Length: "@ + text::decimal(length)
        + "\r\n"@ + security_headers(cache_max_age) + "Connection: "@ + (if keep_alive {
        "keep-alive"@
    } else {
        "close"@
    }) + "\r\n\r\n"@
}

/// The bytes of a whole response. One that answers `HEAD` leaves out the body, but not its length.
pub open spec fn response_bytes(
    status: StatusCode,
    content_type: Seq<char>,
    body: Seq<u8>,
    cache_max_age: nat,
    head_only: bool,
    keep_alive: bool,
) -> Seq<u8> {
    encode_utf8(response_head(status, content_type, body.len(), cache_max_age, keep_alive)) + (
    if head_only {
        Seq::<u8>::empty()
    } else {
        body
    })
}

/// The fixed body that explains an error status; it never repeats what the client sent.
pub open spec fn error_body(status: StatusCode) -> Seq<char> {
    match status {
        StatusCode::BadRequest => "400 Bad Request"@,
        StatusCode::Forbidden => "403 Forbidden"@,
        StatusCode::NotFound => "404 Not Found"@,
        StatusCode::MethodNotAllowed => "405 Method Not Allowed"@,
        StatusCode::PayloadTooLarge => "413 Payload Too Large"@,
        StatusCode::InternalServerError => "500 Internal Server Error"@,
        StatusCode::Success => ""@,
    }
}

/// The bytes of an error response.
pub open spec fn error_bytes(status: StatusCode, cache_max_age: nat, keep_alive: bool) -> Seq<u8> {
    response_bytes(
        status,
        "text/html; charset=utf-8"@,
        encode_utf8(error_body(status)),
        cache_max_age,
        false,
        keep_alive,
    )
}

/// Appends a complete HTTP/1.1 response. Always sets the security headers.
pub fn write_response(
    out: &mut Vec<u8>,
    status: StatusCode,
    content_type: &str,
    body: &[u8],
    cache_max_age: u64,
    head_only: bool,
    keep_alive: bool,
)
    ensures
        final(out)@ == old(out)@ + response_bytes(
            status,
            content_type@,
            body@,
            cache_max_age as nat,
            head_only,
            keep_alive,
        ),
{
    let mut head = String::new();
    head.append("HTTP/1.1 ");
    text::push_decimal(&mut head, status.code() as u64);
    head.append(" ");
    head.append(status.phrase());
    head.append("\r\nContent-Type: ");
    head.append(content_type);
    head.append("\r\nContent-Length: ");
    text::push_decimal(&mut head, body.len() as u64);
    head.append("\r\n");
    let ghost before = head@;
    head.append("X-Content-Type-Options: nosniff\r\n");
    head.append("X-Frame-Options: DENY\r\n");
    head.append(
        "Content-Security-Policy: default-src 'none'; style-src 'self'; img-src 'self'; font-src 'self'\r\n",
    );
    head.append("Referrer-Policy: no-referrer\r\n");
    head.append("Cache-Control: public, max-age=");
    text::push_decimal(&mut head, cache_max_age);
    head.append("\r\n");
    assert(head@ =~= before + security_headers(cache_max_age as nat));
    head.append("Connection: ");
    if keep_alive {
        head.append("keep-alive");
    } else {
        head.append("close");
    }
    head.append("\r\n\r\n");
    assert(head@ =~= response_head(
        status,
        content_type@,
        body@.len(),
        cache_max_age as nat,
        keep_alive,
    ));
    text::push_bytes(out, head.as_str().as_bytes());
    if !head_only {
        text::push_bytes(out, body);
    }
}

/// Appends an error response with its fixed body.
pub fn write_error(out: &mut Vec<u8>, status: StatusCode, cache_max_age: u64, keep_alive: bool)
    ensures
        final(out)@ == old(out)@ + error_bytes(status, cache_max_age as nat, keep_alive),
{
    let body = match status {
        StatusCode::BadRequest => "400 Bad Request",
        StatusCode::Forbidden => "403 Forbidden",
        StatusCode::NotFound => "404 Not Found",
        StatusCode::MethodNotAllowed => "405 Method Not Allowed",
        StatusCode::PayloadTooLarge => "413 Payload Too Large",
        StatusCode::InternalServerError => "500 Internal Server Error",
        StatusCode::Success => "",
    };
    write_response(
        out,
        status,
        "text/html; charset=utf-8",
        body.as_bytes(),
        cache_max_age,
        false,
        keep_alive,
    );
}

/// Every response carries the security headers.
pub proof fn every_response_is_guarded(
    status: StatusCode,
    content_type: Seq<char>,
    body: Seq<u8>,
    cache_max_age: nat,
    head_only: bool,
    keep_alive: bool,
)
    ensures
        text::occurs_in(
            encode_utf8(security_headers(cache_max_age)),
            response_bytes(status, content_type, body, cache_max_age, head_only, keep_alive),
        ),
{
    let before = "HTTP/1.1 "@ + text::decimal(status::status_number(status) as nat) + " "@
        + status::reason(status) + "\r\nContent-Type: "@ + content_type + "\r\nContent-Length: "@
        + text::decimal(body.len()) + "\r\n"@;
    let after = "Connection: "@ + (if keep_alive {
        "keep-alive"@
    } else {
        "close"@
    }) + "\r\n\r\n"@;
    let head = response_head(status, content_type, body.len(), cache_max_age, keep_alive);
    let headers = security_headers(cache_max_age);
    let guard = encode_utf8(headers);
    assert(head =~= before + (headers + after));
    text::encoding_of_a_concatenation(before, headers + after);
    text::encoding_of_a_concatenation(headers, after);
    let whole = response_bytes(status, content_type, body, cache_max_age, head_only, keep_alive);
    let i = encode_utf8(before).len() as int;
    assert(whole.subrange(i, i + guard.len()) =~= guard);
}

/// Every error response carries the security headers.
pub proof fn every_error_is_guarded(status: StatusCode, cache_max_age: nat, keep_alive: bool)
    ensures
        text::occurs_in(
            encode_utf8(security_headers(cache_max_age)),
            error_bytes(status, cache_max_age, keep_alive),
        ),
{
    every_response_is_guarded(
        status,
        "text/html; charset=utf-8"@,
        encode_utf8(error_body(status)),
        cache_max_age,
        false,
        keep_alive,
    );
}

/// The answer to `GET` is the answer to `HEAD` followed by the body, and nothing else.
pub proof fn head_answers_are_get_answers_without_the_body(
    status: StatusCode,
    content_type: Seq<char>,
    body: Seq<u8>,
    cache_max_age: nat,
    keep_alive: bool,
)
    ensures
        response_bytes(status, content_type, body, cache_max_age, false, keep_alive)
            == response_bytes(status, content_type, body, cache_max_age, true, keep_alive) + body,
{
    assert(response_bytes(status, content_type, body, cache_max_age, true, keep_alive)
        =~= encode_utf8(
        response_head(status, content_type, body.len(), cache_max_age, keep_alive),
    ));
}

proof fn lemma_reason(status: StatusCode)
    ensures
        status::reason(status).len() > 0,
        !status::reason(status).contains('\r'),
{
    reveal_strlit("OK");
    reveal_strlit("Bad Request");
    reveal_strlit("Forbidden");
    reveal_strlit("Not Found");
    reveal_strlit("Method Not Allowed");
    reveal_strlit("Payload Too Large");
    reveal_strlit("Internal Server Error");
}

/// A text without a carriage return, in front of another such text, holds none either.
proof fn lemma_no_break(a: Seq<char>, b: Seq<char>)
    requires
        !a.contains('\r'),
        !b.contains('\r'),
    ensures
        !(a + b).contains('\r'),
{
    if (a + b).contains('\r') {
        let i = choose|i: int| 0 <= i < (a + b).len() && (a + b)[i] == '\r';
        if i < a.len() {
            assert(a[i] == '\r');
        } else {
            assert(b[i - a.len()] == '\r');
        }
    }
}

proof fn lemma_number_without_break(n: nat)
    ensures
        !text::decimal(n).contains('\r'),
{
    text::a_number_is_written_with_digits_alone(n);
}

/// A client reads nine lines and the body: the status, the media type and the length of the body,
/// the security headers and what becomes of the connection. To `HEAD` the body is left out, and
/// nothing else.
pub proof fn a_client_reads_what_was_answered(
    status: StatusCode,
    content_type: Seq<char>,
    body: Seq<u8>,
    cache_max_age: nat,
    head_only: bool,
    keep_alive: bool,
)
    requires
        !content_type.contains('\r'),
    ensures
        ({
            let bytes = response_bytes(
                status,
                content_type,
                body,
                cache_max_age,
                head_only,
                keep_alive,
            );
            &&& client::body(bytes) == (if head_only {
                Seq::<u8>::empty()
            } else {
                body
            })
            &&& client::head_lines(bytes) == client::encoded(
                seq![
                    "HTTP/1.1"@ + " "@ + text::decimal(status::status_number(status) as nat) + " "@
                        + status::reason(status),
                    "Content-Type"@ + ": "@ + content_type,
                    "Content-Length"@ + ": "@ + text::decimal(body.len()),
                    "X-Content-Type-Options"@ + ": "@ + "nosniff"@,
                    "X-Frame-Options"@ + ": "@ + "DENY"@,
                    "Content-Security-Policy"@ + ": "@
                        + "default-src 'none'; style-src 'self'; img-src 'self'; font-src 'self'"@,
                    "Referrer-Policy"@ + ": "@ + "no-referrer"@,
                    "Cache-Control"@ + ": "@ + ("public, max-age="@ + text::decimal(cache_max_age)),
                    "Connection"@ + ": "@ + (if keep_alive {
                        "keep-alive"@
                    } else {
                        "close"@
                    }),
                ],
            )
        }),
{
    let kept = if keep_alive {
        "keep-alive"@
    } else {
        "close"@
    };
    let lines = seq![
        "HTTP/1.1"@ + " "@ + text::decimal(status::status_number(status) as nat) + " "@
            + status::reason(status),
        "Content-Type"@ + ": "@ + content_type,
        "Content-Length"@ + ": "@ + text::decimal(body.len()),
        "X-Content-Type-Options"@ + ": "@ + "nosniff"@,
        "X-Frame-Options"@ + ": "@ + "DENY"@,
        "Content-Security-Policy"@ + ": "@
            + "default-src 'none'; style-src 'self'; img-src 'self'; font-src 'self'"@,
        "Referrer-Policy"@ + ": "@ + "no-referrer"@,
        "Cache-Control"@ + ": "@ + ("public, max-age="@ + text::decimal(cache_max_age)),
        "Connection"@ + ": "@ + kept,
    ];
    let head = response_head(status, content_type, body.len(), cache_max_age, keep_alive);
    assert(client::written(lines) + "\r\n"@ == head) by {
        lemma_lines_of_head(status, content_type, body.len(), cache_max_age, keep_alive);
    }
    assert forall|i: int| 0 <= i < lines.len() implies !(#[trigger] lines[i]).contains('\r')
        && lines[i].len() > 0 by {
        reveal_strlit("HTTP/1.1");
        reveal_strlit(" ");
        reveal_strlit(": ");
        lemma_number_without_break(status::status_number(status) as nat);
        lemma_number_without_break(body.len());
        lemma_number_without_break(cache_max_age);
        lemma_reason(status);
        lemma_names_without_break();
        lemma_no_break("HTTP/1.1"@, " "@);
        lemma_no_break("HTTP/1.1"@ + " "@, text::decimal(status::status_number(status) as nat));
        lemma_no_break(
            "HTTP/1.1"@ + " "@ + text::decimal(status::status_number(status) as nat),
            " "@,
        );
        lemma_no_break(
            "HTTP/1.1"@ + " "@ + text::decimal(status::status_number(status) as nat) + " "@,
            status::reason(status),
        );
        lemma_no_break("public, max-age="@, text::decimal(cache_max_age));
        lemma_field_without_break("Content-Type"@, content_type);
        lemma_field_without_break("Content-Length"@, text::decimal(body.len()));
        lemma_field_without_break("X-Content-Type-Options"@, "nosniff"@);
        lemma_field_without_break("X-Frame-Options"@, "DENY"@);
        lemma_field_without_break(
            "Content-Security-Policy"@,
            "default-src 'none'; style-src 'self'; img-src 'self'; font-src 'self'"@,
        );
        lemma_field_without_break("Referrer-Policy"@, "no-referrer"@);
        lemma_field_without_break(
            "Cache-Control"@,
            "public, max-age="@ + text::decimal(cache_max_age),
        );
        lemma_field_without_break("Connection"@, kept);
        assert(i == 0 || i == 1 || i == 2 || i == 3 || i == 4 || i == 5 || i == 6 || i == 7 || i
            == 8);
    }
    client::a_message_is_read_as_it_was_written(
        lines,
        if head_only {
            Seq::<u8>::empty()
        } else {
            body
        },
    );
}

proof fn lemma_names_without_break()
    ensures
        !"Content-Type"@.contains('\r'),
        !"Content-Length"@.contains('\r'),
        !"X-Content-Type-Options"@.contains('\r'),
        !"nosniff"@.contains('\r'),
        !"X-Frame-Options"@.contains('\r'),
        !"DENY"@.contains('\r'),
        !"Content-Security-Policy"@.contains('\r'),
        !"default-src 'none'; style-src 'self'; img-src 'self'; font-src 'self'"@.contains('\r'),
        !"Referrer-Policy"@.contains('\r'),
        !"no-referrer"@.contains('\r'),
        !"Cache-Control"@.contains('\r'),
        !"public, max-age="@.contains('\r'),
        !"Connection"@.contains('\r'),
        !"keep-alive"@.contains('\r'),
        !"close"@.contains('\r'),
{
    reveal_strlit("Content-Type");
    reveal_strlit("Content-Length");
    reveal_strlit("X-Content-Type-Options");
    reveal_strlit("nosniff");
    reveal_strlit("X-Frame-Options");
    reveal_strlit("DENY");
    reveal_strlit("Content-Security-Policy");
    reveal_strlit("default-src 'none'; style-src 'self'; img-src 'self'; font-src 'self'");
    reveal_strlit("Referrer-Policy");
    reveal_strlit("no-referrer");
    reveal_strlit("Cache-Control");
    reveal_strlit("public, max-age=");
    reveal_strlit("Connection");
    reveal_strlit("keep-alive");
    reveal_strlit("close");
}

proof fn lemma_field_without_break(name: Seq<char>, value: Seq<char>)
    requires
        !name.contains('\r'),
        !value.contains('\r'),
    ensures
        !(name + ": "@ + value).contains('\r'),
        (name + ": "@ + value).len() > 0,
{
    reveal_strlit(": ");
    lemma_no_break(name, ": "@);
    lemma_no_break(name + ": "@, value);
}

/// The head of a response, line by line.
proof fn lemma_lines_of_head(
    status: StatusCode,
    content_type: Seq<char>,
    length: nat,
    cache_max_age: nat,
    keep_alive: bool,
)
    ensures
        client::written(
            seq![
                "HTTP/1.1"@ + " "@ + text::decimal(status::status_number(status) as nat) + " "@
                    + status::reason(status),
                "Content-Type"@ + ": "@ + content_type,
                "Content-Length"@ + ": "@ + text::decimal(length),
                "X-Content-Type-Options"@ + ": "@ + "nosniff"@,
                "X-Frame-Options"@ + ": "@ + "DENY"@,
                "Content-Security-Policy"@ + ": "@
                    + "default-src 'none'; style-src 'self'; img-src 'self'; font-src 'self'"@,
                "Referrer-Policy"@ + ": "@ + "no-referrer"@,
                "Cache-Control"@ + ": "@ + ("public, max-age="@ + text::decimal(cache_max_age)),
                "Connection"@ + ": "@ + (if keep_alive {
                    "keep-alive"@
                } else {
                    "close"@
                }),
            ],
        ) + "\r\n"@ == response_head(status, content_type, length, cache_max_age, keep_alive),
{
    let kept = if keep_alive {
        "keep-alive"@
    } else {
        "close"@
    };
    let l0 = "HTTP/1.1"@ + " "@ + text::decimal(status::status_number(status) as nat) + " "@
        + status::reason(status);
    let l1 = "Content-Type"@ + ": "@ + content_type;
    let l2 = "Content-Length"@ + ": "@ + text::decimal(length);
    let l3 = "X-Content-Type-Options"@ + ": "@ + "nosniff"@;
    let l4 = "X-Frame-Options"@ + ": "@ + "DENY"@;
    let l5 = "Content-Security-Policy"@ + ": "@
        + "default-src 'none'; style-src 'self'; img-src 'self'; font-src 'self'"@;
    let l6 = "Referrer-Policy"@ + ": "@ + "no-referrer"@;
    let l7 = "Cache-Control"@ + ": "@ + ("public, max-age="@ + text::decimal(cache_max_age));
    let l8 = "Connection"@ + ": "@ + kept;
    let lines = seq![l0, l1, l2, l3, l4, l5, l6, l7, l8];
    let nl = "\r\n"@;
    lemma_fixed_lines();
    lemma_written_nine(l0, l1, l2, l3, l4, l5, l6, l7, l8);
    let number = text::decimal(status::status_number(status) as nat);
    let reason = status::reason(status);
    let size = text::decimal(length);
    let age = text::decimal(cache_max_age);
    // The lines up to the security headers.
    let colon1 = "Content-Type"@ + ": "@;
    let colon2 = "Content-Length"@ + ": "@;
    let h1 = "HTTP/1.1 "@ + number + " "@ + reason;
    assert(h1 == l0);
    let h2 = h1 + "\r\nContent-Type: "@ + content_type;
    lemma_regroup(l0, nl, colon1, content_type);
    assert(h2 == l0 + nl + l1);
    let h3 = h2 + "\r\nContent-Length: "@ + size;
    lemma_regroup(h2, nl, colon2, size);
    assert(h3 == l0 + nl + l1 + nl + l2);
    // The security headers.
    let cache = "Cache-Control"@ + ": "@;
    let s4 = "X-Content-Type-Options: nosniff\r\n"@ + "X-Frame-Options: DENY\r\n"@
        + "Content-Security-Policy: default-src 'none'; style-src 'self'; img-src 'self'; font-src 'self'\r\n"@
        + "Referrer-Policy: no-referrer\r\n"@;
    lemma_associates(l3 + nl, l4, nl);
    lemma_associates(l3 + nl + l4 + nl, l5, nl);
    lemma_associates(l3 + nl + l4 + nl + l5 + nl, l6, nl);
    let t4 = l3 + nl + l4 + nl + l5 + nl + l6 + nl;
    assert(s4 == t4);
    lemma_associates(cache, "public, max-age="@, age);
    lemma_associates(t4, cache + "public, max-age="@, age);
    let headers = security_headers(cache_max_age);
    assert(headers == t4 + l7 + nl);
    // The two together, and the rest.
    let h4 = h3 + nl;
    lemma_spread(h4, l3, nl, l4, l5, l6, l7);
    let h5 = h4 + headers;
    assert(h5 == h4 + l3 + nl + l4 + nl + l5 + nl + l6 + nl + l7 + nl);
    lemma_associates(h5, "Connection"@ + ": "@, kept);
    let h6 = h5 + "Connection: "@ + kept;
    assert(h6 == h5 + l8);
    lemma_associates(h6, nl, nl);
    assert(h6 + "\r\n\r\n"@ == h6 + nl + nl);
}

proof fn lemma_associates(a: Seq<char>, b: Seq<char>, c: Seq<char>)
    ensures
        a + (b + c) == a + b + c,
{
    assert(a + (b + c) =~= a + b + c);
}

proof fn lemma_regroup(a: Seq<char>, b: Seq<char>, c: Seq<char>, d: Seq<char>)
    ensures
        a + (b + c) + d == a + b + (c + d),
{
    assert(a + (b + c) + d =~= a + b + (c + d));
}

proof fn lemma_spread(
    h: Seq<char>,
    a: Seq<char>,
    nl: Seq<char>,
    b: Seq<char>,
    c: Seq<char>,
    d: Seq<char>,
    e: Seq<char>,
)
    ensures
        h + (a + nl + b + nl + c + nl + d + nl + e + nl) == h + a + nl + b + nl + c + nl + d + nl
            + e + nl,
{
    lemma_associates(h, a, nl);
    lemma_associates(h, a + nl, b);
    lemma_associates(h, a + nl + b, nl);
    lemma_associates(h, a + nl + b + nl, c);
    lemma_associates(h, a + nl + b + nl + c, nl);
    lemma_associates(h, a + nl + b + nl + c + nl, d);
    lemma_associates(h, a + nl + b + nl + c + nl + d, nl);
    lemma_associates(h, a + nl + b + nl + c + nl + d + nl, e);
    lemma_associates(h, a + nl + b + nl + c + nl + d + nl + e, nl);
}

/// The fixed lines, as they stand in the head.
proof fn lemma_fixed_lines()
    ensures
        "HTTP/1.1 "@ == "HTTP/1.1"@ + " "@,
        "\r\nContent-Type: "@ == "\r\n"@ + ("Content-Type"@ + ": "@),
        "\r\nContent-Length: "@ == "\r\n"@ + ("Content-Length"@ + ": "@),
        "X-Content-Type-Options: nosniff\r\n"@ == "X-Content-Type-Options"@ + ": "@ + "nosniff"@
            + "\r\n"@,
        "X-Frame-Options: DENY\r\n"@ == "X-Frame-Options"@ + ": "@ + "DENY"@ + "\r\n"@,
        "Content-Security-Policy: default-src 'none'; style-src 'self'; img-src 'self'; font-src 'self'\r\n"@
            == "Content-Security-Policy"@ + ": "@
            + "default-src 'none'; style-src 'self'; img-src 'self'; font-src 'self'"@ + "\r\n"@,
        "Referrer-Policy: no-referrer\r\n"@ == "Referrer-Policy"@ + ": "@ + "no-referrer"@
            + "\r\n"@,
        "Cache-Control: public, max-age="@ == "Cache-Control"@ + ": "@ + "public, max-age="@,
        "Connection: "@ == "Connection"@ + ": "@,
        "\r\n\r\n"@ == "\r\n"@ + "\r\n"@,
{
    reveal_strlit("\r\n");
    reveal_strlit("\r\n\r\n");
    reveal_strlit(" ");
    reveal_strlit(": ");
    reveal_strlit("HTTP/1.1");
    reveal_strlit("HTTP/1.1 ");
    reveal_strlit("Content-Type");
    reveal_strlit("\r\nContent-Type: ");
    reveal_strlit("Content-Length");
    reveal_strlit("\r\nContent-Length: ");
    reveal_strlit("X-Content-Type-Options");
    reveal_strlit("nosniff");
    reveal_strlit("X-Content-Type-Options: nosniff\r\n");
    reveal_strlit("X-Frame-Options");
    reveal_strlit("DENY");
    reveal_strlit("X-Frame-Options: DENY\r\n");
    reveal_strlit("Content-Security-Policy");
    reveal_strlit("default-src 'none'; style-src 'self'; img-src 'self'; font-src 'self'");
    reveal_strlit(
        "Content-Security-Policy: default-src 'none'; style-src 'self'; img-src 'self'; font-src 'self'\r\n",
    );
    reveal_strlit("Referrer-Policy");
    reveal_strlit("no-referrer");
    reveal_strlit("Referrer-Policy: no-referrer\r\n");
    reveal_strlit("Cache-Control");
    reveal_strlit("public, max-age=");
    reveal_strlit("Cache-Control: public, max-age=");
    reveal_strlit("Connection");
    reveal_strlit("Connection: ");
}

proof fn lemma_written_nine(
    l0: Seq<char>,
    l1: Seq<char>,
    l2: Seq<char>,
    l3: Seq<char>,
    l4: Seq<char>,
    l5: Seq<char>,
    l6: Seq<char>,
    l7: Seq<char>,
    l8: Seq<char>,
)
    ensures
        client::written(seq![l0, l1, l2, l3, l4, l5, l6, l7, l8]) == l0 + "\r\n"@ + l1 + "\r\n"@
            + l2 + "\r\n"@ + l3 + "\r\n"@ + l4 + "\r\n"@ + l5 + "\r\n"@ + l6 + "\r\n"@ + l7
            + "\r\n"@ + l8 + "\r\n"@,
{
    let none = Seq::<Seq<char>>::empty();
    client::lines_are_written_in_order(none, l0);
    assert(client::written(none) + l0 =~= l0);
    assert(none.push(l0) =~= seq![l0]);
    assert(seq![l0].push(l1) =~= seq![l0, l1]);
    assert(seq![l0, l1].push(l2) =~= seq![l0, l1, l2]);
    assert(seq![l0, l1, l2].push(l3) =~= seq![l0, l1, l2, l3]);
    assert(seq![l0, l1, l2, l3].push(l4) =~= seq![l0, l1, l2, l3, l4]);
    assert(seq![l0, l1, l2, l3, l4].push(l5) =~= seq![l0, l1, l2, l3, l4, l5]);
    assert(seq![l0, l1, l2, l3, l4, l5].push(l6) =~= seq![l0, l1, l2, l3, l4, l5, l6]);
    assert(seq![l0, l1, l2, l3, l4, l5, l6].push(l7) =~= seq![l0, l1, l2, l3, l4, l5, l6, l7]);
    assert(seq![l0, l1, l2, l3, l4, l5, l6, l7].push(l8) =~= seq![
        l0,
        l1,
        l2,
        l3,
        l4,
        l5,
        l6,
        l7,
        l8,
    ]);
    client::lines_are_written_in_order(seq![l0], l1);
    client::lines_are_written_in_order(seq![l0, l1], l2);
    client::lines_are_written_in_order(seq![l0, l1, l2], l3);
    client::lines_are_written_in_order(seq![l0, l1, l2, l3], l4);
    client::lines_are_written_in_order(seq![l0, l1, l2, l3, l4], l5);
    client::lines_are_written_in_order(seq![l0, l1, l2, l3, l4, l5], l6);
    client::lines_are_written_in_order(seq![l0, l1, l2, l3, l4, l5, l6], l7);
    client::lines_are_written_in_order(seq![l0, l1, l2, l3, l4, l5, l6, l7], l8);
}

/// A line that starts with another name is not the field of this name.
proof fn lemma_other_name(name: Seq<char>, other: Seq<char>, rest: Seq<char>, i: int)
    requires
        0 <= i < name.len(),
        i < other.len(),
        name[i] != other[i],
        is_ascii_chars(name),
        is_ascii_chars(other),
    ensures
        !encode_utf8(name + ": "@).is_prefix_of(encode_utf8(other + rest)),
{
    let start = name + ": "@;
    let line = other + rest;
    assert forall|j: int| 0 <= j <= i implies (#[trigger] start[j]) <= '\u{7f}' by {
        assert(start[j] == name[j]);
    }
    assert forall|j: int| 0 <= j <= i implies (#[trigger] line[j]) <= '\u{7f}' by {
        assert(line[j] == other[j]);
    }
    client::another_line_is_no_field(start, line, i);
}

/// The names of the header fields differ from each other, and from the start of the status line.
proof fn lemma_names_differ()
    ensures
        is_ascii_chars("HTTP/1.1"@),
        is_ascii_chars("Content-Type"@),
        is_ascii_chars("Content-Length"@),
        is_ascii_chars("X-Content-Type-Options"@),
        is_ascii_chars("X-Frame-Options"@),
        is_ascii_chars("Content-Security-Policy"@),
        is_ascii_chars("Referrer-Policy"@),
        is_ascii_chars("Cache-Control"@),
        is_ascii_chars("Connection"@),
        "HTTP/1.1"@.len() == 8,
        "Content-Type"@.len() == 12,
        "Content-Length"@.len() == 14,
        "X-Content-Type-Options"@.len() == 22,
        "X-Frame-Options"@.len() == 15,
        "Content-Security-Policy"@.len() == 23,
        "Referrer-Policy"@.len() == 15,
        "Cache-Control"@.len() == 13,
        "Connection"@.len() == 10,
        "Content-Type"@[0] != "HTTP/1.1"@[0],
        "Content-Length"@[0] != "HTTP/1.1"@[0],
        "Content-Length"@[8] != "Content-Type"@[8],
        "X-Content-Type-Options"@[0] != "HTTP/1.1"@[0],
        "X-Content-Type-Options"@[0] != "Content-Type"@[0],
        "X-Content-Type-Options"@[0] != "Content-Length"@[0],
        "X-Frame-Options"@[0] != "HTTP/1.1"@[0],
        "X-Frame-Options"@[0] != "Content-Type"@[0],
        "X-Frame-Options"@[0] != "Content-Length"@[0],
        "X-Frame-Options"@[2] != "X-Content-Type-Options"@[2],
        "Content-Security-Policy"@[0] != "HTTP/1.1"@[0],
        "Content-Security-Policy"@[8] != "Content-Type"@[8],
        "Content-Security-Policy"@[8] != "Content-Length"@[8],
        "Content-Security-Policy"@[0] != "X-Content-Type-Options"@[0],
        "Content-Security-Policy"@[0] != "X-Frame-Options"@[0],
        "Referrer-Policy"@[0] != "HTTP/1.1"@[0],
        "Referrer-Policy"@[0] != "Content-Type"@[0],
        "Referrer-Policy"@[0] != "Content-Length"@[0],
        "Referrer-Policy"@[0] != "X-Content-Type-Options"@[0],
        "Referrer-Policy"@[0] != "X-Frame-Options"@[0],
        "Referrer-Policy"@[0] != "Content-Security-Policy"@[0],
        "Cache-Control"@[0] != "HTTP/1.1"@[0],
        "Cache-Control"@[1] != "Content-Type"@[1],
        "Cache-Control"@[1] != "Content-Length"@[1],
        "Cache-Control"@[0] != "X-Content-Type-Options"@[0],
        "Cache-Control"@[0] != "X-Frame-Options"@[0],
        "Cache-Control"@[1] != "Content-Security-Policy"@[1],
        "Cache-Control"@[0] != "Referrer-Policy"@[0],
        "Connection"@[0] != "HTTP/1.1"@[0],
        "Connection"@[3] != "Content-Type"@[3],
        "Connection"@[3] != "Content-Length"@[3],
        "Connection"@[0] != "X-Content-Type-Options"@[0],
        "Connection"@[0] != "X-Frame-Options"@[0],
        "Connection"@[3] != "Content-Security-Policy"@[3],
        "Connection"@[0] != "Referrer-Policy"@[0],
        "Connection"@[1] != "Cache-Control"@[1],
{
    reveal_strlit("HTTP/1.1");
    reveal_strlit("Content-Type");
    reveal_strlit("Content-Length");
    reveal_strlit("X-Content-Type-Options");
    reveal_strlit("X-Frame-Options");
    reveal_strlit("Content-Security-Policy");
    reveal_strlit("Referrer-Policy");
    reveal_strlit("Cache-Control");
    reveal_strlit("Connection");
}

/// A client finds each header field by its name: the media type, the length of the body in decimal,
/// the security headers, and whether the connection is kept.
#[verifier::rlimit(60)]
pub proof fn a_client_finds_the_fields(
    status: StatusCode,
    content_type: Seq<char>,
    body: Seq<u8>,
    cache_max_age: nat,
    head_only: bool,
    keep_alive: bool,
)
    requires
        !content_type.contains('\r'),
    ensures
        ({
            let bytes = response_bytes(
                status,
                content_type,
                body,
                cache_max_age,
                head_only,
                keep_alive,
            );
            let lines = client::head_lines(bytes);
            &&& client::field(lines, "Content-Type"@) == Some(encode_utf8(content_type))
            &&& client::field(lines, "Content-Length"@) == Some(
                encode_utf8(text::decimal(body.len())),
            )
            &&& client::field(lines, "X-Content-Type-Options"@) == Some(encode_utf8("nosniff"@))
            &&& client::field(lines, "X-Frame-Options"@) == Some(encode_utf8("DENY"@))
            &&& client::field(lines, "Content-Security-Policy"@) == Some(
                encode_utf8(
                    "default-src 'none'; style-src 'self'; img-src 'self'; font-src 'self'"@,
                ),
            )
            &&& client::field(lines, "Referrer-Policy"@) == Some(encode_utf8("no-referrer"@))
            &&& client::field(lines, "Cache-Control"@) == Some(
                encode_utf8("public, max-age="@ + text::decimal(cache_max_age)),
            )
            &&& client::field(lines, "Connection"@) == Some(
                encode_utf8(
                    if keep_alive {
                        "keep-alive"@
                    } else {
                        "close"@
                    },
                ),
            )
        }),
{
    a_client_reads_what_was_answered(
        status,
        content_type,
        body,
        cache_max_age,
        head_only,
        keep_alive,
    );
    let kept = if keep_alive {
        "keep-alive"@
    } else {
        "close"@
    };
    let number = text::decimal(status::status_number(status) as nat);
    let reason = status::reason(status);
    let lines = seq![
        "HTTP/1.1"@ + " "@ + number + " "@ + reason,
        "Content-Type"@ + ": "@ + content_type,
        "Content-Length"@ + ": "@ + text::decimal(body.len()),
        "X-Content-Type-Options"@ + ": "@ + "nosniff"@,
        "X-Frame-Options"@ + ": "@ + "DENY"@,
        "Content-Security-Policy"@ + ": "@ + "default-src 'none'; style-src 'self'; img-src 'self'; font-src 'self'"@,
        "Referrer-Policy"@ + ": "@ + "no-referrer"@,
        "Cache-Control"@ + ": "@ + ("public, max-age="@ + text::decimal(cache_max_age)),
        "Connection"@ + ": "@ + kept,
    ];
    let all = client::encoded(lines);
    lemma_names_differ();
    let r0 = " "@ + number + " "@ + reason;
    assert("HTTP/1.1"@ + " "@ + number + " "@ + reason =~= "HTTP/1.1"@ + r0);
    let r1 = ": "@ + content_type;
    lemma_associates("Content-Type"@, ": "@, content_type);
    let r2 = ": "@ + text::decimal(body.len());
    lemma_associates("Content-Length"@, ": "@, text::decimal(body.len()));
    let r3 = ": "@ + "nosniff"@;
    lemma_associates("X-Content-Type-Options"@, ": "@, "nosniff"@);
    let r4 = ": "@ + "DENY"@;
    lemma_associates("X-Frame-Options"@, ": "@, "DENY"@);
    let r5 = ": "@ + "default-src 'none'; style-src 'self'; img-src 'self'; font-src 'self'"@;
    lemma_associates("Content-Security-Policy"@, ": "@, "default-src 'none'; style-src 'self'; img-src 'self'; font-src 'self'"@);
    let r6 = ": "@ + "no-referrer"@;
    lemma_associates("Referrer-Policy"@, ": "@, "no-referrer"@);
    let r7 = ": "@ + ("public, max-age="@ + text::decimal(cache_max_age));
    lemma_associates("Cache-Control"@, ": "@, "public, max-age="@ + text::decimal(cache_max_age));
    assert(client::field(all, "Content-Type"@) == Some(encode_utf8(content_type))) by {
        lemma_other_name("Content-Type"@, "HTTP/1.1"@, r0, 0);
        client::a_field_is_found(lines, 1, "Content-Type"@, content_type);
    }
    assert(client::field(all, "Content-Length"@) == Some(encode_utf8(text::decimal(body.len())))) by {
        lemma_other_name("Content-Length"@, "HTTP/1.1"@, r0, 0);
        lemma_other_name("Content-Length"@, "Content-Type"@, r1, 8);
        client::a_field_is_found(lines, 2, "Content-Length"@, text::decimal(body.len()));
    }
    assert(client::field(all, "X-Content-Type-Options"@) == Some(encode_utf8("nosniff"@))) by {
        lemma_other_name("X-Content-Type-Options"@, "HTTP/1.1"@, r0, 0);
        lemma_other_name("X-Content-Type-Options"@, "Content-Type"@, r1, 0);
        lemma_other_name("X-Content-Type-Options"@, "Content-Length"@, r2, 0);
        client::a_field_is_found(lines, 3, "X-Content-Type-Options"@, "nosniff"@);
    }
    assert(client::field(all, "X-Frame-Options"@) == Some(encode_utf8("DENY"@))) by {
        lemma_other_name("X-Frame-Options"@, "HTTP/1.1"@, r0, 0);
        lemma_other_name("X-Frame-Options"@, "Content-Type"@, r1, 0);
        lemma_other_name("X-Frame-Options"@, "Content-Length"@, r2, 0);
        lemma_other_name("X-Frame-Options"@, "X-Content-Type-Options"@, r3, 2);
        client::a_field_is_found(lines, 4, "X-Frame-Options"@, "DENY"@);
    }
    assert(client::field(all, "Content-Security-Policy"@) == Some(encode_utf8("default-src 'none'; style-src 'self'; img-src 'self'; font-src 'self'"@))) by {
        lemma_other_name("Content-Security-Policy"@, "HTTP/1.1"@, r0, 0);
        lemma_other_name("Content-Security-Policy"@, "Content-Type"@, r1, 8);
        lemma_other_name("Content-Security-Policy"@, "Content-Length"@, r2, 8);
        lemma_other_name("Content-Security-Policy"@, "X-Content-Type-Options"@, r3, 0);
        lemma_other_name("Content-Security-Policy"@, "X-Frame-Options"@, r4, 0);
        client::a_field_is_found(lines, 5, "Content-Security-Policy"@, "default-src 'none'; style-src 'self'; img-src 'self'; font-src 'self'"@);
    }
    assert(client::field(all, "Referrer-Policy"@) == Some(encode_utf8("no-referrer"@))) by {
        lemma_other_name("Referrer-Policy"@, "HTTP/1.1"@, r0, 0);
        lemma_other_name("Referrer-Policy"@, "Content-Type"@, r1, 0);
        lemma_other_name("Referrer-Policy"@, "Content-Length"@, r2, 0);
        lemma_other_name("Referrer-Policy"@, "X-Content-Type-Options"@, r3, 0);
        lemma_other_name("Referrer-Policy"@, "X-Frame-Options"@, r4, 0);
        lemma_other_name("Referrer-Policy"@, "Content-Security-Policy"@, r5, 0);
        client::a_field_is_found(lines, 6, "Referrer-Policy"@, "no-referrer"@);
    }
    assert(client::field(all, "Cache-Control"@) == Some(encode_utf8("public, max-age="@ + text::decimal(cache_max_age)))) by {
        lemma_other_name("Cache-Control"@, "HTTP/1.1"@, r0, 0);
        lemma_other_name("Cache-Control"@, "Content-Type"@, r1, 1);
        lemma_other_name("Cache-Control"@, "Content-Length"@, r2, 1);
        lemma_other_name("Cache-Control"@, "X-Content-Type-Options"@, r3, 0);
        lemma_other_name("Cache-Control"@, "X-Frame-Options"@, r4, 0);
        lemma_other_name("Cache-Control"@, "Content-Security-Policy"@, r5, 1);
        lemma_other_name("Cache-Control"@, "Referrer-Policy"@, r6, 0);
        client::a_field_is_found(lines, 7, "Cache-Control"@, "public, max-age="@ + text::decimal(cache_max_age));
    }
    assert(client::field(all, "Connection"@) == Some(encode_utf8(kept))) by {
        lemma_other_name("Connection"@, "HTTP/1.1"@, r0, 0);
        lemma_other_name("Connection"@, "Content-Type"@, r1, 3);
        lemma_other_name("Connection"@, "Content-Length"@, r2, 3);
        lemma_other_name("Connection"@, "X-Content-Type-Options"@, r3, 0);
        lemma_other_name("Connection"@, "X-Frame-Options"@, r4, 0);
        lemma_other_name("Connection"@, "Content-Security-Policy"@, r5, 3);
        lemma_other_name("Connection"@, "Referrer-Policy"@, r6, 0);
        lemma_other_name("Connection"@, "Cache-Control"@, r7, 1);
        client::a_field_is_found(lines, 8, "Connection"@, kept);
    }
}

/// The length that a response announces is the number of bytes of its body: of the body that
/// follows, or to `HEAD` of the one that is left out.
pub proof fn the_announced_length_is_that_of_the_body(
    status: StatusCode,
    content_type: Seq<char>,
    body: Seq<u8>,
    cache_max_age: nat,
    keep_alive: bool,
)
    requires
        !content_type.contains('\r'),
    ensures
        ({
            let get = response_bytes(status, content_type, body, cache_max_age, false, keep_alive);
            let head = response_bytes(status, content_type, body, cache_max_age, true, keep_alive);
            &&& client::body(get) == body
            &&& client::field(client::head_lines(get), "Content-Length"@) == Some(
                encode_utf8(text::decimal(client::body(get).len())),
            )
            &&& client::body(head) == Seq::<u8>::empty()
            &&& client::head_lines(head) == client::head_lines(get)
        }),
{
    a_client_reads_what_was_answered(status, content_type, body, cache_max_age, false, keep_alive);
    a_client_reads_what_was_answered(status, content_type, body, cache_max_age, true, keep_alive);
    a_client_finds_the_fields(status, content_type, body, cache_max_age, false, keep_alive);
}

/// An error is read as HTML that holds the number and the phrase of its status, and nothing else.
pub proof fn a_client_reads_an_error(status: StatusCode, cache_max_age: nat, keep_alive: bool)
    requires
        status != StatusCode::Success,
    ensures
        ({
            let bytes = error_bytes(status, cache_max_age, keep_alive);
            let line = text::decimal(status::status_number(status) as nat) + " "@
                + status::reason(status);
            &&& client::head_lines(bytes)[0] == encode_utf8("HTTP/1.1"@ + " "@ + line)
            &&& client::field(client::head_lines(bytes), "Content-Type"@) == Some(
                encode_utf8("text/html; charset=utf-8"@),
            )
            &&& client::body(bytes) == encode_utf8(line)
            &&& client::field(client::head_lines(bytes), "Content-Length"@) == Some(
                encode_utf8(text::decimal(client::body(bytes).len())),
            )
            &&& client::field(client::head_lines(bytes), "Connection"@) == Some(
                encode_utf8(
                    if keep_alive {
                        "keep-alive"@
                    } else {
                        "close"@
                    },
                ),
            )
        }),
{
    reveal_strlit("text/html; charset=utf-8");
    let content = encode_utf8(error_body(status));
    let html = "text/html; charset=utf-8"@;
    a_client_reads_what_was_answered(status, html, content, cache_max_age, false, keep_alive);
    a_client_finds_the_fields(status, html, content, cache_max_age, false, keep_alive);
    lemma_error_body(status);
    let number = text::decimal(status::status_number(status) as nat);
    let reason = status::reason(status);
    assert("HTTP/1.1"@ + " "@ + number + " "@ + reason =~= "HTTP/1.1"@ + " "@ + (number + " "@
        + reason));
}

proof fn lemma_error_body(status: StatusCode)
    requires
        status != StatusCode::Success,
    ensures
        error_body(status) == text::decimal(status::status_number(status) as nat) + " "@
            + status::reason(status),
{
    reveal_strlit(" ");
    reveal_strlit("Bad Request");
    reveal_strlit("Forbidden");
    reveal_strlit("Not Found");
    reveal_strlit("Method Not Allowed");
    reveal_strlit("Payload Too Large");
    reveal_strlit("Internal Server Error");
    reveal_strlit("400 Bad Request");
    reveal_strlit("403 Forbidden");
    reveal_strlit("404 Not Found");
    reveal_strlit("405 Method Not Allowed");
    reveal_strlit("413 Payload Too Large");
    reveal_strlit("500 Internal Server Error");
    reveal_with_fuel(text::decimal, 3);
    assert(error_body(status) =~= text::decimal(status::status_number(status) as nat) + " "@
        + status::reason(status));
}

} // verus!
