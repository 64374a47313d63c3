//! How a client reads a response: line by line up to the empty one, and then the body.
use crate::text;
use vstd::prelude::*;
use vstd::utf8::*;

verus! {

/// The bytes before the first carriage return.
pub open spec fn first_line(b: Seq<u8>) -> Seq<u8>
    decreases b.len(),
{
    if b.len() == 0 || b[0] == 0x0d {
        Seq::empty()
    } else {
        seq![b[0]] + first_line(b.skip(1))
    }
}

/// The bytes after the first line and the two that end it.
pub open spec fn after_line(b: Seq<u8>) -> Seq<u8> {
    if first_line(b).len() + 2 <= b.len() {
        b.skip(first_line(b).len() as int + 2)
    } else {
        Seq::empty()
    }
}

/// The lines up to the first empty one.
pub open spec fn head_lines(b: Seq<u8>) -> Seq<Seq<u8>>
    decreases b.len(),
{
    if b.len() == 0 || first_line(b).len() == 0 {
        Seq::empty()
    } else {
        seq![first_line(b)] + head_lines(after_line(b))
    }
}

/// The bytes after the first empty line.
pub open spec fn body(b: Seq<u8>) -> Seq<u8>
    decreases b.len(),
{
    if b.len() == 0 {
        Seq::empty()
    } else if first_line(b).len() == 0 {
        after_line(b)
    } else {
        body(after_line(b))
    }
}

/// The value of a header field: what follows its name, a colon and a space in the first line that
/// starts with these.
pub open spec fn field(lines: Seq<Seq<u8>>, name: Seq<char>) -> Option<Seq<u8>>
    decreases lines.len(),
{
    let start = encode_utf8(name + ": "@);
    if lines.len() == 0 {
        None
    } else if start.is_prefix_of(lines[0]) {
        Some(lines[0].skip(start.len() as int))
    } else {
        field(lines.skip(1), name)
    }
}

/// Lines of text, each with the carriage return and the line feed that end it.
pub open spec fn written(lines: Seq<Seq<char>>) -> Seq<char>
    decreases lines.len(),
{
    if lines.len() == 0 {
        Seq::empty()
    } else {
        lines[0] + "\r\n"@ + written(lines.skip(1))
    }
}

/// The bytes of each line of text.
pub open spec fn encoded(lines: Seq<Seq<char>>) -> Seq<Seq<u8>> {
    lines.map_values(|line: Seq<char>| encode_utf8(line))
}

/// A further line is written after the others.
pub proof fn lines_are_written_in_order(lines: Seq<Seq<char>>, line: Seq<char>)
    ensures
        written(lines.push(line)) == written(lines) + line + "\r\n"@,
    decreases lines.len(),
{
    let all = lines.push(line);
    if lines.len() == 0 {
        assert(all.skip(1) =~= Seq::<Seq<char>>::empty());
        assert(written(all.skip(1)) =~= Seq::<char>::empty());
        assert(written(all) =~= written(lines) + line + "\r\n"@);
    } else {
        assert(all.skip(1) =~= lines.skip(1).push(line));
        lines_are_written_in_order(lines.skip(1), line);
        assert(written(all) =~= written(lines) + line + "\r\n"@);
    }
}

proof fn lemma_first_line(b: Seq<u8>, n: int)
    requires
        0 <= n <= b.len(),
        forall|i: int| 0 <= i < n ==> b[i] != 0x0d,
        n < b.len() ==> b[n] == 0x0d,
    ensures
        first_line(b) == b.take(n),
    decreases b.len(),
{
    if n > 0 {
        lemma_first_line(b.skip(1), n - 1);
        assert(seq![b[0]] + b.skip(1).take(n - 1) =~= b.take(n));
    } else {
        assert(b.take(0) =~= Seq::<u8>::empty());
    }
}

pub proof fn lemma_line_break()
    ensures
        encode_utf8("\r\n"@) == seq![0x0du8, 0x0au8],
{
    reveal_strlit("\r\n");
    assert(is_ascii_chars("\r\n"@));
    is_ascii_chars_encode_utf8("\r\n"@);
    assert(encode_utf8("\r\n"@) =~= seq![0x0du8, 0x0au8]);
}

/// A line of text is read as it was written, and what comes after it is left.
pub proof fn a_line_is_read_as_it_was_written(line: Seq<char>, rest: Seq<u8>)
    requires
        !line.contains('\r'),
    ensures
        first_line(encode_utf8(line + "\r\n"@) + rest) == encode_utf8(line),
        after_line(encode_utf8(line + "\r\n"@) + rest) == rest,
{
    lemma_line_break();
    text::encoding_of_a_concatenation(line, "\r\n"@);
    let l = encode_utf8(line);
    let b = encode_utf8(line + "\r\n"@) + rest;
    assert(0x0du8 as char == '\r');
    text::absent_ascii_stays_absent(line, 0x0d);
    assert forall|i: int| 0 <= i < l.len() implies b[i] != 0x0d by {
        assert(b[i] == l[i]);
    }
    lemma_first_line(b, l.len() as int);
    assert(b.take(l.len() as int) =~= l);
    assert(b.skip(l.len() as int + 2) =~= rest);
}

/// What is written as lines, an empty line and a body is read as these lines and this body.
pub proof fn a_message_is_read_as_it_was_written(lines: Seq<Seq<char>>, content: Seq<u8>)
    requires
        forall|i: int| 0 <= i < lines.len() ==> !(#[trigger] lines[i]).contains('\r'),
        forall|i: int| 0 <= i < lines.len() ==> (#[trigger] lines[i]).len() > 0,
    ensures
        head_lines(encode_utf8(written(lines) + "\r\n"@) + content) == encoded(lines),
        body(encode_utf8(written(lines) + "\r\n"@) + content) == content,
    decreases lines.len(),
{
    let b = encode_utf8(written(lines) + "\r\n"@) + content;
    if lines.len() == 0 {
        let none = Seq::<char>::empty();
        assert(written(lines) + "\r\n"@ =~= none + "\r\n"@);
        a_line_is_read_as_it_was_written(none, content);
        lemma_line_break();
        assert(none + "\r\n"@ =~= "\r\n"@);
        assert(b.len() >= 2);
        assert(encode_utf8(none).len() == 0);
        assert(head_lines(b) =~= encoded(lines));
    } else {
        let line = lines[0];
        let others = lines.skip(1);
        assert forall|i: int| 0 <= i < others.len() implies !(#[trigger] others[i]).contains(
            '\r',
        ) && others[i].len() > 0 by {
            assert(others[i] == lines[i + 1]);
        }
        let tail = written(others) + "\r\n"@;
        assert(written(lines) + "\r\n"@ =~= (line + "\r\n"@) + tail);
        text::encoding_of_a_concatenation(line + "\r\n"@, tail);
        let rest = encode_utf8(tail) + content;
        assert(b =~= encode_utf8(line + "\r\n"@) + rest);
        a_line_is_read_as_it_was_written(line, rest);
        a_message_is_read_as_it_was_written(others, content);
        assert(line.len() > 0);
        assert(encode_utf8(line).len() > 0) by {
            if encode_utf8(line).len() == 0 {
                assert(encode_utf8(line) =~= encode_utf8(Seq::<char>::empty()));
                text::bytes_tell_texts_apart(line, Seq::empty());
            }
        }
        assert(head_lines(b) =~= encoded(lines));
    }
}

/// A field that stands in a line is found there, if no line before starts with its name.
pub proof fn a_field_is_found(lines: Seq<Seq<char>>, k: int, name: Seq<char>, value: Seq<char>)
    requires
        0 <= k < lines.len(),
        lines[k] == name + ": "@ + value,
        forall|i: int|
            0 <= i < k ==> !encode_utf8(name + ": "@).is_prefix_of(
                encode_utf8(#[trigger] lines[i]),
            ),
    ensures
        field(encoded(lines), name) == Some(encode_utf8(value)),
    decreases k,
{
    let start = encode_utf8(name + ": "@);
    let all = encoded(lines);
    assert(all[0] == encode_utf8(lines[0]));
    if k == 0 {
        text::encoding_of_a_concatenation(name + ": "@, value);
        assert(all[0].subrange(0, start.len() as int) =~= start);
        assert(all[0].skip(start.len() as int) =~= encode_utf8(value));
    } else {
        let others = lines.skip(1);
        assert(all.skip(1) =~= encoded(others));
        assert(others[k - 1] == lines[k]);
        assert forall|i: int| 0 <= i < k - 1 implies !start.is_prefix_of(
            encode_utf8(#[trigger] others[i]),
        ) by {
            assert(others[i] == lines[i + 1]);
        }
        assert(!start.is_prefix_of(encode_utf8(lines[0])));
        a_field_is_found(others, k - 1, name, value);
    }
}

/// A line that differs from the start of a field in an ASCII character is not that field.
pub proof fn another_line_is_no_field(start: Seq<char>, line: Seq<char>, i: int)
    requires
        0 <= i < start.len(),
        i < line.len(),
        start[i] != line[i],
        forall|j: int| 0 <= j <= i ==> (#[trigger] start[j]) <= '\u{7f}',
        forall|j: int| 0 <= j <= i ==> (#[trigger] line[j]) <= '\u{7f}',
    ensures
        !encode_utf8(start).is_prefix_of(encode_utf8(line)),
{
    text::leading_ascii_is_kept(start, i + 1);
    text::leading_ascii_is_kept(line, i + 1);
    let a = encode_utf8(start);
    let b = encode_utf8(line);
    assert(a[i] == start[i] as u8);
    assert(b[i] == line[i] as u8);
    if a.is_prefix_of(b) {
        assert(b.subrange(0, a.len() as int)[i] == b[i]);
        text::lemma_no_char_is_below_nul(start[i]);
        text::lemma_no_char_is_below_nul(line[i]);
    }
}

} // verus!
