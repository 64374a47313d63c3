//! Percent-decoding of request targets.
use vstd::prelude::*;
use vstd::utf8::*;

verus! {

/// The error that `String::from_utf8` hands back; only the fact that there is one is used.
#[verifier::external_type_specification]
#[verifier::external_body]
pub struct ExFromUtf8Error(std::string::FromUtf8Error);

/// `String::from_utf8` accepts exactly the well-formed UTF-8 byte strings, and the string it
/// makes of one holds the characters that the bytes encode.
pub assume_specification[ String::from_utf8 ](vec: Vec<u8>) -> (r: Result<
    String,
    std::string::FromUtf8Error,
>)
    ensures
        r is Ok <==> valid_utf8(vec@),
        r is Ok ==> r->Ok_0@ == decode_utf8(vec@),
;

/// The value of an ASCII hexadecimal digit, upper or lower case.
pub open spec fn hex_value(b: u8) -> Option<u8> {
    if 0x30 <= b <= 0x39 {
        Some((b - 0x30) as u8)
    } else if 0x61 <= b <= 0x66 {
        Some((b - 0x61 + 10) as u8)
    } else if 0x41 <= b <= 0x46 {
        Some((b - 0x41 + 10) as u8)
    } else {
        None
    }
}

/// Replaces each `%XY` by the byte whose hexadecimal digits are `X` and `Y`; `None` where a `%`
/// is not followed by two such digits.
pub open spec fn unescape(s: Seq<u8>) -> Option<Seq<u8>>
    decreases s.len(),
{
    if s.len() == 0 {
        Some(Seq::empty())
    } else if s[0] != 0x25 {
        match unescape(s.skip(1)) {
            Some(rest) => Some(seq![s[0]] + rest),
            None => None,
        }
    } else if s.len() < 3 {
        None
    } else {
        match (hex_value(s[1]), hex_value(s[2]), unescape(s.skip(3))) {
            (Some(high), Some(low), Some(rest)) => Some(
                seq![(high * 16 + low) as u8] + rest,
            ),
            _ => None,
        }
    }
}

/// The text that a percent-encoded text stands for; `None` where an escape is malformed or the
/// decoded bytes are not UTF-8.
pub open spec fn percent_decoded(input: Seq<char>) -> Option<Seq<char>> {
    match unescape(encode_utf8(input)) {
        Some(bytes) => if valid_utf8(bytes) {
            Some(decode_utf8(bytes))
        } else {
            None
        },
        None => None,
    }
}

/// The value of a hexadecimal digit.
pub fn from_hex(b: u8) -> (r: Result<u8, ()>)
    ensures
        r == (match hex_value(b) {
            Some(v) => Ok::<u8, ()>(v),
            None => Err(()),
        }),
{
    if 0x30 <= b && b <= 0x39 {
        Ok(b - 0x30)
    } else if 0x61 <= b && b <= 0x66 {
        Ok(b - 0x61 + 10)
    } else if 0x41 <= b && b <= 0x46 {
        Ok(b - 0x41 + 10)
    } else {
        Err(())
    }
}

/// Minimal percent-decoder. Rejects malformed sequences.
pub fn percent_decode(input: &str) -> (r: Result<String, ()>)
    ensures
        r is Ok <==> percent_decoded(input@) is Some,
        r is Ok ==> r->Ok_0@ == percent_decoded(input@)->Some_0,
{
    let bytes = input.as_bytes();
    let mut out: Vec<u8> = Vec::new();
    let mut i: usize = 0;
    assert(bytes@.skip(0) =~= bytes@);
    while i < bytes.len()
        invariant
            0 <= i <= bytes@.len(),
            bytes@ == encode_utf8(input@),
            unescape(bytes@) == (match unescape(bytes@.skip(i as int)) {
                Some(rest) => Some(out@ + rest),
                None => None::<Seq<u8>>,
            }),
        decreases bytes@.len() - i,
    {
        let ghost rest = bytes@.skip(i as int);
        let ghost before = out@;
        if bytes[i] == 0x25 {
            if bytes.len() - i < 3 {
                return Err(());
            }
            let high: u8 = match from_hex(bytes[i + 1]) {
                Ok(v) => v,
                Err(_) => return Err(()),
            };
            let low: u8 = match from_hex(bytes[i + 2]) {
                Ok(v) => v,
                Err(_) => return Err(()),
            };
            assert((high << 4) | low == (high * 16 + low) as u8) by (bit_vector)
                requires
                    high < 16,
                    low < 16,
            ;
            out.push((high << 4) | low);
            proof {
                assert(rest.skip(3) =~= bytes@.skip(i + 3));
                if unescape(rest.skip(3)) is Some {
                    let tail = unescape(rest.skip(3))->Some_0;
                    assert(before + (seq![(high * 16 + low) as u8] + tail) =~= out@ + tail);
                }
            }
            i += 3;
        } else {
            out.push(bytes[i]);
            proof {
                assert(rest.skip(1) =~= bytes@.skip(i + 1));
                if unescape(rest.skip(1)) is Some {
                    let tail = unescape(rest.skip(1))->Some_0;
                    assert(before + (seq![rest[0]] + tail) =~= out@ + tail);
                }
            }
            i += 1;
        }
    }
    assert(bytes@.skip(i as int).len() == 0);
    assert(out@ + Seq::<u8>::empty() =~= out@);
    match String::from_utf8(out) {
        Ok(s) => Ok(s),
        Err(_) => Err(()),
    }
}

/// What comes after a well-formed stretch is decoded on its own: escapes never reach across.
pub proof fn decoding_of_a_concatenation(a: Seq<u8>, b: Seq<u8>)
    requires
        unescape(a) is Some,
    ensures
        unescape(a + b) == (match unescape(b) {
            Some(rest) => Some(unescape(a)->Some_0 + rest),
            None => None::<Seq<u8>>,
        }),
    decreases a.len(),
{
    let whole = a + b;
    if a.len() == 0 {
        assert(whole =~= b);
        if unescape(b) is Some {
            assert(unescape(a)->Some_0 + unescape(b)->Some_0 =~= unescape(b)->Some_0);
        }
    } else {
        let n: int = if a[0] == 0x25 {
            3
        } else {
            1
        };
        assert(whole[0] == a[0]);
        if n == 3 {
            assert(whole[1] == a[1] && whole[2] == a[2]);
        }
        assert(whole.skip(n) =~= a.skip(n) + b);
        decoding_of_a_concatenation(a.skip(n), b);
        if unescape(b) is Some {
            let head = if n == 3 {
                seq![(hex_value(a[1])->Some_0 * 16 + hex_value(a[2])->Some_0) as u8]
            } else {
                seq![a[0]]
            };
            let middle = unescape(a.skip(n))->Some_0;
            assert(unescape(a)->Some_0 == head + middle);
            assert(head + (middle + unescape(b)->Some_0) =~= unescape(a)->Some_0 + unescape(
                b,
            )->Some_0);
        }
    }
}

/// A `%` that two hexadecimal digits do not follow spoils the whole text, wherever it stands.
pub proof fn malformed_escapes_are_rejected(before: Seq<u8>, after: Seq<u8>)
    requires
        unescape(before) is Some,
        after.len() > 0,
        after[0] == 0x25,
        after.len() < 3 || hex_value(after[1]) is None || hex_value(after[2]) is None,
    ensures
        unescape(before + after) is None,
{
    decoding_of_a_concatenation(before, after);
}

proof fn lemma_encoded_percent(c: char)
    requires
        c != '%',
    ensures
        forall|i: int|
            0 <= i < encode_scalar(c as u32).len() ==> (#[trigger] encode_scalar(c as u32)[i])
                != 0x25,
{
    let v = c as u32;
    char_is_scalar(c);
    assert(v <= 0x7f && v != 0x25 ==> leading_byte_width_1(v) != 0x25) by (bit_vector);
    assert(leading_byte_width_2(v) >= 0x80) by (bit_vector);
    assert(leading_byte_width_3(v) >= 0x80) by (bit_vector);
    assert(leading_byte_width_4(v) >= 0x80) by (bit_vector);
    assert(last_continuation_byte(v) >= 0x80) by (bit_vector);
    assert(second_last_continuation_byte(v) >= 0x80) by (bit_vector);
    assert(third_last_continuation_byte(v) >= 0x80) by (bit_vector);
}

proof fn lemma_encoded_plain(s: Seq<char>)
    requires
        !s.contains('%'),
    ensures
        forall|i: int| 0 <= i < encode_utf8(s).len() ==> (#[trigger] encode_utf8(s)[i]) != 0x25,
    decreases s.len(),
{
    if s.len() > 0 {
        assert(s[0] != '%');
        lemma_encoded_percent(s[0]);
        assert(!s.drop_first().contains('%')) by {
            if s.drop_first().contains('%') {
                let i = choose|i: int|
                    0 <= i < s.drop_first().len() && s.drop_first()[i] == '%';
                assert(s[i + 1] == '%');
            }
        }
        lemma_encoded_plain(s.drop_first());
        let first = encode_scalar(s[0] as u32);
        let rest = encode_utf8(s.drop_first());
        assert(encode_utf8(s) == first + rest);
        assert forall|i: int| 0 <= i < encode_utf8(s).len() implies (#[trigger] encode_utf8(s)[i])
            != 0x25 by {
            if i < first.len() {
                assert(encode_utf8(s)[i] == first[i]);
            } else {
                assert(encode_utf8(s)[i] == rest[i - first.len()]);
            }
        }
    }
}

proof fn lemma_unescape_plain(s: Seq<u8>)
    requires
        forall|i: int| 0 <= i < s.len() ==> s[i] != 0x25,
    ensures
        unescape(s) == Some(s),
    decreases s.len(),
{
    if s.len() > 0 {
        lemma_unescape_plain(s.skip(1));
        assert(seq![s[0]] + s.skip(1) =~= s);
    } else {
        assert(s =~= Seq::<u8>::empty());
    }
}

/// A text without a `%` stands for itself.
pub proof fn plain_text_stands_for_itself(s: Seq<char>)
    requires
        !s.contains('%'),
    ensures
        percent_decoded(s) == Some(s),
{
    lemma_encoded_plain(s);
    lemma_unescape_plain(encode_utf8(s));
    encode_utf8_valid_utf8(s);
    encode_utf8_decode_utf8(s);
}

/// The sixteen hexadecimal digits, the smallest first, with their letters in either case.
pub open spec fn hex_digits(upper: bool) -> Seq<char> {
    if upper {
        "0123456789ABCDEF"@
    } else {
        "0123456789abcdef"@
    }
}

/// Every byte written as a `%` and two hexadecimal digits, the more significant first.
pub open spec fn escaped(bytes: Seq<u8>, upper: bool) -> Seq<u8>
    decreases bytes.len(),
{
    if bytes.len() == 0 {
        Seq::empty()
    } else {
        seq![
            0x25u8,
            hex_digits(upper)[(bytes[0] / 16) as int] as u8,
            hex_digits(upper)[(bytes[0] % 16) as int] as u8,
        ] + escaped(bytes.skip(1), upper)
    }
}

proof fn lemma_hex_digits(d: int, upper: bool)
    requires
        0 <= d < 16,
    ensures
        hex_digits(upper).len() == 16,
        hex_digits(upper)[d] as u32 <= 0x7f,
        hex_value(hex_digits(upper)[d] as u8) == Some(d as u8),
{
    reveal_strlit("0123456789ABCDEF");
    reveal_strlit("0123456789abcdef");
    assert(d == 0 || d == 1 || d == 2 || d == 3 || d == 4 || d == 5 || d == 6 || d == 7 || d == 8
        || d == 9 || d == 10 || d == 11 || d == 12 || d == 13 || d == 14 || d == 15);
}

/// A byte written as a `%` and its two hexadecimal digits, each in either case, is decoded to that
/// byte.
pub proof fn decoding_undoes_the_encoding_of_a_byte(b: u8, upper_high: bool, upper_low: bool)
    ensures
        unescape(
            seq![
                0x25u8,
                hex_digits(upper_high)[(b / 16) as int] as u8,
                hex_digits(upper_low)[(b % 16) as int] as u8,
            ],
        ) == Some(seq![b]),
{
    let high = hex_digits(upper_high)[(b / 16) as int] as u8;
    let low = hex_digits(upper_low)[(b % 16) as int] as u8;
    lemma_hex_digits((b / 16) as int, upper_high);
    lemma_hex_digits((b % 16) as int, upper_low);
    let s = seq![0x25u8, high, low];
    assert(s.skip(3) =~= Seq::<u8>::empty());
    assert(unescape(s.skip(3)) == Some(Seq::<u8>::empty()));
    assert((b / 16) * 16 + b % 16 == b);
    assert(seq![b] + Seq::<u8>::empty() =~= seq![b]);
}

/// Decoding undoes encoding: a byte string all of whose bytes are written as escapes is decoded to
/// itself.
pub proof fn decoding_undoes_encoding(bytes: Seq<u8>, upper: bool)
    ensures
        unescape(escaped(bytes, upper)) == Some(bytes),
    decreases bytes.len(),
{
    if bytes.len() > 0 {
        let b = bytes[0];
        let first = seq![
            0x25u8,
            hex_digits(upper)[(b / 16) as int] as u8,
            hex_digits(upper)[(b % 16) as int] as u8,
        ];
        decoding_undoes_the_encoding_of_a_byte(b, upper, upper);
        decoding_undoes_encoding(bytes.skip(1), upper);
        decoding_of_a_concatenation(first, escaped(bytes.skip(1), upper));
        assert(seq![b] + bytes.skip(1) =~= bytes);
    } else {
        assert(bytes =~= Seq::<u8>::empty());
    }
}

/// A text whose bytes are all written as escapes is decoded to that text.
pub proof fn an_encoded_text_is_decoded(encoded: Seq<char>, decoded: Seq<char>, upper: bool)
    requires
        encode_utf8(encoded) == escaped(encode_utf8(decoded), upper),
    ensures
        percent_decoded(encoded) == Some(decoded),
{
    decoding_undoes_encoding(encode_utf8(decoded), upper);
    encode_utf8_valid_utf8(decoded);
    encode_utf8_decode_utf8(decoded);
}

/// Any byte but `%` stands for itself.
pub proof fn a_plain_byte_stands_for_itself(b: u8)
    requires
        b != 0x25,
    ensures
        unescape(seq![b]) == Some(seq![b]),
        unescape(Seq::<u8>::empty()) == Some(Seq::<u8>::empty()),
{
    let s = seq![b];
    assert(s.skip(1) =~= Seq::<u8>::empty());
    assert(unescape(s.skip(1)) == Some(Seq::<u8>::empty()));
    assert(seq![b] + Seq::<u8>::empty() =~= seq![b]);
}

/// A byte that is the character of a hexadecimal digit, in either case.
pub open spec fn is_hex_digit(b: u8) -> bool {
    exists|d: int, upper: bool| 0 <= d < 16 && b == #[trigger] hex_digits(upper)[d] as u8
}

/// A `%` after which the text ends too soon, or something else than a hexadecimal digit comes,
/// spoils the whole text.
pub proof fn other_escapes_are_rejected(before: Seq<u8>, after: Seq<u8>)
    requires
        unescape(before) is Some,
        after.len() > 0,
        after[0] == 0x25,
        after.len() < 3 || !is_hex_digit(after[1]) || !is_hex_digit(after[2]),
    ensures
        unescape(before + after) is None,
{
    if after.len() >= 3 {
        lemma_hex_value(after[1]);
        lemma_hex_value(after[2]);
    }
    malformed_escapes_are_rejected(before, after);
}

proof fn lemma_hex_value(b: u8)
    ensures
        hex_value(b) is Some ==> is_hex_digit(b),
{
    if hex_value(b) is Some {
        let d = hex_value(b)->Some_0 as int;
        reveal_strlit("0123456789ABCDEF");
        reveal_strlit("0123456789abcdef");
        assert(d == 0 || d == 1 || d == 2 || d == 3 || d == 4 || d == 5 || d == 6 || d == 7 || d
            == 8 || d == 9 || d == 10 || d == 11 || d == 12 || d == 13 || d == 14 || d == 15);
        assert(b == hex_digits(true)[d] as u8 || b == hex_digits(false)[d] as u8);
    }
}

/// A text is what another decodes to exactly where its bytes are what the bytes of the other stand
/// for.
pub proof fn decoded_text_has_the_decoded_bytes(encoded: Seq<char>, decoded: Seq<char>)
    ensures
        percent_decoded(encoded) == Some(decoded) <==> unescape(encode_utf8(encoded)) == Some(
            encode_utf8(decoded),
        ),
        percent_decoded(encoded) is None && unescape(encode_utf8(encoded)) is Some
            ==> !valid_utf8(unescape(encode_utf8(encoded))->Some_0),
{
    encode_utf8_valid_utf8(decoded);
    encode_utf8_decode_utf8(decoded);
    if unescape(encode_utf8(encoded)) is Some {
        let bytes = unescape(encode_utf8(encoded))->Some_0;
        if valid_utf8(bytes) {
            decode_utf8_encode_utf8(bytes);
        }
    }
}

} // verus!
