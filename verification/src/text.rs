//! Text and byte-string helpers: decimal numbers, comparison, whitespace and ASCII case.
use vstd::prelude::*;
use vstd::string::*;
use vstd::utf8::*;

verus! {

/// `String::push` appends one character.
pub assume_specification[ String::push ](s: &mut String, ch: char)
    ensures
        final(s)@ == old(s)@.push(ch),
;

/// The character of a decimal digit.
pub open spec fn digit_char(d: nat) -> char {
    (0x30 + d) as char
}

/// The decimal digits of a number, without leading zeros.
pub open spec fn decimal(n: nat) -> Seq<char>
    decreases n,
{
    if n < 10 {
        seq![digit_char(n)]
    } else {
        decimal(n / 10).push(digit_char(n % 10))
    }
}

/// Appends the decimal digits of `n`.
pub fn push_decimal(out: &mut String, n: u64)
    ensures
        final(out)@ == old(out)@ + decimal(n as nat),
    decreases n,
{
    if n >= 10 {
        push_decimal(out, n / 10);
    }
    let digit: u8 = 0x30 + (n % 10) as u8;
    out.push(digit as char);
}

/// The value of a decimal digit.
pub open spec fn digit_value(c: char) -> Option<nat> {
    if '0' <= c <= '9' {
        Some((c as nat - 0x30) as nat)
    } else {
        None
    }
}

/// The number that a string of decimal digits spells, the most significant digit first.
pub open spec fn digits_value(s: Seq<char>) -> Option<nat>
    decreases s.len(),
{
    if s.len() == 0 {
        Some(0)
    } else {
        match (digits_value(s.drop_last()), digit_value(s.last())) {
            (Some(v), Some(d)) => Some(v * 10 + d),
            _ => None,
        }
    }
}

/// The unsigned number that a text spells: at least one decimal digit, after an optional `+`,
/// with a value of at most `max`.
pub open spec fn unsigned(s: Seq<char>, max: nat) -> Option<nat> {
    let digits = if s.len() > 0 && s[0] == '+' {
        s.skip(1)
    } else {
        s
    };
    if digits.len() == 0 {
        None
    } else {
        match digits_value(digits) {
            Some(v) => if v <= max {
                Some(v)
            } else {
                None
            },
            None => None,
        }
    }
}

/// A text whose prefix spells no number, or too large a one, spells no number up to `max`.
proof fn lemma_prefix_value(s: Seq<char>, k: int, max: nat)
    requires
        0 <= k <= s.len(),
        digits_value(s.take(k)) is None || digits_value(s.take(k))->Some_0 > max,
    ensures
        digits_value(s) is None || digits_value(s)->Some_0 > max,
    decreases s.len() - k,
{
    if k == s.len() {
        assert(s.take(k) =~= s);
    } else {
        assert(s.take(k + 1).drop_last() =~= s.take(k));
        lemma_prefix_value(s, k + 1, max);
    }
}

/// Reads an unsigned number of at most `max`.
pub fn parse_unsigned(s: &str, max: u64) -> (r: Option<u64>)
    ensures
        r is Some <==> unsigned(s@, max as nat) is Some,
        r is Some ==> r->Some_0 == unsigned(s@, max as nat)->Some_0,
{
    let chars = chars_of(s);
    let start: usize = if chars.len() > 0 && chars[0] == '+' {
        1
    } else {
        0
    };
    if chars.len() == start {
        return None;
    }
    let ghost digits = s@.skip(start as int);
    assert(start == 0 ==> digits =~= s@);
    let mut value: u64 = 0;
    let mut i: usize = start;
    while i < chars.len()
        invariant
            start <= i <= chars@.len(),
            chars@ == s@,
            start < chars@.len(),
            start == (if s@[0] == '+' {
                1int
            } else {
                0
            }),
            digits == (if s@[0] == '+' {
                s@.skip(1)
            } else {
                s@
            }),
            digits_value(digits.take(i - start)) == Some(value as nat),
            value <= max,
        decreases chars@.len() - i,
    {
        let c = chars[i];
        let ghost k = i - start;
        assert(digits.take(k + 1).drop_last() =~= digits.take(k));
        assert(digits.take(k + 1).last() == c);
        if c < '0' || c > '9' {
            proof {
                lemma_prefix_value(digits, k + 1, max as nat);
            }
            return None;
        }
        let d: u64 = (c as u32 - 0x30) as u64;
        if d > max || value > max / 10 || value * 10 > max - d {
            proof {
                lemma_prefix_value(digits, k + 1, max as nat);
            }
            return None;
        }
        value = value * 10 + d;
        i += 1;
    }
    assert(digits.take(i - start) =~= digits);
    Some(value)
}

/// The decimal digits of a number spell that number.
pub proof fn decimal_spells_its_number(n: nat, max: nat)
    requires
        n <= max,
    ensures
        unsigned(decimal(n), max) == Some(n),
{
    lemma_decimal_digits(n);
}

proof fn lemma_decimal_digits(n: nat)
    ensures
        decimal(n).len() > 0,
        '0' <= decimal(n)[0] <= '9',
        digits_value(decimal(n)) == Some(n),
    decreases n,
{
    let s = decimal(n);
    if n < 10 {
        assert(s.drop_last() =~= Seq::<char>::empty());
        assert(digits_value(s.drop_last()) == Some(0nat));
    } else {
        lemma_decimal_digits(n / 10);
        assert(s.drop_last() =~= decimal(n / 10));
    }
}

/// The characters of a text.
pub fn chars_of(s: &str) -> (r: Vec<char>)
    ensures
        r@ == s@,
{
    let mut out: Vec<char> = Vec::new();
    for c in it: s.chars()
        invariant
            it.seq() == s@,
            out@ == it.seq().take(it.index() as int),
    {
        out.push(c);
    }
    out
}

/// Whether two byte strings are the same.
pub fn same_bytes(a: &[u8], b: &[u8]) -> (r: bool)
    ensures
        r == (a@ == b@),
{
    if a.len() != b.len() {
        return false;
    }
    let mut i: usize = 0;
    while i < a.len()
        invariant
            i <= a@.len(),
            a@.len() == b@.len(),
            forall|j: int| 0 <= j < i ==> a@[j] == b@[j],
        decreases a@.len() - i,
    {
        if a[i] != b[i] {
            return false;
        }
        i += 1;
    }
    assert(a@ =~= b@);
    true
}

/// Whether two texts are the same.
pub fn same_text(a: &str, b: &str) -> (r: bool)
    ensures
        r == (a@ == b@),
{
    proof {
        encode_utf8_decode_utf8(a@);
        encode_utf8_decode_utf8(b@);
    }
    same_bytes(a.as_bytes(), b.as_bytes())
}

/// Whether a text holds a NUL character.
pub fn has_nul(s: &str) -> (r: bool)
    ensures
        r == s@.contains('\0'),
{
    let chars = chars_of(s);
    let mut i: usize = 0;
    while i < chars.len()
        invariant
            i <= chars@.len(),
            chars@ == s@,
            forall|j: int| 0 <= j < i ==> s@[j] != '\0',
        decreases chars@.len() - i,
    {
        if chars[i] == '\0' {
            return true;
        }
        i += 1;
    }
    false
}

/// Appends a byte string.
pub fn push_bytes(out: &mut Vec<u8>, bytes: &[u8])
    ensures
        final(out)@ == old(out)@ + bytes@,
{
    out.extend_from_slice(bytes);
    assert(out@ =~= old(out)@ + bytes@);
}

/// Copies a byte string.
pub fn copy_bytes(bytes: &[u8]) -> (r: Vec<u8>)
    ensures
        r@ == bytes@,
{
    let mut out: Vec<u8> = Vec::new();
    push_bytes(&mut out, bytes);
    out
}

/// Copies a text.
pub fn copy_text(s: &str) -> (r: String)
    ensures
        r@ == s@,
{
    let mut out = String::new();
    out.append(s);
    out
}

/// The bytes of two texts set end to end are the bytes of the one and then of the other.
pub proof fn encoding_of_a_concatenation(a: Seq<char>, b: Seq<char>)
    ensures
        encode_utf8(a + b) == encode_utf8(a) + encode_utf8(b),
    decreases a.len(),
{
    if a.len() == 0 {
        assert(a + b =~= b);
    } else {
        assert((a + b).drop_first() =~= a.drop_first() + b);
        encoding_of_a_concatenation(a.drop_first(), b);
    }
}

/// Whether a byte string occurs inside another.
pub open spec fn occurs_in(part: Seq<u8>, whole: Seq<u8>) -> bool {
    exists|i: int|
        0 <= i <= whole.len() - part.len() && #[trigger] whole.subrange(i, i + part.len()) == part
}

/// The characters with the Unicode property White_Space.
pub open spec fn is_white(c: char) -> bool {
    ||| '\u{9}' <= c <= '\u{d}'
    ||| c == ' '
    ||| c == '\u{85}'
    ||| c == '\u{a0}'
    ||| c == '\u{1680}'
    ||| '\u{2000}' <= c <= '\u{200a}'
    ||| c == '\u{2028}'
    ||| c == '\u{2029}'
    ||| c == '\u{202f}'
    ||| c == '\u{205f}'
    ||| c == '\u{3000}'
}

/// Whether a character is white space.
pub fn is_whitespace(c: char) -> (r: bool)
    ensures
        r == is_white(c),
{
    ('\u{9}' <= c && c <= '\u{d}') || c == ' ' || c == '\u{85}' || c == '\u{a0}' || c == '\u{1680}'
        || ('\u{2000}' <= c && c <= '\u{200a}') || c == '\u{2028}' || c == '\u{2029}' || c
        == '\u{202f}' || c == '\u{205f}' || c == '\u{3000}'
}

/// The length of the leading run of characters that are not white space.
pub open spec fn word_len(s: Seq<char>) -> nat
    decreases s.len(),
{
    if s.len() == 0 || is_white(s[0]) {
        0
    } else {
        1 + word_len(s.skip(1))
    }
}

/// The maximal runs of characters that are not white space, in order.
pub open spec fn words(s: Seq<char>) -> Seq<Seq<char>>
    decreases s.len(),
{
    if s.len() == 0 {
        Seq::empty()
    } else if is_white(s[0]) {
        words(s.skip(1))
    } else {
        proof {
            word_fits_its_text(s);
        }
        seq![s.take(word_len(s) as int)] + words(s.skip(word_len(s) as int))
    }
}

/// The leading word of a text is no longer than the text.
pub proof fn word_fits_its_text(s: Seq<char>)
    ensures
        word_len(s) <= s.len(),
    decreases s.len(),
{
    if s.len() > 0 && !is_white(s[0]) {
        word_fits_its_text(s.skip(1));
    }
}

proof fn lemma_word_len(s: Seq<char>, n: int)
    requires
        0 <= n <= s.len(),
        forall|i: int| 0 <= i < n ==> !is_white(s[i]),
        n < s.len() ==> is_white(s[n]),
    ensures
        word_len(s) == n,
    decreases s.len(),
{
    if n > 0 {
        lemma_word_len(s.skip(1), n - 1);
    }
}

/// The texts of a list of strings.
pub open spec fn texts(v: Seq<String>) -> Seq<Seq<char>> {
    v.map_values(|s: String| s@)
}

/// Splits a text at its white space.
pub fn split_words(s: &str) -> (r: Vec<String>)
    ensures
        texts(r@) == words(s@),
{
    let chars = chars_of(s);
    let mut out: Vec<String> = Vec::new();
    let mut i: usize = 0;
    assert(s@.skip(0) =~= s@);
    assert(texts(out@) + words(s@) =~= words(s@));
    while i < chars.len()
        invariant
            i <= chars@.len(),
            chars@ == s@,
            words(s@) == texts(out@) + words(s@.skip(i as int)),
        decreases chars@.len() - i,
    {
        let ghost rest = s@.skip(i as int);
        if is_whitespace(chars[i]) {
            assert(rest.skip(1) =~= s@.skip(i + 1));
            i += 1;
        } else {
            let start: usize = i;
            while i < chars.len() && !is_whitespace(chars[i])
                invariant
                    start <= i <= chars@.len(),
                    chars@ == s@,
                    forall|j: int| start <= j < i ==> !is_white(#[trigger] s@[j]),
                ensures
                    start <= i <= chars@.len(),
                    i < chars@.len() ==> is_white(s@[i as int]),
                    forall|j: int| start <= j < i ==> !is_white(#[trigger] s@[j]),
                decreases chars@.len() - i,
            {
                i += 1;
            }
            let ghost n = i - start;
            let word = copy_text(s.substring_char(start, i));
            proof {
                assert(n > 0);
                lemma_word_len(rest, n);
                assert(rest.take(n) =~= word@);
                assert(rest.skip(n) =~= s@.skip(i as int));
                assert(words(rest) == seq![word@] + words(s@.skip(i as int)));
            }
            let ghost before = out@;
            out.push(word);
            assert(texts(out@) =~= texts(before).push(word@));
            assert(texts(before) + (seq![word@] + words(s@.skip(i as int))) =~= texts(out@) + words(
                s@.skip(i as int),
            ));
        }
    }
    assert(s@.skip(i as int).len() == 0);
    assert(texts(out@) + Seq::<Seq<char>>::empty() =~= texts(out@));
    out
}

/// The upper-case form of an ASCII letter; any other character is its own.
pub open spec fn upper(c: char) -> char {
    if 'a' <= c <= 'z' {
        (c as u32 - 0x20) as char
    } else {
        c
    }
}

/// A text with its lower-case ASCII letters replaced by their upper-case forms.
pub open spec fn uppered(s: Seq<char>) -> Seq<char> {
    s.map_values(|c: char| upper(c))
}

/// Replaces the lower-case ASCII letters of a text by their upper-case forms.
pub fn ascii_uppercase(s: &str) -> (r: String)
    ensures
        r@ == uppered(s@),
{
    let chars = chars_of(s);
    let mut out = String::new();
    let mut i: usize = 0;
    while i < chars.len()
        invariant
            i <= chars@.len(),
            chars@ == s@,
            out@ == uppered(s@.take(i as int)),
        decreases chars@.len() - i,
    {
        let c = chars[i];
        if 'a' <= c && c <= 'z' {
            out.push((c as u8 - 0x20) as char);
        } else {
            out.push(c);
        }
        assert(out@ =~= uppered(s@.take(i + 1)));
        i += 1;
    }
    assert(s@.take(i as int) =~= s@);
    out
}

/// The lower-case form of an ASCII letter; any other byte is its own.
pub open spec fn lower(b: u8) -> u8 {
    if 0x41 <= b <= 0x5a {
        (b + 0x20) as u8
    } else {
        b
    }
}

/// A byte string with its upper-case ASCII letters replaced by their lower-case forms.
pub open spec fn lowered(s: Seq<u8>) -> Seq<u8> {
    s.map_values(|b: u8| lower(b))
}

/// Whether a byte string equals a lower-case ASCII text but for the case of its letters.
pub fn same_ignoring_case(bytes: &[u8], text: &str) -> (r: bool)
    ensures
        r == (lowered(bytes@) == encode_utf8(text@)),
{
    let expected = text.as_bytes();
    let ghost low_bytes = lowered(bytes@);
    if bytes.len() != expected.len() {
        return false;
    }
    let mut i: usize = 0;
    while i < bytes.len()
        invariant
            i <= bytes@.len(),
            bytes@.len() == expected@.len(),
            expected@ == encode_utf8(text@),
            low_bytes == lowered(bytes@),
            forall|j: int| 0 <= j < i ==> low_bytes[j] == expected@[j],
        decreases bytes@.len() - i,
    {
        let b: u8 = bytes[i];
        let low: u8 = if 0x41 <= b && b <= 0x5a {
            b + 0x20
        } else {
            b
        };
        assert(low_bytes[i as int] == low);
        if low != expected[i] {
            return false;
        }
        i += 1;
    }
    assert(low_bytes =~= expected@);
    true
}

/// The ten decimal digits, the smallest first.
pub open spec fn digits() -> Seq<char> {
    "0123456789"@
}

proof fn lemma_digits(d: nat)
    requires
        d < 10,
    ensures
        digits().len() == 10,
        digits()[d as int] == digit_char(d),
        digit_value(digits()[d as int]) == Some(d),
{
    reveal_strlit("0123456789");
    assert(d == 0 || d == 1 || d == 2 || d == 3 || d == 4 || d == 5 || d == 6 || d == 7 || d == 8
        || d == 9);
}

/// A number below ten is written as its digit, and ten times a number plus a digit as that number
/// and then the digit.
pub proof fn numbers_are_written_digit_by_digit(n: nat, d: nat)
    requires
        d < 10,
    ensures
        decimal(d) == seq![digits()[d as int]],
        n > 0 ==> decimal(n * 10 + d) == decimal(n).push(digits()[d as int]),
{
    lemma_digits(d);
    assert((n * 10 + d) / 10 == n);
    assert((n * 10 + d) % 10 == d);
}

/// A digit is read as its value, and a digit after a number as ten times that number plus the
/// value. What is larger than `max` is no number.
pub proof fn numbers_are_read_digit_by_digit(s: Seq<char>, d: nat, max: nat)
    requires
        d < 10,
    ensures
        unsigned(seq![digits()[d as int]], max) == (if d <= max {
            Some(d)
        } else {
            None
        }),
        s.len() > 0 && s != seq!['+'] ==> unsigned(s.push(digits()[d as int]), max) == (
        match unsigned(s, max) {
            Some(v) => if v * 10 + d <= max {
                Some(v * 10 + d)
            } else {
                None
            },
            None => None::<nat>,
        }),
{
    lemma_digits(d);
    let c = digits()[d as int];
    assert(seq![c].drop_last() =~= Seq::<char>::empty());
    assert(digits_value(seq![c].drop_last()) == Some(0nat));
    assert(digits_value(seq![c]) == Some(d));
    if s.len() > 0 && s != seq!['+'] {
        let whole = s.push(c);
        assert(whole[0] == s[0]);
        if s[0] == '+' {
            assert(s.len() > 1) by {
                if s.len() == 1 {
                    assert(s =~= seq!['+']);
                }
            }
            assert(whole.skip(1) =~= s.skip(1).push(c));
            assert(s.skip(1).push(c).drop_last() =~= s.skip(1));
        } else {
            assert(whole.drop_last() =~= s);
        }
    }
}

/// A `+` before a number changes nothing, and alone it spells none, no more than no character does.
pub proof fn a_plus_sign_changes_nothing(s: Seq<char>, max: nat)
    requires
        s.len() > 0,
        s[0] != '+',
    ensures
        unsigned(seq!['+'] + s, max) == unsigned(s, max),
        unsigned(seq!['+'], max) is None,
        unsigned(Seq::empty(), max) is None,
{
    assert((seq!['+'] + s).skip(1) =~= s);
}

/// A text that holds any other character spells no number.
pub proof fn other_characters_spell_no_number(s: Seq<char>, i: int, max: nat)
    requires
        0 <= i < s.len(),
        !digits().contains(s[i]),
        i > 0 || s[i] != '+',
    ensures
        unsigned(s, max) is None,
{
    let c = s[i];
    assert(digit_value(c) is None) by {
        if digit_value(c) is Some {
            let d = digit_value(c)->Some_0;
            lemma_digits(d);
            assert(digits()[d as int] == c);
        }
    }
    let (t, k): (Seq<char>, int) = if s[0] == '+' {
        (s.skip(1), i - 1)
    } else {
        (s, i)
    };
    assert(t.take(k + 1).last() == c);
    lemma_prefix_value(t, k + 1, max);
    if digits_value(t) is Some {
        lemma_no_digits(t, k);
    }
}

proof fn lemma_no_digits(s: Seq<char>, i: int)
    requires
        0 <= i < s.len(),
        digit_value(s[i]) is None,
    ensures
        digits_value(s) is None,
    decreases s.len(),
{
    if i < s.len() - 1 {
        lemma_no_digits(s.drop_last(), i);
    }
}

proof fn lemma_word_len_extends(s: Seq<char>, c: char, t: Seq<char>)
    requires
        is_white(c),
    ensures
        word_len(s + seq![c] + t) == word_len(s),
    decreases s.len(),
{
    let whole = s + seq![c] + t;
    if s.len() > 0 {
        assert(whole[0] == s[0]);
        if !is_white(s[0]) {
            assert(whole.skip(1) =~= s.skip(1) + seq![c] + t);
            lemma_word_len_extends(s.skip(1), c, t);
        }
    } else {
        assert(whole[0] == c);
    }
}

/// The words on either side of a white space are the words of the one side and then of the other.
pub proof fn words_end_at_white_space(a: Seq<char>, c: char, b: Seq<char>)
    requires
        is_white(c),
    ensures
        words(a + seq![c] + b) == words(a) + words(b),
    decreases a.len(),
{
    let whole = a + seq![c] + b;
    if a.len() == 0 {
        assert(whole[0] == c);
        assert(whole.skip(1) =~= b);
        assert(words(a) + words(b) =~= words(b));
    } else if is_white(a[0]) {
        assert(whole[0] == a[0]);
        assert(whole.skip(1) =~= a.skip(1) + seq![c] + b);
        words_end_at_white_space(a.skip(1), c, b);
    } else {
        assert(whole[0] == a[0]);
        let n = word_len(a) as int;
        word_fits_its_text(a);
        lemma_word_len_extends(a, c, b);
        assert(whole.take(n) =~= a.take(n));
        assert(whole.skip(n) =~= a.skip(n) + seq![c] + b);
        words_end_at_white_space(a.skip(n), c, b);
        assert(seq![a.take(n)] + (words(a.skip(n)) + words(b)) =~= words(a) + words(b));
    }
}

/// Characters none of which is white space are one word, whole and unchanged; no character is none.
pub proof fn a_word_is_kept_whole(w: Seq<char>)
    requires
        forall|i: int| 0 <= i < w.len() ==> !is_white(#[trigger] w[i]),
    ensures
        words(w) == (if w.len() == 0 {
            Seq::<Seq<char>>::empty()
        } else {
            seq![w]
        }),
{
    if w.len() > 0 {
        lemma_word_len(w, w.len() as int);
        assert(w.take(w.len() as int) =~= w);
        assert(words(w.skip(w.len() as int)) =~= Seq::<Seq<char>>::empty());
        assert(words(w) =~= seq![w]);
    }
}

/// Upper-casing keeps every character but the lower-case ASCII letters, of which each becomes the
/// letter that stands in its place in the upper-case alphabet.
pub proof fn only_lower_case_letters_are_raised(s: Seq<char>, i: int)
    requires
        0 <= i < s.len(),
    ensures
        uppered(s).len() == s.len(),
        'a' <= s[i] <= 'z' ==> 'A' <= uppered(s)[i] <= 'Z' && uppered(s)[i] as int - 'A' as int
            == s[i] as int - 'a' as int,
        !('a' <= s[i] <= 'z') ==> uppered(s)[i] == s[i],
{
}

/// Lower-casing keeps every byte but the upper-case ASCII letters, of which each becomes the letter
/// that stands in its place in the lower-case alphabet.
pub proof fn only_upper_case_letters_are_lowered(s: Seq<u8>, i: int)
    requires
        0 <= i < s.len(),
    ensures
        lowered(s).len() == s.len(),
        0x41 <= s[i] <= 0x5a ==> lowered(s)[i] == s[i] + 0x20,
        !(0x41 <= s[i] <= 0x5a) ==> lowered(s)[i] == s[i],
{
}

/// A list of strings stands for the text of each of them, in order.
pub proof fn every_text_is_there(v: Seq<String>, i: int)
    requires
        0 <= i < v.len(),
    ensures
        texts(v).len() == v.len(),
        texts(v)[i] == v[i]@,
{
}

proof fn lemma_encoded_ascii(c: char, a: u8)
    requires
        a < 0x80,
        c as u32 != a as u32,
    ensures
        forall|i: int|
            0 <= i < encode_scalar(c as u32).len() ==> (#[trigger] encode_scalar(c as u32)[i]) != a,
{
    let v = c as u32;
    char_is_scalar(c);
    assert(v <= 0x7f && a < 0x80 && v != a as u32 ==> leading_byte_width_1(v) != a) by (bit_vector);
    assert(leading_byte_width_2(v) >= 0x80) by (bit_vector);
    assert(leading_byte_width_3(v) >= 0x80) by (bit_vector);
    assert(leading_byte_width_4(v) >= 0x80) by (bit_vector);
    assert(last_continuation_byte(v) >= 0x80) by (bit_vector);
    assert(second_last_continuation_byte(v) >= 0x80) by (bit_vector);
    assert(third_last_continuation_byte(v) >= 0x80) by (bit_vector);
}

/// An ASCII character that a text does not hold is not among its bytes either.
pub proof fn absent_ascii_stays_absent(s: Seq<char>, a: u8)
    requires
        a < 0x80,
        !s.contains(a as char),
    ensures
        forall|i: int| 0 <= i < encode_utf8(s).len() ==> (#[trigger] encode_utf8(s)[i]) != a,
    decreases s.len(),
{
    if s.len() > 0 {
        assert(s[0] != a as char);
        if s[0] as u32 == a as u32 {
            char_u32_cast(s[0], a as u32);
        }
        lemma_encoded_ascii(s[0], a);
        let tail = s.drop_first();
        assert(!tail.contains(a as char)) by {
            if tail.contains(a as char) {
                let i = choose|i: int| 0 <= i < tail.len() && tail[i] == a as char;
                assert(s[i + 1] == a as char);
            }
        }
        absent_ascii_stays_absent(tail, a);
        let first = encode_scalar(s[0] as u32);
        let rest = encode_utf8(tail);
        assert(encode_utf8(s) == first + rest);
        assert forall|i: int| 0 <= i < encode_utf8(s).len() implies (#[trigger] encode_utf8(s)[i])
            != a by {
            if i < first.len() {
                assert(encode_utf8(s)[i] == first[i]);
            } else {
                assert(encode_utf8(s)[i] == rest[i - first.len()]);
            }
        }
    }
}

pub proof fn lemma_no_char_is_below_nul(c: char)
    ensures
        '\0' <= c,
{
    char_is_scalar(c);
    let v = c as u32;
    assert(v >= 0);
    char_u32_cast(c, v);
}

/// The ASCII characters that a text starts with are its first bytes.
pub proof fn leading_ascii_is_kept(s: Seq<char>, k: int)
    requires
        0 <= k <= s.len(),
        forall|i: int| 0 <= i < k ==> (#[trigger] s[i]) <= '\u{7f}',
    ensures
        k <= encode_utf8(s).len(),
        forall|i: int| 0 <= i < k ==> (#[trigger] encode_utf8(s)[i]) == s[i] as u8,
{
    let head = s.take(k);
    assert(s =~= head + s.skip(k));
    encoding_of_a_concatenation(head, s.skip(k));
    assert forall|i: int| 0 <= i < head.len() implies ('\0' <= #[trigger] head[i] <= '\u{7f}') by {
        assert(head[i] == s[i]);
        lemma_no_char_is_below_nul(head[i]);
    }
    assert(is_ascii_chars(head));
    is_ascii_chars_encode_utf8(head);
}

/// Different texts have different bytes.
pub proof fn bytes_tell_texts_apart(a: Seq<char>, b: Seq<char>)
    ensures
        encode_utf8(a) == encode_utf8(b) <==> a == b,
{
    encode_utf8_decode_utf8(a);
    encode_utf8_decode_utf8(b);
}

/// A number is written with digits alone, at least one.
pub proof fn a_number_is_written_with_digits_alone(n: nat)
    ensures
        decimal(n).len() > 0,
        forall|i: int| 0 <= i < decimal(n).len() ==> '0' <= #[trigger] decimal(n)[i] <= '9',
    decreases n,
{
    if n >= 10 {
        a_number_is_written_with_digits_alone(n / 10);
    }
}

} // verus!
