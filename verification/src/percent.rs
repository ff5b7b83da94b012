//! Percent-encoding of the text that stands in a URL.

use vstd::prelude::*;
use vstd::utf8::*;

verus! {

/// The bytes that stand for themselves in percent-encoded text.
pub open spec fn is_unreserved(b: u8) -> bool {
    ||| 48 <= b <= 57
    ||| 65 <= b <= 90
    ||| 97 <= b <= 122
    ||| b == 45
    ||| b == 46
    ||| b == 95
    ||| b == 126
}

/// The upper-case hexadecimal digit of a value below 16.
pub open spec fn upper_hex(d: u8) -> char {
    if d < 10 {
        (48 + d) as char
    } else {
        (55 + d) as char
    }
}

/// The value of a hexadecimal digit, in either case.
pub open spec fn hex_value(b: u8) -> Option<u8> {
    if 48 <= b <= 57 {
        Some((b - 48) as u8)
    } else if 65 <= b <= 70 {
        Some((b - 55) as u8)
    } else if 97 <= b <= 102 {
        Some((b - 87) as u8)
    } else {
        None
    }
}

/// How one byte is written: as itself, or as `%` and two hexadecimal digits.
pub open spec fn escaped(b: u8) -> Seq<char> {
    if is_unreserved(b) {
        seq![b as char]
    } else {
        seq!['%', upper_hex((b / 16) as u8), upper_hex((b % 16) as u8)]
    }
}

/// The percent-encoded form of a byte sequence.
pub open spec fn percent_encoded(bytes: Seq<u8>) -> Seq<char>
    decreases bytes.len(),
{
    if bytes.len() == 0 {
        seq![]
    } else {
        escaped(bytes.first()) + percent_encoded(bytes.drop_first())
    }
}

/// The text starts with `%` and two hexadecimal digits.
pub open spec fn starts_with_escape(bytes: Seq<u8>) -> bool {
    &&& bytes.len() >= 3
    &&& bytes[0] == 37
    &&& hex_value(bytes[1]) is Some
    &&& hex_value(bytes[2]) is Some
}

/// The bytes that percent-encoded text stands for. A `%` without two hexadecimal digits behind it
/// stands for itself.
pub open spec fn percent_decoded(bytes: Seq<u8>) -> Seq<u8>
    decreases bytes.len(),
{
    if bytes.len() == 0 {
        seq![]
    } else if starts_with_escape(bytes) {
        seq![(hex_value(bytes[1])->0 * 16 + hex_value(bytes[2])->0) as u8] + percent_decoded(
            bytes.skip(3),
        )
    } else {
        seq![bytes[0]] + percent_decoded(bytes.drop_first())
    }
}

/// The text that percent-encoded text stands for, where its bytes are well-formed UTF-8.
pub open spec fn percent_decoded_text(text: Seq<char>) -> Option<Seq<char>> {
    let bytes = percent_decoded(encode_utf8(text));
    if valid_utf8(bytes) {
        Some(decode_utf8(bytes))
    } else {
        None
    }
}

/// `urlencoding::encode` writes every byte of the UTF-8 text that is neither an ASCII letter or
/// digit nor one of `-`, `_`, `.`, `~` as `%` and two upper-case hexadecimal digits, and the
/// others as they are.
#[verifier::external_body]
pub(crate) fn url_encode(text: &str) -> (res: String)
    ensures
        res@ == percent_encoded(encode_utf8(text@)),
{
    urlencoding::encode(text).into_owned()
}

/// `percent_encoding::percent_decode_str` replaces each `%` with two hexadecimal digits behind it
/// by the byte that they give, and `decode_utf8` on its result gives the text of the bytes, or an
/// error where they are not well-formed UTF-8.
#[verifier::external_body]
pub(crate) fn percent_decode(text: &str) -> (res: Option<String>)
    ensures
        res is Some <==> percent_decoded_text(text@) is Some,
        res is Some ==> percent_decoded_text(text@) == Some(res->0@),
{
    percent_encoding::percent_decode_str(text).decode_utf8().ok().map(|decoded| decoded.into_owned())
}

/// The bytes of ASCII text.
spec fn ascii_bytes(s: Seq<char>) -> Seq<u8> {
    Seq::new(s.len(), |i: int| s[i] as u8)
}

proof fn lemma_encoded_is_ascii(bytes: Seq<u8>)
    ensures
        is_ascii_chars(percent_encoded(bytes)),
    decreases bytes.len(),
{
    if bytes.len() > 0 {
        lemma_encoded_is_ascii(bytes.drop_first());
    }
}

/// The first bytes are a percent-encoded form of the second ones: each of these stands there as it
/// is, or as `%` and two hexadecimal digits of either case, and `%` itself only in the latter way.
pub open spec fn is_form_of(form: Seq<u8>, bytes: Seq<u8>) -> bool
    decreases bytes.len(),
{
    if bytes.len() == 0 {
        form.len() == 0
    } else {
        ||| {
            &&& form.len() > 0
            &&& form[0] == bytes[0]
            &&& bytes[0] != 37
            &&& is_form_of(form.drop_first(), bytes.drop_first())
        }
        ||| {
            &&& starts_with_escape(form)
            &&& hex_value(form[1])->0 * 16 + hex_value(form[2])->0 == bytes[0]
            &&& is_form_of(form.skip(3), bytes.drop_first())
        }
    }
}

proof fn lemma_decode_form(form: Seq<u8>, bytes: Seq<u8>)
    requires
        is_form_of(form, bytes),
    ensures
        percent_decoded(form) == bytes,
    decreases bytes.len(),
{
    if bytes.len() > 0 {
        if starts_with_escape(form) {
            lemma_decode_form(form.skip(3), bytes.drop_first());
        } else {
            lemma_decode_form(form.drop_first(), bytes.drop_first());
        }
        assert(bytes =~= seq![bytes[0]] + bytes.drop_first());
    }
}

/// Decoding any percent-encoded form of a text gives the text.
pub proof fn law_every_form_is_decoded(form: Seq<char>, text: Seq<char>)
    requires
        is_form_of(encode_utf8(form), encode_utf8(text)),
    ensures
        percent_decoded_text(form) == Some(text),
{
    lemma_decode_form(encode_utf8(form), encode_utf8(text));
    encode_utf8_valid_utf8(text);
    encode_utf8_decode_utf8(text);
}

proof fn lemma_encoded_is_form(bytes: Seq<u8>)
    ensures
        is_form_of(ascii_bytes(percent_encoded(bytes)), bytes),
    decreases bytes.len(),
{
    let text = ascii_bytes(percent_encoded(bytes));
    if bytes.len() > 0 {
        let b = bytes.first();
        let rest = bytes.drop_first();
        lemma_encoded_is_form(rest);
        let tail = ascii_bytes(percent_encoded(rest));
        if is_unreserved(b) {
            assert(text[0] == b);
            assert(text.drop_first() =~= tail);
        } else {
            assert(text =~= ascii_bytes(escaped(b)) + tail);
            assert(starts_with_escape(text));
            assert(hex_value(text[1]) == Some((b / 16) as u8));
            assert(hex_value(text[2]) == Some((b % 16) as u8));
            assert(text.skip(3) =~= tail);
        }
    }
}

/// What encoding gives is a percent-encoded form of the text, so that decoding gives the text back.
pub proof fn law_decode_undoes_encode(text: Seq<char>)
    ensures
        is_form_of(encode_utf8(percent_encoded(encode_utf8(text))), encode_utf8(text)),
        percent_decoded_text(percent_encoded(encode_utf8(text))) == Some(text),
{
    let bytes = encode_utf8(text);
    let encoded = percent_encoded(bytes);
    lemma_encoded_is_ascii(bytes);
    is_ascii_chars_encode_utf8(encoded);
    assert(encode_utf8(encoded) =~= ascii_bytes(encoded));
    lemma_encoded_is_form(bytes);
    law_every_form_is_decoded(encoded, text);
}

/// The bytes of a character other than `%` are other than that of `%`.
proof fn lemma_no_percent_byte(character: char)
    requires
        character != '%',
    ensures
        forall|i: int|
            0 <= i < encode_scalar(character as u32).len() ==> #[trigger] encode_scalar(
                character as u32,
            )[i] != 37,
{
    let c = character as u32;
    assert(c <= 0x7F && c != 37 ==> (c & 0x7F) as u8 != 37) by (bit_vector);
    assert((0xC0u8 | ((c >> 6) & 0x1F) as u8) != 37) by (bit_vector);
    assert((0xE0u8 | ((c >> 12) & 0x0F) as u8) != 37) by (bit_vector);
    assert((0xF0u8 | ((c >> 18) & 0x7) as u8) != 37) by (bit_vector);
    assert((0x80u8 | (c & 0x3F) as u8) != 37) by (bit_vector);
    assert((0x80u8 | ((c >> 6) & 0x3F) as u8) != 37) by (bit_vector);
    assert((0x80u8 | ((c >> 12) & 0x3F) as u8) != 37) by (bit_vector);
}

proof fn lemma_no_percent(text: Seq<char>)
    requires
        !text.contains('%'),
    ensures
        !encode_utf8(text).contains(37),
    decreases text.len(),
{
    if text.len() > 0 {
        assert(text.contains(text[0]));
        assert forall|c: char| text.drop_first().contains(c) implies text.contains(c) by {
            let k = choose|k: int| 0 <= k < text.drop_first().len() && text.drop_first()[k] == c;
            assert(text[k + 1] == c);
        }
        lemma_no_percent(text.drop_first());
        lemma_no_percent_byte(text[0]);
        let head = encode_scalar(text[0] as u32);
        let tail = encode_utf8(text.drop_first());
        if encode_utf8(text).contains(37) {
            let k = choose|k: int| 0 <= k < (head + tail).len() && (head + tail)[k] == 37;
            if k >= head.len() {
                assert(tail[k - head.len()] == 37);
            }
        }
    }
}

proof fn lemma_plain_is_form(bytes: Seq<u8>)
    requires
        !bytes.contains(37),
    ensures
        is_form_of(bytes, bytes),
    decreases bytes.len(),
{
    if bytes.len() > 0 {
        assert(bytes.contains(bytes[0]));
        assert forall|b: u8| bytes.drop_first().contains(b) implies bytes.contains(b) by {
            let k = choose|k: int| 0 <= k < bytes.drop_first().len() && bytes.drop_first()[k] == b;
            assert(bytes[k + 1] == b);
        }
        lemma_plain_is_form(bytes.drop_first());
    }
}

/// Text without a `%` is a percent-encoded form of itself and stands for itself.
pub proof fn law_plain_text_stands_for_itself(text: Seq<char>)
    requires
        !text.contains('%'),
    ensures
        is_form_of(encode_utf8(text), encode_utf8(text)),
        percent_decoded_text(text) == Some(text),
{
    lemma_no_percent(text);
    lemma_plain_is_form(encode_utf8(text));
    law_every_form_is_decoded(text, text);
}

/// The percent-encoded form of bytes is that of each of them, one after the other. ASCII letters,
/// digits and `-`, `.`, `_`, `~` stand for themselves; any other byte takes three characters.
pub proof fn law_bytes_are_encoded_one_by_one(first: Seq<u8>, second: Seq<u8>, byte: u8)
    ensures
        percent_encoded(first + second) == percent_encoded(first) + percent_encoded(second),
        ({
            let c = byte as char;
            let kept = ('0' <= c <= '9') || ('A' <= c <= 'Z') || ('a' <= c <= 'z') || c == '-' || c
                == '.' || c == '_' || c == '~';
            let one = percent_encoded(seq![byte]);
            &&& kept ==> one == seq![c]
            &&& !kept ==> one.len() == 3 && one[0] == '%'
        }),
    decreases first.len(),
{
    reveal_with_fuel(percent_encoded, 2);
    assert(seq![byte].drop_first() =~= seq![]);
    assert(escaped(byte) + Seq::<char>::empty() =~= escaped(byte));
    if first.len() > 0 {
        law_bytes_are_encoded_one_by_one(first.drop_first(), second, byte);
        assert((first + second).drop_first() =~= first.drop_first() + second);
        assert((first + second).first() == first.first());
        assert(percent_encoded(first + second) =~= percent_encoded(first) + percent_encoded(
            second,
        ));
    } else {
        assert(first + second =~= second);
        assert(percent_encoded(first) + percent_encoded(second) =~= percent_encoded(second));
    }
}

} // verus!
