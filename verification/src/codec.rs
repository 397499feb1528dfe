//! Percent-encoding, query strings and UTF-8.

use vstd::prelude::*;
use vstd::utf8::*;

use crate::text::{
    fields, lemma_fields_push, lemma_filter_push, lemma_one_field, lemma_until_concat, opt_text, until,
};

verus! {

// ---------------------------------------------------------------------------
// Percent-encoding
// ---------------------------------------------------------------------------

/// The upper-case hexadecimal digit of a number below sixteen.
pub open spec fn hex_char(d: int) -> char {
    if d < 10 {
        (48 + d) as char
    } else {
        (55 + d) as char
    }
}

/// A byte as a percent sign and two hexadecimal digits.
pub open spec fn escaped(b: u8) -> Seq<char> {
    seq!['%', hex_char(b as int / 16), hex_char(b as int % 16)]
}

/// An ASCII letter or digit.
pub open spec fn is_alphanumeric(b: u8) -> bool {
    ||| 0x30 <= b <= 0x39
    ||| 0x41 <= b <= 0x5a
    ||| 0x61 <= b <= 0x7a
}

/// What stands for one byte in a percent-encoded text: letters, digits, `-`, `.`, `_` and `~`
/// stand for themselves.
pub open spec fn url_byte(b: u8) -> Seq<char> {
    if is_alphanumeric(b) || b == 0x2d || b == 0x2e || b == 0x5f || b == 0x7e {
        seq![b as char]
    } else {
        escaped(b)
    }
}

/// Some bytes in percent-encoding.
pub open spec fn url_bytes(bytes: Seq<u8>) -> Seq<char>
    decreases bytes.len(),
{
    if bytes.len() == 0 {
        seq![]
    } else {
        url_byte(bytes[0]) + url_bytes(bytes.skip(1))
    }
}

/// A text in percent-encoding.
pub open spec fn url_encoded(s: Seq<char>) -> Seq<char> {
    url_bytes(encode_utf8(s))
}

/// The value of a hexadecimal digit of either case.
pub open spec fn hex_value(b: u8) -> Option<int> {
    if 0x30 <= b <= 0x39 {
        Some(b - 0x30)
    } else if 0x41 <= b <= 0x46 {
        Some(b - 0x41 + 10)
    } else if 0x61 <= b <= 0x66 {
        Some(b - 0x61 + 10)
    } else {
        None
    }
}

/// Some bytes with every percent sign that two hexadecimal digits follow, and those digits,
/// replaced by the byte that they stand for.
pub open spec fn percent_decoded(bytes: Seq<u8>) -> Seq<u8>
    decreases bytes.len(),
{
    if bytes.len() == 0 {
        seq![]
    } else if bytes[0] == 0x25 && bytes.len() >= 3 && hex_value(bytes[1]) is Some && hex_value(
        bytes[2],
    ) is Some {
        seq![(hex_value(bytes[1])->0 * 16 + hex_value(bytes[2])->0) as u8] + percent_decoded(
            bytes.skip(3),
        )
    } else {
        seq![bytes[0]] + percent_decoded(bytes.skip(1))
    }
}

/// The text behind some bytes, if they are UTF-8.
pub open spec fn utf8_text(bytes: Seq<u8>) -> Option<Seq<char>> {
    if valid_utf8(bytes) {
        Some(decode_utf8(bytes))
    } else {
        None
    }
}

/// The text that a percent-encoded text stands for, if it is UTF-8.
pub open spec fn url_decoded(s: Seq<char>) -> Option<Seq<char>> {
    utf8_text(percent_decoded(encode_utf8(s)))
}

/// `urlencoding::encode` percent-encodes every byte of the text but letters, digits, `-`, `.`,
/// `_` and `~`, with upper-case digits.
#[verifier::external_body]
pub(crate) fn encode_url(s: &str) -> (r: String)
    ensures
        r@ == url_encoded(s@),
{
    urlencoding::encode(s).into_owned()
}

/// `urlencoding::decode` decodes every percent sign that two hexadecimal digits follow, keeps
/// everything else, and fails if the outcome is not UTF-8.
#[verifier::external_body]
pub(crate) fn decode_url(s: &str) -> (r: Option<String>)
    ensures
        opt_text(r) == url_decoded(s@),
{
    match urlencoding::decode(s) {
        Ok(text) => Some(text.into_owned()),
        Err(_) => None,
    }
}

/// `std::str::from_utf8` gives the text behind bytes that are UTF-8, and fails on others.
#[verifier::external_body]
pub(crate) fn text_from_utf8(bytes: &[u8]) -> (r: Option<String>)
    ensures
        opt_text(r) == utf8_text(bytes@),
{
    match std::str::from_utf8(bytes) {
        Ok(text) => Some(text.to_owned()),
        Err(_) => None,
    }
}

/// A character of a percent-encoded text.
pub open spec fn is_url_char(c: char) -> bool {
    ||| '0' <= c <= '9'
    ||| 'A' <= c <= 'Z'
    ||| 'a' <= c <= 'z'
    ||| c == '-'
    ||| c == '.'
    ||| c == '_'
    ||| c == '~'
    ||| c == '%'
}

/// Percent-encoding leaves nothing but letters, digits, `-`, `.`, `_`, `~` and `%`.
pub proof fn encoding_is_plain(s: Seq<char>)
    ensures
        forall|i: int| 0 <= i < url_encoded(s).len() ==> is_url_char(#[trigger] url_encoded(s)[i]),
{
    lemma_url_bytes_plain(encode_utf8(s));
}

/// Decoding a percent-encoded text gives back the text.
pub proof fn decoding_undoes_encoding(s: Seq<char>)
    ensures
        url_decoded(url_encoded(s)) == Some(s),
{
    let bytes = encode_utf8(s);
    lemma_url_bytes_decode(bytes);
    lemma_url_bytes_plain(bytes);
    assert(is_ascii_chars(url_bytes(bytes)));
    is_ascii_chars_encode_utf8(url_bytes(bytes));
    assert(encode_utf8(url_encoded(s)) =~= ascii_bytes(url_bytes(bytes)));
    encode_utf8_valid_utf8(s);
    encode_utf8_decode_utf8(s);
}

/// The bytes of a text of ASCII characters.
spec fn ascii_bytes(s: Seq<char>) -> Seq<u8> {
    Seq::new(s.len(), |i: int| s[i] as u8)
}

proof fn lemma_url_byte(b: u8)
    ensures
        forall|i: int| 0 <= i < url_byte(b).len() ==> is_url_char(#[trigger] url_byte(b)[i]),
        url_byte(b).len() == 1 || url_byte(b) == escaped(b),
        hex_value(hex_char(b as int / 16) as u8) == Some(b as int / 16),
        hex_value(hex_char(b as int % 16) as u8) == Some(b as int % 16),
        '%' as u8 == 0x25,
{
}

proof fn lemma_url_bytes_plain(bytes: Seq<u8>)
    ensures
        forall|i: int| 0 <= i < url_bytes(bytes).len() ==> is_url_char(#[trigger] url_bytes(bytes)[i]),
    decreases bytes.len(),
{
    if bytes.len() > 0 {
        lemma_url_byte(bytes[0]);
        lemma_url_bytes_plain(bytes.skip(1));
        let first = url_byte(bytes[0]);
        let rest = url_bytes(bytes.skip(1));
        assert forall|i: int| 0 <= i < url_bytes(bytes).len() implies is_url_char(
            #[trigger] url_bytes(bytes)[i],
        ) by {
            if i < first.len() {
                assert(url_bytes(bytes)[i] == first[i]);
            } else {
                assert(url_bytes(bytes)[i] == rest[i - first.len()]);
            }
        }
    }
}

proof fn lemma_url_bytes_decode(bytes: Seq<u8>)
    ensures
        percent_decoded(ascii_bytes(url_bytes(bytes))) == bytes,
    decreases bytes.len(),
{
    let out = ascii_bytes(url_bytes(bytes));
    if bytes.len() > 0 {
        let b = bytes[0];
        let rest = url_bytes(bytes.skip(1));
        lemma_url_byte(b);
        lemma_url_bytes_decode(bytes.skip(1));
        assert(url_bytes(bytes) == url_byte(b) + rest);
        if url_byte(b) == escaped(b) {
            assert(out[0] == 0x25);
            assert(out[1] == hex_char(b as int / 16) as u8);
            assert(out[2] == hex_char(b as int % 16) as u8);
            assert(out.skip(3) =~= ascii_bytes(rest));
        } else {
            assert(out[0] == b);
            assert(out.skip(1) =~= ascii_bytes(rest));
        }
        assert(bytes =~= seq![b] + bytes.skip(1));
    } else {
        assert(out =~= Seq::<u8>::empty());
        assert(bytes =~= Seq::<u8>::empty());
    }
}

// ---------------------------------------------------------------------------
// Query strings
// ---------------------------------------------------------------------------

/// What stands for one byte in a form-encoded text: letters, digits, `*`, `-`, `.` and `_` stand
/// for themselves, and `+` stands for a space.
pub open spec fn form_byte(b: u8) -> Seq<char> {
    if is_alphanumeric(b) || b == 0x2a || b == 0x2d || b == 0x2e || b == 0x5f {
        seq![b as char]
    } else if b == 0x20 {
        seq!['+']
    } else {
        escaped(b)
    }
}

/// Some bytes in form-encoding.
pub open spec fn form_bytes(bytes: Seq<u8>) -> Seq<char>
    decreases bytes.len(),
{
    if bytes.len() == 0 {
        seq![]
    } else {
        form_byte(bytes[0]) + form_bytes(bytes.skip(1))
    }
}

/// A name and its value as they stand in a query string.
pub open spec fn form_pair(name: Seq<char>, value: Seq<char>) -> Seq<char> {
    form_bytes(encode_utf8(name)) + seq!['='] + form_bytes(encode_utf8(value))
}

/// A query string with one more pair.
pub open spec fn with_pair(query: Seq<char>, name: Seq<char>, value: Seq<char>) -> Seq<char> {
    if query.len() == 0 {
        form_pair(name, value)
    } else {
        query + seq!['&'] + form_pair(name, value)
    }
}

/// What `String::from_utf8_lossy` makes of bytes that are not UTF-8.
pub uninterp spec fn lossy_text(bytes: Seq<u8>) -> Seq<char>;

/// The bytes that a form-encoded text stands for.
pub open spec fn form_decoded(s: Seq<char>) -> Seq<u8> {
    percent_decoded(
        encode_utf8(s).map_values(
            |b: u8|
                if b == 0x2b {
                    0x20u8
                } else {
                    b
                },
        ),
    )
}

/// The text that a form-encoded text stands for.
pub open spec fn form_text(s: Seq<char>) -> Seq<char> {
    let bytes = form_decoded(s);
    match utf8_text(bytes) {
        Some(text) => text,
        None => lossy_text(bytes),
    }
}

/// The part of a query field in front of its first equals sign, or all of it.
pub open spec fn field_name(field: Seq<char>) -> Seq<char> {
    field.take(until(field, '=') as int)
}

/// The part of a query field behind its first equals sign; empty if it has none.
pub open spec fn field_value(field: Seq<char>) -> Seq<char> {
    let end = until(field, '=') as int;
    if end < field.len() {
        field.skip(end + 1)
    } else {
        seq![]
    }
}

/// The fields of a query string that are not empty.
pub open spec fn query_fields(query: Seq<char>) -> Seq<Seq<char>> {
    fields(query, '&').filter(|field: Seq<char>| field.len() > 0)
}

/// The names and values of a query string.
pub open spec fn query_pairs(query: Seq<char>) -> Seq<(Seq<char>, Seq<char>)> {
    query_fields(query).map_values(
        |field: Seq<char>| (form_text(field_name(field)), form_text(field_value(field))),
    )
}

/// A character of a form-encoded text.
pub open spec fn is_form_char(c: char) -> bool {
    ||| '0' <= c <= '9'
    ||| 'A' <= c <= 'Z'
    ||| 'a' <= c <= 'z'
    ||| c == '*'
    ||| c == '-'
    ||| c == '.'
    ||| c == '_'
    ||| c == '+'
    ||| c == '%'
}

/// Decoding a form-encoded text gives back the text.
pub proof fn form_decoding_undoes_encoding(s: Seq<char>)
    ensures
        form_text(form_bytes(encode_utf8(s))) == s,
{
    let bytes = encode_utf8(s);
    let encoded = form_bytes(bytes);
    lemma_form_bytes_plain(bytes);
    lemma_form_bytes_decode(bytes);
    assert(is_ascii_chars(encoded));
    is_ascii_chars_encode_utf8(encoded);
    assert(encode_utf8(encoded) =~= ascii_bytes(encoded));
    assert(ascii_bytes(encoded).map_values(
        |b: u8|
            if b == 0x2b {
                0x20u8
            } else {
                b
            },
    ) =~= with_spaces(ascii_bytes(encoded)));
    assert(form_decoded(encoded) == bytes);
    encode_utf8_valid_utf8(s);
    encode_utf8_decode_utf8(s);
}

/// Some bytes with a space in place of every plus sign.
spec fn with_spaces(bytes: Seq<u8>) -> Seq<u8> {
    Seq::new(
        bytes.len(),
        |i: int|
            if bytes[i] == 0x2b {
                0x20u8
            } else {
                bytes[i]
            },
    )
}

proof fn lemma_form_byte(b: u8)
    ensures
        forall|i: int| 0 <= i < form_byte(b).len() ==> is_form_char(#[trigger] form_byte(b)[i]),
        form_byte(b).len() == 1 || form_byte(b) == escaped(b),
        hex_value(hex_char(b as int / 16) as u8) == Some(b as int / 16),
        hex_value(hex_char(b as int % 16) as u8) == Some(b as int % 16),
        '%' as u8 == 0x25,
        '+' as u8 == 0x2b,
{
}

proof fn lemma_form_bytes_plain(bytes: Seq<u8>)
    ensures
        forall|i: int|
            0 <= i < form_bytes(bytes).len() ==> is_form_char(#[trigger] form_bytes(bytes)[i]),
    decreases bytes.len(),
{
    if bytes.len() > 0 {
        lemma_form_byte(bytes[0]);
        lemma_form_bytes_plain(bytes.skip(1));
        let first = form_byte(bytes[0]);
        let rest = form_bytes(bytes.skip(1));
        assert forall|i: int| 0 <= i < form_bytes(bytes).len() implies is_form_char(
            #[trigger] form_bytes(bytes)[i],
        ) by {
            if i < first.len() {
                assert(form_bytes(bytes)[i] == first[i]);
            } else {
                assert(form_bytes(bytes)[i] == rest[i - first.len()]);
            }
        }
    }
}

proof fn lemma_form_bytes_decode(bytes: Seq<u8>)
    ensures
        percent_decoded(with_spaces(ascii_bytes(form_bytes(bytes)))) == bytes,
    decreases bytes.len(),
{
    let out = with_spaces(ascii_bytes(form_bytes(bytes)));
    if bytes.len() > 0 {
        let b = bytes[0];
        let rest = form_bytes(bytes.skip(1));
        lemma_form_byte(b);
        lemma_form_bytes_decode(bytes.skip(1));
        assert(form_bytes(bytes) == form_byte(b) + rest);
        if form_byte(b) == escaped(b) {
            assert(out[0] == 0x25);
            assert(out[1] == hex_char(b as int / 16) as u8);
            assert(out[2] == hex_char(b as int % 16) as u8);
            assert(out.skip(3) =~= with_spaces(ascii_bytes(rest)));
        } else {
            assert(out[0] == b);
            assert(out.skip(1) =~= with_spaces(ascii_bytes(rest)));
        }
        assert(bytes =~= seq![b] + bytes.skip(1));
    } else {
        assert(out =~= Seq::<u8>::empty());
        assert(bytes =~= Seq::<u8>::empty());
    }
}

/// A pair in a query string is one field, which reads as that pair.
pub(crate) proof fn lemma_form_pair(name: Seq<char>, value: Seq<char>)
    ensures
        form_pair(name, value).len() > 0,
        !form_pair(name, value).contains('&'),
        form_text(field_name(form_pair(name, value))) == name,
        form_text(field_value(form_pair(name, value))) == value,
{
    let left = form_bytes(encode_utf8(name));
    let right = form_bytes(encode_utf8(value));
    let pair = form_pair(name, value);
    lemma_form_bytes_plain(encode_utf8(name));
    lemma_form_bytes_plain(encode_utf8(value));
    assert forall|i: int| 0 <= i < pair.len() implies pair[i] != '&' by {
        if i < left.len() {
            assert(is_form_char(left[i]));
        } else if i > left.len() {
            assert(is_form_char(right[i - left.len() - 1]));
        }
    }
    assert(!left.contains('=')) by {
        if left.contains('=') {
            assert(is_form_char(left[left.index_of('=')]));
        }
    }
    assert(pair =~= left + (seq!['='] + right));
    lemma_until_concat(left, seq!['='] + right, '=');
    assert(field_name(pair) =~= left);
    assert(field_value(pair) =~= right);
    form_decoding_undoes_encoding(name);
    form_decoding_undoes_encoding(value);
}

/// One more field of a query string is one more pair.
pub(crate) proof fn lemma_one_more_pair(query: Seq<char>, field: Seq<char>)
    requires
        field.len() > 0,
        !field.contains('&'),
    ensures
        query_pairs(query + seq!['&'] + field) == query_pairs(query).push(
            (form_text(field_name(field)), form_text(field_value(field))),
        ),
{
    lemma_fields_push(query, '&', field);
    lemma_filter_push(fields(query, '&'), field, |field: Seq<char>| field.len() > 0);
    assert(query_pairs(query + seq!['&'] + field) =~= query_pairs(query).push(
        (form_text(field_name(field)), form_text(field_value(field))),
    ));
}

/// An empty query string has no pairs.
pub(crate) proof fn lemma_no_pairs()
    ensures
        query_pairs(seq![]) == Seq::<(Seq<char>, Seq<char>)>::empty(),
{
    let none = Seq::<char>::empty();
    let before = Seq::<Seq<char>>::empty();
    lemma_one_field(none, '&');
    assert(seq![none] =~= before.push(none));
    lemma_filter_push(before, none, |field: Seq<char>| field.len() > 0);
    assert(query_pairs(none) =~= Seq::empty());
}

/// A query string of one field has one pair.
pub(crate) proof fn lemma_first_pair(field: Seq<char>)
    requires
        field.len() > 0,
        !field.contains('&'),
    ensures
        query_pairs(field) == seq![(form_text(field_name(field)), form_text(field_value(field)))],
{
    let before = Seq::<Seq<char>>::empty();
    lemma_one_field(field, '&');
    assert(seq![field] =~= before.push(field));
    lemma_filter_push(before, field, |field: Seq<char>| field.len() > 0);
    assert(query_pairs(field) =~= seq![
        (form_text(field_name(field)), form_text(field_value(field))),
    ]);
}

/// The characters behind pairs of strings.
pub open spec fn pair_texts(pairs: Seq<(String, String)>) -> Seq<(Seq<char>, Seq<char>)> {
    pairs.map_values(|pair: (String, String)| (pair.0@, pair.1@))
}

/// `url::form_urlencoded::parse`, which `Url::query_pairs` calls on the query of a URL, splits a
/// query string at `&`, skips empty fields, splits each field at its first `=`, and decodes `+` and
/// percent-encoding in both parts. Where what comes out is not UTF-8 it goes through
/// `String::from_utf8_lossy`, of which nothing more is said.
#[verifier::external_body]
pub(crate) fn parse_query(query: &str) -> (pairs: Vec<(String, String)>)
    ensures
        pair_texts(pairs@) == query_pairs(query@),
        forall|i: int|
            0 <= i < pairs@.len() && utf8_text(
                form_decoded(field_name(query_fields(query@)[i])),
            ) is None ==> (#[trigger] pairs@[i]).0@ == lossy_text(
                form_decoded(field_name(query_fields(query@)[i])),
            ),
{
    url::form_urlencoded::parse(query.as_bytes()).into_owned().collect()
}

/// `url::form_urlencoded::Serializer::append_pair`, on which `Url::query_pairs_mut` rests, appends
/// a form-encoded pair, behind an `&` if the query string is not empty.
#[verifier::external_body]
pub(crate) fn append_pair(query: &mut String, name: &str, value: &str)
    ensures
        final(query)@ == with_pair(old(query)@, name@, value@),
{
    url::form_urlencoded::Serializer::new(query).append_pair(name, value);
}

} // verus!
