//! What is called of other crates, and what is taken on trust about it.
//!
//! Nothing here is proved. Each function makes one call, and its contract states what the crate
//! that it calls documents or shows of that call.

use bytes::{Bytes, BytesMut};
use http::header::{HeaderMap, HeaderValue, ToStrError};
use vstd::prelude::*;
use vstd::utf8::{decode_utf8, encode_utf8, valid_utf8};

use crate::text::decimal;

verus! {

/// `bytes::Bytes`, an immutable sequence of bytes.
#[verifier::external_type_specification]
#[verifier::external_body]
pub struct ExBytes(bytes::Bytes);

/// `bytes::BytesMut`, a growing sequence of bytes.
#[verifier::external_type_specification]
#[verifier::external_body]
pub struct ExBytesMut(bytes::BytesMut);

/// `http::header::HeaderMap`, the fields of a request or a response.
#[verifier::external_type_specification]
#[verifier::external_body]
#[verifier::reject_recursive_types(T)]
pub struct ExHeaderMap<T>(http::header::HeaderMap<T>);

/// `http::header::HeaderValue`, the bytes of one field.
#[verifier::external_type_specification]
#[verifier::external_body]
pub struct ExHeaderValue(http::header::HeaderValue);

/// `http::header::ToStrError`, the error of a header value that is no visible ASCII.
#[verifier::external_type_specification]
#[verifier::external_body]
pub struct ExToStrError(http::header::ToStrError);

/// The bytes that a `BytesMut` holds.
pub uninterp spec fn buffer_bytes(buffer: BytesMut) -> Seq<u8>;

/// The bytes that a `Bytes` holds.
pub uninterp spec fn frozen_bytes(bytes: Bytes) -> Seq<u8>;

/// The fields that a `HeaderMap` holds: under each name, in small letters, the values that were
/// added for it, in the order in which they were.
pub uninterp spec fn header_fields(headers: HeaderMap<HeaderValue>) -> Map<Seq<char>, Seq<Seq<u8>>>;

/// The bytes that a `HeaderValue` holds.
pub uninterp spec fn header_value_bytes(value: HeaderValue) -> Seq<u8>;

/// The authority and the path that `http` reads out of the text of a URI; nothing where it takes
/// the text for no URI.
pub uninterp spec fn uri_parts(text: Seq<char>) -> Option<(Option<Seq<char>>, Seq<char>)>;

/// The text that stands for bytes that are no UTF-8, with the replacement character where they
/// are not.
pub uninterp spec fn utf8_replaced(bytes: Seq<u8>) -> Seq<char>;

/// The reason phrase that `http` shows with a status code.
pub uninterp spec fn status_reason(code: u16) -> Seq<char>;

/// No fields at all.
pub open spec fn no_fields() -> Map<Seq<char>, Seq<Seq<u8>>> {
    Map::empty()
}

/// `fields` with one more value under `name`.
pub open spec fn with_field(
    fields: Map<Seq<char>, Seq<Seq<u8>>>,
    name: Seq<char>,
    value: Seq<u8>,
) -> Map<Seq<char>, Seq<Seq<u8>>> {
    if fields.contains_key(name) {
        fields.insert(name, fields[name].push(value))
    } else {
        fields.insert(name, seq![value])
    }
}

/// Whether `name` is a field name in small letters.
pub open spec fn is_field_name(name: Seq<char>) -> bool {
    &&& 0 < name.len() < 64
    &&& forall|i: int| 0 <= i < name.len() ==> 'a' <= #[trigger] name[i] <= 'z' || name[i] == '-'
}

/// Whether a header value may hold `b`: every byte but the control characters, the tab being no
/// control character here.
pub open spec fn is_field_byte(b: u8) -> bool {
    b == 9 || (32 <= b && b != 127)
}

/// Whether `b` is a visible ASCII character, a space or a tab.
pub open spec fn is_visible_byte(b: u8) -> bool {
    b == 9 || 32 <= b < 127
}

/// Whether a header can have the value `text`.
pub open spec fn is_field_text(text: Seq<char>) -> bool {
    forall|i: int| 0 <= i < encode_utf8(text).len() ==> is_field_byte(#[trigger] encode_utf8(text)[i])
}

/// The text of a header value; nothing where a byte of it is no visible ASCII.
pub open spec fn visible_text(bytes: Seq<u8>) -> Option<Seq<char>> {
    if forall|i: int| 0 <= i < bytes.len() ==> is_visible_byte(#[trigger] bytes[i]) {
        Some(Seq::new(bytes.len(), |i: int| bytes[i] as char))
    } else {
        None
    }
}

/// The text that an optional string holds.
pub open spec fn text_of(s: Option<String>) -> Option<Seq<char>> {
    match s {
        Some(s) => Some(s@),
        None => None,
    }
}

/// The texts that the parts of a URI hold.
pub open spec fn parts_of(parts: Option<(Option<String>, String)>) -> Option<(Option<Seq<char>>, Seq<char>)> {
    match parts {
        Some((authority, path)) => Some((text_of(authority), path@)),
        None => None,
    }
}

/// The number that a hexadecimal digit stands for.
pub open spec fn hex_value(b: u8) -> Option<u8> {
    if 48 <= b <= 57 {
        Some((b - 48) as u8)
    } else if 65 <= b <= 70 {
        Some((b - 55) as u8)
    } else if 97 <= b <= 102 {
        Some((b - 87) as u8)
    } else {
        None
    }
}

/// `bytes` with every percent sign that two hexadecimal digits follow replaced, together with
/// them, by the byte that they stand for.
pub open spec fn percent_decoded(bytes: Seq<u8>) -> Seq<u8>
    decreases bytes.len(),
{
    if bytes.len() == 0 {
        Seq::empty()
    } else if bytes.len() >= 3 && bytes[0] == 37 && hex_value(bytes[1]) is Some && hex_value(bytes[2]) is Some {
        seq![(hex_value(bytes[1])->0 * 16 + hex_value(bytes[2])->0) as u8] + percent_decoded(bytes.skip(3))
    } else {
        seq![bytes[0]] + percent_decoded(bytes.skip(1))
    }
}

/// `bytes` read as UTF-8, with replacement characters where they are no UTF-8.
pub open spec fn lossy_text(bytes: Seq<u8>) -> Seq<char> {
    if valid_utf8(bytes) {
        decode_utf8(bytes)
    } else {
        utf8_replaced(bytes)
    }
}

/// The character that stands for `v` in base64.
pub open spec fn base64_digit(v: nat) -> char {
    if v < 26 {
        ('A' as u32 + v) as char
    } else if v < 52 {
        ('a' as u32 + (v - 26)) as char
    } else if v < 62 {
        ('0' as u32 + (v - 52)) as char
    } else if v == 62 {
        '+'
    } else {
        '/'
    }
}

/// Byte `i` of `bytes`, zero behind its end.
pub open spec fn byte_or_zero(bytes: Seq<u8>, i: int) -> nat {
    if i < bytes.len() {
        bytes[i] as nat
    } else {
        0
    }
}

/// The six bits that begin `6 * i` bits into `bytes`.
pub open spec fn sextet(bytes: Seq<u8>, i: int) -> nat {
    let a = byte_or_zero(bytes, 3 * (i / 4));
    let b = byte_or_zero(bytes, 3 * (i / 4) + 1);
    let c = byte_or_zero(bytes, 3 * (i / 4) + 2);
    if i % 4 == 0 {
        a / 4
    } else if i % 4 == 1 {
        (a % 4) * 16 + b / 16
    } else if i % 4 == 2 {
        (b % 16) * 4 + c / 64
    } else {
        c % 64
    }
}

/// The length of the base64 text of `len` bytes.
pub open spec fn base64_len(len: nat) -> nat {
    (len + 2) / 3 * 4
}

/// `bytes` in base64: a character for every six bits, and as many equals signs behind them as
/// make the length a multiple of four.
pub open spec fn base64_text(bytes: Seq<u8>) -> Seq<char> {
    Seq::new(
        base64_len(bytes.len()),
        |i: int|
            if 6 * i < 8 * bytes.len() {
                base64_digit(sextet(bytes, i))
            } else {
                '='
            },
    )
}

/// `From::from` of `std`, from a type to that type itself, gives the value unchanged.
pub assume_specification<Value>[ <Value as std::convert::From<Value>>::from ](value: Value) -> (same: Value)
    ensures
        same == value,
;

/// `BytesMut::with_capacity` gives an empty buffer, whatever room it has. It panics where no
/// vector of that capacity can be had.
#[verifier::external_body]
pub(crate) fn buffer_with_capacity(capacity: usize) -> (buffer: BytesMut)
    requires
        capacity <= isize::MAX,
    ensures
        buffer_bytes(buffer) == Seq::<u8>::empty(),
{
    BytesMut::with_capacity(capacity)
}

/// `BytesMut::len` is the number of bytes in the buffer.
#[verifier::external_body]
pub(crate) fn buffer_len(buffer: &BytesMut) -> (len: usize)
    ensures
        len == buffer_bytes(*buffer).len(),
{
    buffer.len()
}

/// `BytesMut::extend_from_slice` puts the bytes behind those that the buffer holds, which grows
/// where it has to. It panics where it cannot grow that far.
#[verifier::external_body]
pub(crate) fn buffer_extend(buffer: &mut BytesMut, extend: &[u8])
    requires
        buffer_bytes(*old(buffer)).len() + extend@.len() <= isize::MAX,
    ensures
        buffer_bytes(*final(buffer)) == buffer_bytes(*old(buffer)) + extend@,
{
    buffer.extend_from_slice(extend)
}

/// `BytesMut::freeze` makes the same bytes immutable.
#[verifier::external_body]
pub(crate) fn buffer_freeze(buffer: BytesMut) -> (bytes: Bytes)
    ensures
        frozen_bytes(bytes) == buffer_bytes(buffer),
{
    buffer.freeze()
}

/// `HeaderMap::new` gives a map without fields.
#[verifier::external_body]
pub(crate) fn header_map_new() -> (headers: HeaderMap<HeaderValue>)
    ensures
        header_fields(headers) == no_fields(),
{
    HeaderMap::new()
}

/// `HeaderMap::get` gives the first value under a name, and nothing where there is none.
#[verifier::external_body]
pub(crate) fn header_get<'a>(headers: &'a HeaderMap<HeaderValue>, name: &str) -> (found: Option<&'a HeaderValue>)
    requires
        is_field_name(name@),
    ensures
        found is Some <==> header_fields(*headers).contains_key(name@),
        found matches Some(value) ==> {
            &&& header_fields(*headers)[name@].len() > 0
            &&& header_value_bytes(*value) == header_fields(*headers)[name@][0]
        },
{
    headers.get(name)
}

/// `HeaderMap::append` adds a value behind those that the name has, and says whether it had any.
/// It panics where the map has as many names as it can.
#[verifier::external_body]
pub(crate) fn header_append(
    headers: &mut HeaderMap<HeaderValue>,
    name: &'static str,
    value: HeaderValue,
) -> (known: bool)
    requires
        is_field_name(name@),
        header_fields(*old(headers)).dom().finite(),
        header_fields(*old(headers)).dom().len() < 0x8000,
    ensures
        header_fields(*final(headers)) == with_field(
            header_fields(*old(headers)),
            name@,
            header_value_bytes(value),
        ),
        known == header_fields(*old(headers)).contains_key(name@),
{
    headers.append(name, value)
}

/// `HeaderValue::from_str` gives the value whose bytes are those of the text, and an error where
/// one of them is a control character.
#[verifier::external_body]
pub(crate) fn header_value_from_str(text: &str) -> (value: Option<HeaderValue>)
    ensures
        value is Some <==> is_field_text(text@),
        value matches Some(value) ==> header_value_bytes(value) == encode_utf8(text@),
{
    HeaderValue::from_str(text).ok()
}

/// `HeaderValue::to_str` gives the bytes of the value as text, and an error where one of them is
/// no visible ASCII.
#[verifier::external_body]
pub(crate) fn header_value_to_str(value: &HeaderValue) -> (text: Result<String, ToStrError>)
    ensures
        text is Ok <==> visible_text(header_value_bytes(*value)) is Some,
        text matches Ok(text) ==> visible_text(header_value_bytes(*value)) == Some(text@),
{
    value.to_str().map(|text| text.to_owned())
}

/// The text of a `ToStrError`, which is the same for all of them.
#[verifier::external_body]
pub(crate) fn to_str_error_text(error: ToStrError) -> (text: String)
    ensures
        text@ == "failed to convert header to a str"@,
{
    error.to_string()
}

/// Parsing a `http::Uri` and reading its `authority_part` and its `path`. What parses, and into
/// which parts, is not stated here, only that the text decides it. A URI is shorter than 65535
/// bytes, and so is its authority.
#[verifier::external_body]
pub(crate) fn parse_uri(text: &str) -> (parts: Option<(Option<String>, String)>)
    ensures
        parts_of(parts) == uri_parts(text@),
        parts matches Some((Some(authority), _)) ==> encode_utf8(authority@).len() < 0xffff,
{
    match text.parse::<http::Uri>() {
        Ok(uri) => Some((uri.authority_part().map(|a| a.as_str().to_owned()), uri.path().to_owned())),
        Err(_) => None,
    }
}

/// `percent_encoding::percent_decode`, and `decode_utf8_lossy` on what it gives: the percent
/// signs of the text are decoded, and the bytes are read as UTF-8. What the replacement of bytes
/// that are no UTF-8 looks like is not stated, only that the bytes decide it.
#[verifier::external_body]
pub(crate) fn percent_decode_lossy(text: &str) -> (decoded: String)
    ensures
        valid_utf8(percent_decoded(encode_utf8(text@))) ==> decoded@ == decode_utf8(
            percent_decoded(encode_utf8(text@)),
        ),
        !valid_utf8(percent_decoded(encode_utf8(text@))) ==> decoded@ == utf8_replaced(
            percent_decoded(encode_utf8(text@)),
        ),
{
    percent_encoding::percent_decode(text.as_bytes()).decode_utf8_lossy().into_owned()
}

/// `base64::encode` with its standard alphabet and padding. It panics where the text would be
/// too long for a string.
#[verifier::external_body]
pub(crate) fn base64_encode(text: &str) -> (encoded: String)
    requires
        base64_len(encode_utf8(text@).len()) <= isize::MAX,
    ensures
        encoded@ == base64_text(encode_utf8(text@)),
{
    base64::encode(text)
}

/// `http::StatusCode` shown as text: the code, a space and the reason phrase. Which phrase a code
/// has is not stated, only that the code decides it. Outside the range of `requires` there is no
/// status code.
#[verifier::external_body]
pub(crate) fn status_display(code: u16) -> (text: String)
    requires
        100 <= code < 600,
    ensures
        text@ == decimal(code as nat) + seq![' '] + status_reason(code),
{
    match http::StatusCode::from_u16(code) {
        Ok(status) => status.to_string(),
        Err(_) => String::new(),
    }
}

} // verus!
