//! Reading what a URL and a response say, and writing what a user reads.

use http::header::{HeaderMap, HeaderValue};
use vstd::pervasive::unreached;
use vstd::prelude::*;
use vstd::utf8::{encode_utf8, is_ascii_chars, valid_utf8};
use vstd::utf8::{encode_utf8_decode_utf8, encode_utf8_valid_utf8, is_ascii_chars_encode_utf8};

use crate::outside::{
    base64_encode, header_append, header_get, header_value_from_str, header_value_to_str, parse_uri,
    percent_decode_lossy,
};
use crate::outside::{
    base64_digit, base64_text, header_fields, hex_value, is_field_byte, is_field_text, is_visible_byte, lossy_text,
    parts_of, percent_decoded, sextet, text_of, uri_parts, utf8_replaced, visible_text, with_field,
};
use crate::text::{after_last, first_index, is_space, trim, trim_start, two_digits};
use crate::text::{
    law_first_is_found, law_rest_is_found, law_space_is_trimmed, lemma_after_last, lemma_first_index,
};
use crate::text::{find_from, from_chars, text_after_last, text_at, to_chars, trim_range, two_digit_text};

verus! {

/// An address from which to download.
#[derive(Debug)]
pub struct Url {
    /// The address as it was given.
    pub text: String,
    /// The part of it that names the server, with the user in front where there is one.
    pub authority: Option<String>,
    /// The part of it that names the file on the server.
    pub path: String,
}

impl Url {
    /// The length that no authority reaches.
    pub open spec fn wf(self) -> bool {
        self.authority matches Some(authority) ==> encode_utf8(authority@).len() < 0xffff
    }

    /// Reads an address; nothing where the text is none.
    pub fn parse(text: &str) -> (url: Option<Url>)
        ensures
            url is Some <==> uri_parts(text@) is Some,
            url matches Some(url) ==> {
                &&& url.wf()
                &&& url.text@ == text@
                &&& uri_parts(text@) == Some((text_of(url.authority), url.path@))
            },
    {
        match parse_uri(text) {
            Some((authority, path)) => Some(Url { text: text.to_owned(), authority, path }),
            None => None,
        }
    }
}

impl Clone for Url {
    fn clone(&self) -> (url: Self)
        ensures
            url == *self,
    {
        Url {
            text: self.text.clone(),
            authority: clone_text(&self.authority),
            path: self.path.clone(),
        }
    }
}

/// A copy of an optional text.
pub fn clone_text(text: &Option<String>) -> (copy: Option<String>)
    ensures
        copy == *text,
{
    match text {
        Some(text) => Some(text.clone()),
        None => None,
    }
}

/// The value of the header that logs `user` in, who may have a password behind a colon.
pub open spec fn basic_auth(user: Seq<char>) -> Seq<char> {
    "Basic "@ + base64_text(encode_utf8(user))
}

/// The value of the header that logs the user of an authority in, who stands before the first
/// `@`; nothing where there is no user.
pub open spec fn authority_auth(authority: Option<Seq<char>>) -> Option<Seq<char>> {
    match authority {
        Some(authority) => if first_index(authority, '@') < authority.len() {
            Some(basic_auth(authority.take(first_index(authority, '@') as int)))
        } else {
            None
        },
        None => None,
    }
}

/// The UTF-8 of a part of a text is no longer than that of the text.
proof fn lemma_encoded_prefix(s: Seq<char>, n: int)
    requires
        0 <= n <= s.len(),
    ensures
        encode_utf8(s.take(n)).len() <= encode_utf8(s).len(),
    decreases n,
{
    if n > 0 {
        lemma_encoded_prefix(s.drop_first(), n - 1);
        assert(s.take(n).drop_first() =~= s.drop_first().take(n - 1));
    } else {
        assert(s.take(n) =~= Seq::empty());
    }
}

/// A text of visible ASCII characters is one that a header can have.
pub(crate) proof fn lemma_visible_is_field_text(text: Seq<char>)
    requires
        forall|i: int| 0 <= i < text.len() ==> ' ' <= #[trigger] text[i] < '\u{7f}',
    ensures
        is_field_text(text),
{
    assert(is_ascii_chars(text));
    is_ascii_chars_encode_utf8(text);
    assert forall|i: int| 0 <= i < encode_utf8(text).len() implies is_field_byte(#[trigger] encode_utf8(text)[i]) by {
        assert(' ' <= text[i] < '\u{7f}');
    }
}

/// The value of the header that logs a user in is one that a header can have.
pub proof fn law_basic_auth_is_field_text(user: Seq<char>)
    ensures
        is_field_text(basic_auth(user)),
{
    reveal_strlit("Basic ");
    let bytes = encode_utf8(user);
    let value = basic_auth(user);
    assert forall|i: int| 0 <= i < value.len() implies ' ' <= #[trigger] value[i] < '\u{7f}' by {
        if i >= 6 {
            assert(value[i] == base64_text(bytes)[i - 6]);
        }
    }
    lemma_visible_is_field_text(value);
}

/// A user before the first `@` of an authority is logged in.
pub proof fn law_user_is_logged_in(user: Seq<char>, server: Seq<char>)
    requires
        !user.contains('@'),
    ensures
        authority_auth(Some(user.push('@') + server)) == Some(basic_auth(user)),
{
    let authority = user.push('@') + server;
    assert forall|i: int| 0 <= i < user.len() implies authority[i] != '@' by {
        assert(authority[i] == user[i]);
    }
    lemma_first_index(authority, '@', user.len());
    assert(authority.take(user.len() as int) =~= user);
}

/// Nobody is logged in where the authority names no user.
pub proof fn law_nobody_is_logged_in(server: Seq<char>)
    requires
        !server.contains('@'),
    ensures
        authority_auth(Some(server)) is None,
{
    lemma_first_index(server, '@', server.len());
}

/// Makes the value of the Authorization header out of the user in the address, where there is
/// one.
pub fn parse_url_basic_auth(url: &Url) -> (header: Option<String>)
    requires
        url.wf(),
    ensures
        text_of(header) == authority_auth(text_of(url.authority)),
        header matches Some(value) ==> is_field_text(value@),
{
    match &url.authority {
        Some(authority) => {
            let v = to_chars(authority.as_str());
            let index = find_from(&v, 0, '@');
            assert(v@.skip(0) =~= v@);
            if index < v.len() {
                let user = from_chars(&v, 0, index);
                proof {
                    assert(v@.subrange(0, index as int) =~= v@.take(index as int));
                    lemma_encoded_prefix(v@, index as int);
                    law_basic_auth_is_field_text(user@);
                }
                let mut header = "Basic ".to_owned();
                header.append(base64_encode(user.as_str()).as_str());
                Some(header)
            } else {
                None
            }
        },
        None => None,
    }
}

/// Headers to which the one that logs a user in can be added.
pub trait ReqBuilderExt: Sized {
    /// Whether the header can be added.
    spec fn takes_auth_header(&self, auth_header: Option<String>) -> bool;

    /// Whether `after` is `self` with the header added.
    spec fn auth_header_added(&self, auth_header: Option<String>, after: &Self) -> bool;

    /// Adds the Authorization header, where there is one to add, and gives the headers back for
    /// more to be added.
    fn add_auth_header(&mut self, auth_header: &Option<String>) -> (this: &mut Self)
        requires
            old(self).takes_auth_header(*auth_header),
        ensures
            old(self).auth_header_added(*auth_header, this),
            *final(self) == *final(this),
    ;
}

impl ReqBuilderExt for HeaderMap<HeaderValue> {
    open spec fn takes_auth_header(&self, auth_header: Option<String>) -> bool {
        auth_header matches Some(value) ==> {
            &&& is_field_text(value@)
            &&& header_fields(*self).dom().finite()
            &&& header_fields(*self).dom().len() < 0x8000
        }
    }

    open spec fn auth_header_added(&self, auth_header: Option<String>, after: &Self) -> bool {
        header_fields(*after) == with_auth(header_fields(*self), text_of(auth_header))
    }

    fn add_auth_header(&mut self, auth_header: &Option<String>) -> (this: &mut Self) {
        if let Some(header) = auth_header {
            if let Some(value) = header_value_from_str(header.as_str()) {
                proof {
                    reveal_strlit("authorization");
                }
                header_append(self, "authorization", value);
            }
        }
        self
    }
}

/// `fields` with the header that logs a user in, where there is one.
pub open spec fn with_auth(
    fields: Map<Seq<char>, Seq<Seq<u8>>>,
    auth_header: Option<Seq<char>>,
) -> Map<Seq<char>, Seq<Seq<u8>>> {
    match auth_header {
        Some(value) => with_field(fields, "authorization"@, encode_utf8(value)),
        None => fields,
    }
}

/// The text of the first value under `name`; nothing where there is no value, or none that is
/// visible text.
pub open spec fn field_text(fields: Map<Seq<char>, Seq<Seq<u8>>>, name: Seq<char>) -> Option<Seq<char>> {
    if fields.contains_key(name) {
        visible_text(fields[name][0])
    } else {
        None
    }
}

/// The first part of a Content-Disposition, before the first semicolon.
pub open spec fn disposition_kind(text: Seq<char>) -> Seq<char> {
    trim(text.take(first_index(text, ';') as int))
}

/// The second part of a Content-Disposition, between the first and the second semicolon; nothing
/// where there is no semicolon.
pub open spec fn disposition_param(text: Seq<char>) -> Option<Seq<char>> {
    if first_index(text, ';') < text.len() {
        let rest = text.skip(first_index(text, ';') as int + 1);
        Some(trim(rest.take(first_index(rest, ';') as int)))
    } else {
        None
    }
}

/// Whether a Content-Disposition names a file: it is an attachment, and its second part begins
/// with a file name in quotes.
pub open spec fn names_file(text: Seq<char>) -> bool {
    &&& disposition_param(text) is Some
    &&& disposition_kind(text) == "attachment"@
    &&& "filename=\""@.is_prefix_of(disposition_param(text)->0)
}

/// Whether the name of the file that a Content-Disposition names ends right behind the quote that
/// opens it, so that nothing can be the quote that closes it.
pub open spec fn name_is_cut_off(text: Seq<char>) -> bool {
    names_file(text) && disposition_param(text)->0 == "filename=\""@
}

/// The file name that a Content-Disposition gives: what stands behind the quote that opens it,
/// without the last character.
pub open spec fn disposition_file_name(text: Seq<char>) -> Option<Seq<char>> {
    if names_file(text) {
        let param = disposition_param(text)->0;
        Some(param.subrange("filename=\""@.len() as int, param.len() - 1))
    } else {
        None
    }
}

/// The file name that a Content-Disposition gives; nothing at all where the name is cut off.
pub fn try_disposition_file_name(text: &str) -> (name: Option<Option<String>>)
    ensures
        name is None <==> name_is_cut_off(text@),
        name matches Some(name) ==> text_of(name) == disposition_file_name(text@),
{
    proof {
        reveal_strlit("attachment");
        reveal_strlit("filename=\"");
    }
    let v = to_chars(text);
    let first = find_from(&v, 0, ';');
    assert(v@.skip(0) =~= v@);
    if first == v.len() {
        return Some(None);
    }
    let kind = trim_range(&v, 0, first);
    let second = find_from(&v, first + 1, ';');
    let param = trim_range(&v, first + 1, second);
    let ghost rest = text@.skip(first + 1);
    let ghost inner = v@.subrange(param.0 as int, param.1 as int);
    proof {
        assert(v@.subrange(0, first as int) =~= text@.take(first as int));
        assert(v@.subrange(first + 1, second as int) =~= rest.take(first_index(rest, ';') as int));
        assert(disposition_param(text@) == Some(inner));
        assert(disposition_kind(text@) == v@.subrange(kind.0 as int, kind.1 as int));
    }
    if kind.1 - kind.0 != 10 || !text_at(&v, kind.0, kind.1, "attachment") {
        proof {
            if disposition_kind(text@) == "attachment"@ {
                assert("attachment"@.is_prefix_of(v@.subrange(kind.0 as int, kind.1 as int)));
            }
        }
        return Some(None);
    }
    assert(disposition_kind(text@) =~= "attachment"@);
    if !text_at(&v, param.0, param.1, "filename=\"") {
        return Some(None);
    }
    if param.1 - param.0 == 10 {
        assert(inner =~= "filename=\""@);
        return None;
    }
    assert(inner.subrange(10, inner.len() - 1) =~= v@.subrange(param.0 + 10, param.1 - 1));
    Some(Some(from_chars(&v, param.0 + 10, param.1 - 1)))
}

/// An attachment with a file name in quotes has that file name, whatever characters but a
/// semicolon it has.
pub proof fn law_attachment_names_file(name: Seq<char>)
    requires
        !name.contains(';'),
    ensures
        disposition_file_name("attachment; filename=\""@ + name.push('"')) == Some(name),
        !name_is_cut_off("attachment; filename=\""@ + name.push('"')),
{
    reveal_strlit("attachment; filename=\"");
    reveal_strlit("attachment");
    reveal_strlit("filename=\"");
    let opening = "attachment; filename=\""@;
    let text = opening + name.push('"');
    lemma_first_index(text, ';', 10);
    let kind = text.take(10);
    assert(kind =~= "attachment"@);
    assert(trim(kind) == kind);
    let rest = text.skip(11);
    assert forall|i: int| 0 <= i < rest.len() implies rest[i] != ';' by {
        if 11 <= i < 11 + name.len() {
            assert(rest[i] == name[i - 11]);
        }
    }
    lemma_first_index(rest, ';', rest.len());
    assert(rest.take(rest.len() as int) =~= rest);
    let param = rest.skip(1);
    assert(rest[0] == ' ' && param[0] == 'f');
    assert(trim_start(param) == param);
    assert(trim_start(rest) == param);
    assert(param.last() == '"');
    assert(trim(rest) == param);
    assert(disposition_param(text) == Some(param));
    assert("filename=\""@ =~= param.take(10));
    assert("filename=\""@.is_prefix_of(param));
    assert(param.subrange(10, param.len() - 1) =~= name);
    assert(param.len() == name.len() + 11);
}

/// Whether the headers of a response give a file name that is cut off.
pub open spec fn file_name_is_cut_off(fields: Map<Seq<char>, Seq<Seq<u8>>>) -> bool {
    match field_text(fields, "content-disposition"@) {
        Some(text) => name_is_cut_off(text),
        None => false,
    }
}

/// The file name that the headers of a response give.
pub open spec fn response_file_name(fields: Map<Seq<char>, Seq<Seq<u8>>>) -> Option<Seq<char>> {
    match field_text(fields, "content-disposition"@) {
        Some(text) => disposition_file_name(text),
        None => None,
    }
}

/// The file name that the headers of a response give in their Content-Disposition; nothing at all
/// where the name is cut off.
pub fn try_parse_content_disposition(headers: &HeaderMap<HeaderValue>) -> (name: Option<Option<String>>)
    ensures
        name is None <==> file_name_is_cut_off(header_fields(*headers)),
        name matches Some(name) ==> text_of(name) == response_file_name(header_fields(*headers)),
{
    proof {
        reveal_strlit("content-disposition");
    }
    match header_get(headers, "content-disposition") {
        Some(value) => match header_value_to_str(value) {
            Ok(text) => try_disposition_file_name(text.as_str()),
            Err(_) => Some(None),
        },
        None => Some(None),
    }
}

/// The file name that the headers of a response give in their Content-Disposition.
pub fn parse_content_disposition(headers: &HeaderMap<HeaderValue>) -> (name: Option<String>)
    requires
        !file_name_is_cut_off(header_fields(*headers)),
    ensures
        text_of(name) == response_file_name(header_fields(*headers)),
{
    match try_parse_content_disposition(headers) {
        Some(name) => name,
        None => unreached(),
    }
}

/// The file name that a path ends with.
pub open spec fn path_file_name(path: Seq<char>) -> Seq<char> {
    lossy_text(percent_decoded(encode_utf8(after_last(path, '/'))))
}

/// The file name that the path of an address ends with, with its percent signs decoded.
pub fn url_file_name(url: &Url) -> (name: String)
    ensures
        name@ == path_file_name(url.path@),
{
    let tail = text_after_last(url.path.as_str(), '/');
    percent_decode_lossy(tail.as_str())
}

/// What stands behind the last slash of a path is what its file name is made of.
pub proof fn law_last_segment_is_the_name(directory: Seq<char>, name: Seq<char>)
    requires
        !name.contains('/'),
    ensures
        after_last(directory.push('/') + name, '/') == name,
{
    let path = directory.push('/') + name;
    assert forall|i: int| directory.len() + 1 <= i < path.len() implies path[i] != '/' by {
        assert(path[i] == name[i - directory.len() - 1]);
    }
    lemma_after_last(path, '/', directory.len() as int + 1);
    assert(path.skip(directory.len() as int + 1) =~= name);
}

proof fn lemma_nothing_to_decode(bytes: Seq<u8>)
    requires
        forall|i: int| 0 <= i < bytes.len() ==> bytes[i] != 37,
    ensures
        percent_decoded(bytes) == bytes,
    decreases bytes.len(),
{
    if bytes.len() > 0 {
        lemma_nothing_to_decode(bytes.skip(1));
        assert(seq![bytes[0]] + bytes.skip(1) =~= bytes);
    }
}

/// A file name of ASCII characters without a percent sign is taken from the path as it stands.
pub proof fn law_plain_name_is_kept(path: Seq<char>)
    requires
        is_ascii_chars(after_last(path, '/')),
        !after_last(path, '/').contains('%'),
    ensures
        path_file_name(path) == after_last(path, '/'),
{
    let tail = after_last(path, '/');
    let bytes = encode_utf8(tail);
    is_ascii_chars_encode_utf8(tail);
    assert forall|i: int| 0 <= i < bytes.len() implies bytes[i] != 37 by {
        assert(tail[i] != '%');
        assert(tail[i] as u8 == bytes[i]);
    }
    lemma_nothing_to_decode(bytes);
    encode_utf8_valid_utf8(tail);
    encode_utf8_decode_utf8(tail);
}

/// The unit in which a speed is shown.
#[derive(Clone, Copy, Debug, PartialEq, Eq, Structural)]
pub enum SpeedUnit {
    Bytes,
    Kibibytes,
    Mebibytes,
}

impl SpeedUnit {
    /// The greatest unit of which `whole` bytes make at least one.
    pub open spec fn suits(self, whole: u64) -> bool {
        match self {
            SpeedUnit::Mebibytes => whole >= 1024 * 1024,
            SpeedUnit::Kibibytes => 1024 <= whole < 1024 * 1024,
            SpeedUnit::Bytes => whole < 1024,
        }
    }

    /// How many bytes the unit is.
    pub open spec fn size(self) -> u64 {
        match self {
            SpeedUnit::Mebibytes => 0x10_0000,
            SpeedUnit::Kibibytes => 1024,
            SpeedUnit::Bytes => 1,
        }
    }

    /// What stands behind a speed in this unit.
    pub open spec fn suffix(self) -> Seq<char> {
        match self {
            SpeedUnit::Mebibytes => " MiB/s"@,
            SpeedUnit::Kibibytes => " KiB/s"@,
            SpeedUnit::Bytes => " B/s"@,
        }
    }

    /// The unit for a speed of which the whole bytes per second are `whole`.
    pub fn of_speed(whole: u64) -> (unit: SpeedUnit)
        ensures
            unit.suits(whole),
    {
        if whole >= 1024 * 1024 {
            SpeedUnit::Mebibytes
        } else if whole >= 1024 {
            SpeedUnit::Kibibytes
        } else {
            SpeedUnit::Bytes
        }
    }

    /// How many bytes the unit is.
    pub fn bytes(self) -> (bytes: u64)
        ensures
            bytes == self.size(),
    {
        match self {
            SpeedUnit::Mebibytes => 1024 * 1024,
            SpeedUnit::Kibibytes => 1024,
            SpeedUnit::Bytes => 1,
        }
    }
}

/// Exactly one unit suits a speed, and it is shown as at least one where the speed is not below
/// one byte per second, and below 1024 where there is a greater unit.
pub proof fn law_one_unit_suits(unit: SpeedUnit, other: SpeedUnit, whole: u64)
    requires
        unit.suits(whole),
    ensures
        other.suits(whole) ==> other == unit,
        whole >= 1 ==> whole / unit.size() >= 1,
        unit != SpeedUnit::Mebibytes ==> whole / unit.size() < 1024,
{
    match unit {
        SpeedUnit::Mebibytes => assert(whole / 0x10_0000 >= 1),
        SpeedUnit::Kibibytes => assert(1 <= whole / 1024 < 1024),
        SpeedUnit::Bytes => assert(whole / 1 == whole),
    }
}

/// Writes a speed: `figure` is how many of `unit` it is per second.
pub fn build_human_readable_speed(figure: &str, unit: SpeedUnit) -> (text: String)
    ensures
        text@ == figure@ + unit.suffix(),
{
    let mut text = figure.to_owned();
    match unit {
        SpeedUnit::Mebibytes => text.append(" MiB/s"),
        SpeedUnit::Kibibytes => text.append(" KiB/s"),
        SpeedUnit::Bytes => text.append(" B/s"),
    }
    text
}

/// A time in seconds as it is shown: hours only where there are any, and minutes only where there
/// are any behind the hours.
pub open spec fn eta_text(eta: nat) -> Seq<char> {
    let hours = if eta >= 3600 {
        two_digits(eta / 3600).push('h')
    } else {
        Seq::empty()
    };
    let minutes = if eta % 3600 >= 60 {
        two_digits(eta % 3600 / 60).push('m')
    } else {
        Seq::empty()
    };
    hours + minutes + two_digits(eta % 60).push('s')
}

/// Writes how many seconds are left.
pub fn build_human_readable_eta(eta: u64) -> (text: String)
    ensures
        text@ == eta_text(eta as nat),
{
    let mut eta_left: u64 = eta;
    let mut ret = String::new();

    if eta_left >= 3600 {
        let hr: u64 = eta_left / 3600;
        eta_left = eta_left - hr * 3600;
        ret.append(two_digit_text(hr).as_str());
        ret.push('h');
    }
    assert(eta_left == eta % 3600);
    let ghost hours = ret@;

    if eta_left >= 60 {
        let min: u64 = eta_left / 60;
        eta_left = eta_left - min * 60;
        ret.append(two_digit_text(min).as_str());
        ret.push('m');
    }
    assert(eta_left == eta % 60);

    ret.append(two_digit_text(eta_left).as_str());
    ret.push('s');
    assert(ret@ =~= eta_text(eta as nat));
    ret
}

/// The user is sent as `Basic`, a space, and the base64 of the user's UTF-8.
pub proof fn law_basic_auth_sends_the_user(user: Seq<char>)
    ensures
        basic_auth(user).take(6) == "Basic "@,
        basic_auth(user).skip(6) == base64_text(encode_utf8(user)),
        authority_auth(None) is None,
{
    reveal_strlit("Basic ");
    assert(basic_auth(user).take(6) =~= "Basic "@);
    assert(basic_auth(user).skip(6) =~= base64_text(encode_utf8(user)));
}

/// Each character of base64 is the one at its place in the alphabet.
pub proof fn law_base64_alphabet(v: nat)
    requires
        v < 64,
    ensures
        base64_digit(v) == "ABCDEFGHIJKLMNOPQRSTUVWXYZabcdefghijklmnopqrstuvwxyz0123456789+/"@[v as int],
{
    reveal_strlit("ABCDEFGHIJKLMNOPQRSTUVWXYZabcdefghijklmnopqrstuvwxyz0123456789+/");
}

/// The bytes can be read back from their base64: each four characters stand for three bytes, and
/// where fewer are left, equals signs fill the four.
pub proof fn law_base64_reads_back(bytes: Seq<u8>, k: int)
    requires
        0 <= 3 * k < bytes.len(),
    ensures
        base64_text(bytes).len() % 4 == 0,
        3 * base64_text(bytes).len() <= 4 * bytes.len() + 8,
        4 * k + 4 <= base64_text(bytes).len(),
        bytes[3 * k] == sextet(bytes, 4 * k) * 4 + sextet(bytes, 4 * k + 1) / 16,
        3 * k + 1 < bytes.len() ==> bytes[3 * k + 1] == (sextet(bytes, 4 * k + 1) % 16) * 16 + sextet(bytes, 4 * k + 2)
            / 4,
        3 * k + 2 < bytes.len() ==> bytes[3 * k + 2] == (sextet(bytes, 4 * k + 2) % 4) * 64 + sextet(bytes, 4 * k + 3),
        forall|i: int| 4 * k <= i < 4 * k + 4 ==> 0 <= #[trigger] sextet(bytes, i) < 64,
        base64_text(bytes)[4 * k] == base64_digit(sextet(bytes, 4 * k)),
        base64_text(bytes)[4 * k + 1] == base64_digit(sextet(bytes, 4 * k + 1)),
        base64_text(bytes)[4 * k + 2] == (if 3 * k + 1 < bytes.len() {
            base64_digit(sextet(bytes, 4 * k + 2))
        } else {
            '='
        }),
        base64_text(bytes)[4 * k + 3] == (if 3 * k + 2 < bytes.len() {
            base64_digit(sextet(bytes, 4 * k + 3))
        } else {
            '='
        }),
{
}

/// Adding a header puts its value behind those that the name has and leaves all other names as
/// they were.
pub proof fn law_header_is_added(
    fields: Map<Seq<char>, Seq<Seq<u8>>>,
    name: Seq<char>,
    value: Seq<u8>,
    other: Seq<char>,
)
    ensures
        with_field(fields, name, value).contains_key(name),
        with_field(fields, name, value)[name].last() == value,
        fields.contains_key(name) ==> with_field(fields, name, value)[name].drop_last() == fields[name],
        !fields.contains_key(name) ==> with_field(fields, name, value)[name] == seq![value],
        other != name ==> (with_field(fields, name, value).contains_key(other) <==> fields.contains_key(other)),
        other != name && fields.contains_key(other) ==> with_field(fields, name, value)[other] == fields[other],
{
    if fields.contains_key(name) {
        assert(fields[name].push(value).drop_last() =~= fields[name]);
    }
}

/// The header that logs a user in is added as it is, under its name; nothing is added where there
/// is none.
pub proof fn law_user_goes_into_the_header(fields: Map<Seq<char>, Seq<Seq<u8>>>, value: Seq<char>)
    ensures
        with_auth(fields, Some(value)) == with_field(fields, "authorization"@, encode_utf8(value)),
        with_auth(fields, None) == fields,
{
}

/// Visible ASCII characters, spaces and tabs are read from a header as they are.
pub proof fn law_visible_text_is_read(text: Seq<char>)
    requires
        forall|i: int| 0 <= i < text.len() ==> ' ' <= #[trigger] text[i] <= '~' || text[i] == '\t',
    ensures
        visible_text(encode_utf8(text)) == Some(text),
{
    assert(is_ascii_chars(text));
    is_ascii_chars_encode_utf8(text);
    let bytes = encode_utf8(text);
    assert forall|i: int| 0 <= i < bytes.len() implies (32 <= #[trigger] bytes[i] < 127 || bytes[i] == 9) && bytes[i] as char
        == text[i] by {
        assert(' ' <= text[i] <= '~' || text[i] == '\t');
        assert(text[i] as u8 == bytes[i]);
    }
    assert(visible_text(bytes)->0 =~= text);
}

/// Of other bytes no text is read.
pub proof fn law_other_bytes_are_no_text(bytes: Seq<u8>, i: int)
    requires
        0 <= i < bytes.len(),
        bytes[i] >= 127 || (bytes[i] < 32 && bytes[i] != 9),
    ensures
        visible_text(bytes) is None,
{
    assert(!is_visible_byte(bytes[i]));
}

/// A Content-Disposition names a file where its first part is `attachment` and its second part
/// begins with `filename="`, and then the name is the rest of the second part without its last
/// character. White space around the parts and whatever follows them change nothing. It is cut
/// off where there is no rest.
pub proof fn law_second_part_names_the_file(first: Seq<char>, second: Seq<char>, tail: Seq<char>)
    requires
        !first.contains(';'),
        !second.contains(';'),
        tail.len() > 0 ==> tail[0] == ';',
    ensures
        disposition_file_name(first) is None,
        !name_is_cut_off(first),
        ({
            let text = first.push(';') + second + tail;
            let names = trim(first) == "attachment"@ && "filename=\""@.is_prefix_of(trim(second));
            &&& disposition_file_name(text) is Some <==> names
            &&& names ==> disposition_file_name(text) == Some(trim(second).subrange(10, trim(second).len() - 1))
            &&& name_is_cut_off(text) <==> trim(first) == "attachment"@ && trim(second) == "filename=\""@
        }),
{
    reveal_strlit("filename=\"");
    let rest = second + tail;
    let text = first.push(';') + second + tail;
    law_first_is_found(first, ';', Seq::empty());
    law_first_is_found(first, ';', rest);
    assert(first.push(';') + rest =~= text);
    assert(text.take(first.len() as int) =~= first);
    assert(text.skip(first.len() as int + 1) =~= rest);
    if tail.len() > 0 {
        law_first_is_found(second, ';', tail.skip(1));
        assert(second.push(';') + tail.skip(1) =~= rest);
    } else {
        law_first_is_found(second, ';', Seq::empty());
        assert(rest =~= second);
    }
    assert(rest.take(second.len() as int) =~= second);
}

/// Every name in quotes is taken as it is, with any white space around the two parts and anything
/// in further parts.
pub proof fn law_quoted_name_is_taken(
    a: Seq<char>,
    b: Seq<char>,
    c: Seq<char>,
    d: Seq<char>,
    name: Seq<char>,
    tail: Seq<char>,
)
    requires
        !name.contains(';'),
        tail.len() > 0 ==> tail[0] == ';',
        forall|i: int| 0 <= i < a.len() ==> is_space(#[trigger] a[i]),
        forall|i: int| 0 <= i < b.len() ==> is_space(#[trigger] b[i]),
        forall|i: int| 0 <= i < c.len() ==> is_space(#[trigger] c[i]),
        forall|i: int| 0 <= i < d.len() ==> is_space(#[trigger] d[i]),
    ensures
        ({
            let first = a + "attachment"@ + b;
            let second = c + ("filename=\""@ + name.push('"')) + d;
            let text = first.push(';') + second + tail;
            disposition_file_name(text) == Some(name) && !name_is_cut_off(text)
        }),
{
    reveal_strlit("attachment");
    reveal_strlit("filename=\"");
    let param = "filename=\""@ + name.push('"');
    let first = a + "attachment"@ + b;
    let second = c + param + d;
    law_space_is_trimmed(a, "attachment"@, b);
    law_space_is_trimmed(c, param, d);
    assert forall|i: int| 0 <= i < first.len() implies first[i] != ';' by {
        if i < a.len() {
            assert(is_space(a[i]));
        } else if i >= a.len() + 10 {
            assert(is_space(b[i - a.len() - 10]));
        }
    }
    assert forall|i: int| 0 <= i < second.len() implies second[i] != ';' by {
        if i < c.len() {
            assert(is_space(c[i]));
        } else if i >= c.len() + param.len() {
            assert(is_space(d[i - c.len() - param.len()]));
        } else {
            let j = i - c.len();
            assert(second[i] == param[j]);
            if 10 <= j < 10 + name.len() {
                assert(name.contains(name[j - 10]));
            }
        }
    }
    law_second_part_names_the_file(first, second, tail);
    assert("filename=\""@ =~= param.take(10));
    assert(param.subrange(10, param.len() - 1) =~= name);
    assert(param.len() > 10);
}

/// The file name of a response is that of its first Content-Disposition, where that is visible
/// text, and there is none otherwise.
pub proof fn law_response_names_the_file(fields: Map<Seq<char>, Seq<Seq<u8>>>)
    ensures
        !fields.contains_key("content-disposition"@) ==> response_file_name(fields) is None && !file_name_is_cut_off(
            fields,
        ),
        fields.contains_key("content-disposition"@) ==> (match visible_text(fields["content-disposition"@][0]) {
            Some(text) => response_file_name(fields) == disposition_file_name(text) && file_name_is_cut_off(fields)
                == name_is_cut_off(text),
            None => response_file_name(fields) is None && !file_name_is_cut_off(fields),
        }),
{
}

/// A percent sign and two hexadecimal digits stand for the byte of that number; every other byte
/// stands for itself.
pub proof fn law_percent_signs_are_decoded(b: u8, high: u8, low: u8, rest: Seq<u8>)
    ensures
        percent_decoded(Seq::empty()) == Seq::<u8>::empty(),
        hex_value(high) is Some && hex_value(low) is Some ==> percent_decoded(seq![37u8, high, low] + rest) == seq![
            (16 * hex_value(high)->0 + hex_value(low)->0) as u8,
        ] + percent_decoded(rest),
        b != 37 ==> percent_decoded(seq![b] + rest) == seq![b] + percent_decoded(rest),
        rest.len() < 2 || hex_value(rest[0]) is None || hex_value(rest[1]) is None ==> percent_decoded(
            seq![37u8] + rest,
        ) == seq![37u8] + percent_decoded(rest),
{
    assert((seq![37u8, high, low] + rest).skip(3) =~= rest);
    assert((seq![b] + rest).skip(1) =~= rest);
    assert((seq![37u8] + rest).skip(1) =~= rest);
}

/// The sixteen hexadecimal digits, in small or capital letters, stand for their numbers, and
/// nothing else is one.
pub proof fn law_hexadecimal_digits(v: u8, b: u8)
    ensures
        v < 10 ==> hex_value((48 + v) as u8) == Some(v),
        10 <= v < 16 ==> hex_value((55 + v) as u8) == Some(v) && hex_value((87 + v) as u8) == Some(v),
        hex_value(b) is Some <==> 48 <= b <= 57 || 65 <= b <= 70 || 97 <= b <= 102,
{
}

/// The file name of a path is what its last part stands for, read as UTF-8: every text whose UTF-8
/// the decoded part is, and a text with replacements where it is no UTF-8.
pub proof fn law_last_part_is_read(directory: Seq<char>, part: Seq<char>, name: Seq<char>)
    requires
        !part.contains('/'),
    ensures
        percent_decoded(encode_utf8(part)) == encode_utf8(name) ==> {
            &&& path_file_name(directory.push('/') + part) == name
            &&& path_file_name(part) == name
        },
        !valid_utf8(percent_decoded(encode_utf8(part))) ==> path_file_name(directory.push('/') + part)
            == utf8_replaced(percent_decoded(encode_utf8(part))),
{
    law_rest_is_found(directory, '/', part);
    encode_utf8_valid_utf8(name);
    encode_utf8_decode_utf8(name);
}

/// A speed is shown in mebibytes from one of them on, otherwise in kibibytes from one of them on,
/// and otherwise in bytes; the figure stands before the unit.
pub proof fn law_units_of_speed(whole: u64)
    ensures
        SpeedUnit::Mebibytes.suits(whole) <==> whole >= 1048576,
        SpeedUnit::Kibibytes.suits(whole) <==> 1024 <= whole < 1048576,
        SpeedUnit::Bytes.suits(whole) <==> whole < 1024,
        SpeedUnit::Mebibytes.size() == 1048576,
        SpeedUnit::Kibibytes.size() == 1024,
        SpeedUnit::Bytes.size() == 1,
        SpeedUnit::Mebibytes.suffix() == " MiB/s"@,
        SpeedUnit::Kibibytes.suffix() == " KiB/s"@,
        SpeedUnit::Bytes.suffix() == " B/s"@,
{
}

/// A time is shown as the hours, minutes and seconds that make it, without the hours and without
/// the minutes where there are none.
pub proof fn law_time_is_shown(hours: nat, minutes: nat, seconds: nat)
    requires
        minutes < 60,
        seconds < 60,
    ensures
        eta_text(3600 * hours + 60 * minutes + seconds) == (if hours > 0 {
            two_digits(hours) + seq!['h']
        } else {
            Seq::empty()
        }) + (if minutes > 0 {
            two_digits(minutes) + seq!['m']
        } else {
            Seq::empty()
        }) + two_digits(seconds) + seq!['s'],
{
    let eta = 3600 * hours + 60 * minutes + seconds;
    assert(eta / 3600 == hours);
    assert(eta % 3600 == 60 * minutes + seconds);
    assert(eta % 3600 / 60 == minutes);
    assert(eta % 60 == seconds);
    assert(eta_text(eta) =~= (if hours > 0 {
        two_digits(hours) + seq!['h']
    } else {
        Seq::empty()
    }) + (if minutes > 0 {
        two_digits(minutes) + seq!['m']
    } else {
        Seq::empty()
    }) + two_digits(seconds) + seq!['s']);
}

/// An optional string holds its own text, and so do the parts of an address.
pub proof fn law_texts_are_held(text: String, authority: Option<String>)
    ensures
        text_of(Some(text)) == Some(text@),
        text_of(None) is None,
        parts_of(Some((authority, text))) == Some((text_of(authority), text@)),
        parts_of(None) is None,
{
}

} // verus!
