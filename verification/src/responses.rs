//! What the response to the first request says of a download.

use vstd::prelude::*;
use vstd::utf8::encode_utf8;

use crate::blocks::{block_count, law_blocks_hold_the_file};
use crate::errors::ErrorView;
use crate::manager::{can_divide, can_set_up, chosen_name, response_error, response_len};
use crate::outside::visible_text;
use crate::text::{decimal, digits_value, number_error, u64_value};
use crate::text::{law_decimal_is_plain, law_digits_are_read};
use crate::util::{file_name_is_cut_off, law_other_bytes_are_no_text, law_visible_text_is_read, path_file_name, Url};

verus! {

/// The length of the file is the number that the digits of the first Content-Length make, and a
/// download can begin with it, as long as the number fits.
pub proof fn law_length_is_read(fields: Map<Seq<char>, Seq<Seq<u8>>>, digits: Seq<char>)
    requires
        fields.contains_key("content-length"@),
        fields["content-length"@][0] == encode_utf8(digits),
        digits.len() > 0,
        forall|i: int| 0 <= i < digits.len() ==> '0' <= #[trigger] digits[i] <= '9',
    ensures
        digits_value(digits) <= u64::MAX ==> {
            &&& response_len(fields) == Some(digits_value(digits) as u64)
            &&& response_error(206, fields) is None
        },
        digits_value(digits) > u64::MAX ==> {
            &&& response_len(fields) is None
            &&& response_error(206, fields) is Some
        },
{
    law_visible_text_is_read(digits);
    law_digits_are_read(digits);
}

/// Every length that a server can give comes out as it was given.
pub proof fn law_every_length_is_learned(fields: Map<Seq<char>, Seq<Seq<u8>>>, len: u64)
    requires
        fields.contains_key("content-length"@),
        fields["content-length"@][0] == encode_utf8(decimal(len as nat)),
    ensures
        response_len(fields) == Some(len),
        response_error(206, fields) is None,
{
    law_decimal_is_plain(len as nat);
    law_length_is_read(fields, decimal(len as nat));
}

/// A download begins only after a response with a range: the whole file means that the server
/// knows no ranges, and every other status code is a failure with that code, whatever the headers
/// say.
pub proof fn law_only_ranges_begin_a_download(status: u16, fields: Map<Seq<char>, Seq<Seq<u8>>>)
    ensures
        status == 200 ==> response_error(status, fields) == Some(ErrorView::RangeUnsupported),
        status != 200 && status != 206 ==> response_error(status, fields) == Some(ErrorView::FailedResponse(status)),
        status != 206 ==> response_error(status, fields) is Some,
{
}

/// A response with a range but without a length, with a length that is no visible text, or with
/// one that is no number begins no download, and the error says which.
pub proof fn law_download_needs_a_length(fields: Map<Seq<char>, Seq<Seq<u8>>>, i: int)
    ensures
        !fields.contains_key("content-length"@) ==> {
            &&& response_error(206, fields) == Some(ErrorView::NoContentLength)
            &&& response_len(fields) is None
        },
        fields.contains_key("content-length"@) && 0 <= i < fields["content-length"@][0].len() && (
        fields["content-length"@][0][i] >= 127 || (fields["content-length"@][0][i] < 32
            && fields["content-length"@][0][i] != 9)) ==> {
            &&& response_error(206, fields) == Some(
                ErrorView::UnreadableContentLength("failed to convert header to a str"@),
            )
            &&& response_len(fields) is None
        },
        fields.contains_key("content-length"@) ==> (visible_text(fields["content-length"@][0]) matches Some(text) ==> (
        match u64_value(text) {
            Some(len) => response_len(fields) == Some(len) && response_error(206, fields) is None,
            None => response_len(fields) is None && response_error(206, fields) == Some(
                ErrorView::InvalidContentLength(number_error(text)),
            ),
        })),
{
    if fields.contains_key("content-length"@) && 0 <= i < fields["content-length"@][0].len() && (
    fields["content-length"@][0][i] >= 127 || (fields["content-length"@][0][i] < 32
        && fields["content-length"@][0][i] != 9)) {
        law_other_bytes_are_no_text(fields["content-length"@][0], i);
    }
}

/// A file can be divided into blocks of every size but zero, as long as the blocks can be counted.
pub proof fn law_every_file_can_be_divided(len: u64, block_size: u64)
    ensures
        !can_divide(len, 0),
        block_size > 0 && len <= usize::MAX ==> can_divide(len, block_size),
        can_divide(len, block_size) <==> block_size > 0 && block_count(len as nat, block_size as nat) <= usize::MAX,
{
    if block_size > 0 {
        law_blocks_hold_the_file(len as nat, block_size as nat);
        let count = block_count(len as nat, block_size as nat);
        if count > 0 {
            assert(count - 1 <= block_size * (count - 1)) by (nonlinear_arith)
                requires
                    block_size >= 1,
                    count >= 1,
            ;
        }
    }
}

/// A download can be set up after every response that is refused before its headers are read, and
/// otherwise where the file name is not cut off and the file can be divided, where there is one.
pub proof fn law_what_can_be_set_up(block_size: u64, status: u16, fields: Map<Seq<char>, Seq<Seq<u8>>>)
    ensures
        status != 206 ==> can_set_up(block_size, status, fields),
        can_set_up(block_size, 206, fields) <==> !file_name_is_cut_off(fields) && (response_error(206, fields) is None
            ==> can_divide(response_len(fields)->0, block_size)),
{
}

/// The name that the server gives comes before the one in the address.
pub proof fn law_server_names_the_file(url: Url, name: Seq<char>)
    ensures
        chosen_name(url, Some(name)) == name,
        chosen_name(url, None) == path_file_name(url.path@),
{
}

} // verus!
