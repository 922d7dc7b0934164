//! What can go wrong with a download.

use vstd::prelude::*;

use crate::outside::{status_display, status_reason, text_of};
use crate::text::{decimal, NumberError};

verus! {

/// Why a download cannot begin or cannot go on.
#[derive(Debug)]
pub enum Error {
    /// The server answered a request for a range with the whole file.
    RangeUnsupported,
    /// The server answered with this status code, which is no success.
    FailedResponse(u16),
    /// The server did not give the length of the file.
    NoContentLength,
    /// The length of the file is no visible text, as this text says.
    UnreadableContentLength(String),
    /// The length of the file is no number, for this reason.
    InvalidContentLength(NumberError),
    /// The server stopped answering with ranges.
    UnexpectedResponse,
    /// The bytes of a block could not be written, as this text says.
    WriteFailed(String),
    /// Something outside the download itself failed, as this text says.
    Message(String),
}

/// What an `Error` says.
pub enum ErrorView {
    RangeUnsupported,
    FailedResponse(u16),
    NoContentLength,
    UnreadableContentLength(Seq<char>),
    InvalidContentLength(NumberError),
    UnexpectedResponse,
    WriteFailed(Seq<char>),
    Message(Seq<char>),
}

impl View for Error {
    type V = ErrorView;

    open spec fn view(&self) -> ErrorView {
        match self {
            Error::RangeUnsupported => ErrorView::RangeUnsupported,
            Error::FailedResponse(code) => ErrorView::FailedResponse(*code),
            Error::NoContentLength => ErrorView::NoContentLength,
            Error::UnreadableContentLength(cause) => ErrorView::UnreadableContentLength(cause@),
            Error::InvalidContentLength(cause) => ErrorView::InvalidContentLength(*cause),
            Error::UnexpectedResponse => ErrorView::UnexpectedResponse,
            Error::WriteFailed(cause) => ErrorView::WriteFailed(cause@),
            Error::Message(text) => ErrorView::Message(text@),
        }
    }
}

impl From<String> for Error {
    /// The error that `text` tells of.
    fn from(text: String) -> (error: Error) {
        Error::Message(text)
    }
}

impl vstd::std_specs::convert::FromSpecImpl<String> for Error {
    open spec fn obeys_from_spec() -> bool {
        true
    }

    open spec fn from_spec(text: String) -> Error {
        Error::Message(text)
    }
}

impl ErrorView {
    /// A failed response is known by a status code.
    pub open spec fn wf(self) -> bool {
        self matches ErrorView::FailedResponse(code) ==> 100 <= code < 600
    }

    /// The text that tells the user what went wrong.
    pub open spec fn text(self) -> Seq<char> {
        match self {
            ErrorView::RangeUnsupported =>
                "Server does not support Range request. Please use single-threaded downloader instead"@,
            ErrorView::FailedResponse(code) => "Failed server response: "@ + decimal(code as nat) + seq![' ']
                + status_reason(code),
            ErrorView::NoContentLength => "Failed to request for content length"@,
            ErrorView::UnreadableContentLength(_) => "Failed to get content length"@,
            ErrorView::InvalidContentLength(_) => "Failed to parse content length"@,
            ErrorView::UnexpectedResponse => "Unexpected response"@,
            ErrorView::WriteFailed(_) => "Error writing to file"@,
            ErrorView::Message(text) => text,
        }
    }

    /// The text that tells the user what caused it, where something else did.
    pub open spec fn cause_text(self) -> Option<Seq<char>> {
        match self {
            ErrorView::UnreadableContentLength(cause) => Some(cause),
            ErrorView::InvalidContentLength(cause) => Some(cause.text()),
            ErrorView::WriteFailed(cause) => Some(cause),
            _ => None,
        }
    }
}

impl Error {
    /// Tells the user what went wrong.
    pub fn message(&self) -> (message: String)
        requires
            self@.wf(),
        ensures
            message@ == self@.text(),
    {
        match self {
            Error::RangeUnsupported =>
                "Server does not support Range request. Please use single-threaded downloader instead".to_owned(),
            Error::FailedResponse(code) => {
                let mut message = "Failed server response: ".to_owned();
                message.append(status_display(*code).as_str());
                assert(message@ =~= self@.text());
                message
            },
            Error::NoContentLength => "Failed to request for content length".to_owned(),
            Error::UnreadableContentLength(_) => "Failed to get content length".to_owned(),
            Error::InvalidContentLength(_) => "Failed to parse content length".to_owned(),
            Error::UnexpectedResponse => "Unexpected response".to_owned(),
            Error::WriteFailed(_) => "Error writing to file".to_owned(),
            Error::Message(text) => text.clone(),
        }
    }

    /// Tells the user what caused it, where something else did.
    pub fn cause(&self) -> (cause: Option<String>)
        ensures
            text_of(cause) == self@.cause_text(),
    {
        match self {
            Error::UnreadableContentLength(cause) => Some(cause.clone()),
            Error::InvalidContentLength(cause) => Some(cause.message()),
            Error::WriteFailed(cause) => Some(cause.clone()),
            _ => None,
        }
    }
}

/// An error says what it was made of.
pub proof fn law_error_is_what_it_was_made_of(code: u16, cause: NumberError, text: String)
    ensures
        Error::RangeUnsupported@ == ErrorView::RangeUnsupported,
        Error::FailedResponse(code)@ == ErrorView::FailedResponse(code),
        Error::NoContentLength@ == ErrorView::NoContentLength,
        Error::UnreadableContentLength(text)@ == ErrorView::UnreadableContentLength(text@),
        Error::InvalidContentLength(cause)@ == ErrorView::InvalidContentLength(cause),
        Error::UnexpectedResponse@ == ErrorView::UnexpectedResponse,
        Error::WriteFailed(text)@ == ErrorView::WriteFailed(text@),
        Error::Message(text)@ == ErrorView::Message(text@),
{
}

/// The user is told what went wrong in these words, with the status code and its reason where a
/// response failed, and with the text of what else failed.
pub proof fn law_error_says_what_went_wrong(code: u16, cause: NumberError, text: Seq<char>)
    ensures
        ErrorView::RangeUnsupported.text()
            == "Server does not support Range request. Please use single-threaded downloader instead"@,
        ErrorView::FailedResponse(code).text() == "Failed server response: "@ + decimal(code as nat) + seq![' ']
            + status_reason(code),
        ErrorView::NoContentLength.text() == "Failed to request for content length"@,
        ErrorView::UnreadableContentLength(text).text() == "Failed to get content length"@,
        ErrorView::InvalidContentLength(cause).text() == "Failed to parse content length"@,
        ErrorView::UnexpectedResponse.text() == "Unexpected response"@,
        ErrorView::WriteFailed(text).text() == "Error writing to file"@,
        ErrorView::Message(text).text() == text,
        100 <= code < 600 ==> ErrorView::FailedResponse(code).wf(),
{
}

/// The cause of an error is kept as it was, and an error without a cause has none.
pub proof fn law_cause_is_kept(code: u16, cause: NumberError, text: Seq<char>)
    ensures
        ErrorView::UnreadableContentLength(text).cause_text() == Some(text),
        ErrorView::WriteFailed(text).cause_text() == Some(text),
        ErrorView::InvalidContentLength(cause).cause_text() == Some(
            match cause {
                NumberError::Empty => "cannot parse integer from empty string"@,
                NumberError::InvalidDigit => "invalid digit found in string"@,
                NumberError::TooLarge => "number too large to fit in target type"@,
            },
        ),
        ErrorView::RangeUnsupported.cause_text() is None,
        ErrorView::FailedResponse(code).cause_text() is None,
        ErrorView::NoContentLength.cause_text() is None,
        ErrorView::UnexpectedResponse.cause_text() is None,
        ErrorView::Message(text).cause_text() is None,
{
}

} // verus!
