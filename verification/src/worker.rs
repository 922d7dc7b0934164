//! A worker downloads one block after the other, each with one request for a range.

use bytes::BytesMut;
use http::header::{HeaderMap, HeaderValue};
use vstd::pervasive::unreached;
use vstd::prelude::*;
use vstd::utf8::{decode_utf8, encode_utf8, encode_utf8_decode_utf8};

use crate::blocks::{block_end, block_of, block_start};
use crate::manager::WorkerMessage;
use crate::outside::{
    buffer_bytes, frozen_bytes, header_fields, is_field_text, no_fields, status_reason, text_of, with_field,
};
use crate::outside::{
    buffer_extend, buffer_freeze, buffer_len, buffer_with_capacity, header_append, header_map_new,
    header_value_from_str, status_display,
};
use crate::text::{
    decimal, decimal_text, digits_value, first_index, is_digit, law_decimal_is_plain, law_first_is_found, lemma_decimal_value,
};
use crate::util::{lemma_visible_is_field_text, with_auth, ReqBuilderExt, Url};

verus! {

/// The status code of a response that holds a range.
pub const PARTIAL_CONTENT: u16 = 206;

/// Why a worker did not get a block.
#[derive(Debug)]
pub enum WorkerError {
    /// The server answered with this status code, which is not the one for a range.
    UnexpectedResponse(u16),
    /// The connection failed, as this text says.
    ConnectionError(String),
}

impl WorkerError {
    /// An unexpected response is known by a status code.
    pub open spec fn wf(self) -> bool {
        self matches WorkerError::UnexpectedResponse(code) ==> 100 <= code < 600
    }

    /// What the user is told of the failure.
    pub open spec fn notice_text(self, worker: usize, block_id: usize) -> Seq<char> {
        match self {
            WorkerError::UnexpectedResponse(code) => "\n=> Unexpected response from server: "@ + decimal(code as nat)
                + seq![' '] + status_reason(code),
            WorkerError::ConnectionError(text) => "\r=> Worker "@ + decimal(worker as nat)
                + " failed while downloading block "@ + decimal(block_id as nat) + " with error "@ + text@
                + ", retrying later"@,
        }
    }

    /// Tells the user that `worker` failed to download a block.
    pub fn notice(&self, worker: usize, block_id: usize) -> (notice: String)
        requires
            self.wf(),
        ensures
            notice@ == self.notice_text(worker, block_id),
    {
        match self {
            WorkerError::UnexpectedResponse(code) => {
                let mut notice = "\n=> Unexpected response from server: ".to_owned();
                notice.append(status_display(*code).as_str());
                assert(notice@ =~= self.notice_text(worker, block_id));
                notice
            },
            WorkerError::ConnectionError(text) => {
                let mut notice = "\r=> Worker ".to_owned();
                notice.append(decimal_text(worker as u64).as_str());
                notice.append(" failed while downloading block ");
                notice.append(decimal_text(block_id as u64).as_str());
                notice.append(" with error ");
                notice.append(text.as_str());
                notice.append(", retrying later");
                notice
            },
        }
    }
}

/// A request for the file or a range of it.
pub struct GetRequest {
    /// Where to send it.
    pub url: Url,
    /// Its headers.
    pub headers: HeaderMap<HeaderValue>,
}

/// The value of the header that asks for the bytes from `start` up to and including `end`.
pub open spec fn range_text(start: nat, end: nat) -> Seq<char> {
    "bytes="@ + decimal(start) + "-"@ + decimal(end)
}

/// The headers of the request for a range.
pub open spec fn range_fields(start: nat, end: nat) -> Map<Seq<char>, Seq<Seq<u8>>> {
    with_field(no_fields(), "range"@, encode_utf8(range_text(start, end)))
}

proof fn lemma_range_is_field_text(start: nat, end: nat)
    ensures
        is_field_text(range_text(start, end)),
{
    reveal_strlit("bytes=");
    reveal_strlit("-");
    lemma_decimal_value(start);
    lemma_decimal_value(end);
    let text = range_text(start, end);
    assert forall|i: int| 0 <= i < text.len() implies ' ' <= #[trigger] text[i] < '\u{7f}' by {
        let s = decimal(start).len();
        if i < 6 {
        } else if i < 6 + s {
            assert(text[i] == decimal(start)[i - 6] && is_digit(decimal(start)[i - 6]));
        } else if i == 6 + s {
        } else {
            assert(text[i] == decimal(end)[i - 7 - s] && is_digit(decimal(end)[i - 7 - s]));
        }
    }
    lemma_visible_is_field_text(text);
}

/// The bytes that have come of a block.
pub struct BlockBuffer {
    bytes: BytesMut,
}

impl View for BlockBuffer {
    type V = Seq<u8>;

    closed spec fn view(&self) -> Seq<u8> {
        buffer_bytes(self.bytes)
    }
}

impl BlockBuffer {
    /// How many bytes have come.
    pub fn len(&self) -> (len: usize)
        ensures
            len == self@.len(),
    {
        buffer_len(&self.bytes)
    }
}

/// What a `DownloadWorker` holds.
#[verifier::ext_equal]
pub struct WorkerView {
    pub id: usize,
    pub url: Url,
    pub auth_header: Option<String>,
    pub file_len: u64,
    pub block_size: u64,
    /// What has come of all blocks together, modulo 2^64.
    pub delta: u64,
    /// What has come of the block that is being downloaded, modulo 2^64.
    pub cur_block_delta: u64,
    /// The block that is being downloaded.
    pub current: Option<usize>,
}

impl WorkerView {
    /// Whether the worker can ask for a block: the numbers that tell where the block lies fit
    /// their type, the file is not empty, and the header that logs the user in is one.
    pub open spec fn can_request(self, block_id: usize) -> bool {
        &&& self.block_size > 0
        &&& self.file_len > 0
        &&& block_start(block_id as nat, self.block_size as nat) + self.block_size <= u64::MAX
        &&& self.auth_header matches Some(value) ==> is_field_text(value@)
    }

    /// Whether the worker can do what a message says: it can only be told to download a block, and
    /// downloads one after the other.
    pub open spec fn accepts(self, message: WorkerMessage) -> bool {
        &&& self.current is None
        &&& message matches WorkerMessage::Download(block_id)
        &&& self.can_request(block_id)
    }

    /// The worker after it has begun to download a block.
    pub open spec fn begun(self, block_id: usize) -> WorkerView {
        WorkerView { current: Some(block_id), ..self }
    }

    /// The worker after it has ended the download of a block: it is ready for the next one, and
    /// the count starts anew.
    pub open spec fn ended(self) -> WorkerView {
        WorkerView { current: None, cur_block_delta: 0, ..self }
    }

    /// The headers of the request for a block.
    pub open spec fn request_fields(self, block_id: usize) -> Map<Seq<char>, Seq<Seq<u8>>> {
        with_auth(
            range_fields(
                block_start(block_id as nat, self.block_size as nat),
                block_end(block_id as nat, self.block_size as nat, self.file_len as nat) as nat,
            ),
            text_of(self.auth_header),
        )
    }

    /// The worker after `len` more bytes have come.
    pub open spec fn received(self, len: nat) -> WorkerView {
        WorkerView {
            delta: self.delta.wrapping_add(len as u64),
            cur_block_delta: self.cur_block_delta.wrapping_add(len as u64),
            ..self
        }
    }
}

/// Whether `message` is what the worker `id` has to tell the manager of a block, of which it got
/// these bytes or not, for this reason.
pub open spec fn is_reply(
    id: usize,
    block_id: usize,
    outcome: Result<Seq<u8>, WorkerError>,
    message: WorkerMessage,
) -> bool {
    match outcome {
        Ok(content) => {
            &&& message matches WorkerMessage::Finished(worker, block, bytes)
            &&& worker == id
            &&& block == block_id
            &&& frozen_bytes(bytes) == content
        },
        Err(error) => message == WorkerMessage::Failed(id, block_id, error),
    }
}

/// The bytes that came of a block, or why it did not come.
pub open spec fn outcome_of(result: Result<BlockBuffer, WorkerError>) -> Result<Seq<u8>, WorkerError> {
    match result {
        Ok(buffer) => Ok(buffer@),
        Err(error) => Err(error),
    }
}

/// The counter of the current block counts the bytes in its buffer: where it does, it still does
/// when one more chunk has come.
pub proof fn law_counter_follows_buffer(worker: WorkerView, buffer: Seq<u8>, chunk: Seq<u8>)
    requires
        worker.cur_block_delta == buffer.len(),
        buffer.len() + chunk.len() <= isize::MAX,
    ensures
        worker.received(chunk.len()).cur_block_delta == (buffer + chunk).len(),
{
}

/// Downloads blocks.
#[derive(Debug)]
pub struct DownloadWorker {
    id: usize,
    url: Url,
    auth_header: Option<String>,
    file_len: u64,
    block_size: u64,
    delta: u64,
    cur_block_delta: u64,
    current: Option<usize>,
}

impl View for DownloadWorker {
    type V = WorkerView;

    closed spec fn view(&self) -> WorkerView {
        WorkerView {
            id: self.id,
            url: self.url,
            auth_header: self.auth_header,
            file_len: self.file_len,
            block_size: self.block_size,
            delta: self.delta,
            cur_block_delta: self.cur_block_delta,
            current: self.current,
        }
    }
}

impl DownloadWorker {
    /// A worker that has downloaded nothing yet.
    pub fn new(id: usize, url: Url, auth_header: Option<String>, file_len: u64, block_size: u64) -> (worker:
        DownloadWorker)
        ensures
            worker@ == (WorkerView {
                id,
                url,
                auth_header,
                file_len,
                block_size,
                delta: 0,
                cur_block_delta: 0,
                current: None,
            }),
    {
        DownloadWorker { id, url, auth_header, file_len, block_size, delta: 0, cur_block_delta: 0, current: None }
    }

    /// What has come of all blocks together, modulo 2^64.
    pub fn delta(&self) -> (delta: u64)
        ensures
            delta == self@.delta,
    {
        self.delta
    }

    /// The block that is being downloaded.
    pub fn current(&self) -> (current: Option<usize>)
        ensures
            current == self@.current,
    {
        self.current
    }

    /// Whether the worker can ask for a block.
    pub fn can_request(&self, block_id: usize) -> (b: bool)
        ensures
            b == self@.can_request(block_id),
    {
        if self.block_size == 0 || self.file_len == 0 {
            return false;
        }
        if let Some(value) = &self.auth_header {
            if header_value_from_str(value.as_str()).is_none() {
                return false;
            }
        }
        match self.block_size.checked_mul(block_id as u64) {
            Some(block_start) => block_start <= u64::MAX - self.block_size,
            None => false,
        }
    }

    /// Whether the worker can do what a message says.
    pub fn accepts(&self, message: &WorkerMessage) -> (b: bool)
        ensures
            b == self@.accepts(*message),
    {
        match message {
            WorkerMessage::Download(block_id) => self.current.is_none() && self.can_request(*block_id),
            _ => false,
        }
    }

    /// Begins to do what a message from the manager says: to download a block, with this request.
    pub fn run(&mut self, message: &WorkerMessage) -> (request: GetRequest)
        requires
            old(self)@.accepts(*message),
        ensures
            final(self)@ == old(self)@.begun(message->Download_0),
            request.url == old(self)@.url,
            header_fields(request.headers) == old(self)@.request_fields(message->Download_0),
    {
        match message {
            WorkerMessage::Download(block_id) => {
                self.current = Some(*block_id);
                self.download_block(*block_id)
            },
            _ => unreached(),
        }
    }

    /// The request for a block.
    pub fn download_block(&self, block_id: usize) -> (request: GetRequest)
        requires
            self@.can_request(block_id),
        ensures
            request.url == self@.url,
            header_fields(request.headers) == self@.request_fields(block_id),
    {
        // Where the block begins and ends
        let block_start: u64 = self.block_size * (block_id as u64);
        let mut block_end: u64 = block_start + self.block_size - 1;

        // The last block may be shorter than the others.
        if block_end >= self.file_len {
            block_end = self.file_len - 1;
        }

        let mut headers = range_headers(block_start, block_end);
        headers.add_auth_header(&self.auth_header);
        GetRequest { url: self.url.clone(), headers }
    }

    /// Looks at the status code of the response to a request for a block: only a response with a
    /// range is worth collecting.
    pub fn accept_response(&self, status: u16) -> (buffer: Result<BlockBuffer, WorkerError>)
        requires
            self@.block_size <= isize::MAX,
        ensures
            buffer is Ok <==> status == PARTIAL_CONTENT,
            buffer matches Ok(buffer) ==> buffer@ == Seq::<u8>::empty(),
            buffer matches Err(error) ==> error == WorkerError::UnexpectedResponse(status),
    {
        if status != PARTIAL_CONTENT {
            Err(WorkerError::UnexpectedResponse(status))
        } else {
            Ok(BlockBuffer { bytes: buffer_with_capacity(self.block_size as usize) })
        }
    }

    /// Puts the next chunk of the body of a response behind what has come before.
    pub fn receive_chunk(&mut self, buffer: &mut BlockBuffer, chunk: &[u8])
        requires
            old(buffer)@.len() + chunk@.len() <= isize::MAX,
        ensures
            final(self)@ == old(self)@.received(chunk@.len()),
            final(buffer)@ == old(buffer)@ + chunk@,
    {
        let len: u64 = chunk.len() as u64;
        self.delta = self.delta.wrapping_add(len);
        self.cur_block_delta = self.cur_block_delta.wrapping_add(len);
        buffer_extend(&mut buffer.bytes, chunk);
    }

    /// Puts the next chunk behind what has come before where the buffer can become that long, and
    /// changes nothing where it cannot. The result says which.
    pub fn try_receive_chunk(&mut self, buffer: &mut BlockBuffer, chunk: &[u8]) -> (received: bool)
        ensures
            received == (old(buffer)@.len() + chunk@.len() <= isize::MAX),
            received ==> final(self)@ == old(self)@.received(chunk@.len()) && final(buffer)@ == old(buffer)@ + chunk@,
            !received ==> *final(self) == *old(self) && *final(buffer) == *old(buffer),
    {
        let len: usize = buffer.len();
        if len <= isize::MAX as usize && chunk.len() <= isize::MAX as usize - len {
            self.receive_chunk(buffer, chunk);
            true
        } else {
            false
        }
    }

    /// Ends the download of the current block. The message for the manager comes with the number
    /// of bytes that have come of the block.
    pub fn finish_block(&mut self, result: Result<BlockBuffer, WorkerError>) -> (finished: (u64, WorkerMessage))
        requires
            old(self)@.current is Some,
        ensures
            final(self)@ == old(self)@.ended(),
            finished.0 == old(self)@.cur_block_delta,
            is_reply(old(self)@.id, old(self)@.current->0, outcome_of(result), finished.1),
            result matches Err(error) ==> finished.1 == WorkerMessage::Failed(
                old(self)@.id,
                old(self)@.current->0,
                error,
            ),
            result matches Ok(buffer) ==> {
                &&& finished.1 matches WorkerMessage::Finished(worker, block, bytes)
                &&& worker == old(self)@.id
                &&& block == old(self)@.current->0
                &&& frozen_bytes(bytes) == buffer@
            },
    {
        let block_id = match self.current {
            Some(block_id) => block_id,
            None => unreached(),
        };
        let delta: u64 = self.cur_block_delta;
        self.cur_block_delta = 0;
        self.current = None;
        let message = match result {
            Ok(buffer) => WorkerMessage::Finished(self.id, block_id, buffer_freeze(buffer.bytes)),
            Err(error) => WorkerMessage::Failed(self.id, block_id, error),
        };
        (delta, message)
    }
}

/// The headers of a request for a range.
pub fn range_headers(start: u64, end: u64) -> (headers: HeaderMap<HeaderValue>)
    ensures
        header_fields(headers) == range_fields(start as nat, end as nat),
        header_fields(headers)["range"@] == seq![
            encode_utf8("bytes="@ + decimal(start as nat) + "-"@ + decimal(end as nat)),
        ],
{
    let mut range = "bytes=".to_owned();
    range.append(decimal_text(start).as_str());
    range.append("-");
    range.append(decimal_text(end).as_str());
    proof {
        reveal_strlit("range");
        lemma_range_is_field_text(start as nat, end as nat);
    }
    let mut headers = header_map_new();
    if let Some(value) = header_value_from_str(range.as_str()) {
        header_append(&mut headers, "range", value);
    }
    headers
}

/// Reading the text of a range gives its ends back: behind `bytes=` stand the digits of the first
/// position, one dash, and the digits of the last position, and nothing else.
pub proof fn law_range_reads_back(start: nat, end: nat)
    ensures
        ({
            let text = range_text(start, end);
            let ends = text.skip(6);
            let dash = first_index(ends, '-') as int;
            &&& text.take(6) == "bytes="@
            &&& 0 < dash < ends.len() - 1
            &&& ends[dash] == '-'
            &&& forall|i: int| 0 <= i < ends.len() && i != dash ==> '0' <= #[trigger] ends[i] <= '9'
            &&& digits_value(ends.take(dash)) == start
            &&& digits_value(ends.skip(dash + 1)) == end
        }),
{
    reveal_strlit("bytes=");
    reveal_strlit("-");
    law_decimal_is_plain(start);
    law_decimal_is_plain(end);
    let text = range_text(start, end);
    let first = decimal(start);
    let last = decimal(end);
    let ends = text.skip(6);
    assert(text.take(6) =~= "bytes="@);
    assert(ends =~= first.push('-') + last);
    assert(!first.contains('-'));
    law_first_is_found(first, '-', last);
    let dash = first.len() as int;
    assert(ends.take(dash) =~= first);
    assert(ends.skip(dash + 1) =~= last);
    assert forall|i: int| 0 <= i < ends.len() && i != dash implies '0' <= #[trigger] ends[i] <= '9' by {
        if i < dash {
            assert(ends[i] == first[i]);
        } else {
            assert(ends[i] == last[i - dash - 1]);
        }
    }
}

/// The request for a block asks, in its one Range header, for the positions from the first byte of
/// the block to its last one, and these are exactly the bytes of which the block is made. Where a
/// user is to be logged in, the request has the header for that as it was given, and there are no
/// other headers.
pub proof fn law_request_asks_for_the_bytes_of_the_block(worker: WorkerView, block_id: usize, content: Seq<u8>)
    requires
        worker.can_request(block_id),
        content.len() == worker.file_len,
    ensures
        ({
            let fields = worker.request_fields(block_id);
            let text = decode_utf8(fields["range"@][0]);
            let ends = text.skip(6);
            let dash = first_index(ends, '-') as int;
            let start = digits_value(ends.take(dash)) as int;
            let end = digits_value(ends.skip(dash + 1)) as int;
            &&& fields["range"@].len() == 1
            &&& text.take(6) == "bytes="@
            &&& 0 < dash < ends.len() - 1
            &&& forall|i: int| 0 <= i < ends.len() && i != dash ==> '0' <= #[trigger] ends[i] <= '9'
            &&& start == worker.block_size * block_id
            &&& end + 1 == (if start + worker.block_size <= worker.file_len {
                start + worker.block_size
            } else {
                worker.file_len as int
            })
            &&& start < worker.file_len ==> content.subrange(start, end + 1) == block_of(
                content,
                block_id as nat,
                worker.block_size as nat,
            )
            &&& worker.auth_header matches Some(value) ==> fields["authorization"@] == seq![encode_utf8(value@)]
            &&& forall|name: Seq<char>| #[trigger]
                fields.contains_key(name) <==> name == "range"@ || (name == "authorization"@ && worker.auth_header is Some)
        }),
{
    reveal_strlit("range");
    reveal_strlit("authorization");
    let size = worker.block_size as nat;
    let len = worker.file_len as nat;
    let start = block_start(block_id as nat, size);
    let end = block_end(block_id as nat, size, len) as nat;
    let text = range_text(start, end);
    encode_utf8_decode_utf8(text);
    law_range_reads_back(start, end);
    assert("range"@ != "authorization"@) by {
        assert("range"@.len() != "authorization"@.len());
    }
    assert(worker.request_fields(block_id)["range"@] =~= seq![encode_utf8(text)]);
}

/// A worker can be asked for a block exactly where the position behind a whole block fits its
/// type, the file has bytes and the blocks do, and the header that logs the user in is one.
pub proof fn law_what_can_be_requested(worker: WorkerView, block_id: usize)
    ensures
        worker.can_request(block_id) <==> {
            &&& worker.block_size >= 1
            &&& worker.file_len >= 1
            &&& worker.block_size * block_id + worker.block_size <= u64::MAX
            &&& worker.auth_header is None || is_field_text(worker.auth_header->0@)
        },
        worker.accepts(WorkerMessage::Download(block_id)) <==> worker.current is None && worker.can_request(block_id),
{
}

/// A worker that begins with a block has that block, and nothing else changes. A worker that has
/// ended a block has none, counts the bytes of the next one from zero, and forgets nothing else.
pub proof fn law_worker_has_one_block(worker: WorkerView, block_id: usize)
    ensures
        worker.begun(block_id).current == Some(block_id),
        worker.begun(block_id).delta == worker.delta,
        worker.begun(block_id).cur_block_delta == worker.cur_block_delta,
        worker.ended().current is None,
        worker.ended().delta == worker.delta,
        worker.ended().cur_block_delta == 0,
        worker.begun(block_id).ended() == worker.ended(),
        worker.ended() == (WorkerView { current: None, cur_block_delta: 0, ..worker }),
        worker.begun(block_id) == (WorkerView { current: Some(block_id), ..worker }),
{
}

/// Both counters of a worker grow by the length of what has come, as far as they can count, and
/// nothing else changes.
pub proof fn law_worker_counts_what_comes(worker: WorkerView, len: u64)
    ensures
        ({
            let after = worker.received(len as nat);
            &&& after.delta as int == (worker.delta + len) % 0x1_0000_0000_0000_0000
            &&& after.cur_block_delta as int == (worker.cur_block_delta + len) % 0x1_0000_0000_0000_0000
            &&& after == (WorkerView { delta: after.delta, cur_block_delta: after.cur_block_delta, ..worker })
        }),
{
}

/// A reply says what the download came to: it is a failure with the very error where the block did
/// not come, and the bytes of the block where it did. It always names the worker and the block.
pub proof fn law_reply_tells_the_outcome(
    id: usize,
    block_id: usize,
    outcome: Result<Seq<u8>, WorkerError>,
    message: WorkerMessage,
)
    requires
        is_reply(id, block_id, outcome, message),
    ensures
        outcome matches Err(error) ==> message == WorkerMessage::Failed(id, block_id, error),
        outcome matches Ok(content) ==> {
            &&& message matches WorkerMessage::Finished(worker, block, bytes)
            &&& worker == id
            &&& block == block_id
            &&& frozen_bytes(bytes) == content
        },
        message is Finished <==> outcome is Ok,
        message is Failed <==> outcome is Err,
{
}

/// What the user is told of a failure names the worker, the block and the error, or the status
/// code with its reason.
pub proof fn law_notice_says_what_failed(worker: usize, block_id: usize, code: u16, text: String)
    ensures
        WorkerError::ConnectionError(text).notice_text(worker, block_id) == "\r=> Worker "@ + decimal(worker as nat)
            + " failed while downloading block "@ + decimal(block_id as nat) + " with error "@ + text@
            + ", retrying later"@,
        WorkerError::UnexpectedResponse(code).notice_text(worker, block_id)
            == "\n=> Unexpected response from server: "@ + decimal(code as nat) + seq![' '] + status_reason(code),
        100 <= code < 600 ==> WorkerError::UnexpectedResponse(code).wf(),
        WorkerError::ConnectionError(text).wf(),
        PARTIAL_CONTENT == 206,
{
}

} // verus!
