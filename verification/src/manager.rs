//! The manager divides a file into blocks, hands them out to workers, and puts together what the
//! workers bring.
//!
//! The manager neither sends nor receives nor writes anything. Each event that its surroundings
//! report to it makes one step, and the step says what they are to do next.

use bytes::Bytes;
use http::header::{HeaderMap, HeaderValue};
use vstd::arithmetic::div_mod::lemma_fundamental_div_mod;
use vstd::arithmetic::mul::lemma_mul_is_commutative;
use vstd::pervasive::unreached;
use vstd::prelude::*;
use vstd::std_specs::convert::IntoSpec;
use vstd::utf8::encode_utf8;

use crate::blocks::{block_count, block_len, block_start, law_blocks_start_inside};
use crate::errors::{Error, ErrorView};
use crate::outside::{
    header_append, header_get, header_map_new, header_value_from_str, header_value_to_str, to_str_error_text,
};
use crate::outside::{header_fields, is_field_text, no_fields, text_of, visible_text, with_field};
use crate::speed::{MeterView, SpeedMeter};
use crate::text::{number_error, parse_u64, u64_value};
use crate::util::{
    authority_auth, file_name_is_cut_off, lemma_visible_is_field_text, path_file_name, response_file_name, with_auth,
};
use crate::util::{
    clone_text, parse_content_disposition, parse_url_basic_auth, try_parse_content_disposition, url_file_name,
    ReqBuilderExt, Url,
};
use crate::worker::{GetRequest, WorkerError, PARTIAL_CONTENT};

verus! {

/// The status code of a response that holds the whole file.
pub const OK: u16 = 200;

/// The shortest time, in nanoseconds, that makes a slice for the speed meter.
pub const METER_SLICE: u128 = 100_000_000;

/// How many slices the speed meter looks at.
pub const METER_WINDOW: usize = 10;

/// How far a block is.
#[derive(Clone, Copy, Debug, Eq, PartialEq, Structural)]
pub enum BlockState {
    /// No worker has it.
    Pending,
    /// A worker has it.
    Downloading,
    /// It is in the file.
    Finished,
}

/// What the manager and the workers tell each other.
#[derive(Debug)]
pub enum WorkerMessage {
    /// To a worker: download this block.
    Download(usize),
    /// From a worker: so many bytes more have come of this block.
    Progress(usize, u64),
    /// From this worker: these are the bytes of this block.
    Finished(usize, usize, Bytes),
    /// From this worker: it did not get this block.
    Failed(usize, usize, WorkerError),
}

/// Why the manager stops.
#[derive(Debug)]
pub enum DownloadManagerError {
    /// Everything is downloaded.
    Success,
    /// The download cannot go on.
    Error(Error),
}

impl<T> From<T> for DownloadManagerError where T: Into<Error> {
    /// Stops with the error that `e` stands for.
    fn from(e: T) -> (r: DownloadManagerError)
        ensures
            r matches DownloadManagerError::Error(error) && call_ensures(T::into, (e,), error),
    {
        DownloadManagerError::Error(e.into())
    }
}

impl<T> vstd::std_specs::convert::FromSpecImpl<T> for DownloadManagerError where T: Into<Error> {
    open spec fn obeys_from_spec() -> bool {
        <T as IntoSpec<Error>>::obeys_into_spec()
    }

    open spec fn from_spec(e: T) -> DownloadManagerError {
        DownloadManagerError::Error(e.into_spec())
    }
}

impl DownloadManagerError {
    /// What the whole download comes to when the manager stops: to stop because everything is
    /// downloaded is no error.
    pub fn outcome(self) -> (outcome: Result<(), Error>)
        ensures
            outcome == (match self {
                DownloadManagerError::Success => Ok(()),
                DownloadManagerError::Error(e) => Err(e),
            }),
    {
        match self {
            DownloadManagerError::Success => Ok(()),
            DownloadManagerError::Error(e) => Err(e),
        }
    }
}

/// What the surroundings of the manager report to it.
#[derive(Debug)]
pub enum Event {
    /// A worker sent a message.
    Message(WorkerMessage),
    /// The bytes that this worker brought of this block are in the file.
    Written(usize, usize),
    /// The bytes of a block could not be written, as this text says.
    WriteFailed(String),
}

/// What the surroundings of the manager are to do next.
#[derive(Debug)]
pub enum Next {
    /// Write these bytes, which this worker brought of this block, at this offset in the file,
    /// and report how that went.
    Write(usize, usize, u64, Bytes),
    /// Tell this worker to download this block.
    Send(usize, usize),
    /// Wait for the next message.
    Wait,
    /// Stop.
    Stop(DownloadManagerError),
}

/// What an event leads to.
#[derive(Debug)]
pub struct Step {
    /// Whether to show the progress.
    pub print_progress: bool,
    /// What to do after that.
    pub next: Next,
}

/// The sum of the lengths in `s`.
pub open spec fn total(s: Seq<u64>) -> nat
    decreases s.len(),
{
    if s.len() == 0 {
        0
    } else {
        total(s.drop_last()) + s.last() as nat
    }
}

/// What a `DownloadManager` holds.
#[verifier::ext_equal]
pub struct ManagerView {
    pub url: Url,
    pub auth_header: Option<Seq<char>>,
    pub file_len: u64,
    pub block_count: usize,
    pub block_size: u64,
    pub file_name: Seq<char>,
    /// How much of the file has come.
    pub downloaded_len: u64,
    pub meter: MeterView,
    /// How far each block is.
    pub states: Seq<BlockState>,
    /// How much has come of each block.
    pub downloaded: Seq<u64>,
    /// The blocks to hand out, the next one first.
    pub pending: Seq<usize>,
}

impl ManagerView {
    /// The manager before anything is downloaded.
    pub open spec fn initial(
        url: Url,
        auth_header: Option<Seq<char>>,
        file_name: Seq<char>,
        len: u64,
        block_size: u64,
        now: u128,
    ) -> ManagerView {
        let count = block_count(len as nat, block_size as nat);
        ManagerView {
            url,
            auth_header,
            file_len: len,
            block_count: count as usize,
            block_size,
            file_name,
            downloaded_len: 0,
            meter: MeterView {
                last_instant: now,
                current_increment: 0,
                time_slices: Seq::empty(),
                slice_window_size: METER_WINDOW,
                min_slice: METER_SLICE,
            },
            states: Seq::new(count, |i: int| BlockState::Pending),
            downloaded: Seq::new(count, |i: int| 0u64),
            pending: Seq::new(count, |i: int| i as usize),
        }
    }

    /// The blocks are those into which the file is divided, and each of them has its state.
    pub open spec fn wf(self) -> bool {
        &&& self.block_size > 0
        &&& self.block_count == block_count(self.file_len as nat, self.block_size as nat)
        &&& self.states.len() == self.block_count
        &&& self.downloaded.len() == self.block_count
        &&& forall|i: int| 0 <= i < self.pending.len() ==> #[trigger] self.pending[i] < self.block_count
    }

    /// How much of the file has come is the sum of how much has come of each block.
    pub open spec fn accounted(self) -> bool {
        self.downloaded_len == total(self.downloaded)
    }

    /// The blocks to hand out are those that no worker has and that are not in the file, each of
    /// them once.
    pub open spec fn consistent(self) -> bool {
        &&& self.pending.no_duplicates()
        &&& forall|id: usize|
            id < self.block_count ==> (#[trigger] self.pending.contains(id) <==> self.states[id as int]
                == BlockState::Pending)
    }

    /// There is no block to hand out, and no worker has one.
    pub open spec fn finished(self) -> bool {
        self.pending.len() == 0 && !self.states.contains(BlockState::Downloading)
    }

    /// The manager after it has handed out the next block, where there is one.
    pub open spec fn assigned(self) -> ManagerView {
        if self.pending.len() == 0 {
            self
        } else {
            ManagerView {
                states: self.states.update(self.pending[0] as int, BlockState::Downloading),
                pending: self.pending.drop_first(),
                ..self
            }
        }
    }

    /// What is to be done for `worker` to get the next block, where there is one.
    pub open spec fn assignment(self, worker: usize) -> Next {
        if self.pending.len() == 0 {
            Next::Wait
        } else {
            Next::Send(worker, self.pending[0])
        }
    }

    /// The manager after it has handed out `n` blocks, or all where there are fewer.
    pub open spec fn assigned_times(self, n: nat) -> ManagerView
        decreases n,
    {
        if n == 0 {
            self
        } else {
            self.assigned_times((n - 1) as nat).assigned()
        }
    }

    /// Whether the counters can take `len` more bytes of a block.
    pub open spec fn has_room(self, block_id: usize, len: u64) -> bool {
        &&& block_id < self.block_count
        &&& self.downloaded[block_id as int] + len <= u64::MAX
        &&& self.downloaded_len + len <= u64::MAX
        &&& self.meter.has_room(len)
    }

    /// The manager after `len` more bytes of a block have come at `now`.
    pub open spec fn progressed(self, block_id: usize, len: u64, now: u128) -> ManagerView {
        ManagerView {
            downloaded: self.downloaded.update(
                block_id as int,
                (self.downloaded[block_id as int] + len) as u64,
            ),
            downloaded_len: (self.downloaded_len + len) as u64,
            meter: self.meter.added(len, now),
            ..self
        }
    }

    /// The manager with a block in the file.
    pub open spec fn marked(self, block_id: usize) -> ManagerView {
        ManagerView { states: self.states.update(block_id as int, BlockState::Finished), ..self }
    }

    /// How many bytes of a block nobody has reported before the block was there.
    pub open spec fn unreported(self, block_id: usize) -> u64 {
        let len = block_len(block_id as nat, self.block_size as nat, self.file_len as nat);
        if self.downloaded[block_id as int] < len {
            (len - self.downloaded[block_id as int]) as u64
        } else {
            0
        }
    }

    /// The manager after it has counted the bytes of a block that nobody has reported.
    pub open spec fn caught_up(self, block_id: usize, now: u128) -> ManagerView {
        if self.unreported(block_id) > 0 {
            self.progressed(block_id, self.unreported(block_id), now)
        } else {
            self
        }
    }

    /// The manager after a block has to be downloaded anew: it comes behind all others, and what
    /// had come of it does not count.
    pub open spec fn retried(self, block_id: usize) -> ManagerView {
        ManagerView {
            states: self.states.update(block_id as int, BlockState::Pending),
            pending: self.pending.push(block_id),
            downloaded_len: (self.downloaded_len - self.downloaded[block_id as int]) as u64,
            downloaded: self.downloaded.update(block_id as int, 0),
            ..self
        }
    }

    /// Whether the manager can take an event: it is one that can come, its block is one of the
    /// file, and the counters can take what it brings.
    pub open spec fn ready_for(self, event: Event) -> bool {
        match event {
            Event::Message(WorkerMessage::Download(_)) => false,
            Event::Message(WorkerMessage::Progress(block_id, len)) => self.has_room(block_id, len),
            Event::Message(WorkerMessage::Finished(_, block_id, _)) => block_start(
                block_id as nat,
                self.block_size as nat,
            ) <= u64::MAX,
            Event::Message(WorkerMessage::Failed(_, block_id, WorkerError::ConnectionError(_))) => {
                &&& block_id < self.block_count
                &&& self.downloaded[block_id as int] <= self.downloaded_len
            },
            Event::Message(WorkerMessage::Failed(_, _, WorkerError::UnexpectedResponse(_))) => true,
            Event::Written(_, block_id) => {
                &&& block_id < self.block_count
                &&& self.marked(block_id).finished() || self.has_room(block_id, self.unreported(block_id))
            },
            Event::WriteFailed(_) => true,
        }
    }

    /// The manager after an event that came at `now`.
    pub open spec fn after(self, event: Event, now: u128) -> ManagerView {
        match event {
            Event::Message(WorkerMessage::Progress(block_id, len)) => self.progressed(block_id, len, now),
            Event::Message(WorkerMessage::Failed(_, block_id, WorkerError::ConnectionError(_))) => self.retried(
                block_id,
            ).assigned(),
            Event::Written(_, block_id) => {
                let marked = self.marked(block_id);
                if marked.finished() {
                    ManagerView { downloaded_len: self.file_len, ..marked }
                } else {
                    marked.caught_up(block_id, now).assigned()
                }
            },
            _ => self,
        }
    }

    /// What an event that came at `now` leads to.
    pub open spec fn step(self, event: Event, now: u128) -> Step {
        match event {
            Event::Message(WorkerMessage::Progress(_, _)) => Step {
                print_progress: self.meter.slice_complete(now),
                next: Next::Wait,
            },
            Event::Message(WorkerMessage::Finished(worker, block_id, bytes)) => Step {
                print_progress: false,
                next: Next::Write(
                    worker,
                    block_id,
                    block_start(block_id as nat, self.block_size as nat) as u64,
                    bytes,
                ),
            },
            Event::Message(WorkerMessage::Failed(worker, block_id, WorkerError::ConnectionError(_))) => Step {
                print_progress: true,
                next: self.retried(block_id).assignment(worker),
            },
            Event::Message(WorkerMessage::Failed(_, _, WorkerError::UnexpectedResponse(_))) => Step {
                print_progress: false,
                next: Next::Stop(DownloadManagerError::Error(Error::UnexpectedResponse)),
            },
            Event::Written(worker, block_id) => {
                if self.marked(block_id).finished() {
                    Step { print_progress: true, next: Next::Stop(DownloadManagerError::Success) }
                } else {
                    Step {
                        print_progress: self.unreported(block_id) > 0 && self.meter.slice_complete(now),
                        next: self.assignment(worker),
                    }
                }
            },
            Event::WriteFailed(cause) => Step {
                print_progress: false,
                next: Next::Stop(DownloadManagerError::Error(Error::WriteFailed(cause))),
            },
            Event::Message(WorkerMessage::Download(_)) => Step { print_progress: false, next: Next::Wait },
        }
    }
}

/// The length of the file that the headers of a response give; nothing where they give none.
pub open spec fn response_len(fields: Map<Seq<char>, Seq<Seq<u8>>>) -> Option<u64> {
    if fields.contains_key("content-length"@) {
        match visible_text(fields["content-length"@][0]) {
            Some(text) => u64_value(text),
            None => None,
        }
    } else {
        None
    }
}

/// Why a download cannot begin after a response; nothing where it can.
pub open spec fn response_error(status: u16, fields: Map<Seq<char>, Seq<Seq<u8>>>) -> Option<ErrorView> {
    if status == OK {
        Some(ErrorView::RangeUnsupported)
    } else if status != PARTIAL_CONTENT {
        Some(ErrorView::FailedResponse(status))
    } else if !fields.contains_key("content-length"@) {
        Some(ErrorView::NoContentLength)
    } else if visible_text(fields["content-length"@][0]) is None {
        Some(ErrorView::UnreadableContentLength("failed to convert header to a str"@))
    } else if response_len(fields) is None {
        Some(ErrorView::InvalidContentLength(number_error(visible_text(fields["content-length"@][0])->0)))
    } else {
        None
    }
}

/// Whether a download in blocks of `block_size` bytes can be set up after a response: a file name
/// in it is not cut off, and where a length is in it, the file can be divided.
pub open spec fn can_set_up(block_size: u64, status: u16, fields: Map<Seq<char>, Seq<Seq<u8>>>) -> bool {
    &&& status == PARTIAL_CONTENT ==> !file_name_is_cut_off(fields)
    &&& response_error(status, fields) is None ==> can_divide(response_len(fields)->0, block_size)
}

/// Whether `len` bytes can be divided into blocks of `block_size`.
pub open spec fn can_divide(len: u64, block_size: u64) -> bool {
    block_size > 0 && block_count(len as nat, block_size as nat) <= usize::MAX
}

/// The name under which a file is stored: the one that the server gives, or else the one that the
/// address ends with.
pub open spec fn chosen_name(url: Url, file_name: Option<Seq<char>>) -> Seq<char> {
    match file_name {
        Some(name) => name,
        None => path_file_name(url.path@),
    }
}

/// Downloads one file.
#[derive(Debug)]
pub struct DownloadManager {
    url: Url,
    pub file_len: u64,
    pub block_count: usize,
    pub block_size: u64,
    pub file_name: String,
    downloaded_len: u64,
    meter: SpeedMeter,
    auth_header: Option<String>,
    blocks_state: Vec<BlockState>,
    blocks_downloaded: Vec<u64>,
    blocks_pending: Vec<usize>,
}

impl View for DownloadManager {
    type V = ManagerView;

    closed spec fn view(&self) -> ManagerView {
        ManagerView {
            url: self.url,
            auth_header: text_of(self.auth_header),
            file_len: self.file_len,
            block_count: self.block_count,
            block_size: self.block_size,
            file_name: self.file_name@,
            downloaded_len: self.downloaded_len,
            meter: self.meter@,
            states: self.blocks_state@,
            downloaded: self.blocks_downloaded@,
            pending: self.blocks_pending@,
        }
    }
}

/// What a response to the first request says of the length of the file.
pub fn response_length(status: u16, headers: &HeaderMap<HeaderValue>) -> (len: Result<u64, Error>)
    ensures
        match len {
            Ok(len) => {
                &&& response_error(status, header_fields(*headers)) is None
                &&& response_len(header_fields(*headers)) == Some(len)
            },
            Err(error) => response_error(status, header_fields(*headers)) == Some(error@),
        },
        len matches Ok(len) ==> {
            &&& status == 206
            &&& header_fields(*headers).contains_key("content-length"@)
            &&& visible_text(header_fields(*headers)["content-length"@][0]) matches Some(text)
            &&& u64_value(text) == Some(len)
        },
        len matches Err(error) ==> {
            &&& error is RangeUnsupported <==> status == 200
            &&& error is FailedResponse <==> status != 200 && status != 206
            &&& error matches Error::FailedResponse(code) ==> code == status
            &&& error is NoContentLength ==> !header_fields(*headers).contains_key("content-length"@)
            &&& error is UnreadableContentLength ==> visible_text(header_fields(*headers)["content-length"@][0]) is None
            &&& error is InvalidContentLength ==> u64_value(
                visible_text(header_fields(*headers)["content-length"@][0])->0,
            ) is None
        },
{
    if status == OK {
        // The request asked for a range. A server that answers with the whole file does not
        // know ranges, and then there is nothing to do here.
        return Err(Error::RangeUnsupported);
    }
    if status != PARTIAL_CONTENT {
        return Err(Error::FailedResponse(status));
    }
    proof {
        reveal_strlit("content-length");
    }
    match header_get(headers, "content-length") {
        None => Err(Error::NoContentLength),
        Some(value) => match header_value_to_str(value) {
            Err(error) => Err(Error::UnreadableContentLength(to_str_error_text(error))),
            Ok(text) => match parse_u64(text.as_str()) {
                Err(error) => Err(Error::InvalidContentLength(error)),
                Ok(len) => Ok(len),
            },
        },
    }
}

/// Dividing and rounding up gives the number of blocks.
proof fn lemma_block_count(len: nat, size: nat, quotient: nat)
    requires
        size > 0,
        quotient == len / size,
    ensures
        quotient * size <= len,
        block_count(len, size) == (if quotient * size < len {
            quotient + 1
        } else {
            quotient
        }),
{
    lemma_fundamental_div_mod(len as int, size as int);
    lemma_mul_is_commutative(quotient as int, size as int);
}

impl DownloadManager {
    /// Sets up the download from `url` in blocks of `block_size` bytes, after the response to the
    /// first request had this status code and these headers.
    pub fn new(
        url: Url,
        block_size: u64,
        status: u16,
        headers: &HeaderMap<HeaderValue>,
        now: u128,
    ) -> (manager: Result<DownloadManager, Error>)
        requires
            url.wf(),
            can_set_up(block_size, status, header_fields(*headers)),
        ensures
            match manager {
                Ok(manager) => {
                    &&& response_error(status, header_fields(*headers)) is None
                    &&& manager@ == ManagerView::initial(
                        url,
                        authority_auth(text_of(url.authority)),
                        chosen_name(url, response_file_name(header_fields(*headers))),
                        response_len(header_fields(*headers))->0,
                        block_size,
                        now,
                    )
                    &&& manager@.wf()
                    &&& response_len(header_fields(*headers)) == Some(manager@.file_len)
                    &&& manager@.block_size == block_size
                    &&& manager@.auth_header matches Some(value) ==> is_field_text(value)
                },
                Err(error) => response_error(status, header_fields(*headers)) == Some(error@),
            },
    {
        match response_length(status, headers) {
            Err(error) => Err(error),
            Ok(len) => {
                let file_name = parse_content_disposition(headers);
                let auth_header = parse_url_basic_auth(&url);
                Ok(Self::initialize(url, auth_header, file_name, len, block_size, now))
            },
        }
    }

    /// Sets up a download as `new` does where that is possible; nothing where it is not.
    pub fn try_new(
        url: Url,
        block_size: u64,
        status: u16,
        headers: &HeaderMap<HeaderValue>,
        now: u128,
    ) -> (manager: Option<Result<DownloadManager, Error>>)
        requires
            url.wf(),
        ensures
            manager is Some <==> can_set_up(block_size, status, header_fields(*headers)),
            manager matches Some(Ok(manager)) ==> {
                &&& response_error(status, header_fields(*headers)) is None
                &&& manager@ == ManagerView::initial(
                    url,
                    authority_auth(text_of(url.authority)),
                    chosen_name(url, response_file_name(header_fields(*headers))),
                    response_len(header_fields(*headers))->0,
                    block_size,
                    now,
                )
                &&& manager@.wf()
                &&& manager@.auth_header matches Some(value) ==> is_field_text(value)
            },
            manager matches Some(Err(error)) ==> response_error(status, header_fields(*headers)) == Some(error@),
    {
        if status == PARTIAL_CONTENT && try_parse_content_disposition(headers).is_none() {
            return None;
        }
        if let Ok(len) = response_length(status, headers) {
            if !Self::divides(len, block_size) {
                return None;
            }
        }
        Some(Self::new(url, block_size, status, headers, now))
    }

    /// Whether `len` bytes can be divided into blocks of `block_size`.
    pub fn divides(len: u64, block_size: u64) -> (b: bool)
        ensures
            b == can_divide(len, block_size),
    {
        if block_size == 0 {
            return false;
        }
        let quotient: u64 = len / block_size;
        proof {
            lemma_block_count(len as nat, block_size as nat, quotient as nat);
        }
        if quotient * block_size < len {
            quotient < usize::MAX as u64
        } else {
            quotient <= usize::MAX as u64
        }
    }

    /// The request that tells whether the server can be reached and whether it knows ranges.
    pub fn create_test_request(url: &Url, auth_header: &Option<String>) -> (request: GetRequest)
        requires
            *auth_header matches Some(value) ==> is_field_text(value@),
        ensures
            request.url == *url,
            header_fields(request.headers) == with_field(
                with_auth(no_fields(), text_of(*auth_header)),
                "range"@,
                encode_utf8("bytes=0-"@),
            ),
    {
        // A server may not answer a request for the headers alone as it should, so this asks for
        // everything.
        let mut headers = header_map_new();
        headers.add_auth_header(auth_header);
        proof {
            reveal_strlit("range");
            reveal_strlit("authorization");
            reveal_strlit("bytes=0-");
            lemma_visible_is_field_text("bytes=0-"@);
        }
        if let Some(value) = header_value_from_str("bytes=0-") {
            header_append(&mut headers, "range", value);
        }
        GetRequest { url: url.clone(), headers }
    }

    /// Sets up the download of `len` bytes in blocks of `block_size` bytes.
    pub fn initialize(
        url: Url,
        auth_header: Option<String>,
        file_name: Option<String>,
        len: u64,
        block_size: u64,
        now: u128,
    ) -> (manager: DownloadManager)
        requires
            can_divide(len, block_size),
        ensures
            manager@ == ManagerView::initial(
                url,
                text_of(auth_header),
                chosen_name(url, text_of(file_name)),
                len,
                block_size,
                now,
            ),
            manager@.wf(),
    {
        // The number of blocks is rounded up, so the last block may be shorter than the others.
        // The workers see to that.
        let quotient: u64 = len / block_size;
        proof {
            lemma_block_count(len as nat, block_size as nat, quotient as nat);
        }
        let mut block_count: usize = quotient as usize;
        if (block_count as u64) * block_size < len {
            block_count += 1;
        }

        let file_name = match file_name {
            Some(file_name) => file_name,
            None => url_file_name(&url),
        };

        let mut blocks_state: Vec<BlockState> = Vec::new();
        let mut blocks_downloaded: Vec<u64> = Vec::new();
        let mut blocks_pending: Vec<usize> = Vec::new();
        let mut i: usize = 0;
        while i < block_count
            invariant
                i <= block_count,
                blocks_state@ == Seq::new(i as nat, |j: int| BlockState::Pending),
                blocks_downloaded@ == Seq::new(i as nat, |j: int| 0u64),
                blocks_pending@ == Seq::new(i as nat, |j: int| j as usize),
            decreases block_count - i,
        {
            blocks_state.push(BlockState::Pending);
            blocks_downloaded.push(0);
            blocks_pending.push(i);
            i += 1;
        }

        DownloadManager {
            url,
            auth_header,
            file_len: len,
            file_name,
            block_count,
            block_size,
            meter: SpeedMeter::new(METER_SLICE, METER_WINDOW, now),
            downloaded_len: 0,
            blocks_state,
            blocks_downloaded,
            blocks_pending,
        }
    }

    /// Hands the first blocks out to `workers` workers, as long as there are any. The result is
    /// which worker gets which block.
    pub fn run(&mut self, workers: usize) -> (tasks: Vec<(usize, usize)>)
        requires
            old(self)@.wf(),
        ensures
            final(self)@.wf(),
            final(self)@ == old(self)@.assigned_times(workers as nat),
            tasks@.len() == (if workers <= old(self)@.pending.len() {
                workers as nat
            } else {
                old(self)@.pending.len()
            }),
            forall|i: int| 0 <= i < tasks@.len() ==> #[trigger] tasks@[i] == (i as usize, old(self)@.pending[i]),
    {
        let ghost first = self@;
        let mut tasks: Vec<(usize, usize)> = Vec::new();
        let mut id: usize = 0;
        while id < workers
            invariant
                id <= workers,
                self@.wf(),
                self@ == first.assigned_times(id as nat),
                tasks@.len() == (if id <= first.pending.len() {
                    id as nat
                } else {
                    first.pending.len()
                }),
                self@.pending == first.pending.skip(tasks@.len() as int),
                forall|i: int| 0 <= i < tasks@.len() ==> #[trigger] tasks@[i] == (i as usize, first.pending[i]),
            decreases workers - id,
        {
            if let Next::Send(worker, block_id) = self.assign_download_task(id) {
                tasks.push((worker, block_id));
            }
            id += 1;
        }
        tasks
    }

    /// Whether the manager can take an event.
    pub fn is_ready_for(&self, event: &Event) -> (ready: bool)
        requires
            self@.wf(),
        ensures
            ready == self@.ready_for(*event),
    {
        match event {
            Event::Message(WorkerMessage::Download(_)) => false,
            Event::Message(WorkerMessage::Progress(block_id, len)) => self.has_room(*block_id, *len),
            Event::Message(WorkerMessage::Finished(_, block_id, _)) => {
                let block_id: u64 = *block_id as u64;
                proof {
                    if block_id > u64::MAX as int / self.block_size as int {
                        assert(self.block_size * block_id > u64::MAX) by (nonlinear_arith)
                            requires
                                block_id > u64::MAX as int / self.block_size as int,
                                self.block_size > 0,
                        ;
                    } else {
                        assert(self.block_size * block_id <= u64::MAX) by (nonlinear_arith)
                            requires
                                block_id <= u64::MAX as int / self.block_size as int,
                                self.block_size > 0,
                        ;
                    }
                }
                block_id <= u64::MAX / self.block_size
            },
            Event::Message(WorkerMessage::Failed(_, block_id, WorkerError::ConnectionError(_))) => {
                *block_id < self.block_count && self.blocks_downloaded[*block_id] <= self.downloaded_len
            },
            Event::Message(WorkerMessage::Failed(_, _, WorkerError::UnexpectedResponse(_))) => true,
            Event::Written(_, block_id) => {
                if *block_id >= self.block_count {
                    return false;
                }
                if self.finished_with(*block_id) {
                    return true;
                }
                self.has_room(*block_id, self.unreported(*block_id))
            },
            Event::WriteFailed(_) => true,
        }
    }

    /// Whether everything is downloaded once this block is in the file.
    fn finished_with(&self, block_id: usize) -> (b: bool)
        requires
            self@.wf(),
            block_id < self@.block_count,
        ensures
            b == self@.marked(block_id).finished(),
    {
        let ghost marked = self@.marked(block_id).states;
        if self.blocks_pending.len() > 0 {
            return false;
        }
        let mut i: usize = 0;
        while i < self.blocks_state.len()
            invariant
                i <= self.blocks_state@.len(),
                block_id < self.blocks_state@.len(),
                marked == self.blocks_state@.update(block_id as int, BlockState::Finished),
                forall|j: int| 0 <= j < i ==> marked[j] != BlockState::Downloading,
            decreases self.blocks_state@.len() - i,
        {
            if i != block_id && self.blocks_state[i] == BlockState::Downloading {
                assert(marked[i as int] == BlockState::Downloading);
                return false;
            }
            i += 1;
        }
        true
    }

    /// How many bytes of a block nobody has reported.
    fn unreported(&self, block_id: usize) -> (len: u64)
        requires
            self@.wf(),
            block_id < self@.block_count,
        ensures
            len == self@.unreported(block_id),
    {
        proof {
            law_blocks_start_inside(block_id as nat, self.block_size as nat, self.file_len as nat);
        }
        // The last block may be shorter than the others.
        let rest: u64 = self.file_len - self.write_to_file(block_id);
        let block_len: u64 = if rest < self.block_size {
            rest
        } else {
            self.block_size
        };
        if self.blocks_downloaded[block_id] < block_len {
            block_len - self.blocks_downloaded[block_id]
        } else {
            0
        }
    }

    /// Whether the counters can take `len` more bytes of a block.
    pub fn has_room(&self, block_id: usize, len: u64) -> (room: bool)
        requires
            self@.wf(),
        ensures
            room == self@.has_room(block_id, len),
    {
        block_id < self.block_count && len <= u64::MAX - self.blocks_downloaded[block_id] && len <= u64::MAX
            - self.downloaded_len && self.meter.has_room(len)
    }

    /// Makes the step to which an event that came at `now` leads.
    pub fn run_loop(&mut self, event: Event, now: u128) -> (step: Step)
        requires
            old(self)@.wf(),
            old(self)@.ready_for(event),
        ensures
            final(self)@.wf(),
            final(self)@ == old(self)@.after(event, now),
            step == old(self)@.step(event, now),
    {
        match event {
            Event::Message(WorkerMessage::Finished(worker, block_id, bytes)) => {
                let offset: u64 = self.write_to_file(block_id);
                Step { print_progress: false, next: Next::Write(worker, block_id, offset, bytes) }
            },
            Event::Written(worker, block_id) => {
                self.blocks_state[block_id] = BlockState::Finished;

                if self.has_finished() {
                    // Whatever the counters say, it is all there.
                    self.downloaded_len = self.file_len;
                    Step { print_progress: true, next: Next::Stop(DownloadManagerError::Success) }
                } else {
                    // What nobody has reported of the block is counted now.
                    let mut print_progress = false;
                    let len: u64 = self.unreported(block_id);
                    if len > 0 {
                        print_progress = self.progress(block_id, len, now);
                    }
                    // Other blocks are to be handed out, or other workers still have some. The
                    // worker gets another block in the first case, and nothing in the second.
                    let next = self.assign_download_task(worker);
                    Step { print_progress, next }
                }
            },
            Event::WriteFailed(cause) => Step {
                print_progress: false,
                next: Next::Stop(DownloadManagerError::from(Error::WriteFailed(cause))),
            },
            Event::Message(WorkerMessage::Failed(worker, block_id, error)) => match error {
                WorkerError::ConnectionError(_) => {
                    self.blocks_state[block_id] = BlockState::Pending;
                    self.blocks_pending.push(block_id);
                    self.downloaded_len = self.downloaded_len - self.blocks_downloaded[block_id];
                    self.blocks_downloaded[block_id] = 0;
                    let next = self.assign_download_task(worker);
                    Step { print_progress: true, next }
                },
                WorkerError::UnexpectedResponse(_) => Step {
                    print_progress: false,
                    next: Next::Stop(DownloadManagerError::from(Error::UnexpectedResponse)),
                },
            },
            Event::Message(WorkerMessage::Progress(block_id, len)) => {
                let print_progress = self.progress(block_id, len, now);
                Step { print_progress, next: Next::Wait }
            },
            Event::Message(WorkerMessage::Download(_)) => unreached(),
        }
    }

    /// Where in the file the bytes of a block belong.
    pub fn write_to_file(&self, block_id: usize) -> (offset: u64)
        requires
            block_start(block_id as nat, self@.block_size as nat) <= u64::MAX,
        ensures
            offset == block_start(block_id as nat, self@.block_size as nat),
    {
        self.block_size * (block_id as u64)
    }

    /// Hands the next block out to a worker, where there is one.
    pub fn assign_download_task(&mut self, worker_id: usize) -> (next: Next)
        requires
            old(self)@.wf(),
        ensures
            final(self)@.wf(),
            final(self)@ == old(self)@.assigned(),
            next == old(self)@.assignment(worker_id),
    {
        if self.blocks_pending.len() == 0 {
            Next::Wait
        } else {
            let block_id = self.blocks_pending.remove(0);
            self.blocks_state[block_id] = BlockState::Downloading;
            Next::Send(worker_id, block_id)
        }
    }

    /// Whether everything is downloaded: there is no block to hand out, and no worker has one.
    pub fn has_finished(&self) -> (b: bool)
        ensures
            b == self@.finished(),
    {
        if self.blocks_pending.len() > 0 {
            return false;
        }
        let mut i: usize = 0;
        while i < self.blocks_state.len()
            invariant
                i <= self.blocks_state@.len(),
                forall|j: int| 0 <= j < i ==> self.blocks_state@[j] != BlockState::Downloading,
            decreases self.blocks_state@.len() - i,
        {
            if self.blocks_state[i] == BlockState::Downloading {
                return false;
            }
            i += 1;
        }
        true
    }

    /// Counts `len` more bytes of a block, which came at `now`. The result says whether to show
    /// the progress.
    pub fn progress(&mut self, block_id: usize, len: u64, now: u128) -> (print_progress: bool)
        requires
            old(self)@.wf(),
            old(self)@.has_room(block_id, len),
        ensures
            final(self)@.wf(),
            final(self)@ == old(self)@.progressed(block_id, len, now),
            print_progress == old(self)@.meter.slice_complete(now),
    {
        self.blocks_downloaded[block_id] = self.blocks_downloaded[block_id] + len;
        self.downloaded_len = self.downloaded_len + len;
        self.meter.add(len, now)
    }

    /// Where the file comes from.
    pub fn url(&self) -> (url: &Url)
        ensures
            *url == self@.url,
    {
        &self.url
    }

    /// The value of the header that logs the user in, where there is one.
    pub fn auth_header(&self) -> (auth_header: Option<String>)
        ensures
            text_of(auth_header) == self@.auth_header,
    {
        clone_text(&self.auth_header)
    }

    /// The length of the file.
    pub fn file_len(&self) -> (len: u64)
        ensures
            len == self@.file_len,
    {
        self.file_len
    }

    /// The number of blocks.
    pub fn block_count(&self) -> (count: usize)
        ensures
            count == self@.block_count,
    {
        self.block_count
    }

    /// The length of a block.
    pub fn block_size(&self) -> (size: u64)
        ensures
            size == self@.block_size,
    {
        self.block_size
    }

    /// The name under which the file is stored.
    pub fn file_name(&self) -> (name: &str)
        ensures
            name@ == self@.file_name,
    {
        self.file_name.as_str()
    }

    /// How much of the file has come.
    pub fn downloaded_len(&self) -> (len: u64)
        ensures
            len == self@.downloaded_len,
    {
        self.downloaded_len
    }

    /// How much of the file is still to come.
    pub fn remaining(&self) -> (len: u64)
        requires
            self@.downloaded_len <= self@.file_len,
        ensures
            len == self@.file_len - self@.downloaded_len,
    {
        self.file_len - self.downloaded_len
    }

    /// The meter that measures how fast the file comes.
    pub fn meter(&self) -> (meter: &SpeedMeter)
        ensures
            meter@ == self@.meter,
    {
        &self.meter
    }
}

} // verus!
