//! What each event does to a download, one law for each.

use bytes::Bytes;
use vstd::prelude::*;

use crate::blocks::{law_block_lengths, law_blocks_hold_the_file};
use crate::errors::Error;
use crate::manager::{can_divide, BlockState, DownloadManagerError, Event, ManagerView, Next, WorkerMessage};
use crate::util::Url;
use crate::worker::WorkerError;

verus! {

/// A download begins with the address, the user, the name, the length and the block size that it
/// is given, with the blocks in order, none of them handed out, and with nothing counted; its
/// meter looks at ten slices of a tenth of a second.
pub proof fn law_download_begins_with_nothing(
    url: Url,
    auth_header: Option<Seq<char>>,
    file_name: Seq<char>,
    len: u64,
    block_size: u64,
    now: u128,
)
    requires
        can_divide(len, block_size),
    ensures
        ({
            let manager = ManagerView::initial(url, auth_header, file_name, len, block_size, now);
            &&& manager.url == url
            &&& manager.auth_header == auth_header
            &&& manager.file_name == file_name
            &&& manager.file_len == len
            &&& manager.block_size == block_size
            &&& block_size * manager.block_count >= len
            &&& manager.block_count > 0 ==> block_size * (manager.block_count - 1) < len
            &&& manager.downloaded_len == 0
            &&& manager.states.len() == manager.block_count
            &&& manager.downloaded.len() == manager.block_count
            &&& manager.pending.len() == manager.block_count
            &&& forall|i: int| 0 <= i < manager.block_count ==> #[trigger] manager.states[i] == BlockState::Pending
            &&& forall|i: int| 0 <= i < manager.block_count ==> #[trigger] manager.downloaded[i] == 0
            &&& forall|i: int| 0 <= i < manager.block_count ==> #[trigger] manager.pending[i] == i
            &&& manager.meter.last_instant == now
            &&& manager.meter.current_increment == 0
            &&& manager.meter.time_slices.len() == 0
            &&& manager.meter.slice_window_size == 10
            &&& manager.meter.min_slice == 100_000_000
        }),
{
    law_blocks_hold_the_file(len as nat, block_size as nat);
}

/// Handing out blocks takes the first of those that are left, as many as there are workers, marks
/// them and no others as being downloaded, and changes nothing else.
pub proof fn law_first_blocks_are_handed_out(manager: ManagerView, workers: nat)
    requires
        manager.wf(),
    ensures
        ({
            let after = manager.assigned_times(workers);
            let n = if workers <= manager.pending.len() {
                workers as int
            } else {
                manager.pending.len() as int
            };
            &&& after.pending == manager.pending.skip(n)
            &&& after.states.len() == manager.states.len()
            &&& forall|k: int| 0 <= k < n ==> after.states[#[trigger] manager.pending[k] as int]
                == BlockState::Downloading
            &&& forall|i: int|
                0 <= i < manager.states.len() && (forall|k: int| 0 <= k < n ==> #[trigger] manager.pending[k] != i)
                    ==> #[trigger] after.states[i] == manager.states[i]
            &&& after == (ManagerView { states: after.states, pending: after.pending, ..manager })
        }),
    decreases workers,
{
    if workers == 0 {
        assert(manager.pending.skip(0) =~= manager.pending);
    } else {
        let m = (workers - 1) as nat;
        let before = manager.assigned_times(m);
        let after = manager.assigned_times(workers);
        law_first_blocks_are_handed_out(manager, m);
        if m < manager.pending.len() {
            let p = manager.pending[m as int];
            assert(before.pending[0] == p);
            assert(after.pending =~= manager.pending.skip(workers as int));
            assert forall|k: int| 0 <= k < workers implies after.states[#[trigger] manager.pending[k] as int]
                == BlockState::Downloading by {
                if k < m {
                    assert(before.states[manager.pending[k] as int] == BlockState::Downloading);
                }
            }
            assert forall|i: int|
                0 <= i < manager.states.len() && (forall|k: int|
                    0 <= k < workers ==> #[trigger] manager.pending[k] != i) implies #[trigger] after.states[i]
                == manager.states[i] by {
                assert(p != i);
                assert(before.states[i] == manager.states[i]);
            }
        }
    }
}

/// Everything is downloaded where no block is left to hand out and none is being downloaded.
pub proof fn law_when_everything_is_downloaded(manager: ManagerView)
    ensures
        manager.finished() <==> manager.pending.len() == 0 && (forall|i: int|
            0 <= i < manager.states.len() ==> #[trigger] manager.states[i] != BlockState::Downloading),
{
    if !manager.finished() && manager.pending.len() == 0 {
        let i = choose|i: int| 0 <= i < manager.states.len() && manager.states[i] == BlockState::Downloading;
        assert(manager.states[i] == BlockState::Downloading);
    }
    if manager.finished() {
        assert forall|i: int| 0 <= i < manager.states.len() implies #[trigger] manager.states[i]
            != BlockState::Downloading by {
            assert(manager.states.contains(manager.states[i]));
        }
    }
}

/// What a download is about never changes, whatever event comes.
pub proof fn law_events_keep_what_it_is_about(manager: ManagerView, event: Event, now: u128)
    ensures
        ({
            let after = manager.after(event, now);
            &&& after.url == manager.url
            &&& after.auth_header == manager.auth_header
            &&& after.file_len == manager.file_len
            &&& after.block_count == manager.block_count
            &&& after.block_size == manager.block_size
            &&& after.file_name == manager.file_name
        }),
{
}

/// The bytes of a block that a worker brings are to be written as they are, at the block's place
/// in the file. Nothing else happens before they are.
pub proof fn law_block_is_written_in_its_place(
    manager: ManagerView,
    worker: usize,
    block_id: usize,
    bytes: Bytes,
    now: u128,
)
    requires
        manager.block_size * block_id <= u64::MAX,
    ensures
        ({
            let event = Event::Message(WorkerMessage::Finished(worker, block_id, bytes));
            &&& manager.ready_for(event)
            &&& manager.after(event, now) == manager
            &&& !manager.step(event, now).print_progress
            &&& manager.step(event, now).next == Next::Write(
                worker,
                block_id,
                (manager.block_size * block_id) as u64,
                bytes,
            )
        }),
{
}

/// A report of progress counts for its block and for the file, and for nothing else. It can be
/// taken where the counters can take it, and the progress is shown where the meter has a new
/// slice.
pub proof fn law_progress_counts_once(manager: ManagerView, block_id: usize, len: u64, now: u128)
    requires
        manager.wf(),
        block_id < manager.block_count,
        manager.downloaded[block_id as int] + len <= u64::MAX,
        manager.downloaded_len + len <= u64::MAX,
        manager.meter.current_increment + len <= u64::MAX,
    ensures
        ({
            let event = Event::Message(WorkerMessage::Progress(block_id, len));
            let after = manager.after(event, now);
            &&& manager.has_room(block_id, len)
            &&& manager.ready_for(event)
            &&& after.downloaded_len == manager.downloaded_len + len
            &&& after.downloaded.len() == manager.downloaded.len()
            &&& after.downloaded[block_id as int] == manager.downloaded[block_id as int] + len
            &&& forall|i: int|
                0 <= i < manager.downloaded.len() && i != block_id ==> #[trigger] after.downloaded[i]
                    == manager.downloaded[i]
            &&& after.states == manager.states
            &&& after.pending == manager.pending
            &&& after.meter == manager.meter.added(len, now)
            &&& manager.step(event, now).next is Wait
            &&& manager.step(event, now).print_progress <==> manager.meter.slice_complete(now)
        }),
{
}

/// The counters can take so many bytes of a block exactly where none of them overflows.
pub proof fn law_room_of_the_counters(manager: ManagerView, block_id: usize, len: u64)
    ensures
        manager.has_room(block_id, len) <==> {
            &&& block_id < manager.block_count
            &&& manager.downloaded[block_id as int] + len <= u64::MAX
            &&& manager.downloaded_len + len <= u64::MAX
            &&& manager.meter.current_increment + len <= u64::MAX
        },
{
}

/// What nobody has reported of a block is what it has and what has not been counted of it.
pub proof fn law_unreported_rest(manager: ManagerView, block_id: usize)
    requires
        manager.wf(),
        block_id < manager.block_count,
    ensures
        ({
            let start = manager.block_size * block_id;
            let len = if start + manager.block_size <= manager.file_len {
                manager.block_size as int
            } else {
                manager.file_len - start
            };
            let counted = manager.downloaded[block_id as int];
            &&& 0 < len <= manager.block_size
            &&& manager.unreported(block_id) == (if counted < len {
                len - counted
            } else {
                0
            })
        }),
{
    law_block_lengths(block_id as nat, manager.block_size as nat, manager.file_len as nat);
}

/// A block that is written while others are still to come is finished. What nobody has reported of
/// it is counted. The worker that brought it gets the next block that is left, and nothing where
/// none is left. No other block changes.
pub proof fn law_written_block_makes_room_for_the_next(
    manager: ManagerView,
    worker: usize,
    block_id: usize,
    other: int,
    now: u128,
)
    requires
        manager.wf(),
        manager.ready_for(Event::Written(worker, block_id)),
        manager.pending.len() > 0 || (0 <= other < manager.block_count && other != block_id && manager.states[other]
            == BlockState::Downloading),
    ensures
        ({
            let event = Event::Written(worker, block_id);
            let after = manager.after(event, now);
            let step = manager.step(event, now);
            let start = manager.block_size * block_id;
            let len = if start + manager.block_size <= manager.file_len {
                manager.block_size as int
            } else {
                manager.file_len - start
            };
            let counted = manager.downloaded[block_id as int];
            &&& manager.pending.len() > 0 ==> {
                &&& step.next == Next::Send(worker, manager.pending[0])
                &&& after.pending == manager.pending.skip(1)
                &&& after.states == manager.states.update(block_id as int, BlockState::Finished).update(
                    manager.pending[0] as int,
                    BlockState::Downloading,
                )
            }
            &&& manager.pending.len() == 0 ==> {
                &&& step.next is Wait
                &&& after.pending.len() == 0
                &&& after.states == manager.states.update(block_id as int, BlockState::Finished)
            }
            &&& counted < len ==> {
                &&& after.downloaded == manager.downloaded.update(block_id as int, len as u64)
                &&& after.downloaded_len == manager.downloaded_len + (len - counted)
                &&& after.meter == manager.meter.added((len - counted) as u64, now)
                &&& step.print_progress <==> manager.meter.slice_complete(now)
            }
            &&& counted >= len ==> {
                &&& after.downloaded == manager.downloaded
                &&& after.downloaded_len == manager.downloaded_len
                &&& after.meter == manager.meter
                &&& !step.print_progress
            }
        }),
{
    let marked = manager.marked(block_id);
    law_block_lengths(block_id as nat, manager.block_size as nat, manager.file_len as nat);
    assert(!marked.finished()) by {
        if manager.pending.len() == 0 {
            assert(marked.states[other] == BlockState::Downloading);
            assert(marked.states.contains(BlockState::Downloading));
        }
    }
    let caught_up = marked.caught_up(block_id, now);
    assert(caught_up.states == marked.states && caught_up.pending == marked.pending);
    if manager.pending.len() > 0 {
        assert(manager.pending.drop_first() =~= manager.pending.skip(1));
    }
}

/// The block after which nothing is left to hand out and no worker has one ends the download with
/// success. The whole file then counts as downloaded, and that is shown.
pub proof fn law_last_written_block_is_the_end(manager: ManagerView, worker: usize, block_id: usize, now: u128)
    requires
        manager.wf(),
        block_id < manager.block_count,
        manager.pending.len() == 0,
        forall|i: int|
            0 <= i < manager.block_count && i != block_id ==> #[trigger] manager.states[i] != BlockState::Downloading,
    ensures
        ({
            let event = Event::Written(worker, block_id);
            let after = manager.after(event, now);
            &&& manager.ready_for(event)
            &&& manager.step(event, now).next == Next::Stop(DownloadManagerError::Success)
            &&& manager.step(event, now).print_progress
            &&& after.downloaded_len == manager.file_len
            &&& after.states == manager.states.update(block_id as int, BlockState::Finished)
            &&& after.downloaded == manager.downloaded
            &&& after.pending == manager.pending
            &&& after.meter == manager.meter
        }),
{
    assert(manager.marked(block_id).finished());
}

/// The report that a block is written can be taken wherever the counters can take what nobody has
/// reported of it.
pub proof fn law_report_of_a_written_block_is_taken(manager: ManagerView, worker: usize, block_id: usize)
    requires
        manager.has_room(block_id, manager.unreported(block_id)),
    ensures
        manager.ready_for(Event::Written(worker, block_id)),
{
}

/// A block that did not come goes behind all that are left, nothing of it counts any more, and its
/// worker gets the first that is then left. No other block changes, and the progress is shown.
pub proof fn law_failed_block_is_tried_again(
    manager: ManagerView,
    worker: usize,
    block_id: usize,
    text: String,
    now: u128,
)
    requires
        manager.wf(),
        block_id < manager.block_count,
        manager.downloaded[block_id as int] <= manager.downloaded_len,
    ensures
        ({
            let event = Event::Message(WorkerMessage::Failed(worker, block_id, WorkerError::ConnectionError(text)));
            let after = manager.after(event, now);
            let step = manager.step(event, now);
            let next = if manager.pending.len() == 0 {
                block_id
            } else {
                manager.pending[0]
            };
            &&& manager.ready_for(event)
            &&& step.next == Next::Send(worker, next)
            &&& step.print_progress
            &&& manager.pending.len() == 0 ==> after.pending.len() == 0
            &&& manager.pending.len() > 0 ==> after.pending == manager.pending.skip(1).push(block_id)
            &&& after.states == manager.states.update(block_id as int, BlockState::Pending).update(
                next as int,
                BlockState::Downloading,
            )
            &&& after.downloaded_len == manager.downloaded_len - manager.downloaded[block_id as int]
            &&& after.downloaded == manager.downloaded.update(block_id as int, 0)
            &&& after.meter == manager.meter
        }),
{
    let queue = manager.pending.push(block_id);
    if manager.pending.len() > 0 {
        assert(queue.drop_first() =~= manager.pending.skip(1).push(block_id));
    }
}

/// A block that the server refused ends the download with that error, and a write that failed with
/// that one. Nothing else happens.
pub proof fn law_what_ends_with_an_error(
    manager: ManagerView,
    worker: usize,
    block_id: usize,
    code: u16,
    cause: String,
    now: u128,
)
    ensures
        ({
            let refused = Event::Message(
                WorkerMessage::Failed(worker, block_id, WorkerError::UnexpectedResponse(code)),
            );
            let failed = Event::WriteFailed(cause);
            &&& manager.ready_for(refused)
            &&& manager.after(refused, now) == manager
            &&& !manager.step(refused, now).print_progress
            &&& manager.step(refused, now).next == Next::Stop(DownloadManagerError::Error(Error::UnexpectedResponse))
            &&& manager.ready_for(failed)
            &&& manager.after(failed, now) == manager
            &&& !manager.step(failed, now).print_progress
            &&& manager.step(failed, now).next == Next::Stop(DownloadManagerError::Error(Error::WriteFailed(cause)))
        }),
{
}

/// The manager cannot take a message that is meant for a worker, nor one of a block that the file
/// does not have.
pub proof fn law_what_cannot_be_taken(manager: ManagerView, worker: usize, block_id: usize, len: u64, text: String)
    requires
        manager.wf(),
        block_id >= manager.block_count,
    ensures
        !manager.ready_for(Event::Message(WorkerMessage::Download(block_id))),
        !manager.ready_for(Event::Message(WorkerMessage::Progress(block_id, len))),
        !manager.ready_for(Event::Written(worker, block_id)),
        !manager.ready_for(
            Event::Message(WorkerMessage::Failed(worker, block_id, WorkerError::ConnectionError(text))),
        ),
{
}

} // verus!
