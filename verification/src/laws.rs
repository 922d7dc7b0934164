//! What holds of a download as a whole, whatever events come.

use bytes::Bytes;
use vstd::arithmetic::mul::lemma_mul_is_distributive_add;
use vstd::prelude::*;

use crate::blocks::{block_count, block_end, block_len, block_of, block_start, overwrite};
use crate::blocks::{law_block_lengths, law_blocks_make_the_file, law_blocks_start_inside, law_write_touches_one_block};
use crate::manager::{can_divide, total, BlockState, DownloadManagerError, Event, ManagerView, Next, WorkerMessage};
use crate::outside::{frozen_bytes, is_field_text, text_of};
use crate::util::{with_auth, Url};
use crate::worker::{is_reply, range_fields, WorkerError, WorkerView};

verus! {

/// Whether an event tells of a block that a worker has. Others come from no worker that downloads
/// what it is told to and reports it once.
pub open spec fn tells_of_running_block(manager: ManagerView, event: Event) -> bool {
    match event {
        Event::Message(WorkerMessage::Failed(_, block_id, _)) => block_id < manager.block_count
            && manager.states[block_id as int] == BlockState::Downloading,
        Event::Message(WorkerMessage::Finished(_, block_id, _)) => block_id < manager.block_count
            && manager.states[block_id as int] == BlockState::Downloading,
        Event::Written(_, block_id) => block_id < manager.block_count && manager.states[block_id as int]
            == BlockState::Downloading,
        _ => true,
    }
}

/// How many of the blocks are not in the file.
pub open spec fn unfinished(states: Seq<BlockState>) -> nat
    decreases states.len(),
{
    if states.len() == 0 {
        0
    } else {
        unfinished(states.drop_last()) + (if states.last() == BlockState::Finished {
            0nat
        } else {
            1
        })
    }
}

/// Whether every block of which the manager says that it is in the file is there as it should be.
pub open spec fn holds_finished_blocks(manager: ManagerView, file: Seq<u8>, content: Seq<u8>) -> bool {
    &&& file.len() == manager.file_len
    &&& content.len() == manager.file_len
    &&& forall|id: nat|
        id < manager.block_count && manager.states[id as int] == BlockState::Finished ==> #[trigger] block_of(
            file,
            id,
            manager.block_size as nat,
        ) == block_of(content, id, manager.block_size as nat)
}

proof fn lemma_total_of_update(s: Seq<u64>, i: int, v: u64)
    requires
        0 <= i < s.len(),
    ensures
        total(s.update(i, v)) == total(s) - s[i] + v,
        s[i] <= total(s),
    decreases s.len(),
{
    if i == s.len() - 1 {
        assert(s.update(i, v).drop_last() =~= s.drop_last());
    } else {
        lemma_total_of_update(s.drop_last(), i, v);
        assert(s.update(i, v).drop_last() =~= s.drop_last().update(i, v));
    }
}

proof fn lemma_total_of_zeros(s: Seq<u64>)
    requires
        forall|i: int| 0 <= i < s.len() ==> s[i] == 0,
    ensures
        total(s) == 0,
    decreases s.len(),
{
    if s.len() > 0 {
        lemma_total_of_zeros(s.drop_last());
    }
}

proof fn lemma_unfinished_of_update(states: Seq<BlockState>, i: int, state: BlockState)
    requires
        0 <= i < states.len(),
    ensures
        unfinished(states.update(i, state)) == unfinished(states) + (if state == BlockState::Finished {
            0int
        } else {
            1
        }) - (if states[i] == BlockState::Finished {
            0int
        } else {
            1
        }),
    decreases states.len(),
{
    if i == states.len() - 1 {
        assert(states.update(i, state).drop_last() =~= states.drop_last());
    } else {
        lemma_unfinished_of_update(states.drop_last(), i, state);
        assert(states.update(i, state).drop_last() =~= states.drop_last().update(i, state));
    }
}

proof fn lemma_assigned_keeps_consistent(manager: ManagerView)
    requires
        manager.wf(),
        manager.consistent(),
    ensures
        manager.assigned().wf(),
        manager.assigned().consistent(),
{
    if manager.pending.len() > 0 {
        let block = manager.pending[0];
        let after = manager.assigned();
        assert(manager.pending.contains(block));
        assert forall|id: usize| id < after.block_count implies (#[trigger] after.pending.contains(id)
            <==> after.states[id as int] == BlockState::Pending) by {
            if after.pending.contains(id) {
                let k = choose|k: int| 0 <= k < after.pending.len() && after.pending[k] == id;
                assert(manager.pending[k + 1] == id);
                assert(manager.pending.contains(id));
            }
            if id != block && manager.pending.contains(id) {
                let k = choose|k: int| 0 <= k < manager.pending.len() && manager.pending[k] == id;
                assert(after.pending[k - 1] == id);
            }
        }
    }
}

proof fn lemma_retried_keeps_consistent(manager: ManagerView, block_id: usize)
    requires
        manager.wf(),
        manager.consistent(),
        block_id < manager.block_count,
        manager.states[block_id as int] != BlockState::Pending,
    ensures
        manager.retried(block_id).wf(),
        manager.retried(block_id).consistent(),
{
    let after = manager.retried(block_id);
    assert(!manager.pending.contains(block_id));
    assert forall|id: usize| id < after.block_count implies (#[trigger] after.pending.contains(id)
        <==> after.states[id as int] == BlockState::Pending) by {
        if after.pending.contains(id) && id != block_id {
            let k = choose|k: int| 0 <= k < after.pending.len() && after.pending[k] == id;
            assert(manager.pending[k] == id);
            assert(manager.pending.contains(id));
        }
        if manager.pending.contains(id) {
            let k = choose|k: int| 0 <= k < manager.pending.len() && manager.pending[k] == id;
            assert(after.pending[k] == id);
        }
        assert(after.pending[manager.pending.len() as int] == block_id);
    }
}

/// A download begins with every block to be handed out, in order, and with nothing downloaded.
pub proof fn law_beginning(
    url: Url,
    auth_header: Option<Seq<char>>,
    file_name: Seq<char>,
    len: u64,
    block_size: u64,
    now: u128,
)
    requires
        can_divide(len, block_size),
    ensures
        ({
            let manager = ManagerView::initial(url, auth_header, file_name, len, block_size, now);
            &&& manager.wf()
            &&& manager.consistent()
            &&& manager.accounted()
            &&& unfinished(manager.states) == manager.block_count
        }),
{
    let manager = ManagerView::initial(url, auth_header, file_name, len, block_size, now);
    assert forall|id: usize| id < manager.block_count implies #[trigger] manager.pending.contains(id) by {
        assert(manager.pending[id as int] == id);
    }
    lemma_total_of_zeros(manager.downloaded);
    lemma_nothing_finished(manager.states);
}

proof fn lemma_nothing_finished(states: Seq<BlockState>)
    requires
        forall|i: int| 0 <= i < states.len() ==> states[i] != BlockState::Finished,
    ensures
        unfinished(states) == states.len(),
    decreases states.len(),
{
    if states.len() > 0 {
        lemma_nothing_finished(states.drop_last());
    }
}

/// Handing out the first blocks keeps the blocks in order.
pub proof fn law_first_tasks_keep_order(manager: ManagerView, workers: nat)
    requires
        manager.wf(),
        manager.consistent(),
    ensures
        manager.assigned_times(workers).wf(),
        manager.assigned_times(workers).consistent(),
    decreases workers,
{
    if workers > 0 {
        law_first_tasks_keep_order(manager, (workers - 1) as nat);
        lemma_assigned_keeps_consistent(manager.assigned_times((workers - 1) as nat));
    }
}

/// No block is lost or handed out twice: at any time a block is to be handed out, or one worker
/// has it, or it is in the file.
pub proof fn law_events_keep_order(manager: ManagerView, event: Event, now: u128)
    requires
        manager.wf(),
        manager.consistent(),
        manager.ready_for(event),
        tells_of_running_block(manager, event),
    ensures
        manager.after(event, now).wf(),
        manager.after(event, now).consistent(),
{
    match event {
        Event::Written(_, block_id) => {
            let marked = manager.marked(block_id);
            assert(!manager.pending.contains(block_id));
            assert forall|id: usize| id < marked.block_count implies (#[trigger] marked.pending.contains(id)
                <==> marked.states[id as int] == BlockState::Pending) by {
                assert(manager.pending.contains(id) == marked.pending.contains(id));
            }
            assert(marked.consistent());
            if !marked.finished() {
                let caught_up = marked.caught_up(block_id, now);
                assert(caught_up.states == marked.states && caught_up.pending == marked.pending);
                assert(caught_up.consistent());
                lemma_assigned_keeps_consistent(caught_up);
            }
        },
        Event::Message(WorkerMessage::Failed(_, block_id, WorkerError::ConnectionError(_))) => {
            lemma_retried_keeps_consistent(manager, block_id);
            lemma_assigned_keeps_consistent(manager.retried(block_id));
        },
        _ => {},
    }
}

/// How much of the file has come is at any time the sum of how much has come of each block, until
/// the end makes it the whole file.
pub proof fn law_events_keep_account(manager: ManagerView, event: Event, now: u128)
    requires
        manager.wf(),
        manager.accounted(),
        manager.ready_for(event),
        !(manager.step(event, now).next matches Next::Stop(DownloadManagerError::Success)),
    ensures
        manager.after(event, now).accounted(),
{
    match event {
        Event::Written(_, block_id) => {
            let len = manager.unreported(block_id);
            lemma_total_of_update(
                manager.downloaded,
                block_id as int,
                (manager.downloaded[block_id as int] + len) as u64,
            );
        },
        Event::Message(WorkerMessage::Progress(block_id, len)) => {
            lemma_total_of_update(
                manager.downloaded,
                block_id as int,
                (manager.downloaded[block_id as int] + len) as u64,
            );
        },
        Event::Message(WorkerMessage::Failed(_, block_id, WorkerError::ConnectionError(_))) => {
            lemma_total_of_update(manager.downloaded, block_id as int, 0);
        },
        _ => {},
    }
}

/// A manager whose account is right can always take a block back from a worker that failed.
pub proof fn law_failure_can_be_taken(manager: ManagerView, worker: usize, block_id: usize, error: WorkerError)
    requires
        manager.wf(),
        manager.accounted(),
        block_id < manager.block_count,
    ensures
        manager.ready_for(Event::Message(WorkerMessage::Failed(worker, block_id, error))),
{
    lemma_total_of_update(manager.downloaded, block_id as int, 0);
}

/// A manager can always take the bytes of a block of the file, and they belong inside the file.
pub proof fn law_block_can_be_written(manager: ManagerView, worker: usize, block_id: usize, bytes: Bytes)
    requires
        manager.wf(),
        block_id < manager.block_count,
    ensures
        manager.ready_for(Event::Message(WorkerMessage::Finished(worker, block_id, bytes))),
        block_start(block_id as nat, manager.block_size as nat) < manager.file_len,
{
    law_blocks_start_inside(block_id as nat, manager.block_size as nat, manager.file_len as nat);
}

/// Where there is no block to hand out, and no worker has one, every block is in the file.
pub proof fn law_finished_means_all_blocks(manager: ManagerView)
    requires
        manager.wf(),
        manager.consistent(),
        manager.finished(),
    ensures
        forall|i: int| 0 <= i < manager.block_count ==> #[trigger] manager.states[i] == BlockState::Finished,
{
    assert forall|i: int| 0 <= i < manager.block_count implies #[trigger] manager.states[i]
        == BlockState::Finished by {
        assert(!manager.pending.contains(i as usize));
        assert(manager.states.contains(manager.states[i]));
    }
}

/// The manager says that everything is downloaded only when every block is in the file, and then
/// counts the whole file as downloaded.
pub proof fn law_success_means_complete(manager: ManagerView, event: Event, now: u128)
    requires
        manager.wf(),
        manager.consistent(),
        manager.ready_for(event),
        tells_of_running_block(manager, event),
        manager.step(event, now).next matches Next::Stop(DownloadManagerError::Success),
    ensures
        manager.after(event, now).downloaded_len == manager.file_len,
        forall|i: int|
            0 <= i < manager.block_count ==> #[trigger] manager.after(event, now).states[i] == BlockState::Finished,
{
    law_events_keep_order(manager, event, now);
    law_finished_means_all_blocks(manager.after(event, now));
}

/// The last block that comes into the file ends the download, and no other event says that
/// everything is downloaded.
pub proof fn law_last_block_ends_the_download(manager: ManagerView, event: Event, now: u128)
    requires
        manager.wf(),
        manager.consistent(),
        manager.ready_for(event),
        tells_of_running_block(manager, event),
    ensures
        manager.step(event, now).next matches Next::Stop(DownloadManagerError::Success) <==> {
            &&& event matches Event::Written(_, block_id)
            &&& forall|i: int|
                0 <= i < manager.block_count && i != block_id ==> #[trigger] manager.states[i] == BlockState::Finished
        },
{
    if let Event::Written(_, block_id) = event {
        let marked = manager.marked(block_id);
        if marked.finished() {
            law_success_means_complete(manager, event, now);
            assert forall|i: int| 0 <= i < manager.block_count && i != block_id implies #[trigger] manager.states[i]
                == BlockState::Finished by {
                assert(manager.after(event, now).states[i] == BlockState::Finished);
            }
        } else if forall|i: int|
            0 <= i < manager.block_count && i != block_id ==> #[trigger] manager.states[i] == BlockState::Finished {
            if manager.pending.len() > 0 {
                let id = manager.pending[0];
                assert(manager.pending.contains(id));
                assert(manager.states[id as int] == BlockState::Pending);
            } else {
                let i = choose|i: int| 0 <= i < marked.states.len() && marked.states[i] == BlockState::Downloading;
                assert(manager.states[i] == BlockState::Downloading);
            }
            assert(false);
        }
    }
}

/// A block goes to a worker only when no other worker has it and it is not in the file; that
/// worker has it then.
pub proof fn law_block_goes_to_one_worker(manager: ManagerView, event: Event, now: u128)
    requires
        manager.wf(),
        manager.consistent(),
        manager.ready_for(event),
        tells_of_running_block(manager, event),
    ensures
        manager.step(event, now).next matches Next::Send(worker, block) ==> {
            let after = manager.after(event, now);
            &&& block < manager.block_count
            &&& manager.states[block as int] == BlockState::Pending || (event matches Event::Message(
                WorkerMessage::Failed(_, failed, _),
            ) && failed == block)
            &&& after.states[block as int] == BlockState::Downloading
            &&& !after.pending.contains(block)
        },
{
    law_events_keep_order(manager, event, now);
    if let Next::Send(_, block) = manager.step(event, now).next {
        let after = manager.after(event, now);
        if manager.pending.len() > 0 {
            assert(manager.pending.contains(manager.pending[0]));
        }
        assert(after.pending.contains(block) <==> after.states[block as int] == BlockState::Pending);
    }
}

/// A block that is in the file stays there.
pub proof fn law_finished_blocks_stay(manager: ManagerView, event: Event, now: u128, i: int)
    requires
        manager.wf(),
        manager.consistent(),
        manager.ready_for(event),
        tells_of_running_block(manager, event),
        0 <= i < manager.block_count,
        manager.states[i] == BlockState::Finished,
    ensures
        manager.after(event, now).states[i] == BlockState::Finished,
{
    if manager.pending.len() > 0 {
        assert(manager.pending.contains(manager.pending[0]));
    }
}

/// Every block that is written leaves one block less to come, and no event leaves more.
pub proof fn law_download_moves_on(manager: ManagerView, event: Event, now: u128)
    requires
        manager.wf(),
        manager.consistent(),
        manager.ready_for(event),
        tells_of_running_block(manager, event),
    ensures
        unfinished(manager.after(event, now).states) == unfinished(manager.states) - (if event is Written {
            1int
        } else {
            0
        }),
{
    if manager.pending.len() > 0 {
        assert(manager.pending.contains(manager.pending[0]));
    }
    match event {
        Event::Written(_, block_id) => {
            let marked = manager.marked(block_id);
            lemma_unfinished_of_update(manager.states, block_id as int, BlockState::Finished);
            if !marked.finished() && manager.pending.len() > 0 {
                let caught_up = marked.caught_up(block_id, now);
                assert(caught_up.states == marked.states && caught_up.pending == marked.pending);
                lemma_unfinished_of_update(marked.states, manager.pending[0] as int, BlockState::Downloading);
            }
        },
        Event::Message(WorkerMessage::Failed(_, block_id, WorkerError::ConnectionError(_))) => {
            let retried = manager.retried(block_id);
            lemma_unfinished_of_update(manager.states, block_id as int, BlockState::Pending);
            lemma_unfinished_of_update(retried.states, retried.pending[0] as int, BlockState::Downloading);
        },
        _ => {},
    }
}

/// A failed block comes behind all others, and what had come of it is taken back while everything
/// else stays as it is.
pub proof fn law_failure_takes_back(manager: ManagerView, worker: usize, block_id: usize, text: String, now: u128)
    requires
        manager.wf(),
        manager.ready_for(
            Event::Message(WorkerMessage::Failed(worker, block_id, WorkerError::ConnectionError(text))),
        ),
    ensures
        ({
            let event = Event::Message(WorkerMessage::Failed(worker, block_id, WorkerError::ConnectionError(text)));
            let after = manager.after(event, now);
            &&& after.downloaded_len == manager.downloaded_len - manager.downloaded[block_id as int]
            &&& after.downloaded[block_id as int] == 0
            &&& forall|i: int|
                0 <= i < manager.block_count && i != block_id ==> #[trigger] after.downloaded[i]
                    == manager.downloaded[i]
            &&& after.pending == manager.pending.push(block_id).drop_first()
            &&& manager.step(event, now).next == Next::Send(worker, manager.pending.push(block_id)[0])
        }),
{
}

/// What is reported of a block and then taken back leaves the counters as they were before.
pub proof fn law_retry_undoes_progress(manager: ManagerView, block_id: usize, len: u64, now: u128)
    requires
        manager.wf(),
        manager.has_room(block_id, len),
        manager.downloaded[block_id as int] == 0,
    ensures
        manager.progressed(block_id, len, now).retried(block_id).downloaded == manager.downloaded,
        manager.progressed(block_id, len, now).retried(block_id).downloaded_len == manager.downloaded_len,
{
    assert(manager.progressed(block_id, len, now).retried(block_id).downloaded =~= manager.downloaded);
}

/// The unexpected answer of a server stops the download with an error and changes nothing.
pub proof fn law_unexpected_response_stops(
    manager: ManagerView,
    worker: usize,
    block_id: usize,
    code: u16,
    now: u128,
)
    ensures
        ({
            let event = Event::Message(
                WorkerMessage::Failed(worker, block_id, WorkerError::UnexpectedResponse(code)),
            );
            &&& manager.after(event, now) == manager
            &&& manager.step(event, now).next matches Next::Stop(DownloadManagerError::Error(_))
        }),
{
}

/// A failed write stops the download with an error that says so and keeps the cause. It changes
/// nothing, so the block does not count as written, and no worker is told anything.
pub proof fn law_failed_write_stops(manager: ManagerView, cause: String, now: u128)
    ensures
        ({
            let event = Event::WriteFailed(cause);
            &&& manager.ready_for(event)
            &&& manager.after(event, now) == manager
            &&& manager.step(event, now).next matches Next::Stop(DownloadManagerError::Error(error))
            &&& error@.text() == "Error writing to file"@
            &&& error@.cause_text() == Some(cause@)
        }),
{
}

/// Every event but the writing of a block leaves the file and what the manager says of it in
/// agreement.
pub proof fn law_messages_keep_file(
    manager: ManagerView,
    event: Event,
    now: u128,
    file: Seq<u8>,
    content: Seq<u8>,
)
    requires
        manager.wf(),
        manager.consistent(),
        manager.ready_for(event),
        tells_of_running_block(manager, event),
        !(event is Written),
        holds_finished_blocks(manager, file, content),
    ensures
        holds_finished_blocks(manager.after(event, now), file, content),
{
    let after = manager.after(event, now);
    assert forall|id: nat|
        id < after.block_count && after.states[id as int] == BlockState::Finished implies #[trigger] block_of(
        file,
        id,
        after.block_size as nat,
    ) == block_of(content, id, after.block_size as nat) by {
        assert(manager.states[id as int] == BlockState::Finished);
    }
}

/// Writing the bytes of a block where the manager says leaves the file and what the manager says
/// of it in agreement.
pub proof fn law_write_keeps_file(
    manager: ManagerView,
    worker: usize,
    block_id: usize,
    now: u128,
    file: Seq<u8>,
    content: Seq<u8>,
)
    requires
        manager.wf(),
        manager.consistent(),
        manager.ready_for(Event::Written(worker, block_id)),
        tells_of_running_block(manager, Event::Written(worker, block_id)),
        holds_finished_blocks(manager, file, content),
    ensures
        holds_finished_blocks(
            manager.after(Event::Written(worker, block_id), now),
            overwrite(
                file,
                block_start(block_id as nat, manager.block_size as nat) as int,
                block_of(content, block_id as nat, manager.block_size as nat),
            ),
            content,
        ),
{
    let size = manager.block_size as nat;
    let after = manager.after(Event::Written(worker, block_id), now);
    let written = overwrite(
        file,
        block_start(block_id as nat, size) as int,
        block_of(content, block_id as nat, size),
    );
    law_write_touches_one_block(file, content, block_id as nat, size);
    assert forall|id: nat|
        id < after.block_count && after.states[id as int] == BlockState::Finished implies #[trigger] block_of(
        written,
        id,
        after.block_size as nat,
    ) == block_of(content, id, after.block_size as nat) by {
        if id != block_id {
            assert(manager.states[id as int] == BlockState::Finished);
            assert(block_of(file, id, size) == block_of(content, id, size));
        }
    }
}

/// A download that ends with success has made the file: where each block was written with its
/// bytes, the file is the content that the server has.
pub proof fn law_download_is_the_file(
    manager: ManagerView,
    worker: usize,
    block_id: usize,
    now: u128,
    file: Seq<u8>,
    content: Seq<u8>,
)
    requires
        manager.wf(),
        manager.consistent(),
        manager.ready_for(Event::Written(worker, block_id)),
        tells_of_running_block(manager, Event::Written(worker, block_id)),
        holds_finished_blocks(manager, file, content),
        manager.step(Event::Written(worker, block_id), now).next matches Next::Stop(DownloadManagerError::Success),
    ensures
        overwrite(
            file,
            block_start(block_id as nat, manager.block_size as nat) as int,
            block_of(content, block_id as nat, manager.block_size as nat),
        ) == content,
{
    let event = Event::Written(worker, block_id);
    let size = manager.block_size as nat;
    let after = manager.after(event, now);
    let written = overwrite(
        file,
        block_start(block_id as nat, size) as int,
        block_of(content, block_id as nat, size),
    );
    law_success_means_complete(manager, event, now);
    law_write_keeps_file(manager, worker, block_id, now, file, content);
    assert forall|id: nat| id < block_count(content.len(), size) implies #[trigger] block_of(written, id, size)
        == block_of(content, id, size) by {
        assert(after.block_size == manager.block_size && after.block_count == manager.block_count);
        assert(after.states[id as int] == BlockState::Finished);
        assert(block_of(written, id, after.block_size as nat) == block_of(content, id, after.block_size as nat));
    }
    law_blocks_make_the_file(written, content, size);
}

/// The manager after events that came one after the other.
pub open spec fn after_all(manager: ManagerView, events: Seq<(Event, u128)>) -> ManagerView
    decreases events.len(),
{
    if events.len() == 0 {
        manager
    } else {
        after_all(manager, events.drop_last()).after(events.last().0, events.last().1)
    }
}

/// Whether the events can come one after the other: the manager can take each of them when it
/// comes, and each tells of a block that a worker has then.
pub open spec fn can_come(manager: ManagerView, events: Seq<(Event, u128)>) -> bool
    decreases events.len(),
{
    if events.len() == 0 {
        true
    } else {
        let before = after_all(manager, events.drop_last());
        &&& can_come(manager, events.drop_last())
        &&& before.ready_for(events.last().0)
        &&& tells_of_running_block(before, events.last().0)
    }
}

/// What the last of the events has led to.
pub open spec fn told(manager: ManagerView, events: Seq<(Event, u128)>) -> Next {
    after_all(manager, events.drop_last()).step(events.last().0, events.last().1).next
}

/// The file after the events: what was to be written has been written where that was reported.
pub open spec fn file_after(manager: ManagerView, file: Seq<u8>, events: Seq<(Event, u128)>) -> Seq<u8>
    decreases events.len(),
{
    if events.len() == 0 {
        file
    } else {
        let before = file_after(manager, file, events.drop_last());
        match (events.last().0, told(manager, events.drop_last())) {
            (Event::Written(_, _), Next::Write(_, _, offset, bytes)) => overwrite(
                before,
                offset as int,
                frozen_bytes(bytes),
            ),
            _ => before,
        }
    }
}

/// Whether the bytes that workers bring of a block are those that the server has of it, and each
/// report that a block is written follows on the order to write it.
pub open spec fn bring_content(manager: ManagerView, events: Seq<(Event, u128)>, content: Seq<u8>) -> bool
    decreases events.len(),
{
    if events.len() == 0 {
        true
    } else {
        &&& bring_content(manager, events.drop_last(), content)
        &&& match events.last().0 {
            Event::Message(WorkerMessage::Finished(_, block_id, bytes)) => frozen_bytes(bytes) == block_of(
                content,
                block_id as nat,
                manager.block_size as nat,
            ),
            Event::Written(worker, block_id) => {
                &&& events.len() > 1
                &&& told(manager, events.drop_last()) matches Next::Write(from, written, _, _)
                &&& from == worker
                &&& written == block_id
            },
            _ => true,
        }
    }
}

/// Where a block is reported as written, its own bytes were written where they belong.
proof fn lemma_written_in_place(
    manager: ManagerView,
    events: Seq<(Event, u128)>,
    file: Seq<u8>,
    content: Seq<u8>,
    worker: usize,
    block_id: usize,
)
    requires
        can_come(manager, events),
        bring_content(manager, events, content),
        events.len() > 0,
        events.last().0 == Event::Written(worker, block_id),
        after_all(manager, events.drop_last().drop_last()).block_size == manager.block_size,
    ensures
        file_after(manager, file, events) == overwrite(
            file_after(manager, file, events.drop_last()),
            block_start(block_id as nat, manager.block_size as nat) as int,
            block_of(content, block_id as nat, manager.block_size as nat),
        ),
{
    let earlier = events.drop_last();
    assert(can_come(manager, earlier));
    assert(bring_content(manager, earlier, content));
}

/// Whatever events come, no block is lost or handed out twice, and the file agrees with what the
/// manager says of it.
pub proof fn law_every_download_keeps_order(
    manager: ManagerView,
    events: Seq<(Event, u128)>,
    file: Seq<u8>,
    content: Seq<u8>,
)
    requires
        manager.wf(),
        manager.consistent(),
        can_come(manager, events),
        bring_content(manager, events, content),
        holds_finished_blocks(manager, file, content),
    ensures
        after_all(manager, events).wf(),
        after_all(manager, events).consistent(),
        holds_finished_blocks(after_all(manager, events), file_after(manager, file, events), content),
    decreases events.len(),
{
    if events.len() > 0 {
        let earlier = events.drop_last();
        let before = after_all(manager, earlier);
        let (event, now) = events.last();
        let file_before = file_after(manager, file, earlier);
        law_every_download_keeps_order(manager, earlier, file, content);
        law_events_keep_order(before, event, now);
        lemma_sizes_stay(manager, earlier);
        lemma_sizes_stay(manager, earlier.drop_last());
        match event {
            Event::Written(worker, block_id) => {
                law_write_keeps_file(before, worker, block_id, now, file_before, content);
                lemma_written_in_place(manager, events, file, content, worker, block_id);
            },
            _ => {
                law_messages_keep_file(before, event, now, file_before, content);
            },
        }
    }
}

proof fn lemma_sizes_stay(manager: ManagerView, events: Seq<(Event, u128)>)
    ensures
        after_all(manager, events).block_size == manager.block_size,
        after_all(manager, events).file_len == manager.file_len,
    decreases events.len(),
{
    if events.len() > 0 {
        lemma_sizes_stay(manager, events.drop_last());
    }
}

/// When the manager says that everything is downloaded, the file is the content that the server
/// has: from the beginning, with any number of workers, with failures and retries in whatever
/// order they come, and whatever the file held before.
pub proof fn law_success_makes_the_file(
    url: Url,
    auth_header: Option<Seq<char>>,
    file_name: Seq<char>,
    block_size: u64,
    start: u128,
    workers: usize,
    events: Seq<(Event, u128)>,
    file: Seq<u8>,
    content: Seq<u8>,
)
    requires
        content.len() <= u64::MAX,
        can_divide(content.len() as u64, block_size),
        file.len() == content.len(),
        ({
            let first = ManagerView::initial(url, auth_header, file_name, content.len() as u64, block_size, start);
            let manager = first.assigned_times(workers as nat);
            &&& events.len() > 0
            &&& come_from_workers(manager, first_tasks(first, workers as nat), events)
            &&& bring_content(manager, events, content)
            &&& told(manager, events) matches Next::Stop(DownloadManagerError::Success)
        }),
    ensures
        ({
            let first = ManagerView::initial(url, auth_header, file_name, content.len() as u64, block_size, start);
            file_after(first.assigned_times(workers as nat), file, events) == content
        }),
{
    let first = ManagerView::initial(url, auth_header, file_name, content.len() as u64, block_size, start);
    let manager = first.assigned_times(workers as nat);
    law_beginning(url, auth_header, file_name, content.len() as u64, block_size, start);
    law_first_tasks_keep_order(first, workers as nat);
    lemma_assigned_finishes_nothing(first, workers as nat);
    law_first_tasks_agree(url, auth_header, file_name, content.len() as u64, block_size, start, workers);
    law_workers_bring_what_can_come(manager, first_tasks(first, workers as nat), events);
    let earlier = events.drop_last();
    let before = after_all(manager, earlier);
    law_every_download_keeps_order(manager, earlier, file, content);
    lemma_sizes_stay(manager, earlier);
    lemma_sizes_stay(manager, earlier.drop_last());
    let (event, now) = events.last();
    if let Event::Written(worker, block_id) = event {
        lemma_written_in_place(manager, events, file, content, worker, block_id);
        law_download_is_the_file(before, worker, block_id, now, file_after(manager, file, earlier), content);
    }
}

proof fn lemma_assigned_finishes_nothing(manager: ManagerView, workers: nat)
    requires
        manager.wf(),
        manager.consistent(),
    ensures
        ({
            let after = manager.assigned_times(workers);
            &&& after.file_len == manager.file_len
            &&& after.block_size == manager.block_size
            &&& after.block_count == manager.block_count
            &&& after.downloaded == manager.downloaded
            &&& after.downloaded_len == manager.downloaded_len
            &&& forall|i: int|
                0 <= i < manager.block_count && #[trigger] after.states[i] == BlockState::Finished
                    ==> manager.states[i] == BlockState::Finished
        }),
    decreases workers,
{
    if workers > 0 {
        lemma_assigned_finishes_nothing(manager, (workers - 1) as nat);
        law_first_tasks_keep_order(manager, (workers - 1) as nat);
    }
}

/// Whether an event comes from a worker about the block that it has. `tasks` says of each block
/// that a worker has which worker that is.
pub open spec fn comes_from_worker(tasks: Map<usize, usize>, event: Event) -> bool {
    match event {
        Event::Message(WorkerMessage::Failed(worker, block_id, _)) => tasks.contains_key(block_id) && tasks[block_id]
            == worker,
        Event::Message(WorkerMessage::Finished(worker, block_id, _)) => tasks.contains_key(block_id) && tasks[block_id]
            == worker,
        Event::Written(worker, block_id) => tasks.contains_key(block_id) && tasks[block_id] == worker,
        _ => true,
    }
}

/// Which worker has which block after an event and the step to which it leads: the worker no
/// longer has a block that is in the file or that failed, and has the block that it is told to
/// download.
pub open spec fn tasks_after(
    manager: ManagerView,
    tasks: Map<usize, usize>,
    event: Event,
    now: u128,
) -> Map<usize, usize> {
    let kept = match event {
        Event::Message(WorkerMessage::Failed(_, block_id, WorkerError::ConnectionError(_))) => tasks.remove(block_id),
        Event::Written(_, block_id) => tasks.remove(block_id),
        _ => tasks,
    };
    match manager.step(event, now).next {
        Next::Send(worker, block_id) => kept.insert(block_id, worker),
        _ => kept,
    }
}

/// Which worker has which block after the first blocks have been handed out.
pub open spec fn first_tasks(manager: ManagerView, workers: nat) -> Map<usize, usize>
    decreases workers,
{
    if workers == 0 {
        Map::empty()
    } else {
        let before = manager.assigned_times((workers - 1) as nat);
        let tasks = first_tasks(manager, (workers - 1) as nat);
        if before.pending.len() == 0 {
            tasks
        } else {
            tasks.insert(before.pending[0], (workers - 1) as usize)
        }
    }
}

/// Whether the blocks that workers have are those of which the manager says so, and no worker has
/// more than one.
pub open spec fn tasks_agree(manager: ManagerView, tasks: Map<usize, usize>) -> bool {
    &&& forall|id: usize| #[trigger]
        tasks.contains_key(id) <==> id < manager.block_count && manager.states[id as int] == BlockState::Downloading
    &&& forall|a: usize, b: usize|
        #[trigger] tasks.contains_key(a) && #[trigger] tasks.contains_key(b) && tasks[a] == tasks[b] ==> a == b
}

/// When the first blocks have been handed out, each worker has at most one, and the manager knows
/// of all of them.
pub proof fn law_first_tasks_agree(
    url: Url,
    auth_header: Option<Seq<char>>,
    file_name: Seq<char>,
    len: u64,
    block_size: u64,
    now: u128,
    workers: usize,
)
    requires
        can_divide(len, block_size),
    ensures
        ({
            let first = ManagerView::initial(url, auth_header, file_name, len, block_size, now);
            tasks_agree(first.assigned_times(workers as nat), first_tasks(first, workers as nat))
        }),
{
    let first = ManagerView::initial(url, auth_header, file_name, len, block_size, now);
    law_beginning(url, auth_header, file_name, len, block_size, now);
    lemma_first_tasks_agree(first, workers as nat);
}

proof fn lemma_first_tasks_agree(manager: ManagerView, workers: nat)
    requires
        manager.wf(),
        manager.consistent(),
        workers <= usize::MAX,
        forall|i: int| 0 <= i < manager.block_count ==> #[trigger] manager.states[i] != BlockState::Downloading,
    ensures
        tasks_agree(manager.assigned_times(workers), first_tasks(manager, workers)),
        forall|id: usize| #[trigger]
            first_tasks(manager, workers).contains_key(id) ==> first_tasks(manager, workers)[id] < workers,
    decreases workers,
{
    if workers > 0 {
        let n = (workers - 1) as nat;
        let before = manager.assigned_times(n);
        lemma_first_tasks_agree(manager, n);
        law_first_tasks_keep_order(manager, n);
        lemma_assigned_finishes_nothing(manager, n);
        if before.pending.len() > 0 {
            assert(before.pending.contains(before.pending[0]));
        }
    }
}

/// Each worker has at most one block at any time, and the manager knows of all of them. So what
/// workers bring always tells of a block that a worker has.
pub proof fn law_tasks_keep_agreeing(
    manager: ManagerView,
    tasks: Map<usize, usize>,
    event: Event,
    now: u128,
)
    requires
        manager.wf(),
        manager.consistent(),
        manager.ready_for(event),
        tasks_agree(manager, tasks),
        comes_from_worker(tasks, event),
    ensures
        tells_of_running_block(manager, event),
        tasks_agree(manager.after(event, now), tasks_after(manager, tasks, event, now)),
{
    let after = manager.after(event, now);
    law_events_keep_order(manager, event, now);
    if manager.pending.len() > 0 {
        assert(manager.pending.contains(manager.pending[0]));
        assert(!tasks.contains_key(manager.pending[0]));
    }
    match event {
        Event::Written(worker, block_id) => {
            let marked = manager.marked(block_id);
            if !marked.finished() {
                let caught_up = marked.caught_up(block_id, now);
                assert(caught_up.states == marked.states && caught_up.pending == marked.pending);
            }
        },
        _ => {},
    }
    let updated = tasks_after(manager, tasks, event, now);
    assert forall|id: usize| #[trigger]
        updated.contains_key(id) <==> id < after.block_count && after.states[id as int] == BlockState::Downloading by {
        assert(tasks.contains_key(id) <==> id < manager.block_count && manager.states[id as int]
            == BlockState::Downloading);
    }
    assert forall|a: usize, b: usize|
        #[trigger] updated.contains_key(a) && #[trigger] updated.contains_key(b) && updated[a]
            == updated[b] implies a == b by {
        assert(tasks.contains_key(a) || !tasks.contains_key(a));
        assert(tasks.contains_key(b) || !tasks.contains_key(b));
    }
}

/// Which worker has which block after events that came one after the other.
pub open spec fn tasks_after_all(
    manager: ManagerView,
    tasks: Map<usize, usize>,
    events: Seq<(Event, u128)>,
) -> Map<usize, usize>
    decreases events.len(),
{
    if events.len() == 0 {
        tasks
    } else {
        tasks_after(
            after_all(manager, events.drop_last()),
            tasks_after_all(manager, tasks, events.drop_last()),
            events.last().0,
            events.last().1,
        )
    }
}

/// Whether the events come from workers about the blocks that they have, and the counters can
/// take what they bring.
pub open spec fn come_from_workers(
    manager: ManagerView,
    tasks: Map<usize, usize>,
    events: Seq<(Event, u128)>,
) -> bool
    decreases events.len(),
{
    if events.len() == 0 {
        true
    } else {
        &&& come_from_workers(manager, tasks, events.drop_last())
        &&& after_all(manager, events.drop_last()).ready_for(events.last().0)
        &&& comes_from_worker(tasks_after_all(manager, tasks, events.drop_last()), events.last().0)
    }
}

/// What workers bring of the blocks that they have can come, whatever it is and in whatever
/// order.
pub proof fn law_workers_bring_what_can_come(
    manager: ManagerView,
    tasks: Map<usize, usize>,
    events: Seq<(Event, u128)>,
)
    requires
        manager.wf(),
        manager.consistent(),
        tasks_agree(manager, tasks),
        come_from_workers(manager, tasks, events),
    ensures
        can_come(manager, events),
        after_all(manager, events).wf(),
        after_all(manager, events).consistent(),
        tasks_agree(after_all(manager, events), tasks_after_all(manager, tasks, events)),
    decreases events.len(),
{
    if events.len() > 0 {
        let earlier = events.drop_last();
        let before = after_all(manager, earlier);
        law_workers_bring_what_can_come(manager, tasks, earlier);
        law_tasks_keep_agreeing(
            before,
            tasks_after_all(manager, tasks, earlier),
            events.last().0,
            events.last().1,
        );
        law_events_keep_order(before, events.last().0, events.last().1);
    }
}

/// Whether some worker has a block as long as not every block is in the file.
pub open spec fn some_worker_is_busy(manager: ManagerView, tasks: Map<usize, usize>) -> bool {
    unfinished(manager.states) > 0 ==> exists|id: usize| #[trigger] tasks.contains_key(id)
}

/// A download with at least one worker begins with a worker that has a block, where there is one.
pub proof fn law_download_gets_going(
    url: Url,
    auth_header: Option<Seq<char>>,
    file_name: Seq<char>,
    len: u64,
    block_size: u64,
    now: u128,
    workers: usize,
)
    requires
        can_divide(len, block_size),
        workers > 0,
    ensures
        ({
            let first = ManagerView::initial(url, auth_header, file_name, len, block_size, now);
            some_worker_is_busy(first.assigned_times(workers as nat), first_tasks(first, workers as nat))
        }),
{
    let first = ManagerView::initial(url, auth_header, file_name, len, block_size, now);
    law_beginning(url, auth_header, file_name, len, block_size, now);
    law_first_tasks_keep_order(first, workers as nat);
    lemma_assigned_finishes_nothing(first, workers as nat);
    if first.block_count > 0 {
        lemma_first_task_is_held(first, workers as nat);
    }
}

proof fn lemma_first_task_is_held(manager: ManagerView, workers: nat)
    requires
        manager.wf(),
        manager.pending.len() > 0,
        workers > 0,
    ensures
        first_tasks(manager, workers).contains_key(manager.pending[0]),
    decreases workers,
{
    if workers > 1 {
        lemma_first_task_is_held(manager, (workers - 1) as nat);
    } else {
        assert(manager.assigned_times(0) == manager);
    }
}

/// As long as not every block is in the file, some worker has one, whatever event comes.
pub proof fn law_download_keeps_going(manager: ManagerView, tasks: Map<usize, usize>, event: Event, now: u128)
    requires
        manager.wf(),
        manager.consistent(),
        manager.ready_for(event),
        tasks_agree(manager, tasks),
        comes_from_worker(tasks, event),
        some_worker_is_busy(manager, tasks),
    ensures
        some_worker_is_busy(manager.after(event, now), tasks_after(manager, tasks, event, now)),
{
    let after = manager.after(event, now);
    let updated = tasks_after(manager, tasks, event, now);
    law_tasks_keep_agreeing(manager, tasks, event, now);
    match event {
        Event::Written(worker, block_id) => {
            let marked = manager.marked(block_id);
            if marked.finished() {
                law_success_means_complete(manager, event, now);
                lemma_everything_finished(after.states);
            } else if manager.pending.len() > 0 {
                assert(updated.contains_key(manager.pending[0]));
            } else {
                let i = choose|i: int| 0 <= i < marked.states.len() && marked.states[i] == BlockState::Downloading;
                let caught_up = marked.caught_up(block_id, now);
                assert(caught_up.states == marked.states && caught_up.pending == marked.pending);
                assert(after.states[i] == BlockState::Downloading);
                assert(updated.contains_key(i as usize));
            }
        },
        Event::Message(WorkerMessage::Failed(worker, block_id, WorkerError::ConnectionError(_))) => {
            assert(updated.contains_key(manager.retried(block_id).pending[0]));
        },
        _ => {
            if unfinished(after.states) > 0 {
                let id = choose|id: usize| #[trigger] tasks.contains_key(id);
                assert(updated.contains_key(id));
            }
        },
    }
}

/// A download with at least one worker never gets stuck: whatever workers have brought, as long as
/// not every block is in the file some worker has one.
pub proof fn law_download_never_gets_stuck(
    url: Url,
    auth_header: Option<Seq<char>>,
    file_name: Seq<char>,
    len: u64,
    block_size: u64,
    start: u128,
    workers: usize,
    events: Seq<(Event, u128)>,
)
    requires
        can_divide(len, block_size),
        workers > 0,
        ({
            let first = ManagerView::initial(url, auth_header, file_name, len, block_size, start);
            come_from_workers(first.assigned_times(workers as nat), first_tasks(first, workers as nat), events)
        }),
    ensures
        ({
            let first = ManagerView::initial(url, auth_header, file_name, len, block_size, start);
            let manager = first.assigned_times(workers as nat);
            some_worker_is_busy(
                after_all(manager, events),
                tasks_after_all(manager, first_tasks(first, workers as nat), events),
            )
        }),
    decreases events.len(),
{
    let first = ManagerView::initial(url, auth_header, file_name, len, block_size, start);
    let manager = first.assigned_times(workers as nat);
    let tasks = first_tasks(first, workers as nat);
    if events.len() == 0 {
        law_download_gets_going(url, auth_header, file_name, len, block_size, start, workers);
    } else {
        let earlier = events.drop_last();
        law_beginning(url, auth_header, file_name, len, block_size, start);
        law_first_tasks_keep_order(first, workers as nat);
        law_first_tasks_agree(url, auth_header, file_name, len, block_size, start, workers);
        law_workers_bring_what_can_come(manager, tasks, earlier);
        law_download_never_gets_stuck(url, auth_header, file_name, len, block_size, start, workers, earlier);
        law_download_keeps_going(
            after_all(manager, earlier),
            tasks_after_all(manager, tasks, earlier),
            events.last().0,
            events.last().1,
        );
    }
}

proof fn lemma_everything_finished(states: Seq<BlockState>)
    requires
        forall|i: int| 0 <= i < states.len() ==> states[i] == BlockState::Finished,
    ensures
        unfinished(states) == 0,
    decreases states.len(),
{
    if states.len() > 0 {
        lemma_everything_finished(states.drop_last());
    }
}

/// Whether no more has been counted of any block than the block has.
pub open spec fn counts_within_blocks(manager: ManagerView) -> bool {
    forall|i: int|
        0 <= i < manager.block_count ==> #[trigger] manager.downloaded[i] <= block_len(
            i as nat,
            manager.block_size as nat,
            manager.file_len as nat,
        )
}

proof fn lemma_total_within_blocks(counts: Seq<u64>, size: nat, len: nat)
    requires
        size > 0,
        counts.len() <= block_count(len, size),
        forall|i: int| 0 <= i < counts.len() ==> #[trigger] counts[i] <= block_len(i as nat, size, len),
    ensures
        total(counts) <= len,
        counts.len() < block_count(len, size) ==> total(counts) <= block_start(counts.len(), size),
    decreases counts.len(),
{
    if counts.len() > 0 {
        let last = (counts.len() - 1) as nat;
        lemma_total_within_blocks(counts.drop_last(), size, len);
        law_block_lengths(last, size, len);
        lemma_mul_is_distributive_add(size as int, last as int, 1);
        assert(counts[last as int] <= block_len(last, size, len));
    }
}

/// Where no more has been counted of any block than the block has, no more has been counted than
/// the file has.
pub proof fn law_count_within_file(manager: ManagerView)
    requires
        manager.wf(),
        manager.accounted(),
        counts_within_blocks(manager),
    ensures
        manager.downloaded_len <= manager.file_len,
{
    lemma_total_within_blocks(manager.downloaded, manager.block_size as nat, manager.file_len as nat);
}

/// Whether an event reports no more of a block than it has.
pub open spec fn reports_within_block(manager: ManagerView, event: Event) -> bool {
    event matches Event::Message(WorkerMessage::Progress(block_id, len)) ==> manager.downloaded[block_id as int] + len
        <= block_len(block_id as nat, manager.block_size as nat, manager.file_len as nat)
}

/// The counts stay within the blocks as long as workers report no more of a block than it has.
pub proof fn law_events_keep_counts_within_blocks(manager: ManagerView, event: Event, now: u128)
    requires
        manager.wf(),
        manager.ready_for(event),
        counts_within_blocks(manager),
        reports_within_block(manager, event),
    ensures
        counts_within_blocks(manager.after(event, now)),
{
    let after = manager.after(event, now);
    assert forall|i: int| 0 <= i < after.block_count implies #[trigger] after.downloaded[i] <= block_len(
        i as nat,
        after.block_size as nat,
        after.file_len as nat,
    ) by {
        assert(manager.downloaded[i] <= block_len(i as nat, manager.block_size as nat, manager.file_len as nat));
        law_block_lengths(i as nat, manager.block_size as nat, manager.file_len as nat);
    }
}

/// A block of which everything has been reported leaves the counts as they are when it is written
/// and others are still to come.
pub proof fn law_reported_block_is_not_counted_again(manager: ManagerView, worker: usize, block_id: usize, now: u128)
    requires
        manager.wf(),
        block_id < manager.block_count,
        manager.downloaded[block_id as int] == block_len(
            block_id as nat,
            manager.block_size as nat,
            manager.file_len as nat,
        ),
        !manager.marked(block_id).finished(),
    ensures
        manager.after(Event::Written(worker, block_id), now).downloaded == manager.downloaded,
        manager.after(Event::Written(worker, block_id), now).downloaded_len == manager.downloaded_len,
        manager.after(Event::Written(worker, block_id), now).meter == manager.meter,
        !manager.step(Event::Written(worker, block_id), now).print_progress,
{
}

/// Whether each of the events reports no more of a block than it has.
pub open spec fn report_within_blocks(manager: ManagerView, events: Seq<(Event, u128)>) -> bool
    decreases events.len(),
{
    if events.len() == 0 {
        true
    } else {
        &&& report_within_blocks(manager, events.drop_last())
        &&& reports_within_block(after_all(manager, events.drop_last()), events.last().0)
    }
}

/// Whether the manager has not stopped at any of the events.
pub open spec fn goes_on(manager: ManagerView, events: Seq<(Event, u128)>) -> bool
    decreases events.len(),
{
    if events.len() == 0 {
        true
    } else {
        goes_on(manager, events.drop_last()) && !(told(manager, events) is Stop)
    }
}

proof fn lemma_counts_stay_right(manager: ManagerView, events: Seq<(Event, u128)>)
    requires
        manager.wf(),
        manager.consistent(),
        manager.accounted(),
        counts_within_blocks(manager),
        can_come(manager, events),
        report_within_blocks(manager, events),
        goes_on(manager, events),
    ensures
        after_all(manager, events).wf(),
        after_all(manager, events).consistent(),
        after_all(manager, events).accounted(),
        counts_within_blocks(after_all(manager, events)),
    decreases events.len(),
{
    if events.len() > 0 {
        let before = after_all(manager, events.drop_last());
        let (event, now) = events.last();
        lemma_counts_stay_right(manager, events.drop_last());
        law_events_keep_order(before, event, now);
        law_events_keep_account(before, event, now);
        law_events_keep_counts_within_blocks(before, event, now);
    }
}

/// A manager whose counts are right can take the report that a block is written, as long as the
/// current slice of the meter can.
pub proof fn law_written_can_be_taken(manager: ManagerView, worker: usize, block_id: usize)
    requires
        manager.wf(),
        manager.accounted(),
        counts_within_blocks(manager),
        block_id < manager.block_count,
        manager.meter.has_room(manager.unreported(block_id)),
    ensures
        manager.ready_for(Event::Written(worker, block_id)),
{
    let size = manager.block_size as nat;
    let len = manager.file_len as nat;
    law_block_lengths(block_id as nat, size, len);
    let full = block_len(block_id as nat, size, len) as u64;
    let counts = manager.downloaded.update(block_id as int, full);
    lemma_total_of_update(manager.downloaded, block_id as int, full);
    assert forall|i: int| 0 <= i < counts.len() implies #[trigger] counts[i] <= block_len(i as nat, size, len) by {
        assert(manager.downloaded[i] <= block_len(i as nat, size, len));
    }
    lemma_total_within_blocks(counts, size, len);
}

/// At no time, up to and including the end of the download, has more been counted than the file
/// has, as long as workers report no more of a block than it has.
pub proof fn law_count_never_exceeds_file(
    url: Url,
    auth_header: Option<Seq<char>>,
    file_name: Seq<char>,
    len: u64,
    block_size: u64,
    start: u128,
    workers: nat,
    events: Seq<(Event, u128)>,
)
    requires
        can_divide(len, block_size),
        ({
            let first = ManagerView::initial(url, auth_header, file_name, len, block_size, start);
            let manager = first.assigned_times(workers);
            &&& can_come(manager, events)
            &&& report_within_blocks(manager, events)
            &&& events.len() > 0 ==> goes_on(manager, events.drop_last())
        }),
    ensures
        ({
            let first = ManagerView::initial(url, auth_header, file_name, len, block_size, start);
            after_all(first.assigned_times(workers), events).downloaded_len <= len
        }),
{
    let first = ManagerView::initial(url, auth_header, file_name, len, block_size, start);
    let manager = first.assigned_times(workers);
    law_beginning(url, auth_header, file_name, len, block_size, start);
    law_first_tasks_keep_order(first, workers);
    lemma_assigned_finishes_nothing(first, workers);
    assert forall|i: int| 0 <= i < manager.block_count implies #[trigger] manager.downloaded[i] <= block_len(
        i as nat,
        manager.block_size as nat,
        manager.file_len as nat,
    ) by {
        law_block_lengths(i as nat, manager.block_size as nat, manager.file_len as nat);
    }
    if events.len() > 0 {
        let before = after_all(manager, events.drop_last());
        let (event, now) = events.last();
        lemma_counts_stay_right(manager, events.drop_last());
        lemma_sizes_stay(manager, events);
        law_events_keep_order(before, event, now);
        if !(told(manager, events) matches Next::Stop(DownloadManagerError::Success)) {
            law_events_keep_account(before, event, now);
            law_events_keep_counts_within_blocks(before, event, now);
            law_count_within_file(after_all(manager, events));
        } else {
            lemma_sizes_stay(manager, events.drop_last());
        }
    }
}

/// A worker for the same file can ask for every block that the manager hands out, as long as the
/// position behind a whole block fits its type, and asks for exactly the positions that the block
/// covers.
pub proof fn law_worker_asks_for_the_block(
    manager: ManagerView,
    worker: WorkerView,
    block_id: usize,
    content: Seq<u8>,
)
    requires
        manager.wf(),
        block_id < manager.block_count,
        content.len() == manager.file_len,
        worker.file_len == manager.file_len,
        worker.block_size == manager.block_size,
        worker.auth_header matches Some(value) ==> is_field_text(value@),
        block_start(block_id as nat, manager.block_size as nat) + manager.block_size <= u64::MAX,
    ensures
        worker.can_request(block_id),
        ({
            let start = block_start(block_id as nat, manager.block_size as nat);
            let end = block_end(block_id as nat, manager.block_size as nat, manager.file_len as nat);
            &&& start <= end < manager.file_len
            &&& worker.request_fields(block_id) == with_auth(
                range_fields(start, end as nat),
                text_of(worker.auth_header),
            )
            &&& block_of(content, block_id as nat, manager.block_size as nat) == content.subrange(
                start as int,
                end + 1,
            )
        }),
{
    law_block_lengths(block_id as nat, manager.block_size as nat, manager.file_len as nat);
}

/// What happens to a worker.
pub enum Turn {
    /// It is told to download a block.
    Request(usize),
    /// The next bytes of the block come.
    Chunk(Seq<u8>),
    /// The download ends, with an error or without one, and this message goes to the manager.
    Reply(Option<WorkerError>, WorkerMessage),
}

/// A worker after what has happened to it, with the bytes that have come of its current block.
pub open spec fn worker_after(worker: WorkerView, turns: Seq<Turn>) -> (WorkerView, Seq<u8>)
    decreases turns.len(),
{
    if turns.len() == 0 {
        (worker, Seq::empty())
    } else {
        let (before, buffer) = worker_after(worker, turns.drop_last());
        match turns.last() {
            Turn::Request(block_id) => (before.begun(block_id), Seq::empty()),
            Turn::Chunk(chunk) => (before.received(chunk.len()), buffer + chunk),
            Turn::Reply(_, _) => (before.ended(), Seq::empty()),
        }
    }
}

/// What the download of a block came to that ended with `error` or without one.
pub open spec fn outcome(buffer: Seq<u8>, error: Option<WorkerError>) -> Result<Seq<u8>, WorkerError> {
    match error {
        None => Ok(buffer),
        Some(error) => Err(error),
    }
}

/// Whether all this can happen to a worker: it accepts each request when it comes, and everything
/// else comes while it downloads a block.
pub open spec fn can_happen(worker: WorkerView, turns: Seq<Turn>) -> bool
    decreases turns.len(),
{
    if turns.len() == 0 {
        true
    } else {
        let (before, buffer) = worker_after(worker, turns.drop_last());
        &&& can_happen(worker, turns.drop_last())
        &&& match turns.last() {
            Turn::Request(block_id) => before.accepts(WorkerMessage::Download(block_id)),
            Turn::Chunk(_) => before.current is Some,
            Turn::Reply(error, message) => before.current is Some && is_reply(
                before.id,
                before.current->0,
                outcome(buffer, error),
                message,
            ),
        }
    }
}

/// The blocks that were requested, in order.
pub open spec fn requests(turns: Seq<Turn>) -> Seq<usize>
    decreases turns.len(),
{
    if turns.len() == 0 {
        Seq::empty()
    } else {
        let earlier = requests(turns.drop_last());
        match turns.last() {
            Turn::Request(block_id) => earlier.push(block_id),
            _ => earlier,
        }
    }
}

/// The replies, in order.
pub open spec fn replies(turns: Seq<Turn>) -> Seq<WorkerMessage>
    decreases turns.len(),
{
    if turns.len() == 0 {
        Seq::empty()
    } else {
        let earlier = replies(turns.drop_last());
        match turns.last() {
            Turn::Reply(_, message) => earlier.push(message),
            _ => earlier,
        }
    }
}

/// What the downloads came to, in the order in which they ended.
pub open spec fn outcomes(worker: WorkerView, turns: Seq<Turn>) -> Seq<Result<Seq<u8>, WorkerError>>
    decreases turns.len(),
{
    if turns.len() == 0 {
        Seq::empty()
    } else {
        let earlier = outcomes(worker, turns.drop_last());
        match turns.last() {
            Turn::Reply(error, _) => earlier.push(outcome(worker_after(worker, turns.drop_last()).1, error)),
            _ => earlier,
        }
    }
}

/// A worker gives exactly one reply to each request, in the order of the requests, and begins with
/// none before the one before is answered. Each reply names the worker and the block, and has the
/// bytes that came of it or the very error with which it ended.
pub proof fn law_one_reply_to_each_request(worker: WorkerView, turns: Seq<Turn>)
    requires
        worker.current is None,
        can_happen(worker, turns),
    ensures
        worker_after(worker, turns).0.current == (if replies(turns).len() == requests(turns).len() {
            None
        } else {
            Some(requests(turns).last())
        }),
        replies(turns).len() <= requests(turns).len() <= replies(turns).len() + 1,
        outcomes(worker, turns).len() == replies(turns).len(),
        forall|i: int|
            0 <= i < replies(turns).len() ==> is_reply(
                worker.id,
                requests(turns)[i],
                outcomes(worker, turns)[i],
                #[trigger] replies(turns)[i],
            ),
        forall|i: int|
            0 <= i < replies(turns).len() ==> (match outcomes(worker, turns)[i] {
                Ok(content) => {
                    &&& #[trigger] replies(turns)[i] matches WorkerMessage::Finished(id, block_id, bytes)
                    &&& id == worker.id
                    &&& block_id == requests(turns)[i]
                    &&& frozen_bytes(bytes) == content
                },
                Err(error) => replies(turns)[i] == WorkerMessage::Failed(worker.id, requests(turns)[i], error),
            }),
    decreases turns.len(),
{
    if turns.len() > 0 {
        law_one_reply_to_each_request(worker, turns.drop_last());
        lemma_worker_stays_itself(worker, turns.drop_last());
    }
}

/// A failed block does not stop a worker: once it has replied, it can be asked for every block for
/// which it could be asked at first, and counts its bytes from zero.
pub proof fn law_worker_goes_on(worker: WorkerView, turns: Seq<Turn>, block_id: usize)
    requires
        worker.current is None,
        can_happen(worker, turns),
        turns.len() > 0,
        turns.last() is Reply,
    ensures
        ({
            let after = worker_after(worker, turns).0;
            &&& after.accepts(WorkerMessage::Download(block_id)) == worker.accepts(WorkerMessage::Download(block_id))
            &&& after.request_fields(block_id) == worker.request_fields(block_id)
            &&& after.url == worker.url
            &&& after.cur_block_delta == 0
        }),
{
    lemma_worker_stays_itself(worker, turns);
}

proof fn lemma_worker_stays_itself(worker: WorkerView, turns: Seq<Turn>)
    ensures
        ({
            let after = worker_after(worker, turns).0;
            &&& after.id == worker.id
            &&& after.url == worker.url
            &&& after.auth_header == worker.auth_header
            &&& after.file_len == worker.file_len
            &&& after.block_size == worker.block_size
        }),
    decreases turns.len(),
{
    if turns.len() > 0 {
        lemma_worker_stays_itself(worker, turns.drop_last());
    }
}

} // verus!
