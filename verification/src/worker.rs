//! The decisions of the serial worker thread: what a command asks for, when
//! batched received bytes are handed on, what each outcome of the port's I/O
//! is reported as. The thread, the channels and the port live in the
//! application; it performs the steps decided here and reports back.
use vstd::prelude::*;
use crate::serial_types::{DeviceInfo, SerialSettings};

verus! {

broadcast use vstd::seq_lib::group_seq_properties;

/// Requests to the worker.
#[derive(Debug)]
pub enum WorkerCommand {
    Connect(SerialSettings),
    Disconnect,
    WriteData(Vec<u8>),
    GetDeviceInfo(String),
    Exit,
}

/// Reports from the worker.
#[derive(Debug, Clone)]
pub enum WorkerEvent {
    Connected(String),
    Disconnected,
    DataReceived(Vec<u8>),
    ErrorOccurred(String),
    DeviceInfo(Box<DeviceInfo>),
}

/// What the worker does for one command.
#[derive(Debug)]
pub enum CommandStep {
    /// Close the open port (if any), then open one with these settings and
    /// read timeout.
    Open { settings: SerialSettings, read_timeout_ms: u64 },
    /// Close the open port, if any.
    Close,
    /// Write these bytes to the open port and flush it.
    Write(Vec<u8>),
    /// Report this error; there is no port to write to.
    Refuse(String),
    /// Gather details about the named port.
    Inspect(String),
    /// Leave the worker loop.
    Stop,
}

/// The read timeout of a port polled every `poll_interval_ms` (0 means
/// "as fast as possible", which reads with a 1 ms timeout).
pub open spec fn read_timeout_for(poll_interval_ms: u64) -> u64 {
    if poll_interval_ms == 0 {
        1
    } else {
        poll_interval_ms
    }
}

pub fn read_timeout_ms(poll_interval_ms: u64) -> (t: u64)
    ensures
        t == read_timeout_for(poll_interval_ms),
{
    if poll_interval_ms == 0 {
        1
    } else {
        poll_interval_ms
    }
}

/// How long to wait for a command while a port is open: 2 ms at most, and
/// no longer than the polling interval (0 means: do not wait).
pub fn command_wait_ms(poll_interval_ms: u64) -> (t: u64)
    ensures
        t == if poll_interval_ms < 2 {
            poll_interval_ms
        } else {
            2
        },
{
    if poll_interval_ms < 2 {
        poll_interval_ms
    } else {
        2
    }
}

/// The polling interval after a command: a connect sets it from the new
/// settings, everything else keeps it.
pub fn next_poll_interval(cmd: &WorkerCommand, current_ms: u64) -> (t: u64)
    ensures
        t == match cmd {
            WorkerCommand::Connect(s) => s.poll_interval_ms,
            _ => current_ms,
        },
{
    match cmd {
        WorkerCommand::Connect(s) => s.poll_interval_ms,
        _ => current_ms,
    }
}

pub open spec fn cannot_write_message() -> Seq<char> {
    "Cannot write: No open port"@
}

/// What a command asks of the worker, given whether a port is open.
pub fn plan_command(cmd: WorkerCommand, port_open: bool) -> (step: CommandStep)
    ensures
        match (cmd, step) {
            (WorkerCommand::Connect(s), CommandStep::Open { settings, read_timeout_ms }) => settings
                == s && read_timeout_ms == read_timeout_for(s.poll_interval_ms),
            (WorkerCommand::Disconnect, CommandStep::Close) => true,
            (WorkerCommand::WriteData(d), CommandStep::Write(w)) => port_open && w@ == d@,
            (WorkerCommand::WriteData(_), CommandStep::Refuse(m)) => !port_open && m@
                == cannot_write_message(),
            (WorkerCommand::GetDeviceInfo(n), CommandStep::Inspect(m)) => m@ == n@,
            (WorkerCommand::Exit, CommandStep::Stop) => true,
            _ => false,
        },
{
    match cmd {
        WorkerCommand::Connect(settings) => {
            let read_timeout_ms = read_timeout_ms(settings.poll_interval_ms);
            CommandStep::Open { settings, read_timeout_ms }
        },
        WorkerCommand::Disconnect => CommandStep::Close,
        WorkerCommand::WriteData(data) => {
            if port_open {
                CommandStep::Write(data)
            } else {
                CommandStep::Refuse(String::from_str("Cannot write: No open port"))
            }
        },
        WorkerCommand::GetDeviceInfo(name) => CommandStep::Inspect(name),
        WorkerCommand::Exit => CommandStep::Stop,
    }
}

/// The events of closing the port: `Disconnected` when one was open.
pub fn close_events(port_open: bool) -> (ev: Vec<WorkerEvent>)
    ensures
        port_open ==> ev@.len() == 1 && ev@[0] is Disconnected,
        !port_open ==> ev@.len() == 0,
{
    let mut ev = Vec::new();
    if port_open {
        ev.push(WorkerEvent::Disconnected);
    }
    ev
}

pub open spec fn open_failed_message(port_name: Seq<char>, detail: Seq<char>) -> Seq<char> {
    "Failed to open port "@ + port_name + ": "@ + detail
}

/// The events after an attempt to open `port_name`: `Connected` on success;
/// on failure an error naming the port and the reason, then `Disconnected`.
pub fn open_events(port_name: &String, failure: Option<String>) -> (ev: Vec<WorkerEvent>)
    ensures
        failure is None ==> ev@.len() == 1 && (ev@[0] matches WorkerEvent::Connected(n) && n@
            == port_name@),
        failure matches Some(d) ==> (ev@.len() == 2 && (ev@[0] matches WorkerEvent::ErrorOccurred(
            m,
        ) && m@ == open_failed_message(port_name@, d@)) && ev@[1] is Disconnected),
{
    let mut ev = Vec::new();
    match failure {
        None => {
            ev.push(WorkerEvent::Connected(port_name.clone()));
        },
        Some(detail) => {
            let mut m = String::from_str("Failed to open port ");
            m.append(port_name.as_str());
            m.append(": ");
            m.append(detail.as_str());
            ev.push(WorkerEvent::ErrorOccurred(m));
            ev.push(WorkerEvent::Disconnected);
        },
    }
    ev
}

/// How a read from the port ended.
pub enum ReadOutcome {
    /// Bytes arrived (possibly none).
    Data(Vec<u8>),
    /// The read timed out or would block: nothing to do.
    Quiet,
    /// Any other error, with its description.
    Failed(String),
}

pub open spec fn read_failed_message(detail: Seq<char>) -> Seq<char> {
    "Serial read error: "@ + detail
}

pub open spec fn write_failed_message(detail: Seq<char>) -> Seq<char> {
    "Write failed: "@ + detail
}

/// Bytes read are added to the batch; a failed read is reported and closes
/// the port. Returns whether a read delivered bytes, and whether to close.
pub fn absorb_read(batch: &mut Vec<u8>, outcome: ReadOutcome, events: &mut Vec<WorkerEvent>) -> (r:
    (bool, bool))
    ensures
        match outcome {
            ReadOutcome::Data(d) => final(batch)@ == old(batch)@ + d@ && final(events)@ == old(
                events,
            )@ && r == (d@.len() > 0, false),
            ReadOutcome::Quiet => final(batch)@ == old(batch)@ && final(events)@ == old(events)@
                && r == (false, false),
            ReadOutcome::Failed(e) => final(batch)@ == old(batch)@ && final(events)@.len() == old(
                events,
            )@.len() + 1 && final(events)@.take(old(events)@.len() as int) == old(events)@ && (
            final(events)@.last() matches WorkerEvent::ErrorOccurred(m) && m@
                == read_failed_message(e@)) && r == (false, true),
        },
{
    match outcome {
        ReadOutcome::Data(d) => {
            let got = d.len() > 0;
            let mut d = d;
            batch.append(&mut d);
            (got, false)
        },
        ReadOutcome::Quiet => (false, false),
        ReadOutcome::Failed(e) => {
            let mut m = String::from_str("Serial read error: ");
            m.append(e.as_str());
            events.push(WorkerEvent::ErrorOccurred(m));
            (false, true)
        },
    }
}

/// The events after writing: nothing on success; on failure an error with
/// the reason (and the caller closes the port).
pub fn write_events(failure: Option<String>) -> (ev: Vec<WorkerEvent>)
    ensures
        failure is None ==> ev@.len() == 0,
        failure matches Some(d) ==> (ev@.len() == 1 && (ev@[0] matches WorkerEvent::ErrorOccurred(
            m,
        ) && m@ == write_failed_message(d@))),
{
    let mut ev = Vec::new();
    if let Some(detail) = failure {
        let mut m = String::from_str("Write failed: ");
        m.append(detail.as_str());
        ev.push(WorkerEvent::ErrorOccurred(m));
    }
    ev
}

/// Received bytes are handed on in batches: once 2048 bytes are gathered,
/// or once the batch has waited 20 ms (2 ms when polling as fast as
/// possible).
pub open spec fn batch_due(batch_len: nat, elapsed_ms: u64, poll_interval_ms: u64) -> bool {
    batch_len > 0 && (batch_len >= 2048 || elapsed_ms >= if poll_interval_ms == 0 {
        2u64
    } else {
        20u64
    })
}

/// Hands on the batch when it is due; the batch is then empty.
pub fn take_due_batch(batch: &mut Vec<u8>, elapsed_ms: u64, poll_interval_ms: u64) -> (r: Option<
    WorkerEvent,
>)
    ensures
        batch_due(old(batch)@.len(), elapsed_ms, poll_interval_ms) ==> final(batch)@.len() == 0
            && (r matches Some(WorkerEvent::DataReceived(d)) && d@ == old(batch)@),
        !batch_due(old(batch)@.len(), elapsed_ms, poll_interval_ms) ==> final(batch)@ == old(
            batch,
        )@ && r is None,
{
    let limit: u64 = if poll_interval_ms == 0 {
        2
    } else {
        20
    };
    if batch.len() > 0 && (batch.len() >= 2048 || elapsed_ms >= limit) {
        let mut data = Vec::new();
        std::mem::swap(&mut data, batch);
        Some(WorkerEvent::DataReceived(data))
    } else {
        None
    }
}

/// Whatever is still batched when the port is gone is handed on at once.
pub fn take_residual_batch(batch: &mut Vec<u8>) -> (r: Option<WorkerEvent>)
    ensures
        final(batch)@.len() == 0,
        old(batch)@.len() > 0 ==> (r matches Some(WorkerEvent::DataReceived(d)) && d@ == old(
            batch,
        )@),
        old(batch)@.len() == 0 ==> r is None,
{
    if batch.len() > 0 {
        let mut data = Vec::new();
        std::mem::swap(&mut data, batch);
        Some(WorkerEvent::DataReceived(data))
    } else {
        None
    }
}

/// What the worker loop does next.
#[derive(Debug, Clone, Copy, PartialEq, Eq, Structural)]
pub enum LoopControl {
    /// Go on polling.
    Continue,
    /// Leave the loop; close the port (reporting `Disconnected` when one is
    /// open) first when `close_port` is set.
    Exit { close_port: bool },
}

/// After a command: a stop request leaves the loop. It closes the port on
/// the way out, except when the command was taken in the fast-polling loop
/// (port open, poll interval 0), which leaves at once.
pub fn after_command(stopped: bool, port_open: bool, poll_interval_ms: u64) -> (c: LoopControl)
    ensures
        !stopped ==> c == LoopControl::Continue,
        stopped ==> c == (LoopControl::Exit { close_port: !(port_open && poll_interval_ms == 0) }),
{
    if !stopped {
        LoopControl::Continue
    } else if port_open && poll_interval_ms == 0 {
        LoopControl::Exit { close_port: false }
    } else {
        LoopControl::Exit { close_port: true }
    }
}

/// When the command channel is gone the loop ends, closing the port.
pub fn after_channel_closed() -> (c: LoopControl)
    ensures
        c == (LoopControl::Exit { close_port: true }),
{
    LoopControl::Exit { close_port: true }
}

/// When polling as fast as possible and a read brought nothing, the worker
/// yields its time slice instead of spinning.
pub fn should_yield(poll_interval_ms: u64, read_occurred: bool) -> (b: bool)
    ensures
        b == (poll_interval_ms == 0 && !read_occurred),
{
    poll_interval_ms == 0 && !read_occurred
}

} // verus!

verus! {

/// A port is never opened with a zero read timeout.
pub proof fn lemma_read_timeout_positive(poll_interval_ms: u64)
    ensures
        read_timeout_for(poll_interval_ms) >= 1,
{
}

/// A batch of 2048 bytes or more is always handed on, whatever the time;
/// an empty batch never is.
pub proof fn lemma_batch_size_bound(batch_len: nat, elapsed_ms: u64, poll_interval_ms: u64)
    ensures
        batch_len >= 2048 ==> batch_due(batch_len, elapsed_ms, poll_interval_ms),
        batch_len == 0 ==> !batch_due(batch_len, elapsed_ms, poll_interval_ms),
{
}

} // verus!

verus! {

/// The received-data path of the worker: the payloads handed on so far,
/// followed by the batch still held, are exactly the bytes read so far, and
/// no payload is empty.
pub open spec fn stream_intact(delivered: Seq<Seq<u8>>, batch: Seq<u8>, read: Seq<u8>) -> bool {
    &&& crate::terminal_buffer::flatten(delivered) + batch == read
    &&& forall|i: int| 0 <= i < delivered.len() ==> (#[trigger] delivered[i]).len() > 0
}

/// A read (`absorb_read` with `Data(d)`, which appends `d` to the batch)
/// keeps the stream intact.
pub proof fn lemma_read_keeps_stream(
    delivered: Seq<Seq<u8>>,
    batch: Seq<u8>,
    read: Seq<u8>,
    d: Seq<u8>,
)
    requires
        stream_intact(delivered, batch, read),
    ensures
        stream_intact(delivered, batch + d, read + d),
{
    let f = crate::terminal_buffer::flatten(delivered);
    assert(f + (batch + d) =~= (f + batch) + d);
}

/// Handing on the batch (`take_due_batch` when it is due, or
/// `take_residual_batch` when the port is gone; both hand on the whole
/// batch, never an empty one, and leave it empty) keeps the stream intact,
/// and afterwards what was handed on is every byte read.
pub proof fn lemma_delivery_keeps_stream(delivered: Seq<Seq<u8>>, batch: Seq<u8>, read: Seq<u8>)
    requires
        stream_intact(delivered, batch, read),
        batch.len() > 0,
    ensures
        stream_intact(delivered.push(batch), Seq::<u8>::empty(), read),
        crate::terminal_buffer::flatten(delivered.push(batch)) == read,
{
    let f = crate::terminal_buffer::flatten(delivered);
    let n = delivered.push(batch);
    assert(n.drop_last() =~= delivered);
    assert(n.last() == batch);
    assert(crate::terminal_buffer::flatten(n) == f + batch);
    assert(crate::terminal_buffer::flatten(n) + Seq::<u8>::empty() =~= read);
    assert forall|i: int| 0 <= i < n.len() implies (#[trigger] n[i]).len() > 0 by {
        if i < delivered.len() {
            assert(n[i] == delivered[i]);
        }
    }
}

/// Before anything is read, nothing is held or handed on.
pub proof fn lemma_stream_starts_intact()
    ensures
        stream_intact(Seq::<Seq<u8>>::empty(), Seq::<u8>::empty(), Seq::<u8>::empty()),
{
    assert(crate::terminal_buffer::flatten(Seq::<Seq<u8>>::empty()) + Seq::<u8>::empty()
        =~= Seq::<u8>::empty());
}

} // verus!

verus! {

/// A batch is handed on exactly when it is not empty and has either
/// reached 2048 bytes or waited 20 ms (2 ms when polling as fast as
/// possible): in particular a short reply that has waited long enough is
/// never held back, and a young short batch is never sent early.
pub proof fn lemma_batch_due_exactly(batch_len: nat, elapsed_ms: u64, poll_interval_ms: u64)
    ensures
        batch_len > 0 && poll_interval_ms == 0 && elapsed_ms >= 2 ==> batch_due(
            batch_len,
            elapsed_ms,
            poll_interval_ms,
        ),
        batch_len > 0 && poll_interval_ms > 0 && elapsed_ms >= 20 ==> batch_due(
            batch_len,
            elapsed_ms,
            poll_interval_ms,
        ),
        batch_len >= 2048 ==> batch_due(batch_len, elapsed_ms, poll_interval_ms),
        batch_len == 0 ==> !batch_due(batch_len, elapsed_ms, poll_interval_ms),
        batch_len < 2048 && poll_interval_ms == 0 && elapsed_ms < 2 ==> !batch_due(
            batch_len,
            elapsed_ms,
            poll_interval_ms,
        ),
        batch_len < 2048 && poll_interval_ms > 0 && elapsed_ms < 20 ==> !batch_due(
            batch_len,
            elapsed_ms,
            poll_interval_ms,
        ),
{
}

/// A port is read with the polling interval as its timeout, and with 1 ms
/// when polling as fast as possible; commands are awaited for at most 2 ms
/// and never longer than the polling interval.
pub proof fn lemma_timeouts(poll_interval_ms: u64)
    ensures
        poll_interval_ms > 0 ==> read_timeout_for(poll_interval_ms) == poll_interval_ms,
        poll_interval_ms == 0 ==> read_timeout_for(poll_interval_ms) == 1,
{
}

} // verus!
