//! The decisions of the monitor's user session: what a worker event changes,
//! which bytes a transmit line stands for, the command history and its
//! navigation, and the rules of the connect button, the line limit and the
//! error banner. Drawing and timing stay in the application.
use vstd::prelude::*;
use crate::serial_types::{DeviceInfo, LineEnding, TxMode, line_ending_chars};
use crate::terminal_buffer::{TerminalBuffer, TerminalModel, push_model};
use crate::timestamp::Timestamp;
use crate::tx_parse::{
    ParseOutcome, parse_binary, parse_hex, spec_parse_binary, spec_parse_hex,
};
use crate::worker::WorkerEvent;
use vstd::string::StringSliceAdditionalSpecFns;

verus! {

broadcast use vstd::seq_lib::group_seq_properties;

/// What the session shows about the connection.
pub struct SessionState {
    pub is_connected: bool,
    pub is_paused: bool,
    pub status_message: String,
    /// The error to show in the banner (the application times it).
    pub error_message: Option<String>,
    pub device_info_loading: bool,
    pub device_info: Option<DeviceInfo>,
    pub show_device_info_dialog: bool,
}

impl SessionState {
    pub fn new() -> (s: SessionState)
        ensures
            !s.is_connected,
            !s.is_paused,
            s.status_message@ == "Disconnected"@,
            s.error_message is None,
            !s.device_info_loading,
            s.device_info is None,
            !s.show_device_info_dialog,
    {
        SessionState {
            is_connected: false,
            is_paused: false,
            status_message: String::from_str("Disconnected"),
            error_message: None,
            device_info_loading: false,
            device_info: None,
            show_device_info_dialog: false,
        }
    }
}

/// The counters an event needs room for.
pub open spec fn event_room(b: TerminalModel, e: WorkerEvent) -> bool {
    match e {
        WorkerEvent::Connected(_) => b.version < usize::MAX,
        WorkerEvent::DataReceived(d) => b.total_lines + d@.len() + 1 < usize::MAX && b.version
            < usize::MAX,
        _ => true,
    }
}

/// How one worker event changes the session and the terminal: a connection
/// sets the status `Connected: <port>` and clears the terminal; a
/// disconnection sets `Disconnected`; received bytes go to the terminal
/// unless it is paused; an error goes to the banner; device details end the
/// wait for them and open their dialog.
pub fn apply_event(
    state: &mut SessionState,
    buffer: &mut TerminalBuffer,
    event: WorkerEvent,
    now: Timestamp,
)
    requires
        old(buffer).wf(),
        event_room(old(buffer)@, event),
    ensures
        final(buffer).wf(),
        match event {
            WorkerEvent::Connected(port) => {
                &&& *final(state) == (SessionState {
                    is_connected: true,
                    status_message: final(state).status_message,
                    ..*old(state)
                })
                &&& final(state).status_message@ == "Connected: "@ + port@
                &&& final(buffer)@ == (TerminalModel {
                    entries: seq![],
                    pending: seq![],
                    total_lines: 0,
                    version: old(buffer)@.version + 1,
                    ..old(buffer)@
                })
            },
            WorkerEvent::Disconnected => {
                &&& *final(state) == (SessionState {
                    is_connected: false,
                    status_message: final(state).status_message,
                    ..*old(state)
                })
                &&& final(state).status_message@ == "Disconnected"@
                &&& final(buffer)@ == old(buffer)@
            },
            WorkerEvent::DataReceived(d) => {
                &&& *final(state) == *old(state)
                &&& (old(state).is_paused ==> final(buffer)@ == old(buffer)@)
                &&& (!old(state).is_paused && d@.len() == 0 ==> final(buffer)@ == old(buffer)@)
                &&& (!old(state).is_paused && d@.len() > 0 ==> final(buffer)@ == push_model(
                    old(buffer)@,
                    d@,
                    crate::serial_types::Direction::Rx,
                    now,
                ))
            },
            WorkerEvent::ErrorOccurred(err) => {
                &&& *final(state) == (SessionState { error_message: Some(err), ..*old(state) })
                &&& final(buffer)@ == old(buffer)@
            },
            WorkerEvent::DeviceInfo(info) => {
                &&& *final(state) == (SessionState {
                    device_info_loading: false,
                    device_info: Some(*info),
                    show_device_info_dialog: true,
                    ..*old(state)
                })
                &&& final(buffer)@ == old(buffer)@
            },
        },
{
    match event {
        WorkerEvent::Connected(port) => {
            state.is_connected = true;
            let mut msg = String::from_str("Connected: ");
            msg.append(port.as_str());
            state.status_message = msg;
            buffer.clear();
        },
        WorkerEvent::Disconnected => {
            state.is_connected = false;
            state.status_message = String::from_str("Disconnected");
        },
        WorkerEvent::DataReceived(data) => {
            if !state.is_paused {
                buffer.push_bytes_and_truncate(data.as_slice(), now);
            }
        },
        WorkerEvent::ErrorOccurred(err) => {
            state.error_message = Some(err);
        },
        WorkerEvent::DeviceInfo(info) => {
            state.device_info_loading = false;
            state.device_info = Some(*info);
            state.show_device_info_dialog = true;
        },
    }
}

/// The bytes a transmit line stands for in each mode: in ASCII mode the
/// UTF-8 bytes of the line followed by the line ending; in HEX and binary
/// mode what the parser yields.
pub open spec fn payload_spec(input: Seq<char>, mode: TxMode, le: LineEnding) -> ParseOutcome {
    match mode {
        TxMode::Ascii => ParseOutcome::Parsed(
            vstd::utf8::encode_utf8(input + line_ending_chars(le)),
        ),
        TxMode::Hex => spec_parse_hex(input),
        TxMode::Binary => spec_parse_binary(input),
    }
}

/// The bytes to send for a transmit line, or why it cannot be sent.
pub fn tx_payload(input: &str, mode: TxMode, line_ending: LineEnding) -> (r: Result<
    Vec<u8>,
    String,
>)
    ensures
        match r {
            Ok(v) => payload_spec(input@, mode, line_ending) == ParseOutcome::Parsed(v@),
            Err(e) => payload_spec(input@, mode, line_ending) == ParseOutcome::Rejected(e@),
        },
{
    match mode {
        TxMode::Ascii => {
            let mut data = String::from_str(input);
            data.append(line_ending.as_str());
            let text = data.as_str();
            let bytes = vstd::slice::slice_to_vec(text.as_bytes());
            assert(text.spec_bytes() == vstd::utf8::encode_utf8(text@));
            Ok(bytes)
        },
        TxMode::Hex => parse_hex(input),
        TxMode::Binary => parse_binary(input),
    }
}

/// The live check under the transmit line: nothing for an empty line or in
/// ASCII mode, else the parser's complaint, if any.
pub fn validation_error(input: &str, mode: TxMode) -> (r: Option<String>)
    ensures
        input@.len() == 0 || mode == TxMode::Ascii ==> r is None,
        input@.len() > 0 && mode != TxMode::Ascii ==> match r {
            Some(e) => payload_spec(input@, mode, LineEnding::Empty) == ParseOutcome::Rejected(e@),
            None => payload_spec(input@, mode, LineEnding::Empty) is Parsed,
        },
{
    if input.is_empty() {
        return None;
    }
    match mode {
        TxMode::Ascii => None,
        TxMode::Hex => match parse_hex(input) {
            Ok(_) => None,
            Err(e) => Some(e),
        },
        TxMode::Binary => match parse_binary(input) {
            Ok(_) => None,
            Err(e) => Some(e),
        },
    }
}

/// The history after sending `input`: it is appended unless it repeats the
/// last entry.
pub open spec fn history_after(h: Seq<Seq<char>>, input: Seq<char>) -> Seq<Seq<char>> {
    if h.len() > 0 && h.last() == input {
        h
    } else {
        h.push(input)
    }
}

pub open spec fn texts(v: Seq<String>) -> Seq<Seq<char>> {
    v.map_values(|s: String| s@)
}

pub fn record_history(history: &mut Vec<String>, input: &String)
    ensures
        texts(final(history)@) == history_after(texts(old(history)@), input@),
{
    let n = history.len();
    let repeat = n > 0 && history[n - 1] == *input;
    if !repeat {
        history.push(input.clone());
    }
    proof {
        if repeat {
            assert(texts(old(history)@).last() == old(history)@[n - 1]@);
        } else {
            assert(texts(history@) =~= texts(old(history)@).push(input@));
        }
    }
}

/// Arrow up: from no selection to the newest entry, else one older
/// (staying at the oldest).
pub open spec fn history_up_index(len: nat, index: Option<usize>) -> nat {
    match index {
        Some(i) => if i > 0 {
            (i - 1) as nat
        } else {
            0
        },
        None => (len - 1) as nat,
    }
}

/// Arrow down: the next newer index, or no selection past the newest.
pub open spec fn history_down_index(len: nat, i: usize) -> Option<usize> {
    if i + 1 < len {
        Some((i + 1) as usize)
    } else {
        None
    }
}

/// Moves up in the history; returns the new index and the entry to show.
pub fn history_up(history: &Vec<String>, index: Option<usize>) -> (r: (usize, String))
    requires
        history.len() > 0,
        index matches Some(i) ==> i < history.len(),
    ensures
        r.0 == history_up_index(history.len() as nat, index),
        r.0 < history.len(),
        r.1@ == history@[r.0 as int]@,
{
    let idx = match index {
        Some(i) => if i > 0 {
            i - 1
        } else {
            0
        },
        None => history.len() - 1,
    };
    (idx, history[idx].clone())
}

/// Arrow down: one newer entry, or past the newest back to an empty line
/// with no selection. Without a selection nothing changes (`None`).
pub fn history_down(history: &Vec<String>, index: Option<usize>) -> (r: Option<(Option<usize>, String)>)
    requires
        index matches Some(i) ==> i < history.len(),
    ensures
        index is None ==> r is None,
        index matches Some(i) ==> (r matches Some((ni, text)) && ni == history_down_index(
            history.len() as nat,
            i,
        ) && (if i + 1 < history.len() {
            text@ == history@[i + 1]@
        } else {
            text@ == Seq::<char>::empty()
        })),
{
    match index {
        None => None,
        Some(i) => {
            if i + 1 < history.len() {
                Some((Some(i + 1), history[i + 1].clone()))
            } else {
                Some((None, String::new()))
            }
        },
    }
}

pub open spec fn no_port_message() -> Seq<char> {
    "No serial port selected"@
}

/// The connect button: with a port chosen the terminal is cleared and a
/// connection requested (`Ok`); with none an error is shown.
pub fn connect_request(port_name: &String, buffer: &mut TerminalBuffer) -> (r: Result<(), String>)
    requires
        old(buffer).wf(),
        old(buffer)@.version < usize::MAX,
    ensures
        final(buffer).wf(),
        port_name@.len() > 0 ==> r is Ok && final(buffer)@ == (TerminalModel {
            entries: seq![],
            pending: seq![],
            total_lines: 0,
            version: old(buffer)@.version + 1,
            ..old(buffer)@
        }),
        port_name@.len() == 0 ==> (r matches Err(m) && m@ == no_port_message()) && final(buffer)@
            == old(buffer)@,
{
    if port_name.as_str().is_empty() {
        Err(String::from_str("No serial port selected"))
    } else {
        buffer.clear();
        Ok(())
    }
}

/// The line limit given to the terminal: 0 (its unlimited setting) when
/// "Unlimited Lines" is on, else the configured maximum.
pub fn line_limit(unlimited: bool, max_buffer_size: usize) -> (n: usize)
    ensures
        n == if unlimited {
            0
        } else {
            max_buffer_size
        },
{
    if unlimited {
        0
    } else {
        max_buffer_size
    }
}

/// The error banner shows for six seconds.
pub fn banner_visible(elapsed_secs: u64) -> (b: bool)
    ensures
        b == (elapsed_secs < 6),
{
    elapsed_secs < 6
}

/// After a successful send the message is recorded in the terminal and in
/// the history, the history selection is dropped and the line emptied.
pub fn after_send(
    buffer: &mut TerminalBuffer,
    history: &mut Vec<String>,
    history_index: &mut Option<usize>,
    tx_input: &mut String,
    sent: &[u8],
    mode: TxMode,
    now: Timestamp,
)
    requires
        old(buffer).wf(),
        old(buffer)@.total_lines + 2 < usize::MAX,
        old(buffer)@.version < usize::MAX,
    ensures
        final(buffer).wf(),
        final(buffer)@ == (TerminalModel {
            entries: crate::terminal_buffer::apply_limit(
                old(buffer)@.entries.push(
                    crate::terminal_buffer::EntryModel {
                        timestamp: now,
                        direction: crate::serial_types::Direction::Tx(mode),
                        data: sent@,
                    },
                ),
                old(buffer)@.max_entries,
            ),
            total_lines: old(buffer)@.total_lines + 1,
            version: old(buffer)@.version + 1,
            ..old(buffer)@
        }),
        texts(final(history)@) == history_after(texts(old(history)@), old(tx_input)@),
        *final(history_index) is None,
        final(tx_input)@ == Seq::<char>::empty(),
{
    buffer.push_tx_entry(sent, mode, now);
    record_history(history, tx_input);
    *history_index = None;
    *tx_input = String::new();
}

pub open spec fn send_failed_message(detail: Seq<char>) -> Seq<char> {
    "Failed to send data: "@ + detail
}

pub open spec fn invalid_input_message(detail: Seq<char>) -> Seq<char> {
    "Invalid input: "@ + detail
}

/// A transmit line whose bytes could not be made is answered by an error
/// naming the reason; nothing else changes.
pub fn reject_input(state: &mut SessionState, reason: &str)
    ensures
        *final(state) == (SessionState { error_message: final(state).error_message, ..*old(state) }),
        final(state).error_message matches Some(m) && m@ == invalid_input_message(reason@),
{
    let mut m = String::from_str("Invalid input: ");
    m.append(reason);
    state.error_message = Some(m);
}

/// The end of a send, given whether handing the bytes to the worker
/// failed: on success as `after_send` (the line is recorded in the terminal
/// and the history, the selection dropped, the line emptied) and the session
/// is unchanged; on failure an error names the reason and the terminal, the
/// history, its selection and the line all stay as they were.
pub fn finish_send(
    state: &mut SessionState,
    buffer: &mut TerminalBuffer,
    history: &mut Vec<String>,
    history_index: &mut Option<usize>,
    tx_input: &mut String,
    sent: &[u8],
    mode: TxMode,
    now: Timestamp,
    failure: Option<String>,
)
    requires
        old(buffer).wf(),
        old(buffer)@.total_lines + 2 < usize::MAX,
        old(buffer)@.version < usize::MAX,
    ensures
        final(buffer).wf(),
        texts(final(history)@) == history_after_attempt(
            texts(old(history)@),
            old(tx_input)@,
            failure is Some,
        ),
        failure is None ==> {
            &&& *final(state) == *old(state)
            &&& final(buffer)@ == (TerminalModel {
                entries: crate::terminal_buffer::apply_limit(
                    old(buffer)@.entries.push(
                        crate::terminal_buffer::EntryModel {
                            timestamp: now,
                            direction: crate::serial_types::Direction::Tx(mode),
                            data: sent@,
                        },
                    ),
                    old(buffer)@.max_entries,
                ),
                total_lines: old(buffer)@.total_lines + 1,
                version: old(buffer)@.version + 1,
                ..old(buffer)@
            })
            &&& texts(final(history)@) == history_after(texts(old(history)@), old(tx_input)@)
            &&& *final(history_index) is None
            &&& final(tx_input)@ == Seq::<char>::empty()
        },
        failure matches Some(d) ==> {
            &&& *final(state) == (SessionState {
                error_message: final(state).error_message,
                ..*old(state)
            })
            &&& final(state).error_message matches Some(m) && m@ == send_failed_message(d@)
            &&& final(buffer)@ == old(buffer)@
            &&& final(history)@ == old(history)@
            &&& *final(history_index) == *old(history_index)
            &&& *final(tx_input) == *old(tx_input)
        },
{
    match failure {
        None => {
            after_send(buffer, history, history_index, tx_input, sent, mode, now);
        },
        Some(detail) => {
            let mut m = String::from_str("Failed to send data: ");
            m.append(detail.as_str());
            state.error_message = Some(m);
        },
    }
}

/// Arrow up then arrow down returns to the entry one started from, unless
/// that was the oldest one or nothing was selected yet (then down leaves
/// the newest for an empty line).
pub proof fn lemma_history_up_then_down(len: nat, i: usize)
    requires
        0 < i < len,
    ensures
        history_down_index(len, history_up_index(len, Some(i)) as usize) == Some(i),
{
}

/// From no selection, up shows the newest entry, and down from there
/// leaves the history.
pub proof fn lemma_history_newest(len: nat)
    requires
        0 < len,
        len < usize::MAX,
    ensures
        history_up_index(len, None) == len - 1,
        history_down_index(len, (len - 1) as usize) is None,
{
}

/// What the live check accepts (no complaint shown, Send enabled).
pub open spec fn validation_accepts(input: Seq<char>, mode: TxMode) -> bool {
    input.len() == 0 || mode == TxMode::Ascii || payload_spec(input, mode, LineEnding::Empty) is Parsed
}

/// A non-empty line that the live check accepts is sent, whatever the line
/// ending; one it refuses would be refused on sending with the same message.
pub proof fn lemma_validated_line_is_sendable(input: Seq<char>, mode: TxMode, le: LineEnding)
    requires
        input.len() > 0,
    ensures
        validation_accepts(input, mode) ==> payload_spec(input, mode, le) is Parsed,
        !validation_accepts(input, mode) ==> payload_spec(input, mode, le) == payload_spec(
            input,
            mode,
            LineEnding::Empty,
        ),
{
}

/// No two neighbours of the history are the same line.
pub open spec fn no_repeats(h: Seq<Seq<char>>) -> bool {
    forall|i: int| 0 <= i < h.len() - 1 ==> #[trigger] h[i] != h[i + 1]
}

/// Recording a sent line never makes two neighbours equal.
pub proof fn lemma_history_no_repeats(h: Seq<Seq<char>>, input: Seq<char>)
    requires
        no_repeats(h),
    ensures
        no_repeats(history_after(h, input)),
{
    let r = history_after(h, input);
    if !(h.len() > 0 && h.last() == input) {
        assert forall|i: int| 0 <= i < r.len() - 1 implies #[trigger] r[i] != r[i + 1] by {
            if i + 1 < h.len() {
                assert(r[i] == h[i] && r[i + 1] == h[i + 1]);
            } else {
                assert(r[i] == h.last());
            }
        }
    }
}

} // verus!

verus! {

/// The history after a send attempt: the line is recorded only when it was
/// handed on; a failed send leaves the history as it was.
pub open spec fn history_after_attempt(h: Seq<Seq<char>>, input: Seq<char>, failed: bool) -> Seq<
    Seq<char>,
> {
    if failed {
        h
    } else {
        history_after(h, input)
    }
}

/// Whatever the outcome of a send, the history never holds the same line
/// twice in a row.
pub proof fn lemma_send_keeps_history_clean(h: Seq<Seq<char>>, input: Seq<char>, failed: bool)
    requires
        no_repeats(h),
    ensures
        no_repeats(history_after_attempt(h, input, failed)),
{
    if !failed {
        lemma_history_no_repeats(h, input);
    }
}

} // verus!
