//! The background worker of the graphical front end: what it does for each
//! request of the window, the requests it hands to the flash protocols, the
//! answers it sends back, and how the window takes those answers in.
//!
//! The application runs the loop: it receives a request, asks
//! `worker_step` what to do, carries out the USB and file work, and sends
//! the answer built here; the window applies each answer with
//! `apply_worker_message`.

use vstd::prelude::*;

use super::messages::GuiMessage;
use crate::domain::{
    Address, BadBlockStrategy, ChipSpec, EraseRequest, OobMode, Progress, ReadRequest, WriteRequest,
};
use crate::presentation::cli::input::joined;

verus! {

/// Answers of the worker to the window.
#[derive(Debug, Clone)]
pub enum WorkerMessage {
    /// Connection successful, with the programmer's name
    Connected(String),
    /// Connection failed, with the reason
    ConnectionFailed(String),
    /// Programmer disconnected
    Disconnected,
    /// Chip detected
    ChipDetected(ChipSpec),
    /// Chip detection failed
    ChipDetectionFailed(String),
    /// Progress update
    Progress(Progress),
    /// Operation completed
    OperationComplete,
    /// Data read from flash (for preview)
    DataRead(Vec<u8>),
    /// Operation failed
    OperationFailed(String),
    /// Log message
    Log(String),
    /// Descriptions of the detected devices (for diagnostic display)
    DeviceList(Vec<String>),
    /// Serial port connected, with the port's name
    SerialConnected(String),
    /// Serial port disconnected
    SerialDisconnected,
    /// Serial connection failed
    SerialConnectionFailed(String),
    /// Received data from serial port
    SerialDataReceived(Vec<u8>),
    /// Serial send complete, with the number of bytes sent
    SerialSendComplete(usize),
}

/// What the worker does for one request of the window.
#[derive(Debug, Clone)]
pub enum WorkerAction {
    /// Answer at once.
    Reply(WorkerMessage),
    /// List the WCH devices for diagnostics, then look for a programmer.
    Connect,
    /// Detect the chip.
    DetectChip,
    /// Detect the chip, read it (see `gui_read_request`) and store the data in `path`.
    Read { path: String, start: u32, length: Option<u32> },
    /// Detect the chip and program the file at `path` (see `gui_write_request`).
    Write { path: String, start: u32, verify: bool },
    /// Detect the chip and erase it (see `gui_erase_request`).
    Erase { start: u32, length: Option<u32> },
    /// Set the SPI speed and log how it went.
    SetSpeed(u8),
    /// Select a chip-select line and log how it went.
    SelectCs(u8),
    /// Nothing to do.
    Nothing,
}

/// What the worker does for `msg`, with or without a connected programmer.
pub fn worker_step(connected: bool, msg: &GuiMessage) -> (a: WorkerAction)
    ensures
        (match *msg {
            GuiMessage::Connect => a is Connect,
            GuiMessage::DetectChip => if connected {
                a is DetectChip
            } else {
                a matches WorkerAction::Reply(WorkerMessage::ConnectionFailed(t)) && t@
                    == "Not connected"@
            },
            GuiMessage::ReadFlash { path, start, length } => if connected {
                a matches WorkerAction::Read { path: p, start: s, length: l } && p@ == path@ && s
                    == start && l == length
            } else {
                a matches WorkerAction::Reply(WorkerMessage::OperationFailed(t)) && t@
                    == "Not connected"@
            },
            GuiMessage::WriteFlash { path, start, verify } => if connected {
                a matches WorkerAction::Write { path: p, start: s, verify: v } && p@ == path@ && s
                    == start && v == verify
            } else {
                a matches WorkerAction::Reply(WorkerMessage::OperationFailed(t)) && t@
                    == "Not connected"@
            },
            GuiMessage::EraseFlash { start, length } => if connected {
                a matches WorkerAction::Erase { start: s, length: l } && s == start && l == length
            } else {
                a matches WorkerAction::Reply(WorkerMessage::OperationFailed(t)) && t@
                    == "Not connected"@
            },
            GuiMessage::Cancel => a matches WorkerAction::Reply(WorkerMessage::Log(t)) && t@
                == "Cancellation ignored (not implemented)"@,
            GuiMessage::SetSpeed(speed) => if connected {
                a matches WorkerAction::SetSpeed(x) && x == speed
            } else {
                a is Nothing
            },
            GuiMessage::SetCsIndex(index) => if connected {
                a matches WorkerAction::SelectCs(x) && x == index
            } else {
                a is Nothing
            },
            _ => a is Nothing,
        }),
{
    match msg {
        GuiMessage::Connect => WorkerAction::Connect,
        GuiMessage::DetectChip => {
            if connected {
                WorkerAction::DetectChip
            } else {
                WorkerAction::Reply(WorkerMessage::ConnectionFailed("Not connected".to_string()))
            }
        },
        GuiMessage::ReadFlash { path, start, length } => {
            if connected {
                WorkerAction::Read { path: path.clone(), start: *start, length: *length }
            } else {
                WorkerAction::Reply(WorkerMessage::OperationFailed("Not connected".to_string()))
            }
        },
        GuiMessage::WriteFlash { path, start, verify } => {
            if connected {
                WorkerAction::Write { path: path.clone(), start: *start, verify: *verify }
            } else {
                WorkerAction::Reply(WorkerMessage::OperationFailed("Not connected".to_string()))
            }
        },
        GuiMessage::EraseFlash { start, length } => {
            if connected {
                WorkerAction::Erase { start: *start, length: *length }
            } else {
                WorkerAction::Reply(WorkerMessage::OperationFailed("Not connected".to_string()))
            }
        },
        GuiMessage::Cancel => WorkerAction::Reply(
            WorkerMessage::Log("Cancellation ignored (not implemented)".to_string()),
        ),
        GuiMessage::SetSpeed(speed) => {
            if connected {
                WorkerAction::SetSpeed(*speed)
            } else {
                WorkerAction::Nothing
            }
        },
        GuiMessage::SetCsIndex(index) => {
            if connected {
                WorkerAction::SelectCs(*index)
            } else {
                WorkerAction::Nothing
            }
        },
        _ => WorkerAction::Nothing,
    }
}

/// Bytes the worker covers from `start`: the length asked for, or the rest
/// of the chip.
pub open spec fn gui_length(spec: ChipSpec, start: u32, length: Option<u32>) -> u32 {
    match length {
        Some(n) => n,
        None => (spec.capacity.0 - start) as u32,
    }
}

/// The read the worker asks for: main area with ECC, bad blocks skipped,
/// three tries.
pub open spec fn gui_read_request_for(spec: ChipSpec, start: u32, length: Option<u32>) -> ReadRequest {
    ReadRequest {
        address: Address(start),
        length: gui_length(spec, start, length),
        use_ecc: true,
        ignore_ecc_errors: false,
        oob_mode: OobMode::Excluded,
        bad_block_strategy: BadBlockStrategy::Skip,
        bbt: None,
        retry_count: 3,
    }
}

/// The erase the worker asks for: bad blocks skipped.
pub open spec fn gui_erase_request_for(spec: ChipSpec, start: u32, length: Option<u32>) -> EraseRequest {
    EraseRequest {
        address: Address(start),
        length: gui_length(spec, start, length),
        bad_block_strategy: BadBlockStrategy::Skip,
        bbt: None,
    }
}

/// The write the worker asks for: main area with ECC, bad blocks skipped,
/// three tries.
pub open spec fn gui_write_request_for<'a>(start: u32, data: &'a [u8], verify: bool) -> WriteRequest<'a> {
    WriteRequest {
        address: Address(start),
        data,
        use_ecc: true,
        verify,
        ignore_ecc_errors: false,
        oob_mode: OobMode::Excluded,
        bad_block_strategy: BadBlockStrategy::Skip,
        bbt: None,
        retry_count: 3,
    }
}

fn gui_len(spec: &ChipSpec, start: u32, length: Option<u32>) -> (n: u32)
    requires
        length is Some || start <= spec.capacity.0,
    ensures
        n == gui_length(*spec, start, length),
{
    match length {
        Some(n) => n,
        None => spec.capacity.as_bytes() - start,
    }
}

/// The read request for a 'read' of the window on the chip `spec`.
pub fn gui_read_request(spec: &ChipSpec, start: u32, length: Option<u32>) -> (r: ReadRequest)
    requires
        length is Some || start <= spec.capacity.0,
    ensures
        r == gui_read_request_for(*spec, start, length),
{
    ReadRequest {
        address: Address::new(start),
        length: gui_len(spec, start, length),
        use_ecc: true,
        ignore_ecc_errors: false,
        oob_mode: OobMode::Excluded,
        bad_block_strategy: BadBlockStrategy::Skip,
        bbt: None,
        retry_count: 3,
    }
}

/// The erase request for an 'erase' of the window on the chip `spec`.
pub fn gui_erase_request(spec: &ChipSpec, start: u32, length: Option<u32>) -> (r: EraseRequest)
    requires
        length is Some || start <= spec.capacity.0,
    ensures
        r == gui_erase_request_for(*spec, start, length),
{
    EraseRequest {
        address: Address::new(start),
        length: gui_len(spec, start, length),
        bad_block_strategy: BadBlockStrategy::Skip,
        bbt: None,
    }
}

/// The write request for a 'write' of the window of `data`.
pub fn gui_write_request<'a>(start: u32, data: &'a [u8], verify: bool) -> (r: WriteRequest<'a>)
    ensures
        r == gui_write_request_for(start, data, verify),
{
    WriteRequest {
        address: Address::new(start),
        data,
        use_ecc: true,
        verify,
        ignore_ecc_errors: false,
        oob_mode: OobMode::Excluded,
        bad_block_strategy: BadBlockStrategy::Skip,
        bbt: None,
        retry_count: 3,
    }
}

/// The answer when detecting the chip before an operation failed with `reason`.
pub fn detection_failed_reply(reason: &str) -> (m: WorkerMessage)
    ensures
        m matches WorkerMessage::OperationFailed(t) && t@ == "Chip detection failed: "@ + reason@,
{
    WorkerMessage::OperationFailed(joined("Chip detection failed: ", reason))
}

/// The answer when the file to program could not be read.
pub fn file_read_failed_reply(reason: &str) -> (m: WorkerMessage)
    ensures
        m matches WorkerMessage::OperationFailed(t) && t@ == "Failed to read file: "@ + reason@,
{
    WorkerMessage::OperationFailed(joined("Failed to read file: ", reason))
}

/// The answer to a write or an erase: done, or the failure's text.
pub fn operation_reply(outcome: Result<(), String>) -> (m: WorkerMessage)
    ensures
        outcome is Ok ==> m is OperationComplete,
        outcome matches Err(e) ==> m matches WorkerMessage::OperationFailed(t) && t@ == e@,
{
    match outcome {
        Ok(()) => WorkerMessage::OperationComplete,
        Err(e) => WorkerMessage::OperationFailed(e),
    }
}

/// The answer to a read: the failure's text; or, once the data is read,
/// the failure to store it in the file; or the data.
pub fn read_reply(outcome: Result<Vec<u8>, String>, file_error: Option<String>) -> (m: WorkerMessage)
    ensures
        outcome matches Err(e) ==> m matches WorkerMessage::OperationFailed(t) && t@ == e@,
        outcome is Ok ==> (file_error matches Some(e) ==> (m matches WorkerMessage::OperationFailed(t)
            && t@ == "File error: "@ + e@)),
        outcome matches Ok(d) ==> (file_error is None ==> (m matches WorkerMessage::DataRead(v) && v@
            == d@)),
{
    match outcome {
        Err(e) => WorkerMessage::OperationFailed(e),
        Ok(d) => match file_error {
            Some(e) => WorkerMessage::OperationFailed(joined("File error: ", e.as_str())),
            None => WorkerMessage::DataRead(d),
        },
    }
}

// ============================================================================
// The window's side
// ============================================================================

/// Most log lines the window keeps.
pub const MAX_LOG_LINES: usize = 1000;

/// Most received console bytes the window keeps.
pub const MAX_CONSOLE_BYTES: usize = 65536;

/// What the window shows and remembers of the worker's answers. The
/// progress bar, which is a fraction, is kept by the application.
#[derive(Debug, Clone)]
pub struct GuiState {
    pub status_text: String,
    pub programmer_name: Option<String>,
    pub chip_spec: Option<ChipSpec>,
    pub is_busy: bool,
    pub logs: Vec<String>,
    pub logs_open: bool,
    pub preview_data: Vec<u8>,
    pub serial_connected: bool,
    pub serial_port_name: Option<String>,
    pub console_rx_buffer: Vec<u8>,
    pub console_tx_count: usize,
    pub console_rx_count: usize,
    /// Received console data is preceded by a time stamp.
    pub console_timestamp: bool,
}

/// The texts of some strings.
pub open spec fn texts(v: Seq<String>) -> Seq<Seq<char>> {
    v.map_values(|s: String| s@)
}

/// The log after adding `entry`, keeping at most `MAX_LOG_LINES` lines.
pub open spec fn logged(logs: Seq<Seq<char>>, entry: Seq<char>) -> Seq<Seq<char>> {
    let l = logs.push(entry);
    if l.len() > MAX_LOG_LINES {
        l.drop_first()
    } else {
        l
    }
}

/// The log after adding each of `entries` in turn, each after `stamp`.
pub open spec fn logged_all(logs: Seq<Seq<char>>, stamp: Seq<char>, entries: Seq<Seq<char>>) -> Seq<
    Seq<char>,
>
    decreases entries.len(),
{
    if entries.len() == 0 {
        logs
    } else {
        logged(logged_all(logs, stamp, entries.drop_last()), stamp + entries.last())
    }
}

/// The last `n` bytes of `s` (all of them when there are fewer).
pub open spec fn keep_last(s: Seq<u8>, n: nat) -> Seq<u8> {
    if s.len() > n {
        s.subrange(s.len() - n, s.len() as int)
    } else {
        s
    }
}

/// The digit `d` as a character.
pub open spec fn digit_char(d: nat) -> char {
    (48 + d) as char
}

/// `n` written in decimal.
pub open spec fn decimal(n: nat) -> Seq<char>
    decreases n,
{
    if n < 10 {
        seq![digit_char(n)]
    } else {
        decimal(n / 10).push(digit_char(n % 10))
    }
}

/// The one-character text of the digit `d`.
fn digit_text(d: u64) -> (s: &'static str)
    requires
        d < 10,
    ensures
        s@ == seq![digit_char(d as nat)],
{
    proof {
        reveal_strlit("0");
        reveal_strlit("1");
        reveal_strlit("2");
        reveal_strlit("3");
        reveal_strlit("4");
        reveal_strlit("5");
        reveal_strlit("6");
        reveal_strlit("7");
        reveal_strlit("8");
        reveal_strlit("9");
    }
    let s = match d {
        0 => "0",
        1 => "1",
        2 => "2",
        3 => "3",
        4 => "4",
        5 => "5",
        6 => "6",
        7 => "7",
        8 => "8",
        _ => "9",
    };
    assert(s@ =~= seq![digit_char(d as nat)]);
    s
}

/// `n` written in decimal.
pub fn decimal_text(n: u64) -> (s: String)
    ensures
        s@ == decimal(n as nat),
    decreases n,
{
    if n < 10 {
        digit_text(n).to_string()
    } else {
        let mut s = decimal_text(n / 10);
        s.append(digit_text(n % 10));
        s
    }
}

/// Add `stamp` followed by `text` to the log, dropping the oldest line
/// beyond `MAX_LOG_LINES`.
fn push_log(logs: &mut Vec<String>, stamp: &str, text: &str)
    ensures
        texts(final(logs)@) == logged(texts(old(logs)@), stamp@ + text@),
{
    let entry = joined(stamp, text);
    logs.push(entry);
    assert(texts(logs@) =~= texts(old(logs)@).push(stamp@ + text@));
    if logs.len() > MAX_LOG_LINES {
        let ghost before = logs@;
        logs.remove(0);
        assert(texts(logs@) =~= texts(before).drop_first());
    }
}

/// Add the text of `msg` in the log: `stamp`, then `prefix` and `msg`.
fn push_log2(logs: &mut Vec<String>, stamp: &str, prefix: &str, msg: &str)
    ensures
        texts(final(logs)@) == logged(texts(old(logs)@), stamp@ + (prefix@ + msg@)),
{
    let t = joined(prefix, msg);
    push_log(logs, stamp, t.as_str());
}

/// What a state looks like after taking in `msg`, the log lines after
/// `stamp` and received console data after `rx_stamp` when time stamps are
/// on. Progress updates are the application's.
pub open spec fn taken_in(
    old: GuiState,
    new: GuiState,
    msg: WorkerMessage,
    stamp: Seq<char>,
    rx_stamp: Seq<u8>,
) -> bool {
    let logs = texts(old.logs@);
    let l = texts(new.logs@);
    let keep_lines = new.serial_connected == old.serial_connected && new.serial_port_name
        == old.serial_port_name && new.console_rx_buffer@ == old.console_rx_buffer@
        && new.console_tx_count == old.console_tx_count && new.console_rx_count
        == old.console_rx_count && new.console_timestamp == old.console_timestamp;
    let keep_window = new.status_text == old.status_text && new.programmer_name
        == old.programmer_name && new.chip_spec == old.chip_spec && new.is_busy == old.is_busy
        && new.logs_open == old.logs_open && new.preview_data@ == old.preview_data@;
    match msg {
        WorkerMessage::Connected(name) => keep_lines && (new.programmer_name matches Some(n) && n@
            == name@) && l == logged(logs, stamp + "Programmer connected"@) && new.status_text
            == old.status_text && new.chip_spec == old.chip_spec && new.is_busy == old.is_busy
            && new.logs_open == old.logs_open && new.preview_data@ == old.preview_data@,
        WorkerMessage::ConnectionFailed(err) => keep_lines && l == logged(
            logs,
            stamp + ("Connection failed: "@ + err@),
        ) && new.status_text@ == "Connection Failed (see logs)"@ && !new.is_busy && new.logs_open
            && new.programmer_name == old.programmer_name && new.chip_spec == old.chip_spec
            && new.preview_data@ == old.preview_data@,
        WorkerMessage::Disconnected => keep_lines && new.programmer_name is None
            && new.chip_spec is None && l == logged(logs, stamp + "Programmer disconnected"@)
            && new.status_text@ == "Programmer Disconnected"@ && !new.is_busy && new.logs_open
            == old.logs_open && new.preview_data@ == old.preview_data@,
        WorkerMessage::ChipDetected(spec) => keep_lines && l == logged(
            logs,
            stamp + ("Chip detected: "@ + spec.name@ + " ("@ + spec.manufacturer@ + ")"@),
        ) && new.chip_spec == Some(spec) && !new.is_busy && new.status_text@ == "Chip detected"@
            && new.programmer_name == old.programmer_name && new.logs_open == old.logs_open
            && new.preview_data@ == old.preview_data@,
        WorkerMessage::ChipDetectionFailed(err) => keep_lines && l == logged(
            logs,
            stamp + ("Chip detection failed: "@ + err@),
        ) && new.status_text@ == "Chip Detection Failed (see logs)"@ && !new.is_busy
            && new.logs_open && new.programmer_name == old.programmer_name && new.chip_spec
            == old.chip_spec && new.preview_data@ == old.preview_data@,
        WorkerMessage::Progress(_) => keep_lines && keep_window && l == logs,
        WorkerMessage::OperationComplete => keep_lines && l == logged(
            logs,
            stamp + "Operation completed successfully"@,
        ) && !new.is_busy && new.status_text@ == "Ready"@ && new.programmer_name
            == old.programmer_name && new.chip_spec == old.chip_spec && new.logs_open
            == old.logs_open && new.preview_data@ == old.preview_data@,
        WorkerMessage::DataRead(data) => keep_lines && l == logged(
            logs,
            stamp + ("Read "@ + decimal(data@.len()) + " bytes successfully"@),
        ) && new.preview_data@ == data@ && !new.is_busy && new.status_text@ == "Ready"@
            && new.programmer_name == old.programmer_name && new.chip_spec == old.chip_spec
            && new.logs_open == old.logs_open,
        WorkerMessage::OperationFailed(err) => keep_lines && l == logged(
            logs,
            stamp + ("Operation failed: "@ + err@),
        ) && !new.is_busy && new.status_text@ == "Operation Failed (see logs)"@ && new.logs_open
            && new.programmer_name == old.programmer_name && new.chip_spec == old.chip_spec
            && new.preview_data@ == old.preview_data@,
        WorkerMessage::Log(text) => keep_lines && keep_window && l == logged(logs, stamp + text@),
        WorkerMessage::DeviceList(devices) => keep_lines && keep_window && l == logged_all(
            logs,
            stamp,
            device_lines(devices@),
        ),
        WorkerMessage::SerialConnected(name) => keep_window && new.serial_connected
            && (new.serial_port_name matches Some(n) && n@ == name@) && l == logged(
            logs,
            stamp + ("Serial port connected: "@ + name@),
        ) && new.console_rx_buffer@ == old.console_rx_buffer@ && new.console_tx_count
            == old.console_tx_count && new.console_rx_count == old.console_rx_count
            && new.console_timestamp == old.console_timestamp,
        WorkerMessage::SerialDisconnected => keep_window && !new.serial_connected
            && new.serial_port_name is None && l == logged(logs, stamp + "Serial port disconnected"@)
            && new.console_rx_buffer@ == old.console_rx_buffer@ && new.console_tx_count
            == old.console_tx_count && new.console_rx_count == old.console_rx_count
            && new.console_timestamp == old.console_timestamp,
        WorkerMessage::SerialConnectionFailed(err) => keep_lines && l == logged(
            logs,
            stamp + ("Serial connection failed: "@ + err@),
        ) && new.logs_open && new.status_text == old.status_text && new.programmer_name
            == old.programmer_name && new.chip_spec == old.chip_spec && new.is_busy == old.is_busy
            && new.preview_data@ == old.preview_data@,
        WorkerMessage::SerialDataReceived(data) => keep_window && l == logs
            && new.console_rx_count == old.console_rx_count + data@.len()
            && new.console_rx_buffer@ == keep_last(
            old.console_rx_buffer@ + (if old.console_timestamp {
                rx_stamp
            } else {
                Seq::empty()
            }) + data@,
            MAX_CONSOLE_BYTES as nat,
        ) && new.serial_connected == old.serial_connected && new.serial_port_name
            == old.serial_port_name && new.console_tx_count == old.console_tx_count
            && new.console_timestamp == old.console_timestamp,
        WorkerMessage::SerialSendComplete(n) => keep_window && l == logs && new.console_tx_count
            == old.console_tx_count + n && new.serial_connected == old.serial_connected
            && new.serial_port_name == old.serial_port_name && new.console_rx_buffer@
            == old.console_rx_buffer@ && new.console_rx_count == old.console_rx_count
            && new.console_timestamp == old.console_timestamp,
    }
}

/// The log lines that list `devices`: a header, one indented line each,
/// and a closing line.
pub open spec fn device_lines(devices: Seq<String>) -> Seq<Seq<char>> {
    seq!["=== Detected WCH Devices ==="@] + texts(devices).map_values(|d: Seq<char>| "  "@ + d)
        + seq!["==========================="@]
}

/// Log the lines that list `devices`, each after `stamp`.
fn push_device_lines(logs: &mut Vec<String>, stamp: &str, devices: &Vec<String>)
    ensures
        texts(final(logs)@) == logged_all(texts(old(logs)@), stamp@, device_lines(devices@)),
{
    let ghost l0 = texts(logs@);
    let ghost entries = device_lines(devices@);
    push_log(logs, stamp, "=== Detected WCH Devices ===");
    proof {
        assert(entries.take(1).drop_last() =~= Seq::<Seq<char>>::empty());
        assert(logged_all(l0, stamp@, Seq::<Seq<char>>::empty()) == l0);
        assert(entries.take(1).last() == "=== Detected WCH Devices ==="@);
        assert(logged_all(l0, stamp@, entries.take(1)) == texts(logs@));
    }
    let mut i: usize = 0;
    while i < devices.len()
        invariant
            i <= devices@.len(),
            entries == device_lines(devices@),
            texts(logs@) == logged_all(l0, stamp@, entries.take(i + 1)),
        decreases devices@.len() - i,
    {
        push_log2(logs, stamp, "  ", devices[i].as_str());
        proof {
            assert(entries.take(i + 2).drop_last() =~= entries.take(i + 1));
            assert(entries.take(i + 2).last() == "  "@ + devices@[i as int]@);
        }
        i = i + 1;
    }
    push_log(logs, stamp, "===========================");
    proof {
        let n = devices@.len() as int;
        assert(entries.take(n + 2).drop_last() =~= entries.take(n + 1));
        assert(entries.take(n + 2) =~= entries);
    }
}

/// The counters of `state` have room for what `msg` adds.
pub open spec fn counts_fit(state: GuiState, msg: WorkerMessage) -> bool {
    match msg {
        WorkerMessage::SerialDataReceived(data) => state.console_rx_count + data@.len() <= usize::MAX,
        WorkerMessage::SerialSendComplete(n) => state.console_tx_count + n <= usize::MAX,
        _ => true,
    }
}

/// Append `src` to `dst`.
fn append_bytes(dst: &mut Vec<u8>, src: &[u8])
    ensures
        final(dst)@ == old(dst)@ + src@,
{
    let mut i: usize = 0;
    let ghost d0 = dst@;
    while i < src.len()
        invariant
            i <= src@.len(),
            dst@ == d0 + src@.subrange(0, i as int),
        decreases src@.len() - i,
    {
        dst.push(src[i]);
        assert(src@.subrange(0, i + 1) =~= src@.subrange(0, i as int).push(src@[i as int]));
        i = i + 1;
    }
    assert(src@.subrange(0, src@.len() as int) =~= src@);
}

/// Take in an answer of the worker: update what the window shows, with the
/// log lines after `stamp` (the time of day) and received console data
/// after `rx_stamp` when time stamps are on. A connection asks for the chip
/// to be detected next: that request is returned.
pub fn apply_worker_message(state: &mut GuiState, msg: WorkerMessage, stamp: &str, rx_stamp: &[u8]) -> (next:
    Option<GuiMessage>)
    requires
        counts_fit(*old(state), msg),
    ensures
        taken_in(*old(state), *final(state), msg, stamp@, rx_stamp@),
        msg is Connected ==> next matches Some(GuiMessage::DetectChip),
        !(msg is Connected) ==> next is None,
{
    match msg {
        WorkerMessage::Connected(name) => {
            state.programmer_name = Some(name);
            push_log(&mut state.logs, stamp, "Programmer connected");
            return Some(GuiMessage::DetectChip);
        },
        WorkerMessage::ConnectionFailed(err) => {
            push_log2(&mut state.logs, stamp, "Connection failed: ", err.as_str());
            state.status_text = "Connection Failed (see logs)".to_string();
            state.is_busy = false;
            state.logs_open = true;
        },
        WorkerMessage::Disconnected => {
            state.programmer_name = None;
            state.chip_spec = None;
            push_log(&mut state.logs, stamp, "Programmer disconnected");
            state.status_text = "Programmer Disconnected".to_string();
            state.is_busy = false;
        },
        WorkerMessage::ChipDetected(spec) => {
            let a = joined("Chip detected: ", spec.name.as_str());
            let b = joined(a.as_str(), " (");
            let c = joined(b.as_str(), spec.manufacturer.as_str());
            let d = joined(c.as_str(), ")");
            push_log(&mut state.logs, stamp, d.as_str());
            state.chip_spec = Some(spec);
            state.is_busy = false;
            state.status_text = "Chip detected".to_string();
        },
        WorkerMessage::ChipDetectionFailed(err) => {
            push_log2(&mut state.logs, stamp, "Chip detection failed: ", err.as_str());
            state.status_text = "Chip Detection Failed (see logs)".to_string();
            state.is_busy = false;
            state.logs_open = true;
        },
        WorkerMessage::Progress(_) => {},
        WorkerMessage::OperationComplete => {
            push_log(&mut state.logs, stamp, "Operation completed successfully");
            state.is_busy = false;
            state.status_text = "Ready".to_string();
        },
        WorkerMessage::DataRead(data) => {
            let n = decimal_text(data.len() as u64);
            assert(n@ == decimal(data@.len()));
            let a = joined("Read ", n.as_str());
            let b = joined(a.as_str(), " bytes successfully");
            push_log(&mut state.logs, stamp, b.as_str());
            state.preview_data = data;
            state.is_busy = false;
            state.status_text = "Ready".to_string();
        },
        WorkerMessage::OperationFailed(err) => {
            push_log2(&mut state.logs, stamp, "Operation failed: ", err.as_str());
            state.is_busy = false;
            state.status_text = "Operation Failed (see logs)".to_string();
            state.logs_open = true;
        },
        WorkerMessage::Log(text) => {
            push_log(&mut state.logs, stamp, text.as_str());
        },
        WorkerMessage::DeviceList(devices) => {
            push_device_lines(&mut state.logs, stamp, &devices);
        },
        WorkerMessage::SerialConnected(name) => {
            state.serial_connected = true;
            push_log2(&mut state.logs, stamp, "Serial port connected: ", name.as_str());
            state.serial_port_name = Some(name);
        },
        WorkerMessage::SerialDisconnected => {
            state.serial_connected = false;
            state.serial_port_name = None;
            push_log(&mut state.logs, stamp, "Serial port disconnected");
        },
        WorkerMessage::SerialConnectionFailed(err) => {
            push_log2(&mut state.logs, stamp, "Serial connection failed: ", err.as_str());
            state.logs_open = true;
        },
        WorkerMessage::SerialDataReceived(data) => {
            let ghost all = old(state).console_rx_buffer@ + (if old(state).console_timestamp {
                rx_stamp@
            } else {
                Seq::empty()
            }) + data@;
            state.console_rx_count = state.console_rx_count + data.len();
            if state.console_timestamp {
                append_bytes(&mut state.console_rx_buffer, rx_stamp);
            }
            append_bytes(&mut state.console_rx_buffer, data.as_slice());
            if state.console_rx_buffer.len() > MAX_CONSOLE_BYTES {
                let start = state.console_rx_buffer.len() - MAX_CONSOLE_BYTES;
                let kept = vstd::slice::slice_to_vec(
                    vstd::slice::slice_subrange(
                        state.console_rx_buffer.as_slice(),
                        start,
                        state.console_rx_buffer.len(),
                    ),
                );
                state.console_rx_buffer = kept;
            }
            assert(state.console_rx_buffer@ =~= keep_last(all, MAX_CONSOLE_BYTES as nat));
        },
        WorkerMessage::SerialSendComplete(n) => {
            state.console_tx_count = state.console_tx_count + n;
        },
    }
    None
}

} // verus!
