//! The gateway itself: what it does with each event, and what it remembers.
//!
//! The gateway performs no input or output. It is told what was read, and says
//! what is to be written.

use vstd::prelude::*;
use vstd::string::*;

use crate::commands::{float_text, process_udp_message};
use crate::frames::{decode_frame, log_record, FrameError, SerialBuffer};
use crate::telemetry::{plot_messages, LogModel, LogRecord};
use crate::text::{decimal_text, from_utf8_lossy, pad_right};

verus! {

/// The token under which the serial port is polled.
pub const SERIAL_TOKEN: usize = 0;

/// The token under which the command socket is polled.
pub const COMMAND_UDP_TOKEN: usize = 1;

/// How many bytes of a command datagram are read.
pub const MAX_UDP_PACKET_SIZE: usize = 512;

/// How long a status line stands before the next one, in nanoseconds.
pub const STATUS_INTERVAL: u128 = 500_000_000;

/// Where an event comes from.
#[derive(Debug, Clone, Copy, PartialEq, Eq, Structural)]
pub enum EventSource {
    /// The serial port can be read.
    Serial,
    /// The command socket can be read.
    Commands,
}

/// Where the event with a given token comes from.
pub fn event_source(token: usize) -> (r: Option<EventSource>)
    ensures
        r == Some(EventSource::Serial) <==> token == SERIAL_TOKEN,
        r == Some(EventSource::Commands) <==> token == COMMAND_UDP_TOKEN,
{
    if token == COMMAND_UDP_TOKEN {
        Some(EventSource::Commands)
    } else if token == SERIAL_TOKEN {
        Some(EventSource::Serial)
    } else {
        None
    }
}

// ---------------------------------------------------------------------------
// Commands
// ---------------------------------------------------------------------------

/// What came of reading the command socket.
#[derive(Debug)]
pub enum CommandRead {
    /// A datagram, and who sent it.
    Datagram { bytes: Vec<u8>, source: String },
    /// No datagram is waiting.
    WouldBlock,
    /// Reading failed.
    Failed(String),
}

/// What is to be done after the command socket was read.
#[derive(Debug)]
pub enum CommandStep {
    /// Write these bytes to the serial port, and read on.
    Write(Vec<u8>),
    /// Report this, and read on.
    Report(String),
    /// Wait for the next event.
    Stop,
}

/// The text in a datagram that is to be read as a single-precision number.
pub fn datagram_float_text(bytes: &[u8]) -> (r: Option<String>)
    ensures
        match r {
            Some(text) => crate::commands::requested_float(crate::text::text_of(bytes@)) == Some(
                text@,
            ),
            None => crate::commands::requested_float(crate::text::text_of(bytes@)) is None,
        },
{
    float_text(from_utf8_lossy(bytes).as_str())
}

/// What is to be done after the command socket was read.
///
/// `float_bits` is the single-precision number that the text of
/// [`datagram_float_text`] reads as, by its bit pattern, or nothing where that text
/// is no number.
pub fn handle_command_read(read: &CommandRead, float_bits: Option<u32>) -> (r: CommandStep)
    ensures
        match read {
            CommandRead::Datagram { bytes, source } => {
                let msg = crate::text::text_of(bytes@);
                match crate::commands::requested_packet(msg, float_bits) {
                    Some(packet) => r matches CommandStep::Write(p) && p@ == packet,
                    None => r matches CommandStep::Report(m) && m@ == "\nInvalid command from "@
                        + source@ + ": "@ + msg,
                }
            },
            CommandRead::WouldBlock => r is Stop,
            CommandRead::Failed(e) => r matches CommandStep::Report(m) && m@
                == "\nCommand UDP receive error: "@ + e@,
        },
{
    match read {
        CommandRead::Datagram { bytes, source } => {
            let msg_str = from_utf8_lossy(bytes.as_slice());
            match process_udp_message(msg_str.as_str(), float_bits) {
                Some(packet_to_send) => CommandStep::Write(packet_to_send),
                None => {
                    let mut m = "\nInvalid command from ".to_owned();
                    m.append(source.as_str());
                    m.append(": ");
                    m.append(msg_str.as_str());
                    CommandStep::Report(m)
                },
            }
        },
        CommandRead::WouldBlock => CommandStep::Stop,
        CommandRead::Failed(e) => {
            let mut m = "\nCommand UDP receive error: ".to_owned();
            m.append(e.as_str());
            CommandStep::Report(m)
        },
    }
}

/// What is reported where a command could not be written to the serial port.
pub fn write_failure(e: &str) -> (r: String)
    ensures
        r@ == "\nFailed to write command to serial port: "@ + e@,
{
    let mut r = "\nFailed to write command to serial port: ".to_owned();
    r.append(e);
    r
}

// ---------------------------------------------------------------------------
// The serial line
// ---------------------------------------------------------------------------

/// What came of reading the serial port.
#[derive(Debug)]
pub enum SerialRead {
    /// These bytes were read.
    Bytes(Vec<u8>),
    /// No bytes are waiting.
    WouldBlock,
    /// Reading failed.
    Failed(String),
}

/// What is to be done after the serial port was read.
#[derive(Debug)]
pub enum SerialStep {
    /// Handle these frames, and read on.
    Frames(Vec<Vec<u8>>),
    /// Wait for the next event.
    Stop,
    /// Give up, with this error.
    Fail(String),
}

/// What is to be done with a frame.
#[derive(Debug)]
pub enum FrameStep {
    /// Decode this log record.
    Decode(Vec<u8>),
    /// The frame was dropped. Report this.
    Dropped(String),
}

/// What comes of a frame.
pub enum FrameOutcome {
    /// It holds this log record.
    Decode(Seq<u8>),
    /// It is dropped, for the reason reported.
    Dropped(Seq<char>),
}

impl View for FrameStep {
    type V = FrameOutcome;

    open spec fn view(&self) -> FrameOutcome {
        match self {
            FrameStep::Decode(record) => FrameOutcome::Decode(record@),
            FrameStep::Dropped(m) => FrameOutcome::Dropped(m@),
        }
    }
}

/// What is to be done once the decoder has seen a log record.
#[derive(Debug)]
pub enum LogStep {
    /// Send these plot messages, or report what is wrong with the record's arguments;
    /// then show the record.
    Accepted(Result<Vec<String>, String>),
    /// The frame was dropped. Report this.
    Dropped(String),
}

/// What comes of a log record once the decoder has seen it.
pub enum LogOutcome {
    /// It gives these plot messages, or its arguments have this fault.
    Accepted(Result<Seq<Seq<char>>, Seq<char>>),
    /// Its frame is dropped, for the reason reported.
    Dropped(Seq<char>),
}

impl View for LogStep {
    type V = LogOutcome;

    open spec fn view(&self) -> LogOutcome {
        match self {
            LogStep::Accepted(Ok(messages)) => LogOutcome::Accepted(
                Ok(crate::text::views(messages@)),
            ),
            LogStep::Accepted(Err(e)) => LogOutcome::Accepted(Err(e@)),
            LogStep::Dropped(m) => LogOutcome::Dropped(m@),
        }
    }
}

/// What is to be shown of a log record.
#[derive(Debug, Clone, Copy, PartialEq, Eq, Structural)]
pub enum LogDisplay {
    /// The record as a line of the log.
    Line,
    /// A new status line.
    Status,
    /// Nothing.
    Nothing,
}

/// What comes of a frame that holds `record`, or is faulty.
pub open spec fn frame_outcome(record: Result<Seq<u8>, FrameError>) -> FrameOutcome {
    match record {
        Ok(bytes) => FrameOutcome::Decode(bytes),
        Err(e) => FrameOutcome::Dropped(e.report()),
    }
}

/// What the gateway remembers.
pub struct GatewayState {
    /// How many log records were decoded.
    pub msg_count: nat,
    /// How many frames were dropped.
    pub dropped_count: nat,
    /// The time up to which the last status line stands, in nanoseconds since the
    /// gateway was started.
    pub last_status_update: nat,
    /// Whether a status line is shown in place of the log.
    pub status_only: bool,
    /// What the serial line sent of a frame that is not complete.
    pub pending: Seq<u8>,
}

impl GatewayState {
    /// What comes of a frame whose log record was decoded, or could not be.
    pub open spec fn log_outcome(self, decoded: Result<LogModel, Seq<char>>) -> LogOutcome {
        match decoded {
            Ok(log) => LogOutcome::Accepted(
                crate::telemetry::plot_data(self.msg_count, log.args),
            ),
            Err(e) => LogOutcome::Dropped("Err: "@ + e),
        }
    }

    /// The state after one more frame was dropped.
    pub open spec fn one_dropped(self) -> GatewayState {
        GatewayState { dropped_count: self.dropped_count + 1, ..self }
    }

    /// The state after one more log record was decoded.
    pub open spec fn one_decoded(self) -> GatewayState {
        GatewayState { msg_count: self.msg_count + 1, ..self }
    }

    /// The state after a frame was looked at, up to its log record.
    pub open spec fn after_frame(self, outcome: FrameOutcome) -> GatewayState {
        match outcome {
            FrameOutcome::Decode(_) => self,
            FrameOutcome::Dropped(_) => self.one_dropped(),
        }
    }

    /// The state after the decoder has seen a log record.
    pub open spec fn after_log(self, outcome: LogOutcome) -> GatewayState {
        match outcome {
            LogOutcome::Accepted(_) => self.one_decoded(),
            LogOutcome::Dropped(_) => self.one_dropped(),
        }
    }

    /// Whether a status line is due at time `now`.
    pub open spec fn status_due(self, now: nat) -> bool {
        self.status_only && now > self.last_status_update
    }

    /// The state after a status line for the time `now` was printed, where `flushed` says
    /// whether it came out. One that did not leaves the state as it was.
    pub open spec fn after_status(self, now: nat, flushed: bool) -> GatewayState {
        if flushed {
            GatewayState { last_status_update: now + STATUS_INTERVAL as nat, ..self }
        } else {
            self
        }
    }
}

/// A log record as a line of the log.
pub open spec fn log_text(level: Seq<char>, text: Seq<char>) -> Seq<char> {
    crate::text::padded(level, 7) + " > "@ + text
}

/// The status line: the latest log record, the message rate, and how many messages
/// there were and were dropped. `rate` and `drop_ratio` are numbers with two decimals.
pub open spec fn status_text(
    state: GatewayState,
    level: Seq<char>,
    text: Seq<char>,
    rate: Seq<char>,
    drop_ratio: Seq<char>,
) -> Seq<char> {
    "\r"@ + crate::text::padded(level, 7) + " > "@ + crate::text::padded(text, 40) + " "@
        + crate::text::padded(rate, 7) + " msg/s (Total: "@ + crate::text::decimal(state.msg_count)
        + ", Dropped: "@ + crate::text::decimal(state.dropped_count) + ", "@ + drop_ratio
        + "%)   "@
}

/// A gateway.
pub struct SerialGateway {
    msg_count: u64,
    dropped_count: u64,
    status_shown_at: Option<u128>,
    status_only: bool,
    buffer: SerialBuffer,
}

impl View for SerialGateway {
    type V = GatewayState;

    closed spec fn view(&self) -> GatewayState {
        GatewayState {
            msg_count: self.msg_count as nat,
            dropped_count: self.dropped_count as nat,
            last_status_update: match self.status_shown_at {
                Some(t) => t as nat + STATUS_INTERVAL as nat,
                None => 0,
            },
            status_only: self.status_only,
            pending: self.buffer@,
        }
    }
}

impl SerialGateway {
    /// The buffer for the serial line is well-formed.
    pub closed spec fn wf(&self) -> bool {
        self.buffer.wf()
    }

    /// What is pending fits in the receive buffer, and holds no zero byte.
    pub proof fn pending_bytes_are_bounded(&self)
        requires
            self.wf(),
        ensures
            self@.pending.len() <= crate::frames::SERIAL_BUF_SIZE,
            crate::frames::zero_free(self@.pending),
    {
        self.buffer.kept_bytes_are_bounded();
    }

    /// A gateway that has seen nothing yet.
    pub fn new(status_only: bool) -> (r: SerialGateway)
        ensures
            r.wf(),
            r@ == (GatewayState {
                msg_count: 0,
                dropped_count: 0,
                last_status_update: 0,
                status_only,
                pending: seq![],
            }),
    {
        SerialGateway {
            msg_count: 0,
            dropped_count: 0,
            status_shown_at: None,
            status_only,
            buffer: SerialBuffer::new(),
        }
    }

    /// How many log records were decoded.
    pub fn msg_count(&self) -> (r: u64)
        ensures
            r == self@.msg_count,
    {
        self.msg_count
    }

    /// How many frames were dropped.
    pub fn dropped_count(&self) -> (r: u64)
        ensures
            r == self@.dropped_count,
    {
        self.dropped_count
    }

    /// How many bytes may be read from the serial port next.
    pub fn make_room(&mut self) -> (r: usize)
        requires
            old(self).wf(),
        ensures
            final(self).wf(),
            final(self)@ == old(self)@,
            r == crate::frames::SERIAL_BUF_SIZE - old(self)@.pending.len(),
    {
        self.buffer.make_room()
    }

    /// What is to be done after the serial port was read.
    pub fn handle_serial_read(&mut self, read: &SerialRead) -> (r: SerialStep)
        requires
            old(self).wf(),
            read matches SerialRead::Bytes(bytes) ==> old(self)@.pending.len() + bytes@.len()
                <= crate::frames::SERIAL_BUF_SIZE,
        ensures
            final(self).wf(),
            match read {
                SerialRead::Bytes(bytes) => {
                    let line = old(self)@.pending + bytes@;
                    let rest = crate::frames::unfinished(line);
                    if bytes@.len() == 0 {
                        r is Stop && final(self)@ == old(self)@
                    } else {
                        &&& final(self)@ == (GatewayState { pending: rest, ..old(self)@ })
                        &&& if rest.len() == crate::frames::SERIAL_BUF_SIZE {
                            r matches SerialStep::Fail(e) && e@
                                == "Buffer full without finding frame boundary"@
                        } else {
                            r matches SerialStep::Frames(frames) && crate::frames::views(frames@)
                                == crate::frames::whole_frames(line)
                        }
                    }
                },
                SerialRead::WouldBlock => r is Stop && final(self)@ == old(self)@,
                SerialRead::Failed(e) => {
                    &&& r matches SerialStep::Fail(m) && m@ == "Serial read error: "@ + e@
                    &&& final(self)@ == old(self)@
                },
            },
    {
        match read {
            SerialRead::Bytes(bytes) => {
                if bytes.len() == 0 {
                    return SerialStep::Stop;
                }
                let frames = self.buffer.feed(bytes.as_slice());
                if self.buffer.is_full() {
                    SerialStep::Fail("Buffer full without finding frame boundary".to_owned())
                } else {
                    SerialStep::Frames(frames)
                }
            },
            SerialRead::WouldBlock => SerialStep::Stop,
            SerialRead::Failed(e) => {
                let mut m = "Serial read error: ".to_owned();
                m.append(e.as_str());
                SerialStep::Fail(m)
            },
        }
    }

    /// Looks at a frame that came over the serial line.
    pub fn handle_frame(&mut self, frame: &[u8]) -> (r: FrameStep)
        requires
            old(self).wf(),
            crate::frames::record_of_frame(frame@) is Err ==> old(self)@.dropped_count < u64::MAX,
        ensures
            final(self).wf(),
            r@ == frame_outcome(crate::frames::record_of_frame(frame@)),
            final(self)@ == old(self)@.after_frame(r@),
    {
        match decode_frame(frame) {
            Ok(decoded) => self.handle_decoded_frame(decoded.as_slice()),
            Err(e) => {
                self.dropped_count = self.dropped_count + 1;
                FrameStep::Dropped(e.message())
            },
        }
    }

    /// Looks at a frame whose encoding was undone.
    pub fn handle_decoded_frame(&mut self, decoded: &[u8]) -> (r: FrameStep)
        requires
            old(self).wf(),
            crate::frames::record_of(decoded@) is Err ==> old(self)@.dropped_count < u64::MAX,
        ensures
            final(self).wf(),
            r@ == frame_outcome(crate::frames::record_of(decoded@)),
            final(self)@ == old(self)@.after_frame(r@),
    {
        match log_record(decoded) {
            Ok(record) => FrameStep::Decode(record),
            Err(e) => {
                self.dropped_count = self.dropped_count + 1;
                FrameStep::Dropped(e.message())
            },
        }
    }

    /// Deals with a log record that was decoded, or could not be, for the reason given.
    pub fn handle_decoded_log(&mut self, decoded: Result<LogRecord, String>) -> (r: LogStep)
        requires
            old(self).wf(),
            decoded is Ok ==> old(self)@.msg_count < u64::MAX,
            decoded is Err ==> old(self)@.dropped_count < u64::MAX,
        ensures
            final(self).wf(),
            r@ == old(self)@.log_outcome(
                match decoded {
                    Ok(log) => Ok(log@),
                    Err(e) => Err(e@),
                },
            ),
            final(self)@ == old(self)@.after_log(r@),
    {
        match decoded {
            Ok(log) => {
                let telemetry = self.process_telemetry_log(&log);
                self.msg_count = self.msg_count + 1;
                LogStep::Accepted(telemetry)
            },
            Err(e) => {
                self.dropped_count = self.dropped_count + 1;
                let mut m = "Err: ".to_owned();
                m.append(e.as_str());
                LogStep::Dropped(m)
            },
        }
    }

    /// The plot messages that a log record gives now, or what is wrong with its
    /// arguments.
    pub fn process_telemetry_log(&self, log: &LogRecord) -> (r: Result<Vec<String>, String>)
        ensures
            match r {
                Ok(messages) => crate::telemetry::plot_data(self@.msg_count, log@.args) == Ok::<
                    Seq<Seq<char>>,
                    Seq<char>,
                >(crate::text::views(messages@)),
                Err(e) => crate::telemetry::plot_data(self@.msg_count, log@.args) == Err::<
                    Seq<Seq<char>>,
                    Seq<char>,
                >(e@),
            },
    {
        plot_messages(self.msg_count, log)
    }

    /// What is to be shown of a log record at time `now`, in nanoseconds since the
    /// gateway was started.
    pub fn show_log(&self, now: u128) -> (r: LogDisplay)
        ensures
            r == (if !self@.status_only {
                LogDisplay::Line
            } else if self@.status_due(now as nat) {
                LogDisplay::Status
            } else {
                LogDisplay::Nothing
            }),
    {
        if !self.status_only {
            LogDisplay::Line
        } else {
            let due = match self.status_shown_at {
                Some(t) => now > t && now - t > STATUS_INTERVAL,
                None => now > 0,
            };
            if due {
                LogDisplay::Status
            } else {
                LogDisplay::Nothing
            }
        }
    }

    /// Takes note of a status line that was printed at time `now`. Where flushing it
    /// failed, nothing changes, and the error is handed back.
    pub fn status_printed(&mut self, now: u128, flushed: Result<(), String>) -> (r: Result<
        (),
        String,
    >)
        requires
            old(self).wf(),
        ensures
            final(self).wf(),
            r == flushed,
            final(self)@ == old(self)@.after_status(now as nat, flushed is Ok),
    {
        if flushed.is_ok() {
            self.status_shown_at = Some(now);
        }
        flushed
    }

    /// The status line for a log record with the given level and message. `rate` is the
    /// number of messages per second and `drop_ratio` the dropped frames per hundred
    /// messages, each with two decimals.
    pub fn status_line(&self, level: &str, text: &str, rate: &str, drop_ratio: &str) -> (r: String)
        ensures
            r@ == status_text(self@, level@, text@, rate@, drop_ratio@),
    {
        let mut r = "\r".to_owned();
        r.append(pad_right(level, 7).as_str());
        r.append(" > ");
        r.append(pad_right(text, 40).as_str());
        r.append(" ");
        r.append(pad_right(rate, 7).as_str());
        r.append(" msg/s (Total: ");
        r.append(decimal_text(self.msg_count).as_str());
        r.append(", Dropped: ");
        r.append(decimal_text(self.dropped_count).as_str());
        r.append(", ");
        r.append(drop_ratio);
        r.append("%)   ");
        r
    }
}

/// The line of the log for a log record with the given level and message.
pub fn log_line(level: &str, text: &str) -> (r: String)
    ensures
        r@ == log_text(level@, text@),
{
    let mut r = pad_right(level, 7);
    r.append(" > ");
    r.append(text);
    r
}

/// What is reported where a log record gave no plot messages, or they could not be
/// sent.
pub fn telemetry_failure(e: &str) -> (r: String)
    ensures
        r@ == "Failed to process telemetry log: "@ + e@,
{
    let mut r = "Failed to process telemetry log: ".to_owned();
    r.append(e);
    r
}

// ---------------------------------------------------------------------------
// Laws
// ---------------------------------------------------------------------------

/// The state after a frame was dealt with, where `decoded` is what the decoder makes
/// of the log record in it.
pub open spec fn frame_done(
    state: GatewayState,
    frame: Seq<u8>,
    decoded: Result<LogModel, Seq<char>>,
) -> GatewayState {
    let outcome = frame_outcome(crate::frames::record_of_frame(frame));
    match outcome {
        FrameOutcome::Decode(_) => state.after_frame(outcome).after_log(
            state.after_frame(outcome).log_outcome(decoded),
        ),
        FrameOutcome::Dropped(_) => state.after_frame(outcome),
    }
}

/// The state after several frames, one after the other.
pub open spec fn frames_done(
    state: GatewayState,
    frames: Seq<Seq<u8>>,
    decoded: Seq<Result<LogModel, Seq<char>>>,
) -> GatewayState
    decreases frames.len(),
{
    if frames.len() == 0 {
        state
    } else {
        frame_done(
            frames_done(state, frames.drop_last(), decoded.drop_last()),
            frames.last(),
            decoded.last(),
        )
    }
}

/// Whether a frame holds a log record that is decoded.
pub open spec fn is_message(frame: Seq<u8>, decoded: Result<LogModel, Seq<char>>) -> bool {
    crate::frames::record_of_frame(frame) is Ok && decoded is Ok
}

/// How many of several frames hold a log record that is decoded.
pub open spec fn messages(
    frames: Seq<Seq<u8>>,
    decoded: Seq<Result<LogModel, Seq<char>>>,
) -> nat
    decreases frames.len(),
{
    if frames.len() == 0 {
        0
    } else {
        messages(frames.drop_last(), decoded.drop_last()) + if is_message(
            frames.last(),
            decoded.last(),
        ) {
            1nat
        } else {
            0nat
        }
    }
}

/// Every frame counts once: as a message where it holds a log record that is decoded,
/// else as dropped. Frames change nothing else.
pub proof fn every_frame_counts_once(
    state: GatewayState,
    frames: Seq<Seq<u8>>,
    decoded: Seq<Result<LogModel, Seq<char>>>,
)
    requires
        decoded.len() == frames.len(),
    ensures
        messages(frames, decoded) <= frames.len(),
        frames_done(state, frames, decoded) == (GatewayState {
            msg_count: state.msg_count + messages(frames, decoded),
            dropped_count: (state.dropped_count + frames.len() - messages(
                frames,
                decoded,
            )) as nat,
            ..state
        }),
    decreases frames.len(),
{
    if frames.len() > 0 {
        every_frame_counts_once(state, frames.drop_last(), decoded.drop_last());
    }
}

/// A record's plot messages carry the number of records that were decoded before it:
/// those at the start, and those in the frames that came earlier.
pub proof fn plots_carry_the_number_of_their_record(
    state: GatewayState,
    frames: Seq<Seq<u8>>,
    decoded: Seq<Result<LogModel, Seq<char>>>,
    i: int,
    log: LogModel,
)
    requires
        decoded.len() == frames.len(),
        0 <= i < frames.len(),
        decoded[i] == Ok::<LogModel, Seq<char>>(log),
        crate::frames::record_of_frame(frames[i]) is Ok,
    ensures
        ({
            let before = frames_done(state, frames.take(i), decoded.take(i));
            &&& before.log_outcome(decoded[i]) == LogOutcome::Accepted(
                crate::telemetry::plot_data(
                    state.msg_count + messages(frames.take(i), decoded.take(i)),
                    log.args,
                ),
            )
            &&& frames_done(state, frames.take(i + 1), decoded.take(i + 1)) == before.one_decoded()
        }),
{
    every_frame_counts_once(state, frames.take(i), decoded.take(i));
    assert(frames.take(i + 1).drop_last() == frames.take(i));
    assert(decoded.take(i + 1).drop_last() == decoded.take(i));
}

/// Dropped frames and decoded records do not move the status line: after any frames it is
/// due exactly where it was due before them. In a gateway with status lines it is due at
/// every time past that of the last, whatever the counts are.
pub proof fn frames_do_not_move_status_lines(
    state: GatewayState,
    frames: Seq<Seq<u8>>,
    decoded: Seq<Result<LogModel, Seq<char>>>,
    now: nat,
)
    requires
        decoded.len() == frames.len(),
    ensures
        frames_done(state, frames, decoded).status_due(now) <==> state.status_due(now),
        state.status_due(now) <==> state.status_only && state.last_status_update < now,
{
    every_frame_counts_once(state, frames, decoded);
}

/// A status line stands for its interval: after one at `t1`, the next is due more than
/// the interval later.
pub proof fn status_lines_keep_their_distance(state: GatewayState, t1: nat, t2: nat)
    requires
        state.status_due(t1),
    ensures
        state.after_status(t1, true).status_due(t2) <==> t2 > t1 + STATUS_INTERVAL,
{
}

/// A record whose status line could not be flushed still counts, and the status line
/// stays due.
pub proof fn failed_status_lines_stay_due(state: GatewayState, log: LogModel, t1: nat, t2: nat)
    requires
        state.status_due(t1),
        t1 <= t2,
    ensures
        ({
            let seen = state.after_log(state.log_outcome(Ok(log)));
            &&& seen.status_due(t1)
            &&& seen.after_status(t1, false) == state.one_decoded()
            &&& seen.after_status(t1, false).status_due(t2)
        }),
{
}

/// The gateway gives up on the line only where it sent as many bytes as the buffer
/// holds without a zero byte among them; so no frame is lost to a full buffer.
pub proof fn full_buffer_holds_no_frame(pending: Seq<u8>, bytes: Seq<u8>)
    requires
        pending.len() + bytes.len() <= crate::frames::SERIAL_BUF_SIZE,
        crate::frames::unfinished(pending + bytes).len() == crate::frames::SERIAL_BUF_SIZE,
    ensures
        (pending + bytes).len() == crate::frames::SERIAL_BUF_SIZE,
        crate::frames::zero_free(pending + bytes),
        crate::frames::whole_frames(pending + bytes).len() == 0,
{
    let line = pending + bytes;
    crate::frames::no_byte_is_lost(line);
    let frames = crate::frames::whole_frames(line);
    let rest = crate::frames::unfinished(line);
    assert(crate::frames::joined(frames).len() + rest.len() == line.len());
    if frames.len() > 0 {
        assert(crate::frames::joined(frames).len() > 0);
    }
    assert(crate::frames::joined(frames) + rest == rest);
}

} // verus!
