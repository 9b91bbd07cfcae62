//! The messages that the manager and its clients exchange, and how one is framed on the socket.

use vstd::prelude::*;
use vstd::utf8::{
    decode_utf8, encode_scalar, encode_utf8, encode_utf8_decode_utf8, encode_utf8_valid_utf8,
    valid_utf8,
};

use crate::text::{lemma_encode_concat, trim_end, trim_end_of, views, white_space};

verus! {

/// What a client asks of the manager.
#[derive(Debug)]
pub enum ClientMessage {
    Attach,
    Ping,
    Shutdown,
    AllAction { action: ProcessAction },
    ProcessAction { service: String, action: ProcessAction },
}

/// What is to be done to a service.
#[derive(Debug, Clone, Copy, PartialEq, Eq, Structural)]
pub enum ProcessAction {
    Restart,
    Stop,
    Start,
}

/// What a service is doing.
#[derive(Debug, Clone, Copy, PartialEq, Eq, Structural)]
pub enum ServiceState {
    Starting,
    Running,
    Stopped,
    Exited,
}

/// A share of the processor in percent, held as the bits of an IEEE 754 single.
#[derive(Debug, Clone, Copy, PartialEq, Eq, Structural)]
pub struct CpuPercent {
    pub bits: u32,
}

/// A service as the manager last saw it.
#[derive(Debug)]
pub struct ServiceSnapshot {
    pub name: String,
    pub pid: Option<u32>,
    pub state: ServiceState,
    pub ready: bool,
    pub cpu_percent: CpuPercent,
    pub memory_bytes: u64,
    pub last_exit_code: Option<i32>,
}

/// A line that a service wrote.
#[derive(Debug)]
pub struct LogEntry {
    pub service: String,
    pub line: String,
}

/// What the manager tells a client.
#[derive(Debug)]
pub enum ServerMessage {
    Ready,
    Snapshot { services: Vec<ServiceSnapshot>, recent_logs: Vec<LogEntry>, max_name_width: usize },
    Log { entry: LogEntry },
    ServiceUpdate { service: ServiceSnapshot },
    Ack { message: String },
    Error { message: String },
    ManagerStopping,
}

/// A client's message as a value.
pub enum ClientMessageView {
    Attach,
    Ping,
    Shutdown,
    AllAction { action: ProcessAction },
    ProcessAction { service: Seq<char>, action: ProcessAction },
}

/// A snapshot as a value.
pub struct SnapshotView {
    pub name: Seq<char>,
    pub pid: Option<u32>,
    pub state: ServiceState,
    pub ready: bool,
    pub cpu_percent: CpuPercent,
    pub memory_bytes: u64,
    pub last_exit_code: Option<i32>,
}

/// A line of a service as a value.
pub struct LogEntryView {
    pub service: Seq<char>,
    pub line: Seq<char>,
}

/// A manager's message as a value.
pub enum ServerMessageView {
    Ready,
    Snapshot { services: Seq<SnapshotView>, recent_logs: Seq<LogEntryView>, max_name_width: usize },
    Log { entry: LogEntryView },
    ServiceUpdate { service: SnapshotView },
    Ack { message: Seq<char> },
    Error { message: Seq<char> },
    ManagerStopping,
}

impl View for ClientMessage {
    type V = ClientMessageView;

    open spec fn view(&self) -> ClientMessageView {
        match *self {
            ClientMessage::Attach => ClientMessageView::Attach,
            ClientMessage::Ping => ClientMessageView::Ping,
            ClientMessage::Shutdown => ClientMessageView::Shutdown,
            ClientMessage::AllAction { action } => ClientMessageView::AllAction { action },
            ClientMessage::ProcessAction { service, action } => ClientMessageView::ProcessAction {
                service: service@,
                action,
            },
        }
    }
}

impl View for ServiceSnapshot {
    type V = SnapshotView;

    open spec fn view(&self) -> SnapshotView {
        SnapshotView {
            name: self.name@,
            pid: self.pid,
            state: self.state,
            ready: self.ready,
            cpu_percent: self.cpu_percent,
            memory_bytes: self.memory_bytes,
            last_exit_code: self.last_exit_code,
        }
    }
}

impl View for LogEntry {
    type V = LogEntryView;

    open spec fn view(&self) -> LogEntryView {
        LogEntryView { service: self.service@, line: self.line@ }
    }
}

impl View for ServerMessage {
    type V = ServerMessageView;

    open spec fn view(&self) -> ServerMessageView {
        match *self {
            ServerMessage::Ready => ServerMessageView::Ready,
            ServerMessage::Snapshot { services, recent_logs, max_name_width } => {
                ServerMessageView::Snapshot {
                    services: views(services@),
                    recent_logs: views(recent_logs@),
                    max_name_width,
                }
            },
            ServerMessage::Log { entry } => ServerMessageView::Log { entry: entry@ },
            ServerMessage::ServiceUpdate { service } => ServerMessageView::ServiceUpdate {
                service: service@,
            },
            ServerMessage::Ack { message } => ServerMessageView::Ack { message: message@ },
            ServerMessage::Error { message } => ServerMessageView::Error { message: message@ },
            ServerMessage::ManagerStopping => ServerMessageView::ManagerStopping,
        }
    }
}

impl Clone for LogEntry {
    fn clone(&self) -> (r: Self)
        ensures
            r == *self,
    {
        LogEntry { service: self.service.clone(), line: self.line.clone() }
    }
}

impl Clone for ServiceSnapshot {
    fn clone(&self) -> (r: Self)
        ensures
            r == *self,
    {
        ServiceSnapshot {
            name: self.name.clone(),
            pid: self.pid,
            state: self.state,
            ready: self.ready,
            cpu_percent: self.cpu_percent,
            memory_bytes: self.memory_bytes,
            last_exit_code: self.last_exit_code,
        }
    }
}

impl Clone for ClientMessage {
    fn clone(&self) -> (r: Self)
        ensures
            r == *self,
    {
        match self {
            ClientMessage::Attach => ClientMessage::Attach,
            ClientMessage::Ping => ClientMessage::Ping,
            ClientMessage::Shutdown => ClientMessage::Shutdown,
            ClientMessage::AllAction { action } => ClientMessage::AllAction { action: *action },
            ClientMessage::ProcessAction { service, action } => ClientMessage::ProcessAction {
                service: service.clone(),
                action: *action,
            },
        }
    }
}

impl Clone for ServerMessage {
    fn clone(&self) -> (r: Self)
        ensures
            r@ == self@,
    {
        match self {
            ServerMessage::Ready => ServerMessage::Ready,
            ServerMessage::Snapshot { services, recent_logs, max_name_width } => {
                let services_again = services.clone();
                let logs_again = recent_logs.clone();
                assert(views(services_again@) =~= views(services@));
                assert(views(logs_again@) =~= views(recent_logs@));
                ServerMessage::Snapshot {
                    services: services_again,
                    recent_logs: logs_again,
                    max_name_width: *max_name_width,
                }
            },
            ServerMessage::Log { entry } => ServerMessage::Log { entry: entry.clone() },
            ServerMessage::ServiceUpdate { service } => ServerMessage::ServiceUpdate {
                service: service.clone(),
            },
            ServerMessage::Ack { message } => ServerMessage::Ack { message: message.clone() },
            ServerMessage::Error { message } => ServerMessage::Error { message: message.clone() },
            ServerMessage::ManagerStopping => ServerMessage::ManagerStopping,
        }
    }
}

/// Whether this is what the decoder says of the text.
pub open spec fn decoder_says<T, E, F: Fn(&str) -> Result<T, E>>(
    decode: F,
    text: Seq<char>,
    r: Result<T, E>,
) -> bool {
    exists|s: &str| s@ == text && #[trigger] call_ensures(decode, (s,), r)
}

/// What comes of reading a line: nothing once the other side has closed the socket, else what the
/// decoder says of the line without the white space at its end. A line is never nothing.
pub open spec fn read_as<T, E, F: Fn(&str) -> Result<T, E>>(
    decode: F,
    bytes_read: nat,
    line: Seq<char>,
    r: Result<Option<T>, E>,
) -> bool {
    if bytes_read == 0 {
        r == Ok::<Option<T>, E>(None)
    } else {
        match r {
            Ok(Some(message)) => decoder_says(decode, trim_end(line), Ok(message)),
            Ok(None) => false,
            Err(error) => decoder_says(decode, trim_end(line), Err(error)),
        }
    }
}

/// What is written for a message: what the encoder makes of it, and a line feed.
pub open spec fn written_as<T, E, F: Fn(&T) -> Result<Vec<u8>, E>>(
    encode: F,
    message: T,
    r: Result<Vec<u8>, E>,
) -> bool {
    match r {
        Ok(bytes) => exists|payload: Vec<u8>| #[trigger]
            call_ensures(encode, (&message,), Ok::<Vec<u8>, E>(payload)) && bytes@
                == payload@.push(0x0a),
        Err(error) => call_ensures(encode, (&message,), Err::<Vec<u8>, E>(error)),
    }
}

/// The message in one line of the socket, of so many bytes.
pub fn read_message<T, E, F: Fn(&str) -> Result<T, E>>(
    bytes_read: usize,
    line: &str,
    decode: F,
) -> (r: Result<Option<T>, E>)
    requires
        forall|text: &str| #[trigger] call_requires(decode, (text,)),
    ensures
        read_as(decode, bytes_read as nat, line@, r),
{
    if bytes_read == 0 {
        return Ok(None);
    }
    let trimmed = trim_end_of(line);
    let text = trimmed.as_str();
    let said = decode(text);
    assert(decoder_says(decode, text@, said));
    match said {
        Ok(message) => Ok(Some(message)),
        Err(error) => Err(error),
    }
}

/// The bytes to write for a message.
pub fn write_message<T, E, F: Fn(&T) -> Result<Vec<u8>, E>>(message: &T, encode: F) -> (r: Result<
    Vec<u8>,
    E,
>)
    requires
        call_requires(encode, (message,)),
    ensures
        written_as(encode, *message, r),
{
    match encode(message) {
        Ok(payload) => {
            let mut bytes = payload;
            bytes.push(0x0a);
            Ok(bytes)
        },
        Err(error) => Err(error),
    }
}

/// Where the first line of what comes over the socket ends: behind the first line feed, or with
/// all that there is.
pub open spec fn line_end(stream: Seq<u8>) -> nat
    decreases stream.len(),
{
    if stream.len() == 0 {
        0
    } else if stream[0] == 0x0a {
        1
    } else {
        1 + line_end(stream.drop_first())
    }
}

/// Whether a text can stand in a line of the socket and be read as it is.
pub open spec fn fits_a_line(text: Seq<char>) -> bool {
    &&& !text.contains('\n')
    &&& text.len() > 0 ==> !white_space(text.last())
}

/// Whether the decoder makes the message of the text, and nothing else.
pub open spec fn decodes_to<T: View, E, F: Fn(&str) -> Result<T, E>>(
    decode: F,
    text: Seq<char>,
    message: T,
) -> bool {
    forall|r: Result<T, E>| #[trigger]
        decoder_says(decode, text, r) ==> (r matches Ok(again) && again@ == message@)
}

/// Whether what the encoder makes of a message fits a line, and the decoder makes the message of
/// it again.
///
/// The program hands in the two of `serde_json`. It writes JSON without line breaks, which ends in
/// a bracket or a quote; that it reads back what it wrote is not proved here.
pub open spec fn undoes<
    T: View,
    E,
    F: Fn(&str) -> Result<T, E>,
    G: Fn(&T) -> Result<Vec<u8>, E>,
>(decode: F, encode: G, message: T) -> bool {
    forall|payload: Vec<u8>| #[trigger]
        call_ensures(encode, (&message,), Ok::<Vec<u8>, E>(payload)) ==> exists|text: Seq<char>|
            payload@ == encode_utf8(text) && #[trigger] fits_a_line(text) && decodes_to(
                decode,
                text,
                message,
            )
}

proof fn lemma_not_line_feed(c: char)
    requires
        c != '\n',
    ensures
        c as u32 != 10,
{
}

/// Outside the line feed itself, no character is encoded with a byte that reads as one.
proof fn lemma_no_line_feed(text: Seq<char>)
    requires
        !text.contains('\n'),
    ensures
        !encode_utf8(text).contains(0x0a),
    decreases text.len(),
{
    if text.len() > 0 {
        let rest = text.drop_first();
        assert forall|c: char| rest.contains(c) implies text.contains(c) by {
            let i = choose|i: int| 0 <= i < rest.len() && rest[i] == c;
            assert(text[i + 1] == c);
        }
        lemma_no_line_feed(rest);
        assert(text.contains(text[0]));
        let u = text[0] as u32;
        lemma_not_line_feed(text[0]);
        assert(u <= 0x7f && u != 10 ==> (u & 0x7F) as u8 != 10) by (bit_vector);
        assert(0xC0u8 | ((u >> 6) & 0x1F) as u8 != 10) by (bit_vector);
        assert(0xE0u8 | ((u >> 12) & 0x0F) as u8 != 10) by (bit_vector);
        assert(0xF0u8 | ((u >> 18) & 0x7) as u8 != 10) by (bit_vector);
        assert(0x80u8 | (u & 0x3F) as u8 != 10) by (bit_vector);
        assert(0x80u8 | ((u >> 6) & 0x3F) as u8 != 10) by (bit_vector);
        assert(0x80u8 | ((u >> 12) & 0x3F) as u8 != 10) by (bit_vector);
        let head = encode_scalar(u);
        let tail = encode_utf8(rest);
        assert(encode_utf8(text) == head + tail);
        if encode_utf8(text).contains(0x0a) {
            let i = choose|i: int| 0 <= i < (head + tail).len() && (head + tail)[i] == 0x0a;
            if i >= head.len() {
                assert(tail[i - head.len()] == 0x0a);
            }
        }
    }
}

/// The bytes written for a text that fits a line are those of one line, whose only line feed is
/// its last byte, and what is read from that line is the text.
pub proof fn law_message_round_trip(text: Seq<char>)
    requires
        fits_a_line(text),
    ensures
        encode_utf8(text).push(0x0a) == encode_utf8(text.push('\n')),
        !encode_utf8(text).contains(0x0a),
        trim_end(text.push('\n')) == text,
{
    lemma_no_line_feed(text);
    let line = text.push('\n');
    assert(line =~= text + seq!['\n']);
    lemma_encode_concat(text, seq!['\n']);
    assert(seq!['\n'].drop_first() =~= Seq::<char>::empty());
    assert(encode_utf8(seq!['\n'].drop_first()) =~= Seq::<u8>::empty());
    assert((10u32 & 0x7F) as u8 == 10) by (bit_vector);
    assert(encode_utf8(seq!['\n']) =~= seq![0x0au8]);
    assert(encode_utf8(text).push(0x0a) =~= encode_utf8(line));
    assert(line.last() == '\n');
    assert(line.drop_last() =~= text);
    assert(trim_end(line) == trim_end(text));
}

proof fn lemma_line_end(line: Seq<u8>, tail: Seq<u8>)
    requires
        !line.contains(0x0a),
    ensures
        line_end(line.push(0x0a) + tail) == line.len() + 1,
    decreases line.len(),
{
    let stream = line.push(0x0a) + tail;
    if line.len() > 0 {
        let rest = line.drop_first();
        assert(line.contains(line[0]));
        assert forall|b: u8| rest.contains(b) implies line.contains(b) by {
            let i = rest.index_of(b);
            assert(line[i + 1] == b);
        }
        lemma_line_end(rest, tail);
        assert(stream.drop_first() =~= rest.push(0x0a) + tail);
    }
}

/// A message comes back as it was sent, whatever follows it: of what was written for a message and
/// of what comes behind that, the first line is what was written, what comes behind is left, and
/// whatever reading that line gives is the message.
pub proof fn law_read_gives_back_what_was_written<
    T: View,
    E,
    F: Fn(&str) -> Result<T, E>,
    G: Fn(&T) -> Result<Vec<u8>, E>,
>(decode: F, encode: G, message: T, bytes: Vec<u8>, tail: Seq<u8>, r: Result<Option<T>, E>)
    requires
        undoes(decode, encode, message),
        written_as(encode, message, Ok::<Vec<u8>, E>(bytes)),
        ({
            let stream = bytes@ + tail;
            let line = stream.take(line_end(stream) as int);
            read_as(decode, line.len(), decode_utf8(line), r)
        }),
    ensures
        ({
            let stream = bytes@ + tail;
            &&& stream.take(line_end(stream) as int) == bytes@
            &&& stream.skip(line_end(stream) as int) == tail
            &&& valid_utf8(bytes@)
        }),
        r matches Ok(Some(again)) && again@ == message@,
{
    let payload = choose|payload: Vec<u8>| #[trigger]
        call_ensures(encode, (&message,), Ok::<Vec<u8>, E>(payload)) && bytes@ == payload@.push(
            0x0a,
        );
    let text = choose|text: Seq<char>|
        payload@ == encode_utf8(text) && #[trigger] fits_a_line(text) && decodes_to(
            decode,
            text,
            message,
        );
    let stream = bytes@ + tail;
    law_message_round_trip(text);
    lemma_line_end(payload@, tail);
    assert(stream.take(line_end(stream) as int) =~= bytes@);
    assert(stream.skip(line_end(stream) as int) =~= tail);
    encode_utf8_valid_utf8(text.push('\n'));
    encode_utf8_decode_utf8(text.push('\n'));
}

/// Reading gives nothing exactly where the socket was closed: a line that is no message, and a
/// blank one too, gives what the decoder says of it, which is never nothing.
pub proof fn law_only_a_closed_socket_reads_as_nothing<T, E, F: Fn(&str) -> Result<T, E>>(
    decode: F,
    bytes_read: nat,
    line: Seq<char>,
    r: Result<Option<T>, E>,
)
    requires
        read_as(decode, bytes_read, line, r),
    ensures
        r == Ok::<Option<T>, E>(None) <==> bytes_read == 0,
        bytes_read > 0 && (forall|message: T|
            !#[trigger] decoder_says(decode, trim_end(line), Ok(message))) ==> r is Err,
{
}

} // verus!
