//! The AGWPE protocol: frames, the stream they come in, and what each frame
//! means to the session.

use vstd::prelude::*;
use vstd::utf8::*;
use crate::bytes::{
    append, append_le32, bytes_begin, copy_range, find_bytes, from_le32, index_of, le32,
    lemma_ascii_byte_absent, lemma_index_of, read_le32, string_from_utf8, string_from_utf8_lossy,
    utf8_lossy, utf8_text,
};
use crate::client::state::PortInfo;
use crate::client::transport::{TransportError, TransportEvent};
use crate::number::{decimal, push_decimal, read_unsigned, unsigned};
use crate::text::{join2, occurs, occurs_at, split, split_at_char, starts_with};

verus! {

/// The most data that a frame may carry.
pub const MAX_FRAME_DATA_SIZE: u32 = 65536;

/// The length of a frame's header.
pub const HEADER_SIZE: usize = 36;

/// Why talking to the node failed.
#[derive(Debug, Clone)]
pub enum AgwpeError {
    Io(String),
    ConnectionFailed(String),
    RegistrationFailed(String),
    NotConnected,
    InvalidFrame(String),
    Timeout,
    TaskStopped,
    SessionDied { reason: String },
    NeedsReconsent,
    DisconnectedByOperator,
}

/// An error by the texts that it holds.
pub enum ErrorView {
    Io(Seq<char>),
    ConnectionFailed(Seq<char>),
    RegistrationFailed(Seq<char>),
    NotConnected,
    InvalidFrame(Seq<char>),
    Timeout,
    TaskStopped,
    SessionDied { reason: Seq<char> },
    NeedsReconsent,
    DisconnectedByOperator,
}

impl View for AgwpeError {
    type V = ErrorView;

    open spec fn view(&self) -> ErrorView {
        match self {
            AgwpeError::Io(e) => ErrorView::Io(e@),
            AgwpeError::ConnectionFailed(e) => ErrorView::ConnectionFailed(e@),
            AgwpeError::RegistrationFailed(e) => ErrorView::RegistrationFailed(e@),
            AgwpeError::NotConnected => ErrorView::NotConnected,
            AgwpeError::InvalidFrame(e) => ErrorView::InvalidFrame(e@),
            AgwpeError::Timeout => ErrorView::Timeout,
            AgwpeError::TaskStopped => ErrorView::TaskStopped,
            AgwpeError::SessionDied { reason } => ErrorView::SessionDied { reason: reason@ },
            AgwpeError::NeedsReconsent => ErrorView::NeedsReconsent,
            AgwpeError::DisconnectedByOperator => ErrorView::DisconnectedByOperator,
        }
    }
}

impl ErrorView {
    /// The message for the operator.
    pub open spec fn text(self) -> Seq<char> {
        match self {
            ErrorView::Io(e) => "IO error: "@ + e,
            ErrorView::ConnectionFailed(e) => "Connection failed: "@ + e,
            ErrorView::RegistrationFailed(e) => "Registration failed: "@ + e,
            ErrorView::NotConnected => "Not connected"@,
            ErrorView::InvalidFrame(e) => "Invalid frame: "@ + e,
            ErrorView::Timeout => "Timeout"@,
            ErrorView::TaskStopped => "Background task stopped"@,
            ErrorView::SessionDied { reason } => "Session died: "@ + reason,
            ErrorView::NeedsReconsent => "Session dropped and requires re-consent"@,
            ErrorView::DisconnectedByOperator => "Disconnected by operator"@,
        }
    }
}

impl AgwpeError {
    /// The message for the operator.
    pub fn message(&self) -> (r: String)
        ensures
            r@ == self@.text(),
    {
        match self {
            AgwpeError::Io(e) => join2("IO error: ", e.as_str()),
            AgwpeError::ConnectionFailed(e) => join2("Connection failed: ", e.as_str()),
            AgwpeError::RegistrationFailed(e) => join2("Registration failed: ", e.as_str()),
            AgwpeError::NotConnected => "Not connected".to_owned(),
            AgwpeError::InvalidFrame(e) => join2("Invalid frame: ", e.as_str()),
            AgwpeError::Timeout => "Timeout".to_owned(),
            AgwpeError::TaskStopped => "Background task stopped".to_owned(),
            AgwpeError::SessionDied { reason } => join2("Session died: ", reason.as_str()),
            AgwpeError::NeedsReconsent => "Session dropped and requires re-consent".to_owned(),
            AgwpeError::DisconnectedByOperator => "Disconnected by operator".to_owned(),
        }
    }
}

/// How a modem's error looks to the session above it.
pub open spec fn as_agwpe_error(e: TransportError) -> ErrorView {
    match e {
        TransportError::NotConnected => ErrorView::NotConnected,
        TransportError::Timeout => ErrorView::Timeout,
        TransportError::Io(m) => ErrorView::Io(m@),
        TransportError::ModemError(m) => ErrorView::ConnectionFailed(m@),
        TransportError::SessionRejected(m) => ErrorView::ConnectionFailed(m@),
    }
}

/// Turns a modem's error into the session's.
pub fn transport_err_to_agwpe(err: TransportError) -> (r: AgwpeError)
    ensures
        r@ == as_agwpe_error(err),
{
    match err {
        TransportError::NotConnected => AgwpeError::NotConnected,
        TransportError::Timeout => AgwpeError::Timeout,
        TransportError::Io(m) => AgwpeError::Io(m),
        TransportError::ModemError(m) => AgwpeError::ConnectionFailed(m),
        TransportError::SessionRejected(m) => AgwpeError::ConnectionFailed(m),
    }
}

/// Turns an error of the AGWPE connection into a modem's: time-outs, a missing
/// connection and I/O errors stay what they are, and everything else becomes a
/// modem error with its message.
pub fn agwpe_to_transport_err(e: AgwpeError) -> (r: TransportError)
    ensures
        match e {
            AgwpeError::Timeout => r == TransportError::Timeout,
            AgwpeError::NotConnected => r == TransportError::NotConnected,
            AgwpeError::Io(m) => r == TransportError::Io(m),
            _ => r matches TransportError::ModemError(m) && m@ == e@.text(),
        },
{
    match e {
        AgwpeError::Timeout => TransportError::Timeout,
        AgwpeError::NotConnected => TransportError::NotConnected,
        AgwpeError::Io(m) => TransportError::Io(m),
        other => TransportError::ModemError(other.message()),
    }
}

// ---------------------------------------------------------------------------
// Frame types
// ---------------------------------------------------------------------------

/// What a frame is for.
#[derive(Debug, Clone, Copy, PartialEq, Eq, Structural)]
pub enum FrameType {
    RegisterCallsign,
    RegistrationResponse,
    Connect,
    Connected,
    /// Both the request to leave and the notice of having been left.
    Disconnect,
    SendData,
    ConnectionRejected,
    QueryPorts,
    PortInfo,
}

/// An upper-case hexadecimal digit.
pub open spec fn hex_upper(n: int) -> char {
    if n < 10 {
        ((n + 48) as u8) as char
    } else {
        ((n + 55) as u8) as char
    }
}

/// The message for a frame type that nobody knows.
pub open spec fn unknown_frame_type(value: u8) -> Seq<char> {
    "Unknown frame type: 0x"@.push(hex_upper((value / 16) as int)).push(hex_upper((value % 16) as int))
}

impl FrameType {
    /// The byte that marks this kind of frame.
    pub open spec fn byte(self) -> u8 {
        match self {
            FrameType::RegisterCallsign => 0x58,
            FrameType::RegistrationResponse => 0x78,
            FrameType::Connect => 0x43,
            FrameType::Connected => 0x63,
            FrameType::Disconnect => 0x64,
            FrameType::SendData => 0x44,
            FrameType::ConnectionRejected => 0x52,
            FrameType::QueryPorts => 0x47,
            FrameType::PortInfo => 0x67,
        }
    }

    /// The kind of frame that a byte marks.
    pub open spec fn of_byte(value: u8) -> Option<FrameType> {
        if value == 0x58 {
            Some(FrameType::RegisterCallsign)
        } else if value == 0x78 {
            Some(FrameType::RegistrationResponse)
        } else if value == 0x43 {
            Some(FrameType::Connect)
        } else if value == 0x63 {
            Some(FrameType::Connected)
        } else if value == 0x64 {
            Some(FrameType::Disconnect)
        } else if value == 0x44 {
            Some(FrameType::SendData)
        } else if value == 0x52 {
            Some(FrameType::ConnectionRejected)
        } else if value == 0x47 {
            Some(FrameType::QueryPorts)
        } else if value == 0x67 {
            Some(FrameType::PortInfo)
        } else {
            None
        }
    }

    /// The name of the kind.
    pub open spec fn name(self) -> Seq<char> {
        match self {
            FrameType::RegisterCallsign => "RegisterCallsign"@,
            FrameType::RegistrationResponse => "RegistrationResponse"@,
            FrameType::Connect => "Connect"@,
            FrameType::Connected => "Connected"@,
            FrameType::Disconnect => "Disconnect"@,
            FrameType::SendData => "SendData"@,
            FrameType::ConnectionRejected => "ConnectionRejected"@,
            FrameType::QueryPorts => "QueryPorts"@,
            FrameType::PortInfo => "PortInfo"@,
        }
    }

    /// The kind of frame that a byte marks.
    pub fn try_from(value: u8) -> (r: Result<FrameType, AgwpeError>)
        ensures
            match FrameType::of_byte(value) {
                Some(t) => r == Ok::<FrameType, AgwpeError>(t),
                None => r matches Err(AgwpeError::InvalidFrame(m)) && m@ == unknown_frame_type(
                    value,
                ),
            },
    {
        match value {
            0x58 => Ok(FrameType::RegisterCallsign),
            0x78 => Ok(FrameType::RegistrationResponse),
            0x43 => Ok(FrameType::Connect),
            0x63 => Ok(FrameType::Connected),
            0x64 => Ok(FrameType::Disconnect),
            0x44 => Ok(FrameType::SendData),
            0x52 => Ok(FrameType::ConnectionRejected),
            0x47 => Ok(FrameType::QueryPorts),
            0x67 => Ok(FrameType::PortInfo),
            _ => {
                let mut m = "Unknown frame type: 0x".to_owned();
                m.push(hex_digit(value / 16));
                m.push(hex_digit(value % 16));
                Err(AgwpeError::InvalidFrame(m))
            },
        }
    }

    /// The byte that marks this kind of frame.
    pub fn code(self) -> (r: u8)
        ensures
            r == self.byte(),
    {
        match self {
            FrameType::RegisterCallsign => 0x58,
            FrameType::RegistrationResponse => 0x78,
            FrameType::Connect => 0x43,
            FrameType::Connected => 0x63,
            FrameType::Disconnect => 0x64,
            FrameType::SendData => 0x44,
            FrameType::ConnectionRejected => 0x52,
            FrameType::QueryPorts => 0x47,
            FrameType::PortInfo => 0x67,
        }
    }

    /// The name of the kind.
    pub fn to_text(self) -> (r: String)
        ensures
            r@ == self.name(),
    {
        match self {
            FrameType::RegisterCallsign => "RegisterCallsign".to_owned(),
            FrameType::RegistrationResponse => "RegistrationResponse".to_owned(),
            FrameType::Connect => "Connect".to_owned(),
            FrameType::Connected => "Connected".to_owned(),
            FrameType::Disconnect => "Disconnect".to_owned(),
            FrameType::SendData => "SendData".to_owned(),
            FrameType::ConnectionRejected => "ConnectionRejected".to_owned(),
            FrameType::QueryPorts => "QueryPorts".to_owned(),
            FrameType::PortInfo => "PortInfo".to_owned(),
        }
    }
}

/// The hexadecimal digit for a number below sixteen.
fn hex_digit(n: u8) -> (r: char)
    requires
        n < 16,
    ensures
        r == hex_upper(n as int),
{
    if n < 10 {
        (n + 48) as char
    } else {
        (n + 55) as char
    }
}

/// The byte of a frame type is read back as that type, and no other byte is.
pub proof fn frame_type_bytes_round_trip(t: FrameType, value: u8)
    ensures
        FrameType::of_byte(t.byte()) == Some(t),
        FrameType::of_byte(value) matches Some(u) ==> u.byte() == value,
{
}

// ---------------------------------------------------------------------------
// Frames
// ---------------------------------------------------------------------------

/// A frame of the AGWPE protocol.
#[derive(Debug, Clone)]
pub struct AgwpeFrame {
    pub port: u8,
    pub frame_type: FrameType,
    pub pid: u8,
    pub call_from: String,
    pub call_to: String,
    pub data_len: u32,
    pub user_data: u32,
    pub data: Vec<u8>,
}

/// A frame by the texts and bytes that it holds.
pub struct FrameView {
    pub port: u8,
    pub frame_type: FrameType,
    pub pid: u8,
    pub call_from: Seq<char>,
    pub call_to: Seq<char>,
    pub data_len: u32,
    pub user_data: u32,
    pub data: Seq<u8>,
}

impl View for AgwpeFrame {
    type V = FrameView;

    open spec fn view(&self) -> FrameView {
        FrameView {
            port: self.port,
            frame_type: self.frame_type,
            pid: self.pid,
            call_from: self.call_from@,
            call_to: self.call_to@,
            data_len: self.data_len,
            user_data: self.user_data,
            data: self.data@,
        }
    }
}

/// A callsign in the ten bytes that a header has for it: at most nine bytes of
/// its text, and zeros.
pub open spec fn call_field(call: Seq<char>) -> Seq<u8> {
    let b = encode_utf8(call);
    Seq::new(
        10,
        |i: int|
            if i < 9 && i < b.len() {
                b[i]
            } else {
                0u8
            },
    )
}

/// A frame on the wire.
pub open spec fn frame_wire(f: FrameView) -> Seq<u8> {
    seq![f.port, 0, 0, 0, f.frame_type.byte(), 0, 0, 0] + call_field(f.call_from) + call_field(
        f.call_to,
    ) + le32(f.data_len) + le32(f.user_data) + f.data
}

/// The callsign in a field: the text in front of the first zero byte.
pub open spec fn call_of(field: Seq<u8>) -> Option<Seq<char>> {
    match index_of(field, 0, 0) {
        Some(n) => utf8_text(field.take(n)),
        None => utf8_text(field),
    }
}

/// The data length that a header announces.
pub open spec fn announced_len(data: Seq<u8>) -> nat {
    from_le32(data.subrange(28, 32))
}

/// The frame that `data` begins with, or why it holds none.
pub open spec fn frame_of(data: Seq<u8>) -> Result<FrameView, Seq<char>> {
    if data.len() < 36 {
        Err("Frame too short"@)
    } else {
        match (
            FrameType::of_byte(data[4]),
            call_of(data.subrange(8, 18)),
            call_of(data.subrange(18, 28)),
        ) {
            (None, _, _) => Err(unknown_frame_type(data[4])),
            (Some(frame_type), Some(call_from), Some(call_to)) => {
                let n = announced_len(data);
                if n > MAX_FRAME_DATA_SIZE {
                    Err(
                        "Frame data_len "@ + decimal(n) + " exceeds maximum "@ + decimal(
                            MAX_FRAME_DATA_SIZE as nat,
                        ),
                    )
                } else if data.len() < 36 + n {
                    Err("Frame data truncated"@)
                } else {
                    Ok(
                        FrameView {
                            port: data[0],
                            frame_type,
                            pid: 0,
                            call_from,
                            call_to,
                            data_len: n as u32,
                            user_data: from_le32(data.subrange(32, 36)) as u32,
                            data: data.subrange(36, 36 + n as int),
                        },
                    )
                }
            },
            _ => Err("Invalid callsign encoding"@),
        }
    }
}

/// The result of reading a frame, by its view.
pub open spec fn frame_result(
    r: Result<AgwpeFrame, AgwpeError>,
    expected: Result<FrameView, Seq<char>>,
) -> bool {
    match expected {
        Ok(f) => r matches Ok(g) && g@ == f,
        Err(m) => r matches Err(AgwpeError::InvalidFrame(e)) && e@ == m,
    }
}

/// Appends a callsign in ten bytes.
fn append_call(out: &mut Vec<u8>, call: &str)
    ensures
        final(out)@ == old(out)@ + call_field(call@),
{
    let ghost start = out@;
    let b = call.as_bytes();
    let mut i: usize = 0;
    assert(start + call_field(call@).take(0) =~= start);
    while i < 10
        invariant
            i <= 10,
            b@ == encode_utf8(call@),
            out@ == start + call_field(call@).take(i as int),
        decreases 10 - i,
    {
        if i < 9 && i < b.len() {
            out.push(b[i]);
        } else {
            out.push(0);
        }
        i += 1;
        assert(start + call_field(call@).take(i as int) =~= (start + call_field(call@).take(
            i - 1,
        )).push(call_field(call@)[i - 1]));
    }
    assert(call_field(call@).take(10) =~= call_field(call@));
}

impl AgwpeFrame {
    /// A frame that carries `data`. The announced length is taken modulo 2^32.
    pub fn new(
        port: u8,
        frame_type: FrameType,
        call_from: &str,
        call_to: &str,
        data: Vec<u8>,
    ) -> (r: AgwpeFrame)
        ensures
            r@ == (FrameView {
                port,
                frame_type,
                pid: 0,
                call_from: call_from@,
                call_to: call_to@,
                data_len: data@.len() as u32,
                user_data: 0,
                data: data@,
            }),
    {
        AgwpeFrame {
            port,
            frame_type,
            pid: 0,
            call_from: call_from.to_owned(),
            call_to: call_to.to_owned(),
            data_len: data.len() as u32,
            user_data: 0,
            data,
        }
    }

    /// The frame as it goes over the wire.
    pub fn encode(&self) -> (r: Vec<u8>)
        ensures
            r@ == frame_wire(self@),
    {
        let mut out: Vec<u8> = Vec::new();
        out.push(self.port);
        out.push(0);
        out.push(0);
        out.push(0);
        out.push(self.frame_type.code());
        out.push(0);
        out.push(0);
        out.push(0);
        append_call(&mut out, self.call_from.as_str());
        append_call(&mut out, self.call_to.as_str());
        append_le32(&mut out, self.data_len);
        append_le32(&mut out, self.user_data);
        append(&mut out, &self.data);
        assert(out@ =~= frame_wire(self@));
        out
    }

    /// Reads the frame that `data` begins with.
    pub fn decode(data: &[u8]) -> (r: Result<AgwpeFrame, AgwpeError>)
        ensures
            frame_result(r, frame_of(data@)),
    {
        if data.len() < HEADER_SIZE {
            return Err(AgwpeError::InvalidFrame("Frame too short".to_owned()));
        }
        let port = data[0];
        let frame_type = match FrameType::try_from(data[4]) {
            Ok(t) => t,
            Err(e) => {
                return Err(e);
            },
        };
        let call_from = match AgwpeFrame::extract_callsign(&copy_range(data, 8, 18)) {
            Ok(c) => c,
            Err(e) => {
                return Err(e);
            },
        };
        let call_to = match AgwpeFrame::extract_callsign(&copy_range(data, 18, 28)) {
            Ok(c) => c,
            Err(e) => {
                return Err(e);
            },
        };
        let data_len: u32 = read_le32(data, 28);
        let user_data: u32 = read_le32(data, 32);
        if data_len > MAX_FRAME_DATA_SIZE {
            return Err(
                AgwpeError::InvalidFrame(over_size_message("Frame data_len ", data_len)),
            );
        }
        if data.len() - HEADER_SIZE < data_len as usize {
            return Err(AgwpeError::InvalidFrame("Frame data truncated".to_owned()));
        }
        let payload = copy_range(data, HEADER_SIZE, HEADER_SIZE + data_len as usize);
        Ok(
            AgwpeFrame {
                port,
                frame_type,
                pid: 0,
                call_from,
                call_to,
                data_len,
                user_data,
                data: payload,
            },
        )
    }

    /// Reads the callsign in a field.
    pub fn extract_callsign(bytes: &[u8]) -> (r: Result<String, AgwpeError>)
        ensures
            match call_of(bytes@) {
                Some(c) => r matches Ok(s) && s@ == c,
                None => r matches Err(AgwpeError::InvalidFrame(m)) && m@
                    == "Invalid callsign encoding"@,
            },
    {
        let len: usize = match crate::bytes::find_byte(bytes, 0, 0) {
            Some(n) => n,
            None => bytes.len(),
        };
        assert(bytes@.take(len as int) =~= bytes@.subrange(0, len as int));
        assert(bytes@.take(bytes@.len() as int) =~= bytes@);
        match string_from_utf8(copy_range(bytes, 0, len)) {
            Some(s) => Ok(s),
            None => Err(AgwpeError::InvalidFrame("Invalid callsign encoding".to_owned())),
        }
    }
}

/// The message for a frame with too much data.
fn over_size_message(head: &str, n: u32) -> (r: String)
    ensures
        r@ == head@ + decimal(n as nat) + " exceeds maximum "@ + decimal(
            MAX_FRAME_DATA_SIZE as nat,
        ),
{
    let mut m = head.to_owned();
    push_decimal(&mut m, n as u64);
    m.append(" exceeds maximum ");
    push_decimal(&mut m, MAX_FRAME_DATA_SIZE as u64);
    m
}

/// A frame that the wire carries without loss: callsigns of at most nine bytes
/// without a zero, the announced length that of the data, and no more data
/// than a receiver takes.
pub open spec fn frame_fits(f: FrameView) -> bool {
    &&& f.pid == 0
    &&& encode_utf8(f.call_from).len() <= 9 && !f.call_from.contains('\0')
    &&& encode_utf8(f.call_to).len() <= 9 && !f.call_to.contains('\0')
    &&& f.data_len == f.data.len()
    &&& f.data.len() <= MAX_FRAME_DATA_SIZE
}

/// A callsign is read back from its field.
proof fn lemma_call_field(call: Seq<char>)
    requires
        encode_utf8(call).len() <= 9,
        !call.contains('\0'),
    ensures
        call_of(call_field(call)) == Some(call),
{
    let b = encode_utf8(call);
    let field = call_field(call);
    assert(0u8 as char == '\0');
    lemma_ascii_byte_absent(call, 0);
    let n = b.len() as int;
    assert forall|i: int| 0 <= i < n implies field[i] != 0 by {
        assert(field[i] == b[i]);
    }
    lemma_index_of(field, 0, 0, n);
    assert(field.take(n) =~= b);
    encode_utf8_valid_utf8(call);
    encode_utf8_decode_utf8(call);
}

/// A frame is read back as it was sent, whatever follows it.
pub proof fn frame_round_trip(f: FrameView, rest: Seq<u8>)
    requires
        frame_fits(f),
    ensures
        frame_of(frame_wire(f) + rest) == Ok::<FrameView, Seq<char>>(f),
        frame_wire(f).len() == 36 + f.data.len(),
        announced_len(frame_wire(f) + rest) == f.data.len(),
{
    let data = frame_wire(f) + rest;
    lemma_call_field(f.call_from);
    lemma_call_field(f.call_to);
    frame_type_bytes_round_trip(f.frame_type, 0);
    crate::bytes::four_bytes_round_trip(f.data_len);
    crate::bytes::four_bytes_round_trip(f.user_data);
    assert(data[0] == f.port);
    assert(data[4] == f.frame_type.byte());
    assert(data.subrange(8, 18) =~= call_field(f.call_from));
    assert(data.subrange(18, 28) =~= call_field(f.call_to));
    assert(data.subrange(28, 32) =~= le32(f.data_len));
    assert(data.subrange(32, 36) =~= le32(f.user_data));
    assert(data.subrange(36, 36 + f.data.len() as int) =~= f.data);
}

// ---------------------------------------------------------------------------
// The stream of frames
// ---------------------------------------------------------------------------

/// Bytes that came from the modem and are not yet taken as frames.
pub struct FrameReader {
    buf: Vec<u8>,
}

/// What the bytes at hand give: nothing yet, a frame and what follows it, or an
/// error.
pub enum FrameProgress {
    Waiting,
    Frame { frame: FrameView, rest: Seq<u8> },
    Failed { message: Seq<char> },
}

/// What the bytes at hand give.
pub open spec fn next_frame(buf: Seq<u8>) -> FrameProgress {
    if buf.len() < 36 {
        FrameProgress::Waiting
    } else {
        let n = announced_len(buf);
        if n > MAX_FRAME_DATA_SIZE {
            FrameProgress::Failed {
                message: "Peer announced frame data_len "@ + decimal(n) + " exceeds maximum "@
                    + decimal(MAX_FRAME_DATA_SIZE as nat),
            }
        } else if buf.len() < 36 + n {
            FrameProgress::Waiting
        } else {
            match frame_of(buf.take(36 + n as int)) {
                Ok(frame) => FrameProgress::Frame { frame, rest: buf.skip(36 + n as int) },
                Err(message) => FrameProgress::Failed { message },
            }
        }
    }
}

impl View for FrameReader {
    type V = Seq<u8>;

    closed spec fn view(&self) -> Seq<u8> {
        self.buf@
    }
}

impl FrameReader {
    /// A reader without bytes.
    pub fn new() -> (r: FrameReader)
        ensures
            r@ == Seq::<u8>::empty(),
    {
        FrameReader { buf: Vec::new() }
    }

    /// Takes bytes from the modem.
    pub fn feed(&mut self, data: &[u8])
        ensures
            final(self)@ == old(self)@ + data@,
    {
        append(&mut self.buf, data);
    }

    /// Forgets all bytes.
    pub fn clear(&mut self)
        ensures
            final(self)@ == Seq::<u8>::empty(),
    {
        self.buf = Vec::new();
    }

    /// Takes the next frame off the bytes at hand, where it is there whole.
    /// Where the bytes are no frame, they stay and the error says why.
    pub fn next(&mut self) -> (r: Result<Option<AgwpeFrame>, AgwpeError>)
        ensures
            match next_frame(old(self)@) {
                FrameProgress::Waiting => r matches Ok(None) && final(self)@ == old(self)@,
                FrameProgress::Frame { frame, rest } => r matches Ok(Some(f)) && f@ == frame
                    && final(self)@ == rest,
                FrameProgress::Failed { message } => r matches Err(AgwpeError::InvalidFrame(m))
                    && m@ == message && final(self)@ == old(self)@,
            },
    {
        if self.buf.len() < HEADER_SIZE {
            return Ok(None);
        }
        let n: u32 = read_le32(&self.buf, 28);
        if n > MAX_FRAME_DATA_SIZE {
            return Err(
                AgwpeError::InvalidFrame(over_size_message("Peer announced frame data_len ", n)),
            );
        }
        let total: usize = HEADER_SIZE + n as usize;
        if self.buf.len() < total {
            return Ok(None);
        }
        let head = copy_range(&self.buf, 0, total);
        assert(head@ =~= self.buf@.take(36 + n));
        match AgwpeFrame::decode(&head) {
            Ok(frame) => {
                let rest = copy_range(&self.buf, total, self.buf.len());
                assert(rest@ =~= self.buf@.skip(36 + n));
                self.buf = rest;
                Ok(Some(frame))
            },
            Err(e) => Err(e),
        }
    }
}

/// A frame that came whole is the next one, and what follows it stays.
pub proof fn frames_come_out_in_order(f: FrameView, rest: Seq<u8>)
    requires
        frame_fits(f),
    ensures
        next_frame(frame_wire(f) + rest) == (FrameProgress::Frame { frame: f, rest }),
{
    let buf = frame_wire(f) + rest;
    let n = f.data.len() as int;
    frame_round_trip(f, rest);
    frame_round_trip(f, Seq::<u8>::empty());
    assert(buf.take(36 + n) =~= frame_wire(f) + Seq::<u8>::empty());
    assert(buf.skip(36 + n) =~= rest);
}

/// As long as a frame has not come whole, the reader waits.
pub proof fn reader_waits_for_the_whole_frame(f: FrameView, arrived: int)
    requires
        frame_fits(f),
        0 <= arrived < frame_wire(f).len(),
    ensures
        next_frame(frame_wire(f).take(arrived)) == FrameProgress::Waiting,
{
    let part = frame_wire(f).take(arrived);
    frame_round_trip(f, Seq::<u8>::empty());
    assert(frame_wire(f) + Seq::<u8>::empty() =~= frame_wire(f));
    if arrived >= 36 {
        assert(part.subrange(28, 32) =~= frame_wire(f).subrange(28, 32));
    }
}

/// The data of a message cut into frames of at most 256 bytes.
pub open spec fn chunked(data: Seq<u8>) -> Seq<Seq<u8>>
    decreases data.len(),
{
    if data.len() == 0 {
        Seq::<Seq<u8>>::empty()
    } else if data.len() <= 256 {
        seq![data]
    } else {
        seq![data.take(256)] + chunked(data.skip(256))
    }
}

/// All pieces joined again.
pub open spec fn joined(pieces: Seq<Seq<u8>>) -> Seq<u8>
    decreases pieces.len(),
{
    if pieces.len() == 0 {
        Seq::<u8>::empty()
    } else {
        pieces[0] + joined(pieces.drop_first())
    }
}

/// The pieces of a message are not empty, are no longer than 256 bytes, and
/// joined they are the message.
pub proof fn chunks_make_the_message(data: Seq<u8>)
    ensures
        joined(chunked(data)) == data,
        forall|i: int|
            0 <= i < chunked(data).len() ==> 0 < (#[trigger] chunked(data)[i]).len() <= 256,
    decreases data.len(),
{
    if data.len() == 0 {
        assert(joined(chunked(data)) =~= data);
    } else if data.len() <= 256 {
        assert(chunked(data).drop_first() =~= Seq::<Seq<u8>>::empty());
        reveal_with_fuel(joined, 2);
        assert(joined(chunked(data)) =~= data);
    } else {
        chunks_make_the_message(data.skip(256));
        let tail = chunked(data.skip(256));
        assert(chunked(data).drop_first() =~= tail);
        assert(joined(chunked(data)) =~= data.take(256) + data.skip(256));
        assert(data.take(256) + data.skip(256) =~= data);
        assert forall|i: int| 0 <= i < chunked(data).len() implies 0 < (#[trigger] chunked(
            data,
        )[i]).len() <= 256 by {
            if i > 0 {
                assert(chunked(data)[i] == tail[i - 1]);
            }
        }
    }
}

/// The frames that carry a message.
pub open spec fn data_frame_views(
    port: u8,
    call_from: Seq<char>,
    call_to: Seq<char>,
    data: Seq<u8>,
) -> Seq<FrameView> {
    chunked(data).map_values(
        |piece: Seq<u8>|
            FrameView {
                port,
                frame_type: FrameType::SendData,
                pid: 0,
                call_from,
                call_to,
                data_len: piece.len() as u32,
                user_data: 0,
                data: piece,
            },
    )
}

/// The views of a list of frames.
pub open spec fn frame_views(v: Seq<AgwpeFrame>) -> Seq<FrameView> {
    v.map_values(|f: AgwpeFrame| f@)
}

/// A first piece of 256 bytes and the pieces of the rest.
proof fn lemma_chunk_step(data: Seq<u8>, from: int)
    requires
        0 <= from < data.len(),
    ensures
        ({
            let to = if data.len() - from > 256 {
                from + 256
            } else {
                data.len() as int
            };
            chunked(data.skip(from)) =~= seq![data.subrange(from, to)] + chunked(data.skip(to))
        }),
{
    let s = data.skip(from);
    if data.len() - from > 256 {
        assert(s.take(256) =~= data.subrange(from, from + 256));
        assert(s.skip(256) =~= data.skip(from + 256));
    } else {
        assert(s =~= data.subrange(from, data.len() as int));
        assert(chunked(data.skip(data.len() as int)) =~= Seq::<Seq<u8>>::empty());
    }
}

/// The frames that carry a message to a station.
pub fn data_frames(port: u8, call_from: &str, call_to: &str, data: &[u8]) -> (r: Vec<AgwpeFrame>)
    ensures
        frame_views(r@) == data_frame_views(port, call_from@, call_to@, data@),
{
    let mut out: Vec<AgwpeFrame> = Vec::new();
    let mut from: usize = 0;
    let ghost all = data_frame_views(port, call_from@, call_to@, data@);
    assert(data@.skip(0) =~= data@);
    assert(frame_views(out@) + data_frame_views(port, call_from@, call_to@, data@.skip(0)) =~= all);
    while from < data.len()
        invariant
            from <= data@.len(),
            all == data_frame_views(port, call_from@, call_to@, data@),
            frame_views(out@) + data_frame_views(
                port,
                call_from@,
                call_to@,
                data@.skip(from as int),
            ) == all,
        decreases data.len() - from,
    {
        let to: usize = if data.len() - from > 256 {
            from + 256
        } else {
            data.len()
        };
        proof {
            lemma_chunk_step(data@, from as int);
        }
        let frame = AgwpeFrame::new(
            port,
            FrameType::SendData,
            call_from,
            call_to,
            copy_range(data, from, to),
        );
        let ghost before = frame_views(out@);
        out.push(frame);
        proof {
            let tail = data_frame_views(port, call_from@, call_to@, data@.skip(to as int));
            let whole = data_frame_views(port, call_from@, call_to@, data@.skip(from as int));
            assert(frame_views(out@) =~= before.push(frame@));
            assert(whole =~= seq![frame@] + tail);
            assert(before.push(frame@) + tail =~= before + whole);
        }
        from = to;
    }
    assert(data_frame_views(port, call_from@, call_to@, data@.skip(from as int)) =~= Seq::<
        FrameView,
    >::empty());
    assert(frame_views(out@) =~= all);
    out
}

// ---------------------------------------------------------------------------
// What frames mean
// ---------------------------------------------------------------------------

/// `needle` stands in `haystack`; an empty one never does.
pub open spec fn holds(haystack: Seq<u8>, needle: Seq<u8>) -> bool {
    needle.len() > 0 && occurs(haystack, needle)
}

/// Tells whether `needle` stands in `haystack`.
pub fn contains_slice(haystack: &[u8], needle: &[u8]) -> (r: bool)
    ensures
        r == holds(haystack@, needle@),
{
    if needle.len() == 0 {
        return false;
    }
    match find_bytes(haystack, needle) {
        Some(_) => true,
        None => false,
    }
}

/// The node's text for a session that is gone.
pub open spec fn session_dead(data: Seq<u8>) -> bool {
    holds(data, encode_utf8("*** DISCONNECTED"@)) || holds(data, encode_utf8("Returned to Node"@))
}

/// Tells whether the bytes received hold the node's text for a session that is
/// gone.
pub fn is_session_dead_payload(data: &[u8]) -> (r: bool)
    ensures
        r == session_dead(data@),
{
    contains_slice(data, "*** DISCONNECTED".as_bytes()) || contains_slice(
        data,
        "Returned to Node".as_bytes(),
    )
}

/// Numbers in square brackets, with a comma and a space between them.
pub open spec fn byte_list(data: Seq<u8>) -> Seq<char> {
    seq!['['] + byte_items(data) + seq![']']
}

/// Numbers with a comma and a space between them.
pub open spec fn byte_items(data: Seq<u8>) -> Seq<char>
    decreases data.len(),
{
    if data.len() == 0 {
        Seq::<char>::empty()
    } else if data.len() == 1 {
        decimal(data[0] as nat)
    } else {
        byte_items(data.drop_last()) + ", "@ + decimal(data.last() as nat)
    }
}

/// Numbers in square brackets.
fn byte_list_text(data: &[u8]) -> (r: String)
    ensures
        r@ == byte_list(data@),
{
    let mut out = String::new();
    out.push('[');
    let mut i: usize = 0;
    assert(out@ =~= seq!['['] + byte_items(data@.take(0)));
    while i < data.len()
        invariant
            i <= data@.len(),
            out@ == seq!['['] + byte_items(data@.take(i as int)),
        decreases data.len() - i,
    {
        let ghost before = out@;
        if i > 0 {
            out.append(", ");
        }
        push_decimal(&mut out, data[i] as u64);
        assert(data@.take(i + 1).drop_last() =~= data@.take(i as int));
        proof {
            if i == 0 {
                assert(data@.take(1)[0] == data@[0]);
                assert(out@ =~= seq!['['] + byte_items(data@.take(i + 1)));
            } else {
                assert(out@ =~= seq!['['] + byte_items(data@.take(i + 1)));
            }
        }
        i += 1;
    }
    out.push(']');
    assert(data@.take(i as int) =~= data@);
    assert(out@ =~= byte_list(data@));
    out
}

/// Why a reply to a registration is not the one expected.
pub open spec fn odd_registration_reply(f: FrameView) -> Seq<char> {
    "Unexpected response to registration: "@ + f.frame_type.name() + " (port="@ + decimal(
        f.port as nat,
    ) + ", call_from="@ + f.call_from + ", call_to="@ + f.call_to + ", data="@ + byte_list(f.data)
        + ")"@
}

/// Judges the reply to a registration: it is accepted exactly where the modem
/// echoes the registration with the single byte 1.
pub fn registration_reply(frame: &AgwpeFrame) -> (r: Result<(), AgwpeError>)
    ensures
        match r {
            Ok(_) => frame.frame_type == FrameType::RegisterCallsign && frame.data@ == seq![1u8],
            Err(e) => !(frame.frame_type == FrameType::RegisterCallsign && frame.data@
                == seq![1u8]) && (e matches AgwpeError::RegistrationFailed(m) && m@
                == odd_registration_reply(frame@)),
        },
{
    if frame.frame_type == FrameType::RegisterCallsign && frame.data.len() == 1 && frame.data[0]
        == 1 {
        assert(frame.data@ =~= seq![1u8]);
        return Ok(());
    }
    assert(frame.data@.len() == 1 ==> frame.data@[0] != 1 || frame.frame_type
        != FrameType::RegisterCallsign);
    let mut m = "Unexpected response to registration: ".to_owned();
    m.append(frame.frame_type.to_text().as_str());
    m.append(" (port=");
    push_decimal(&mut m, frame.port as u64);
    m.append(", call_from=");
    m.append(frame.call_from.as_str());
    m.append(", call_to=");
    m.append(frame.call_to.as_str());
    m.append(", data=");
    m.append(byte_list_text(&frame.data).as_str());
    m.append(")");
    Err(AgwpeError::RegistrationFailed(m))
}

/// A text without zero characters at its end.
pub open spec fn without_trailing_zeros(s: Seq<char>) -> Seq<char>
    decreases s.len(),
{
    if s.len() > 0 && s.last() == '\0' {
        without_trailing_zeros(s.drop_last())
    } else {
        s
    }
}

/// The ports that the pieces behind the count name: the piece at place `i` is
/// port `i`, taken modulo 256, and an empty piece is none.
pub open spec fn named_ports(names: Seq<Seq<char>>) -> Seq<(u8, Seq<char>)>
    decreases names.len(),
{
    if names.len() == 0 {
        Seq::<(u8, Seq<char>)>::empty()
    } else {
        let done = named_ports(names.drop_last());
        if names.last().len() == 0 {
            done
        } else {
            done.push((((names.len() - 1) % 256) as u8, names.last()))
        }
    }
}

/// The ports that a reply to a port query lists: a count and the names, with
/// semicolons between them.
pub open spec fn ports_of(data: Seq<u8>) -> Seq<(u8, Seq<char>)> {
    let parts = split(without_trailing_zeros(utf8_lossy(data)), ';');
    if parts.len() >= 2 && unsigned(parts[0], usize::MAX as nat) is Some {
        named_ports(parts.drop_first())
    } else {
        Seq::<(u8, Seq<char>)>::empty()
    }
}

/// Ports as pairs of number and name.
pub open spec fn port_views(v: Seq<PortInfo>) -> Seq<(u8, Seq<char>)> {
    v.map_values(|p: PortInfo| (p.port_num, p.description@))
}

/// Drops zero characters at the end.
fn drop_trailing_zeros(s: &str) -> (r: String)
    ensures
        r@ == without_trailing_zeros(s@),
{
    let chars = crate::text::chars_of(s);
    let mut n: usize = chars.len();
    assert(s@.take(n as int) =~= s@);
    while n > 0 && chars[n - 1] == '\0'
        invariant
            n <= chars@.len(),
            chars@ == s@,
            without_trailing_zeros(s@) == without_trailing_zeros(s@.take(n as int)),
        decreases n,
    {
        assert(s@.take(n as int).drop_last() =~= s@.take(n - 1));
        n -= 1;
    }
    assert(s@.take(n as int) =~= s@.subrange(0, n as int));
    crate::text::text_of(&chars, 0, n)
}

/// Reads the reply to a port query. `None` means that the frame is not the
/// reply, which is still to come.
pub fn port_reply(frame: &AgwpeFrame) -> (r: Option<Vec<PortInfo>>)
    ensures
        match r {
            None => frame.frame_type != FrameType::QueryPorts && frame.frame_type
                != FrameType::PortInfo,
            Some(ports) => (frame.frame_type == FrameType::QueryPorts || frame.frame_type
                == FrameType::PortInfo) && port_views(ports@) == (if frame.data_len == 0
                || frame.data@.len() == 0 {
                Seq::<(u8, Seq<char>)>::empty()
            } else {
                ports_of(frame.data@)
            }),
        },
{
    if frame.frame_type != FrameType::QueryPorts && frame.frame_type != FrameType::PortInfo {
        return None;
    }
    let mut ports: Vec<PortInfo> = Vec::new();
    assert(port_views(ports@) =~= Seq::<(u8, Seq<char>)>::empty());
    if frame.data_len == 0 || frame.data.len() == 0 {
        return Some(ports);
    }
    let text = drop_trailing_zeros(string_from_utf8_lossy(&frame.data).as_str());
    let parts = split_at_char(text.as_str(), ';');
    let ghost p = split(text@, ';');
    assert(p.len() == parts@.len());
    assert(forall|k: int| 0 <= k < p.len() ==> p[k] == (#[trigger] parts@[k])@);
    if parts.len() < 2 {
        return Some(ports);
    }
    assert(p[0] == parts@[0]@);
    if read_unsigned(parts[0].as_str(), usize::MAX as u64).is_none() {
        return Some(ports);
    }
    let ghost names = p.drop_first();
    let mut i: usize = 1;
    assert(named_ports(names.take(0)) =~= Seq::<(u8, Seq<char>)>::empty());
    while i < parts.len()
        invariant
            1 <= i <= parts@.len(),
            p.len() == parts@.len(),
            forall|k: int| 0 <= k < p.len() ==> p[k] == (#[trigger] parts@[k])@,
            names == p.drop_first(),
            port_views(ports@) == named_ports(names.take(i - 1)),
        decreases parts.len() - i,
    {
        proof {
            assert(names.take(i as int).drop_last() =~= names.take(i - 1));
            assert(names.take(i as int).last() == parts@[i as int]@);
        }
        if !parts[i].as_str().is_empty() {
            let num: u8 = ((i - 1) % 256) as u8;
            let ghost before = port_views(ports@);
            let port = PortInfo { port_num: num, description: parts[i].clone() };
            ports.push(port);
            assert(port_views(ports@) =~= before.push((num, parts@[i as int]@)));
        }
        i += 1;
    }
    assert(names.take(i - 1) =~= names);
    Some(ports)
}

/// What a frame says of a link that is being opened.
pub enum LinkReply {
    Opened,
    Rejected { reason: String },
    Unrelated,
}

/// The node's words for a rejected connection.
pub open spec fn rejection(data: Seq<u8>) -> Seq<char> {
    "connection rejected by peer: "@ + utf8_lossy(data)
}

/// A connect frame by which the node tells that the link is up.
pub open spec fn says_connected(data: Seq<u8>) -> bool {
    starts_with(data, encode_utf8("***"@)) && holds(data, encode_utf8("CONNECTED"@))
}

/// Judges a frame that comes while a link is being opened: a connected frame,
/// or a connect frame with the node's notice in it, opens the link, and a
/// rejection ends it.
pub fn link_reply(frame: &AgwpeFrame) -> (r: LinkReply)
    ensures
        match r {
            LinkReply::Opened => frame.frame_type == FrameType::Connected || (frame.frame_type
                == FrameType::Connect && says_connected(frame.data@)),
            LinkReply::Rejected { reason } => frame.frame_type == FrameType::ConnectionRejected
                && reason@ == rejection(frame.data@),
            LinkReply::Unrelated => frame.frame_type != FrameType::Connected && frame.frame_type
                != FrameType::ConnectionRejected && !(frame.frame_type == FrameType::Connect
                && says_connected(frame.data@)),
        },
{
    match frame.frame_type {
        FrameType::Connected => LinkReply::Opened,
        FrameType::Connect => {
            if bytes_begin(&frame.data, "***".as_bytes()) && contains_slice(
                &frame.data,
                "CONNECTED".as_bytes(),
            ) {
                LinkReply::Opened
            } else {
                LinkReply::Unrelated
            }
        },
        FrameType::ConnectionRejected => LinkReply::Rejected {
            reason: join2(
                "connection rejected by peer: ",
                string_from_utf8_lossy(&frame.data).as_str(),
            ),
        },
        _ => LinkReply::Unrelated,
    }
}

/// An event by the bytes or the text that it holds.
pub enum EventView {
    Data { data: Seq<u8> },
    Disconnected { reason: Seq<char> },
}

impl View for TransportEvent {
    type V = EventView;

    open spec fn view(&self) -> EventView {
        match self {
            TransportEvent::Data(data) => EventView::Data { data: data@ },
            TransportEvent::Disconnected { reason } => EventView::Disconnected { reason: reason@ },
        }
    }
}

/// What a frame means in an open session.
pub open spec fn event_of(frame: FrameView) -> EventView {
    match frame.frame_type {
        FrameType::Disconnect => EventView::Disconnected { reason: utf8_lossy(frame.data) },
        FrameType::SendData => if session_dead(frame.data) {
            EventView::Disconnected { reason: utf8_lossy(frame.data) }
        } else {
            EventView::Data { data: frame.data }
        },
        FrameType::Connect => EventView::Data { data: frame.data },
        FrameType::ConnectionRejected => EventView::Disconnected { reason: rejection(frame.data) },
        _ => EventView::Data { data: Seq::<u8>::empty() },
    }
}

/// What a frame means in an open session.
pub fn session_event(frame: AgwpeFrame) -> (r: TransportEvent)
    ensures
        r@ == event_of(frame@),
{
    match frame.frame_type {
        FrameType::Disconnect => TransportEvent::Disconnected {
            reason: string_from_utf8_lossy(&frame.data),
        },
        FrameType::SendData => {
            if is_session_dead_payload(&frame.data) {
                TransportEvent::Disconnected { reason: string_from_utf8_lossy(&frame.data) }
            } else {
                TransportEvent::Data(frame.data)
            }
        },
        FrameType::Connect => TransportEvent::Data(frame.data),
        FrameType::ConnectionRejected => TransportEvent::Disconnected {
            reason: join2(
                "connection rejected by peer: ",
                string_from_utf8_lossy(&frame.data).as_str(),
            ),
        },
        _ => TransportEvent::Data(Vec::new()),
    }
}

// ---------------------------------------------------------------------------
// Laws
// ---------------------------------------------------------------------------

/// A header keeps its fields where modems look for them: the port first, the
/// letter of the kind at 4, the stations at 8 and at 18 with zeros behind them,
/// and the length of the data at 28, its lowest byte first. The data follows at
/// 36.
pub proof fn headers_have_their_layout(f: FrameView)
    requires
        frame_fits(f),
    ensures
        ({
            let w = frame_wire(f);
            let from = encode_utf8(f.call_from);
            let to = encode_utf8(f.call_to);
            &&& w[0] == f.port
            &&& w[4] == f.frame_type.byte()
            &&& w.subrange(8, 8 + from.len() as int) == from
            &&& forall|i: int| 8 + from.len() <= i < 18 ==> #[trigger] w[i] == 0
            &&& w.subrange(18, 18 + to.len() as int) == to
            &&& forall|i: int| 18 + to.len() <= i < 28 ==> #[trigger] w[i] == 0
            &&& w[28] + 256 * w[29] + 65536 * w[30] + 16777216 * w[31] == f.data.len()
            &&& w.skip(36) == f.data
        }),
{
    let w = frame_wire(f);
    frame_round_trip(f, Seq::<u8>::empty());
    assert(w + Seq::<u8>::empty() =~= w);
    let a = call_field(f.call_from);
    let b = call_field(f.call_to);
    assert(w.subrange(8, 18) =~= a);
    assert(w.subrange(18, 28) =~= b);
    assert(w.subrange(28, 32) =~= le32(f.data_len));
    let from = encode_utf8(f.call_from);
    let to = encode_utf8(f.call_to);
    assert(w.subrange(8, 8 + from.len() as int) =~= from) by {
        assert forall|i: int| 0 <= i < from.len() implies w[8 + i] == from[i] by {
            assert(w[8 + i] == a[i]);
        }
    }
    assert(w.subrange(18, 18 + to.len() as int) =~= to) by {
        assert forall|i: int| 0 <= i < to.len() implies w[18 + i] == to[i] by {
            assert(w[18 + i] == b[i]);
        }
    }
    assert forall|i: int| 8 + from.len() <= i < 18 implies #[trigger] w[i] == 0 by {
        assert(w[i] == a[i - 8]);
    }
    assert forall|i: int| 18 + to.len() <= i < 28 implies #[trigger] w[i] == 0 by {
        assert(w[i] == b[i - 18]);
    }
    assert(w.skip(36) =~= f.data);
    crate::bytes::four_bytes_round_trip(f.data_len);
    assert(w[28] == le32(f.data_len)[0] && w[29] == le32(f.data_len)[1]);
    assert(w[30] == le32(f.data_len)[2] && w[31] == le32(f.data_len)[3]);
}

/// Modems know the kinds of frames by these letters.
pub proof fn kinds_have_their_letters()
    ensures
        FrameType::RegisterCallsign.byte() as char == 'X',
        FrameType::RegistrationResponse.byte() as char == 'x',
        FrameType::Connect.byte() as char == 'C',
        FrameType::Connected.byte() as char == 'c',
        FrameType::SendData.byte() as char == 'D',
        FrameType::Disconnect.byte() as char == 'd',
        FrameType::ConnectionRejected.byte() as char == 'R',
        FrameType::QueryPorts.byte() as char == 'G',
        FrameType::PortInfo.byte() as char == 'g',
{
}

/// What the node sends in a data frame reaches the session to the byte, unless
/// it tells that the session is gone.
pub proof fn data_reaches_the_session(frame: FrameView)
    requires
        frame.frame_type == FrameType::SendData,
        !occurs(frame.data, encode_utf8("*** DISCONNECTED"@)),
        !occurs(frame.data, encode_utf8("Returned to Node"@)),
    ensures
        event_of(frame) == (EventView::Data { data: frame.data }),
{
}

/// A data frame with the node's notice anywhere in it ends the session, and the
/// notice is the reason. So does a disconnect frame, and so does a rejection.
pub proof fn lost_sessions_are_noticed(frame: FrameView, notice: Seq<char>)
    requires
        notice == "*** DISCONNECTED"@ || notice == "Returned to Node"@,
    ensures
        frame.frame_type == FrameType::SendData && occurs(frame.data, encode_utf8(notice))
            ==> event_of(frame) == (EventView::Disconnected { reason: utf8_lossy(frame.data) }),
        frame.frame_type == FrameType::Disconnect ==> event_of(frame) == (
        EventView::Disconnected { reason: utf8_lossy(frame.data) }),
        frame.frame_type == FrameType::ConnectionRejected ==> event_of(frame) == (
        EventView::Disconnected {
            reason: "connection rejected by peer: "@ + utf8_lossy(frame.data),
        }),
{
    reveal_strlit("*** DISCONNECTED");
    reveal_strlit("Returned to Node");
    is_ascii_chars_encode_utf8("*** DISCONNECTED"@);
    is_ascii_chars_encode_utf8("Returned to Node"@);
}

/// Of the other frames none ends a session, and only a connect frame brings
/// bytes, which are its own.
pub proof fn other_frames_bring_nothing(frame: FrameView)
    requires
        frame.frame_type != FrameType::SendData,
        frame.frame_type != FrameType::Disconnect,
        frame.frame_type != FrameType::ConnectionRejected,
    ensures
        event_of(frame) == (EventView::Data {
            data: if frame.frame_type == FrameType::Connect {
                frame.data
            } else {
                Seq::<u8>::empty()
            },
        }),
{
}

/// The bytes that events bring, one after another.
pub open spec fn bytes_heard(events: Seq<EventView>) -> Seq<u8>
    decreases events.len(),
{
    if events.len() == 0 {
        Seq::<u8>::empty()
    } else {
        (match events[0] {
            EventView::Data { data } => data,
            EventView::Disconnected { .. } => Seq::<u8>::empty(),
        }) + bytes_heard(events.drop_first())
    }
}

/// What stands in a part of some bytes stands in them.
proof fn lemma_occurs_in_part(data: Seq<u8>, from: int, to: int, pat: Seq<u8>)
    requires
        0 <= from <= to <= data.len(),
        occurs(data.subrange(from, to), pat),
    ensures
        occurs(data, pat),
{
    let part = data.subrange(from, to);
    let i = choose|i: int| occurs_at(part, pat, i);
    assert(data.subrange(from + i, from + i + pat.len()) =~= part.subrange(i, i + pat.len()));
    assert(occurs_at(data, pat, from + i));
}

/// A message that does not speak of a lost session crosses the modem whole: cut
/// into frames, each frame taken as an event, the bytes that the events bring
/// are the message.
pub proof fn messages_cross_the_modem(
    port: u8,
    call_from: Seq<char>,
    call_to: Seq<char>,
    message: Seq<u8>,
)
    requires
        !occurs(message, encode_utf8("*** DISCONNECTED"@)),
        !occurs(message, encode_utf8("Returned to Node"@)),
    ensures
        bytes_heard(
            data_frame_views(port, call_from, call_to, message).map_values(
                |f: FrameView| event_of(f),
            ),
        ) == message,
    decreases message.len(),
{
    let frames = data_frame_views(port, call_from, call_to, message);
    let events = frames.map_values(|f: FrameView| event_of(f));
    if message.len() == 0 {
        assert(events =~= Seq::<EventView>::empty());
    } else {
        lemma_chunk_step(message, 0);
        assert(message.skip(0) =~= message);
        let to = if message.len() > 256 {
            256
        } else {
            message.len() as int
        };
        let head = message.subrange(0, to);
        let tail = message.skip(to);
        assert(tail =~= message.subrange(to, message.len() as int));
        if occurs(head, encode_utf8("*** DISCONNECTED"@)) {
            lemma_occurs_in_part(message, 0, to, encode_utf8("*** DISCONNECTED"@));
        }
        if occurs(head, encode_utf8("Returned to Node"@)) {
            lemma_occurs_in_part(message, 0, to, encode_utf8("Returned to Node"@));
        }
        if occurs(tail, encode_utf8("*** DISCONNECTED"@)) {
            lemma_occurs_in_part(
                message,
                to,
                message.len() as int,
                encode_utf8("*** DISCONNECTED"@),
            );
        }
        if occurs(tail, encode_utf8("Returned to Node"@)) {
            lemma_occurs_in_part(
                message,
                to,
                message.len() as int,
                encode_utf8("Returned to Node"@),
            );
        }
        messages_cross_the_modem(port, call_from, call_to, tail);
        let later = data_frame_views(port, call_from, call_to, tail).map_values(
            |f: FrameView| event_of(f),
        );
        assert(frames[0].data == head && frames[0].frame_type == FrameType::SendData);
        data_reaches_the_session(frames[0]);
        assert(events.drop_first() =~= later);
        assert(bytes_heard(events) =~= head + tail);
        assert(head + tail =~= message);
    }
}

/// Frames on the wire, one after another.
pub open spec fn frames_wire(frames: Seq<FrameView>) -> Seq<u8>
    decreases frames.len(),
{
    if frames.len() == 0 {
        Seq::<u8>::empty()
    } else {
        frame_wire(frames[0]) + frames_wire(frames.drop_first())
    }
}

/// The frames that bytes from the modem give, one after another, until they give
/// no more.
pub open spec fn frames_read(buf: Seq<u8>) -> Seq<FrameView>
    decreases buf.len(),
{
    match next_frame(buf) {
        FrameProgress::Frame { frame, rest } => if rest.len() < buf.len() {
            seq![frame] + frames_read(rest)
        } else {
            Seq::<FrameView>::empty()
        },
        _ => Seq::<FrameView>::empty(),
    }
}

/// Frames come out of the modem's bytes as they went in: all of them, in their
/// order.
pub proof fn streams_of_frames_round_trip(frames: Seq<FrameView>)
    requires
        forall|i: int| 0 <= i < frames.len() ==> frame_fits(#[trigger] frames[i]),
    ensures
        frames_read(frames_wire(frames)) == frames,
    decreases frames.len(),
{
    if frames.len() > 0 {
        let rest = frames.drop_first();
        assert forall|i: int| 0 <= i < rest.len() implies frame_fits(#[trigger] rest[i]) by {
            assert(rest[i] == frames[i + 1]);
        }
        streams_of_frames_round_trip(rest);
        assert(frame_fits(frames[0]));
        frame_round_trip(frames[0], Seq::<u8>::empty());
        frames_come_out_in_order(frames[0], frames_wire(rest));
        assert(frames_read(frames_wire(frames)) =~= frames);
    } else {
        assert(frames_read(frames_wire(frames)) =~= frames);
    }
}

/// The reply of a modem that has these ports: how many there are, and their
/// names behind semicolons.
pub open spec fn ports_text(count: nat, names: Seq<Seq<char>>) -> Seq<char>
    decreases names.len(),
{
    if names.len() == 0 {
        decimal(count)
    } else {
        ports_text(count, names.drop_last()) + seq![';'] + names.last()
    }
}

proof fn lemma_ports_text(count: nat, names: Seq<Seq<char>>)
    requires
        forall|i: int| 0 <= i < names.len() ==> !(#[trigger] names[i]).contains(';'),
    ensures
        split(ports_text(count, names), ';') == seq![decimal(count)] + names,
    decreases names.len(),
{
    if names.len() == 0 {
        crate::number::lemma_decimal(count);
        assert forall|i: int| 0 <= i < decimal(count).len() implies decimal(count)[i] != ';' by {
            assert(crate::text::is_digit(decimal(count)[i]));
        }
        crate::text::lemma_split_whole(decimal(count), ';');
        assert(seq![decimal(count)] + names =~= seq![decimal(count)]);
    } else {
        let front = names.drop_last();
        assert forall|i: int| 0 <= i < front.len() implies !(#[trigger] front[i]).contains(';') by {
            assert(front[i] == names[i]);
        }
        lemma_ports_text(count, front);
        let last = names.last();
        assert(!names[names.len() - 1].contains(';'));
        assert forall|i: int| 0 <= i < last.len() implies last[i] != ';' by {
            assert(last.contains(last[i]));
        }
        crate::text::lemma_split_whole(last, ';');
        crate::text::lemma_split_join(ports_text(count, front), ';', last);
        assert(seq![decimal(count)] + front + seq![last] =~= seq![decimal(count)] + names);
    }
}

proof fn lemma_named_ports(names: Seq<Seq<char>>)
    requires
        names.len() <= 256,
        forall|i: int| 0 <= i < names.len() ==> (#[trigger] names[i]).len() > 0,
    ensures
        named_ports(names).len() == names.len(),
        forall|i: int|
            0 <= i < names.len() ==> (#[trigger] named_ports(names)[i]) == (i as u8, names[i]),
    decreases names.len(),
{
    if names.len() > 0 {
        let front = names.drop_last();
        assert forall|i: int| 0 <= i < front.len() implies (#[trigger] front[i]).len() > 0 by {
            assert(front[i] == names[i]);
        }
        lemma_named_ports(front);
        assert(names[names.len() - 1].len() > 0);
    }
}

/// A modem's ports are known by the names that it gives them, numbered from zero
/// in its order.
pub proof fn ports_are_numbered_in_order(names: Seq<Seq<char>>, zeros: nat)
    requires
        0 < names.len() <= 256,
        forall|i: int|
            0 <= i < names.len() ==> (#[trigger] names[i]).len() > 0 && !names[i].contains(';'),
        names.last().last() != '\0',
    ensures
        ({
            let text = ports_text(names.len(), names) + Seq::new(zeros, |i: int| '\0');
            let ports = ports_of(encode_utf8(text));
            &&& ports.len() == names.len()
            &&& forall|i: int| 0 <= i < names.len() ==> (#[trigger] ports[i]) == (i as u8, names[i])
        }),
{
    let bare = ports_text(names.len(), names);
    let pad = Seq::new(zeros, |i: int| '\0');
    let text = bare + pad;
    encode_utf8_valid_utf8(text);
    encode_utf8_decode_utf8(text);
    assert(names[names.len() - 1].len() > 0);
    assert(bare.last() == names.last().last());
    lemma_zeros_go(bare, zeros);
    lemma_ports_text(names.len(), names);
    let parts = seq![decimal(names.len())] + names;
    assert(parts.drop_first() =~= names);
    crate::number::unsigned_decimal_round_trip(names.len(), usize::MAX as nat);
    lemma_named_ports(names);
}

proof fn lemma_zeros_go(s: Seq<char>, zeros: nat)
    requires
        s.len() > 0,
        s.last() != '\0',
    ensures
        without_trailing_zeros(s + Seq::new(zeros, |i: int| '\0')) == s,
    decreases zeros,
{
    let pad = Seq::new(zeros, |i: int| '\0');
    if zeros == 0 {
        assert(s + pad =~= s);
    } else {
        let fewer = (zeros - 1) as nat;
        assert((s + pad).last() == '\0');
        assert((s + pad).drop_last() =~= s + Seq::new(fewer, |i: int| '\0'));
        lemma_zeros_go(s, fewer);
    }
}

/// The node tells of a link by a notice that begins with three stars and says
/// so; without the stars it is no notice.
pub proof fn notices_tell_of_a_link(a: Seq<char>, b: Seq<char>, data: Seq<u8>)
    ensures
        says_connected(encode_utf8("***"@ + a + "CONNECTED"@ + b)),
        !starts_with(data, encode_utf8("***"@)) ==> !says_connected(data),
        !occurs(data, encode_utf8("CONNECTED"@)) ==> !says_connected(data),
{
    reveal_strlit("CONNECTED");
    let stars = encode_utf8("***"@);
    let word = encode_utf8("CONNECTED"@);
    is_ascii_chars_encode_utf8("CONNECTED"@);
    assert(word.len() == 9);
    crate::bytes::lemma_encode_concat("***"@ + a + "CONNECTED"@, b);
    crate::bytes::lemma_encode_concat("***"@ + a, "CONNECTED"@);
    crate::bytes::lemma_encode_concat("***"@, a);
    let front = stars + encode_utf8(a);
    let all = front + word + encode_utf8(b);
    crate::text::lemma_occurs_within(front, word, encode_utf8(b));
    assert(all.take(stars.len() as int) =~= stars);
}

/// A frame type that nobody knows is told by its two hexadecimal digits.
pub proof fn unknown_types_are_told_in_hexadecimal(value: u8)
    ensures
        ({
            let digits = seq![
                '0', '1', '2', '3', '4', '5', '6', '7', '8', '9', 'A', 'B', 'C', 'D', 'E', 'F',
            ];
            unknown_frame_type(value) == "Unknown frame type: 0x"@ + seq![
                digits[value as int / 16],
                digits[value as int % 16],
            ]
        }),
{
    let digits = seq![
        '0', '1', '2', '3', '4', '5', '6', '7', '8', '9', 'A', 'B', 'C', 'D', 'E', 'F',
    ];
    lemma_hex_upper(value as int / 16);
    lemma_hex_upper(value as int % 16);
    assert(unknown_frame_type(value) =~= "Unknown frame type: 0x"@ + seq![
        digits[value as int / 16],
        digits[value as int % 16],
    ]);
}

/// The digit for a number below sixteen.
proof fn lemma_hex_upper(n: int)
    requires
        0 <= n < 16,
    ensures
        hex_upper(n) == seq![
            '0', '1', '2', '3', '4', '5', '6', '7', '8', '9', 'A', 'B', 'C', 'D', 'E', 'F',
        ][n],
{
}

/// Bytes are listed in order as numbers, with a comma and a space between them.
pub proof fn bytes_are_listed_in_order(data: Seq<u8>, b: u8)
    ensures
        byte_list(seq![b]) == "["@ + decimal(b as nat) + "]"@,
        byte_list(Seq::empty()) == "[]"@,
        data.len() > 0 ==> byte_list(data.push(b)) == byte_list(data).drop_last() + ", "@ + decimal(
            b as nat,
        ) + "]"@,
{
    reveal_strlit("[");
    reveal_strlit("]");
    reveal_strlit("[]");
    assert(seq![b][0] == b);
    assert(byte_list(seq![b]) =~= "["@ + decimal(b as nat) + "]"@);
    assert(byte_list(Seq::empty()) =~= "[]"@);
    if data.len() > 0 {
        assert(data.push(b).drop_last() =~= data);
        assert(byte_list(data.push(b)) =~= byte_list(data).drop_last() + ", "@ + decimal(b as nat)
            + "]"@);
    }
}

} // verus!
