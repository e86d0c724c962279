//! The VARA modem: its command port speaks in lines.

use vstd::prelude::*;
use crate::bytes::{string_from_utf8_lossy, utf8_lossy};
use crate::client::transport::{
    TransportError, TransportEvent, TransportKind, VaraBandwidth, VaraMode,
};
use crate::number::{decimal, push_decimal, read_unsigned, unsigned};
use crate::text::{
    after_prefix, chars_of, debug_text, is_space, is_word, join2, join3, same, split_words,
    starts_with, strip_prefix, text_of, to_debug_text, trim, trimmed, views, words,
};

verus! {

/// What the modem says on its command port.
#[derive(Debug, Clone, PartialEq, Eq)]
pub enum VaraResponse {
    Okay,
    Pending,
    Connected { local: String, remote: String },
    Disconnected,
    BusyDetected,
    LinkRegistered,
    Buffer(u32),
    Missing(String),
    Unknown(String),
}

/// What the modem says, by the texts in it.
pub enum ResponseView {
    Okay,
    Pending,
    Connected { local: Seq<char>, remote: Seq<char> },
    Disconnected,
    BusyDetected,
    LinkRegistered,
    Buffer(nat),
    Missing(Seq<char>),
    Unknown(Seq<char>),
}

impl View for VaraResponse {
    type V = ResponseView;

    open spec fn view(&self) -> ResponseView {
        match self {
            VaraResponse::Okay => ResponseView::Okay,
            VaraResponse::Pending => ResponseView::Pending,
            VaraResponse::Connected { local, remote } => ResponseView::Connected {
                local: local@,
                remote: remote@,
            },
            VaraResponse::Disconnected => ResponseView::Disconnected,
            VaraResponse::BusyDetected => ResponseView::BusyDetected,
            VaraResponse::LinkRegistered => ResponseView::LinkRegistered,
            VaraResponse::Buffer(n) => ResponseView::Buffer(*n as nat),
            VaraResponse::Missing(s) => ResponseView::Missing(s@),
            VaraResponse::Unknown(s) => ResponseView::Unknown(s@),
        }
    }
}

impl ResponseView {
    /// How the answer is shown in error messages.
    pub open spec fn shown(self) -> Seq<char> {
        match self {
            ResponseView::Okay => "Ok"@,
            ResponseView::Pending => "Pending"@,
            ResponseView::Connected { local, remote } => "Connected { local: "@ + debug_text(local)
                + ", remote: "@ + debug_text(remote) + " }"@,
            ResponseView::Disconnected => "Disconnected"@,
            ResponseView::BusyDetected => "BusyDetected"@,
            ResponseView::LinkRegistered => "LinkRegistered"@,
            ResponseView::Buffer(n) => "Buffer("@ + decimal(n) + ")"@,
            ResponseView::Missing(s) => "Missing("@ + debug_text(s) + ")"@,
            ResponseView::Unknown(s) => "Unknown("@ + debug_text(s) + ")"@,
        }
    }
}

impl VaraResponse {
    /// How the answer is shown in error messages.
    pub fn shown(&self) -> (r: String)
        ensures
            r@ == self@.shown(),
    {
        match self {
            VaraResponse::Okay => "Ok".to_owned(),
            VaraResponse::Pending => "Pending".to_owned(),
            VaraResponse::Connected { local, remote } => {
                let mut m = "Connected { local: ".to_owned();
                m.append(to_debug_text(local.as_str()).as_str());
                m.append(", remote: ");
                m.append(to_debug_text(remote.as_str()).as_str());
                m.append(" }");
                m
            },
            VaraResponse::Disconnected => "Disconnected".to_owned(),
            VaraResponse::BusyDetected => "BusyDetected".to_owned(),
            VaraResponse::LinkRegistered => "LinkRegistered".to_owned(),
            VaraResponse::Buffer(n) => {
                let mut m = "Buffer(".to_owned();
                push_decimal(&mut m, *n as u64);
                m.append(")");
                m
            },
            VaraResponse::Missing(s) => join3("Missing(", to_debug_text(s.as_str()).as_str(), ")"),
            VaraResponse::Unknown(s) => join3("Unknown(", to_debug_text(s.as_str()).as_str(), ")"),
        }
    }
}

/// A carriage return or a line feed.
pub open spec fn ends_line(c: char) -> bool {
    c == '\r' || c == '\n'
}

/// A text without line ends behind it.
pub open spec fn without_line_ends(s: Seq<char>) -> Seq<char>
    decreases s.len(),
{
    if s.len() > 0 && ends_line(s.last()) {
        without_line_ends(s.drop_last())
    } else {
        s
    }
}

/// The answer that a line is, where it is a connection notice.
pub open spec fn connected_of(s: Seq<char>) -> Option<ResponseView> {
    match after_prefix(s, "CONNECTED "@) {
        Some(rest) => {
            let w = words(rest);
            if w.len() >= 2 {
                Some(ResponseView::Connected { local: w[0], remote: w[1] })
            } else {
                None
            }
        },
        None => None,
    }
}

/// The answer that a line is, where it tells how much is still to be sent.
pub open spec fn buffer_of(s: Seq<char>) -> Option<ResponseView> {
    match after_prefix(s, "BUFFER "@) {
        Some(rest) => match unsigned(trim(rest), u32::MAX as nat) {
            Some(n) => Some(ResponseView::Buffer(n)),
            None => None,
        },
        None => None,
    }
}

/// The answer that a line is.
pub open spec fn response_of(line: Seq<char>) -> ResponseView {
    let s = without_line_ends(line);
    if s == "OK"@ {
        ResponseView::Okay
    } else if s == "PENDING"@ {
        ResponseView::Pending
    } else if s == "DISCONNECTED"@ {
        ResponseView::Disconnected
    } else if s == "BUSY DETECTED"@ {
        ResponseView::BusyDetected
    } else if s == "LINK REGISTERED"@ {
        ResponseView::LinkRegistered
    } else if let Some(v) = connected_of(s) {
        v
    } else if let Some(v) = buffer_of(s) {
        v
    } else if let Some(rest) = after_prefix(s, "MISSING "@) {
        ResponseView::Missing(trim(rest))
    } else {
        ResponseView::Unknown(s)
    }
}

/// Drops line ends behind a text.
fn drop_line_ends(s: &str) -> (r: String)
    ensures
        r@ == without_line_ends(s@),
{
    let chars = chars_of(s);
    let mut n: usize = chars.len();
    assert(s@.take(n as int) =~= s@);
    while n > 0 && (chars[n - 1] == '\r' || chars[n - 1] == '\n')
        invariant
            n <= chars@.len(),
            chars@ == s@,
            without_line_ends(s@) == without_line_ends(s@.take(n as int)),
        decreases n,
    {
        assert(s@.take(n as int).drop_last() =~= s@.take(n - 1));
        n -= 1;
    }
    assert(s@.take(n as int) =~= s@.subrange(0, n as int));
    text_of(&chars, 0, n)
}

/// Reads a line of the command port.
pub fn parse_line(raw: &str) -> (r: VaraResponse)
    ensures
        r@ == response_of(raw@),
{
    let s = drop_line_ends(raw);
    if same(s.as_str(), "OK") {
        return VaraResponse::Okay;
    }
    if same(s.as_str(), "PENDING") {
        return VaraResponse::Pending;
    }
    if same(s.as_str(), "DISCONNECTED") {
        return VaraResponse::Disconnected;
    }
    if same(s.as_str(), "BUSY DETECTED") {
        return VaraResponse::BusyDetected;
    }
    if same(s.as_str(), "LINK REGISTERED") {
        return VaraResponse::LinkRegistered;
    }
    if let Some(rest) = strip_prefix(s.as_str(), "CONNECTED ") {
        let w = split_words(rest.as_str());
        assert(views(w@).len() == w@.len());
        if w.len() >= 2 {
            assert(views(w@)[0] == w@[0]@ && views(w@)[1] == w@[1]@);
            return VaraResponse::Connected { local: w[0].clone(), remote: w[1].clone() };
        }
    }
    if let Some(rest) = strip_prefix(s.as_str(), "BUFFER ") {
        if let Some(n) = read_unsigned(trimmed(rest.as_str()).as_str(), 0xffff_ffff) {
            return VaraResponse::Buffer(n as u32);
        }
    }
    if let Some(rest) = strip_prefix(s.as_str(), "MISSING ") {
        return VaraResponse::Missing(trimmed(rest.as_str()));
    }
    VaraResponse::Unknown(s)
}

/// The command that selects a bandwidth.
pub open spec fn bandwidth_command(bw: VaraBandwidth) -> Seq<char> {
    match bw {
        VaraBandwidth::VNarrow => "VNARROW"@,
        VaraBandwidth::VWide => "VWIDE"@,
        VaraBandwidth::Bw250 => "BW250"@,
        VaraBandwidth::Bw500 => "BW500"@,
        VaraBandwidth::Bw2300 => "BW2300"@,
        VaraBandwidth::Bw2750 => "BW2750"@,
    }
}

/// The command that selects a bandwidth.
pub fn bandwidth_wire_command(bw: VaraBandwidth) -> (r: &'static str)
    ensures
        r@ == bandwidth_command(bw),
{
    match bw {
        VaraBandwidth::VNarrow => "VNARROW",
        VaraBandwidth::VWide => "VWIDE",
        VaraBandwidth::Bw250 => "BW250",
        VaraBandwidth::Bw500 => "BW500",
        VaraBandwidth::Bw2300 => "BW2300",
        VaraBandwidth::Bw2750 => "BW2750",
    }
}

/// The commands that prepare the modem, in their order. The mode makes no
/// difference to them.
pub fn setup_commands(local_callsign: &str, _mode: VaraMode, bw: VaraBandwidth) -> (r: Vec<String>)
    ensures
        views(r@) == seq![
            "MYCALL "@ + local_callsign@,
            "LISTEN OFF"@,
            "COMPRESSION OFF"@,
            bandwidth_command(bw),
        ],
{
    let mut out: Vec<String> = Vec::new();
    out.push(mycall_command(local_callsign));
    out.push("LISTEN OFF".to_owned());
    out.push("COMPRESSION OFF".to_owned());
    out.push(bandwidth_wire_command(bw).to_owned());
    assert(views(out@) =~= seq![
        "MYCALL "@ + local_callsign@,
        "LISTEN OFF"@,
        "COMPRESSION OFF"@,
        bandwidth_command(bw),
    ]);
    out
}

/// The command that tells the modem the station's callsign.
pub fn mycall_command(callsign: &str) -> (r: String)
    ensures
        r@ == "MYCALL "@ + callsign@,
{
    join2("MYCALL ", callsign)
}

/// The command that asks for a connection.
pub fn connect_command(local: &str, remote: &str) -> (r: String)
    ensures
        r@ == "CONNECT "@ + local@ + " "@ + remote@,
{
    join3("CONNECT ", local, " ").concat(remote)
}

/// Refuses a modem that is no VARA modem.
pub fn check_kind(kind: TransportKind) -> (r: Result<(), TransportError>)
    ensures
        match r {
            Ok(_) => kind == TransportKind::VaraFm || kind == TransportKind::VaraHf,
            Err(e) => kind == TransportKind::Ax25 && (e matches TransportError::ModemError(m)
                && m@ == "VaraTransport called with non-VARA TransportKind"@),
        },
{
    match kind {
        TransportKind::Ax25 => Err(
            TransportError::ModemError(
                "VaraTransport called with non-VARA TransportKind".to_owned(),
            ),
        ),
        _ => Ok(()),
    }
}

// ---------------------------------------------------------------------------
// Lines of the command port
// ---------------------------------------------------------------------------

/// Text from the command port that is not yet taken as lines.
pub struct CommandLines {
    buf: String,
}

/// Where the first line of a text ends.
pub open spec fn line_end(s: Seq<char>, from: int) -> Option<int>
    decreases s.len() - from,
{
    if from >= s.len() {
        None
    } else if ends_line(s[from]) {
        Some(from)
    } else {
        line_end(s, from + 1)
    }
}

/// The first line of a text and what follows it. One line feed behind the end
/// of the line goes with it.
pub open spec fn first_line(s: Seq<char>) -> Option<(Seq<char>, Seq<char>)> {
    match line_end(s, 0) {
        Some(e) => {
            let rest = s.skip(e + 1);
            Some(
                (
                    s.take(e),
                    if rest.len() > 0 && rest[0] == '\n' {
                        rest.drop_first()
                    } else {
                        rest
                    },
                ),
            )
        },
        None => None,
    }
}

impl View for CommandLines {
    type V = Seq<char>;

    closed spec fn view(&self) -> Seq<char> {
        self.buf@
    }
}

impl CommandLines {
    /// No text yet.
    pub fn new() -> (r: CommandLines)
        ensures
            r@ == Seq::<char>::empty(),
    {
        CommandLines { buf: String::new() }
    }

    /// Takes bytes from the command port.
    pub fn feed(&mut self, data: &[u8])
        ensures
            final(self)@ == old(self)@ + utf8_lossy(data@),
    {
        self.buf.append(string_from_utf8_lossy(data).as_str());
    }

    /// Forgets all text.
    pub fn clear(&mut self)
        ensures
            final(self)@ == Seq::<char>::empty(),
    {
        self.buf = String::new();
    }

    /// Takes the first line, without its end, where it is there whole.
    pub fn next_line(&mut self) -> (r: Option<String>)
        ensures
            match first_line(old(self)@) {
                Some((line, rest)) => (r matches Some(s) && s@ == line) && final(self)@ == rest,
                None => r is None && final(self)@ == old(self)@,
            },
    {
        let chars = chars_of(self.buf.as_str());
        let ghost s = self.buf@;
        let mut e: usize = 0;
        while e < chars.len() && chars[e] != '\r' && chars[e] != '\n'
            invariant
                e <= chars@.len(),
                chars@ == s,
                line_end(s, 0) == line_end(s, e as int),
            decreases chars.len() - e,
        {
            e += 1;
        }
        if e == chars.len() {
            return None;
        }
        let line = text_of(&chars, 0, e);
        let mut from: usize = e + 1;
        assert(s.skip(e + 1) =~= s.subrange(e + 1, s.len() as int));
        if from < chars.len() && chars[from] == '\n' {
            from += 1;
            assert(s.skip(e + 1).drop_first() =~= s.subrange(e + 2, s.len() as int));
        }
        self.buf = text_of(&chars, from, chars.len());
        assert(s.take(e as int) =~= s.subrange(0, e as int));
        Some(line)
    }
}

/// A line that came whole is the next one, whatever follows it.
pub proof fn lines_come_out_in_order(line: Seq<char>, rest: Seq<char>)
    requires
        forall|i: int| 0 <= i < line.len() ==> !ends_line(#[trigger] line[i]),
        rest.len() == 0 || rest[0] != '\n',
    ensures
        first_line(line + seq!['\r'] + rest) == Some((line, rest)),
{
    let s = line + seq!['\r'] + rest;
    lemma_line_end(s, 0, line.len() as int);
    assert(s.take(line.len() as int) =~= line);
    assert(s.skip(line.len() as int + 1) =~= rest);
}

proof fn lemma_line_end(s: Seq<char>, from: int, at: int)
    requires
        0 <= from <= at < s.len(),
        ends_line(s[at]),
        forall|i: int| from <= i < at ==> !ends_line(#[trigger] s[i]),
    ensures
        line_end(s, from) == Some(at),
    decreases at - from,
{
    if from < at {
        assert(!ends_line(s[from]));
        lemma_line_end(s, from + 1, at);
    }
}

// ---------------------------------------------------------------------------
// What lines mean
// ---------------------------------------------------------------------------

/// Judges the answer to a command that must be acknowledged.
pub fn acknowledged(line: &str) -> (r: Result<(), TransportError>)
    ensures
        match response_of(line@) {
            ResponseView::Okay => r is Ok,
            ResponseView::Missing(field) => r matches Err(TransportError::ModemError(m)) && m@
                == "MISSING "@ + field,
            other => r matches Err(TransportError::ModemError(m)) && m@ == "expected OK, got "@
                + other.shown(),
        },
{
    match parse_line(line) {
        VaraResponse::Okay => Ok(()),
        VaraResponse::Missing(field) => Err(
            TransportError::ModemError(join2("MISSING ", field.as_str())),
        ),
        other => Err(
            TransportError::ModemError(join2("expected OK, got ", other.shown().as_str())),
        ),
    }
}

/// What a line says of a connection that was asked for.
pub enum ConnectReply {
    KeepWaiting,
    Connected,
    Failed(TransportError),
}

/// Judges a line that comes while a connection is being made: pending notices
/// and unknown lines are passed over.
pub fn connect_reply(line: &str) -> (r: ConnectReply)
    ensures
        match response_of(line@) {
            ResponseView::Pending | ResponseView::Unknown(_) => r is KeepWaiting,
            ResponseView::Connected { .. } => r is Connected,
            ResponseView::Disconnected => r matches ConnectReply::Failed(
                TransportError::SessionRejected(m),
            ) && m@ == "vara: link dropped during CONNECT"@,
            ResponseView::BusyDetected => r matches ConnectReply::Failed(
                TransportError::SessionRejected(m),
            ) && m@ == "channel busy"@,
            other => r matches ConnectReply::Failed(TransportError::ModemError(m)) && m@
                == "unexpected during CONNECT: "@ + other.shown(),
        },
{
    match parse_line(line) {
        VaraResponse::Pending => ConnectReply::KeepWaiting,
        VaraResponse::Unknown(_) => ConnectReply::KeepWaiting,
        VaraResponse::Connected { .. } => ConnectReply::Connected,
        VaraResponse::Disconnected => ConnectReply::Failed(
            TransportError::SessionRejected("vara: link dropped during CONNECT".to_owned()),
        ),
        VaraResponse::BusyDetected => ConnectReply::Failed(
            TransportError::SessionRejected("channel busy".to_owned()),
        ),
        other => ConnectReply::Failed(
            TransportError::ModemError(
                join2("unexpected during CONNECT: ", other.shown().as_str()),
            ),
        ),
    }
}

/// Tells whether a line reports that the link is down.
pub fn reports_disconnect(line: &str) -> (r: bool)
    ensures
        r == (response_of(line@) is Disconnected),
{
    match parse_line(line) {
        VaraResponse::Disconnected => true,
        _ => false,
    }
}

/// What a line of the command port means in an open session: only a
/// disconnect does.
pub fn command_event(line: &str) -> (r: Option<TransportEvent>)
    ensures
        match r {
            Some(e) => response_of(line@) is Disconnected && (e matches TransportEvent::Disconnected {
                reason,
            } && reason@ == "vara modem reports disconnect"@),
            None => !(response_of(line@) is Disconnected),
        },
{
    if reports_disconnect(line) {
        Some(TransportEvent::Disconnected { reason: "vara modem reports disconnect".to_owned() })
    } else {
        None
    }
}

/// What a read of the data port means: no bytes mean that it was closed.
pub fn data_event(data: Vec<u8>) -> (r: TransportEvent)
    ensures
        match r {
            TransportEvent::Data(d) => data@.len() > 0 && d@ == data@,
            TransportEvent::Disconnected { reason } => data@.len() == 0 && reason@
                == "data port closed"@,
        },
{
    if data.len() == 0 {
        TransportEvent::Disconnected { reason: "data port closed".to_owned() }
    } else {
        TransportEvent::Data(data)
    }
}

// ---------------------------------------------------------------------------
// Laws of the lines
// ---------------------------------------------------------------------------

/// Only carriage returns and line feeds.
pub open spec fn all_line_ends(s: Seq<char>) -> bool {
    forall|i: int| 0 <= i < s.len() ==> ends_line(#[trigger] s[i])
}

proof fn lemma_line_ends_go(s: Seq<char>, ends: Seq<char>)
    requires
        s.len() == 0 || !ends_line(s.last()),
        all_line_ends(ends),
    ensures
        without_line_ends(s + ends) == s,
    decreases ends.len(),
{
    if ends.len() == 0 {
        assert(s + ends =~= s);
    } else {
        assert(ends_line(ends.last()));
        assert((s + ends).drop_last() =~= s + ends.drop_last());
        assert forall|i: int| 0 <= i < ends.drop_last().len() implies ends_line(
            #[trigger] ends.drop_last()[i],
        ) by {
            assert(ends.drop_last()[i] == ends[i]);
        }
        lemma_line_ends_go(s, ends.drop_last());
    }
}

/// The modem's fixed answers are known, whatever line ends follow them.
pub proof fn fixed_answers_are_known(ends: Seq<char>)
    requires
        all_line_ends(ends),
    ensures
        response_of("OK"@ + ends) is Okay,
        response_of("PENDING"@ + ends) is Pending,
        response_of("DISCONNECTED"@ + ends) is Disconnected,
        response_of("BUSY DETECTED"@ + ends) is BusyDetected,
        response_of("LINK REGISTERED"@ + ends) is LinkRegistered,
{
    reveal_strlit("OK");
    reveal_strlit("PENDING");
    reveal_strlit("DISCONNECTED");
    reveal_strlit("BUSY DETECTED");
    reveal_strlit("LINK REGISTERED");
    lemma_line_ends_go("OK"@, ends);
    lemma_line_ends_go("PENDING"@, ends);
    lemma_line_ends_go("DISCONNECTED"@, ends);
    lemma_line_ends_go("BUSY DETECTED"@, ends);
    lemma_line_ends_go("LINK REGISTERED"@, ends);
    lemma_fixed_lengths();
}

proof fn lemma_fixed_lengths()
    ensures
        "OK"@.len() == 2,
        "PENDING"@.len() == 7,
        "DISCONNECTED"@.len() == 12,
        "BUSY DETECTED"@.len() == 13,
        "LINK REGISTERED"@.len() == 15,
        "CONNECTED "@.len() == 10,
        "BUFFER "@.len() == 7,
        "MISSING "@.len() == 8,
{
    reveal_strlit("OK");
    reveal_strlit("PENDING");
    reveal_strlit("DISCONNECTED");
    reveal_strlit("BUSY DETECTED");
    reveal_strlit("LINK REGISTERED");
    reveal_strlit("CONNECTED ");
    reveal_strlit("BUFFER ");
    reveal_strlit("MISSING ");
}

/// A text that begins with one of the three words is none of the fixed answers.
proof fn lemma_no_fixed_answer(s: Seq<char>)
    requires
        starts_with(s, "CONNECTED "@) || starts_with(s, "BUFFER "@) || starts_with(s, "MISSING "@),
    ensures
        s != "OK"@,
        s != "PENDING"@,
        s != "DISCONNECTED"@,
        s != "BUSY DETECTED"@,
        s != "LINK REGISTERED"@,
{
    lemma_fixed_lengths();
    reveal_strlit("OK");
    reveal_strlit("PENDING");
    reveal_strlit("DISCONNECTED");
    reveal_strlit("BUSY DETECTED");
    reveal_strlit("LINK REGISTERED");
    reveal_strlit("CONNECTED ");
    reveal_strlit("BUFFER ");
    reveal_strlit("MISSING ");
    if starts_with(s, "CONNECTED "@) {
        assert(s.take(10)[0] == 'C');
    } else if starts_with(s, "BUFFER "@) {
        assert(s.take(7)[0] == 'B' && s.take(7)[2] == 'F');
        assert(s[2] == 'F');
    } else {
        assert(s.take(8)[0] == 'M');
    }
}

/// A connection is known with its two stations.
pub proof fn connections_are_known(local: Seq<char>, remote: Seq<char>, ends: Seq<char>)
    requires
        is_word(local),
        is_word(remote),
        all_line_ends(ends),
    ensures
        response_of("CONNECTED "@ + local + " "@ + remote + ends) == (ResponseView::Connected {
            local,
            remote,
        }),
{
    reveal_strlit("CONNECTED ");
    reveal_strlit(" ");
    let rest = local + " "@ + remote;
    let s = "CONNECTED "@ + rest;
    assert("CONNECTED "@ + local + " "@ + remote + ends =~= s + ends);
    assert(s.last() == remote.last());
    assert(!is_space(remote[remote.len() - 1]));
    lemma_line_ends_go(s, ends);
    assert(s.take(10) =~= "CONNECTED "@);
    assert(s.skip(10) =~= rest);
    lemma_no_fixed_answer(s);
    let none = Seq::<char>::empty();
    let gap = " "@;
    assert(gap =~= seq![' ']);
    crate::text::words_come_out_in_order(none, local, gap, remote);
    assert(none + local + gap + remote =~= rest);
    crate::text::lemma_words_of_word(remote);
    assert(words(rest) =~= seq![local, remote]);
}

/// The number of bytes that are still to be sent is known, and so is what the
/// modem misses.
pub proof fn counts_and_complaints_are_known(n: u32, field: Seq<char>, ends: Seq<char>)
    requires
        is_word(field),
        all_line_ends(ends),
    ensures
        response_of("BUFFER "@ + decimal(n as nat) + ends) == ResponseView::Buffer(n as nat),
        response_of("MISSING "@ + field + ends) == ResponseView::Missing(field),
{
    reveal_strlit("BUFFER ");
    reveal_strlit("MISSING ");
    reveal_strlit("CONNECTED ");
    let d = decimal(n as nat);
    crate::number::lemma_decimal(n as nat);
    assert(d.len() > 0);
    assert forall|i: int| 0 <= i < d.len() implies !is_space(#[trigger] d[i]) by {
        assert(crate::text::is_digit(d[i]));
    }
    let none = Seq::<char>::empty();
    crate::text::trimming_takes_space_alone(none, d, none);
    assert(none + d + none =~= d);
    let s = "BUFFER "@ + d;
    lemma_line_ends_go(s, ends);
    assert(s.take(7) =~= "BUFFER "@);
    assert(s.skip(7) =~= d);
    lemma_no_fixed_answer(s);
    assert(s[0] == 'B');
    assert(starts_with(s, "CONNECTED "@) ==> s.take(10)[0] == 'C');
    crate::number::unsigned_decimal_round_trip(n as nat, u32::MAX as nat);
    assert("BUFFER "@ + d + ends =~= s + ends);
    let t = "MISSING "@ + field;
    assert(!is_space(field[0]) && !is_space(field[field.len() - 1]));
    crate::text::trimming_takes_space_alone(none, field, none);
    assert(none + field + none =~= field);
    lemma_line_ends_go(t, ends);
    assert(t.take(8) =~= "MISSING "@);
    assert(t.skip(8) =~= field);
    lemma_no_fixed_answer(t);
    assert(t[0] == 'M');
    assert(starts_with(t, "CONNECTED "@) ==> t.take(10)[0] == 'C');
    assert(starts_with(t, "BUFFER "@) ==> t.take(7)[0] == 'B');
    assert("MISSING "@ + field + ends =~= t + ends);
}

/// A line that is none of these is unknown, and is kept as it is.
pub proof fn other_lines_are_unknown(s: Seq<char>, ends: Seq<char>)
    requires
        s.len() == 0 || !ends_line(s.last()),
        all_line_ends(ends),
        s != "OK"@,
        s != "PENDING"@,
        s != "DISCONNECTED"@,
        s != "BUSY DETECTED"@,
        s != "LINK REGISTERED"@,
        !starts_with(s, "CONNECTED "@),
        !starts_with(s, "BUFFER "@),
        !starts_with(s, "MISSING "@),
    ensures
        response_of(s + ends) == ResponseView::Unknown(s),
{
    lemma_line_ends_go(s, ends);
}

/// A line may end in a carriage return, in a line feed, or in both.
pub proof fn lines_end_in_either_way(line: Seq<char>, rest: Seq<char>)
    requires
        forall|i: int| 0 <= i < line.len() ==> !ends_line(#[trigger] line[i]),
        rest.len() == 0 || rest[0] != '\n',
    ensures
        first_line(line + seq!['\r'] + rest) == Some((line, rest)),
        first_line(line + seq!['\n'] + rest) == Some((line, rest)),
        first_line(line + seq!['\r', '\n'] + rest) == Some((line, rest)),
        first_line(line) is None,
{
    lines_come_out_in_order(line, rest);
    let a = line + seq!['\n'] + rest;
    lemma_line_end(a, 0, line.len() as int);
    assert(a.take(line.len() as int) =~= line);
    assert(a.skip(line.len() as int + 1) =~= rest);
    let b = line + seq!['\r', '\n'] + rest;
    lemma_line_end(b, 0, line.len() as int);
    assert(b.take(line.len() as int) =~= line);
    let tail = b.skip(line.len() as int + 1);
    assert(tail[0] == '\n');
    assert(tail.drop_first() =~= rest);
    lemma_no_line_end(line, 0);
}

proof fn lemma_no_line_end(s: Seq<char>, from: int)
    requires
        0 <= from <= s.len(),
        forall|i: int| 0 <= i < s.len() ==> !ends_line(#[trigger] s[i]),
    ensures
        line_end(s, from) is None,
    decreases s.len() - from,
{
    if from < s.len() {
        assert(!ends_line(s[from]));
        lemma_no_line_end(s, from + 1);
    }
}

/// The modem is told a bandwidth by the name that it knows.
pub proof fn bandwidths_have_their_commands(bw: VaraBandwidth)
    ensures
        bw is VNarrow ==> bandwidth_command(bw) == "VNARROW"@,
        bw is VWide ==> bandwidth_command(bw) == "VWIDE"@,
        bw is Bw250 ==> bandwidth_command(bw) == "BW"@ + decimal(250),
        bw is Bw500 ==> bandwidth_command(bw) == "BW"@ + decimal(500),
        bw is Bw2300 ==> bandwidth_command(bw) == "BW"@ + decimal(2300),
        bw is Bw2750 ==> bandwidth_command(bw) == "BW"@ + decimal(2750),
{
    reveal_strlit("BW");
    reveal_strlit("BW250");
    reveal_strlit("BW500");
    reveal_strlit("BW2300");
    reveal_strlit("BW2750");
    reveal_with_fuel(decimal, 5);
    assert("BW"@ + decimal(250) =~= "BW250"@);
    assert("BW"@ + decimal(500) =~= "BW500"@);
    assert("BW"@ + decimal(2300) =~= "BW2300"@);
    assert("BW"@ + decimal(2750) =~= "BW2750"@);
}

/// What follows the two callsigns of a connection notice does not count.
pub proof fn longer_notices_are_known(
    local: Seq<char>,
    remote: Seq<char>,
    more: Seq<char>,
    ends: Seq<char>,
)
    requires
        is_word(local),
        is_word(remote),
        is_word(more),
        all_line_ends(ends),
    ensures
        response_of("CONNECTED "@ + local + seq![' '] + remote + seq![' '] + more + ends)
            == (ResponseView::Connected { local, remote }),
{
    reveal_strlit("CONNECTED ");
    let rest = local + seq![' '] + remote + seq![' '] + more;
    let s = "CONNECTED "@ + rest;
    let line = "CONNECTED "@ + local + seq![' '] + remote + seq![' '] + more + ends;
    assert(line =~= s + ends);
    crate::text::printable_characters_are_no_space(' ');
    assert(s.last() == more.last());
    assert(!crate::text::is_space(more[more.len() - 1]));
    crate::text::printable_characters_are_no_space('\r');
    crate::text::printable_characters_are_no_space('\n');
    assert(!ends_line(s.last()));
    lemma_line_ends_go(s, ends);
    assert(s.take(10) =~= "CONNECTED "@);
    assert(s.skip(10) =~= rest);
    let two = local + seq![' '] + remote;
    crate::text::lemma_words_of_word(local);
    crate::text::lemma_words_of_word(remote);
    crate::text::lemma_words_of_word(more);
    crate::text::lemma_words_join(local, seq![' '] + remote);
    crate::text::lemma_words_join(seq![' '], remote);
    crate::text::lemma_words_of_space(seq![' ']);
    assert(two =~= local + (seq![' '] + remote));
    crate::text::lemma_words_join(two, seq![' '] + more);
    crate::text::lemma_words_join(seq![' '], more);
    assert(rest =~= two + (seq![' '] + more));
    assert(words(rest) =~= seq![local, remote, more]);
    lemma_no_fixed_answer(s);
}

} // verus!
