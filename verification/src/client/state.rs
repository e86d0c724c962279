//! What the station shows of itself: the state of the connection, the debug
//! log and the modem's ports.

use std::collections::VecDeque;
use vstd::prelude::*;
use crate::client::config::FileConfig;
use crate::clock::{is_now_text, is_utc_time, now_text};
use crate::text::join2;

verus! {

/// The state of the connection.
#[derive(Debug, Clone, PartialEq, Eq)]
pub enum ConnectionState {
    Disconnected,
    AgwpeConnected,
    Connecting,
    AwaitingConsent { disclaimer: String },
    Connected,
    Reconnecting { reason: String },
    Error(String),
}

/// A state of the connection by the texts that it holds.
pub enum StateView {
    Disconnected,
    AgwpeConnected,
    Connecting,
    AwaitingConsent { disclaimer: Seq<char> },
    Connected,
    Reconnecting { reason: Seq<char> },
    Error(Seq<char>),
}

impl View for ConnectionState {
    type V = StateView;

    open spec fn view(&self) -> StateView {
        match self {
            ConnectionState::Disconnected => StateView::Disconnected,
            ConnectionState::AgwpeConnected => StateView::AgwpeConnected,
            ConnectionState::Connecting => StateView::Connecting,
            ConnectionState::AwaitingConsent { disclaimer } => StateView::AwaitingConsent {
                disclaimer: disclaimer@,
            },
            ConnectionState::Connected => StateView::Connected,
            ConnectionState::Reconnecting { reason } => StateView::Reconnecting { reason: reason@ },
            ConnectionState::Error(m) => StateView::Error(m@),
        }
    }
}

impl StateView {
    /// The state in words.
    pub open spec fn text(self) -> Seq<char> {
        match self {
            StateView::Disconnected => "Disconnected"@,
            StateView::AgwpeConnected => "AGWPE Connected"@,
            StateView::Connecting => "Connecting"@,
            StateView::AwaitingConsent { .. } => "Awaiting consent"@,
            StateView::Connected => "Connected"@,
            StateView::Reconnecting { .. } => "Reconnecting"@,
            StateView::Error(m) => "Error: "@ + m,
        }
    }
}

impl ConnectionState {
    /// The state in words.
    pub fn to_text(&self) -> (r: String)
        ensures
            r@ == self@.text(),
    {
        match self {
            ConnectionState::Disconnected => "Disconnected".to_owned(),
            ConnectionState::AgwpeConnected => "AGWPE Connected".to_owned(),
            ConnectionState::Connecting => "Connecting".to_owned(),
            ConnectionState::AwaitingConsent { .. } => "Awaiting consent".to_owned(),
            ConnectionState::Connected => "Connected".to_owned(),
            ConnectionState::Reconnecting { .. } => "Reconnecting".to_owned(),
            ConnectionState::Error(m) => join2("Error: ", m.as_str()),
        }
    }

    /// Tells whether requests can go over the air.
    pub fn is_connected(&self) -> (r: bool)
        ensures
            r == (*self is Connected),
    {
        match self {
            ConnectionState::Connected => true,
            _ => false,
        }
    }
}

/// How much a log entry matters; the first matters most.
#[derive(Debug, Clone, Copy, PartialEq, Eq, PartialOrd, Ord, Structural)]
pub enum LogLevel {
    Info,
    Debug,
    Trace,
}

impl LogLevel {
    /// The place of the level in the order.
    pub open spec fn rank(self) -> int {
        match self {
            LogLevel::Info => 0,
            LogLevel::Debug => 1,
            LogLevel::Trace => 2,
        }
    }

    /// The name of the level.
    pub open spec fn name(self) -> Seq<char> {
        match self {
            LogLevel::Info => "INFO"@,
            LogLevel::Debug => "DEBUG"@,
            LogLevel::Trace => "TRACE"@,
        }
    }

    /// The name of the level.
    pub fn to_text(&self) -> (r: String)
        ensures
            r@ == self.name(),
    {
        match self {
            LogLevel::Info => "INFO".to_owned(),
            LogLevel::Debug => "DEBUG".to_owned(),
            LogLevel::Trace => "TRACE".to_owned(),
        }
    }

    /// Tells whether entries of this level are shown where `limit` is asked
    /// for.
    pub fn within(self, limit: LogLevel) -> (r: bool)
        ensures
            r == (self.rank() <= limit.rank()),
    {
        match (self, limit) {
            (LogLevel::Info, _) => true,
            (LogLevel::Debug, LogLevel::Info) => false,
            (LogLevel::Debug, _) => true,
            (LogLevel::Trace, LogLevel::Trace) => true,
            (LogLevel::Trace, _) => false,
        }
    }
}

/// Which way bytes went.
#[derive(Debug, Clone, Copy, PartialEq, Eq, Structural)]
pub enum Direction {
    Tx,
    Rx,
}

impl Direction {
    /// The name of the direction.
    pub open spec fn name(self) -> Seq<char> {
        match self {
            Direction::Tx => "TX"@,
            Direction::Rx => "RX"@,
        }
    }

    /// The name of the direction.
    pub fn to_text(&self) -> (r: String)
        ensures
            r@ == self.name(),
    {
        match self {
            Direction::Tx => "TX".to_owned(),
            Direction::Rx => "RX".to_owned(),
        }
    }
}

/// An entry of the debug log.
#[derive(Debug, Clone)]
pub struct DebugLogEntry {
    pub timestamp: String,
    pub level: LogLevel,
    pub direction: Option<Direction>,
    pub category: String,
    pub message: String,
    pub details: Option<String>,
}

impl DebugLogEntry {
    /// What an entry says, at a time that the clock gave.
    pub open spec fn says(self, level: LogLevel, category: Seq<char>, message: Seq<char>) -> bool {
        &&& is_now_text(self.timestamp)
        &&& is_utc_time(self.timestamp@)
        &&& self.level == level
        &&& self.category@ == category
        &&& self.message@ == message
        &&& self.direction is None
        &&& self.details is None
    }

    /// An entry of the present time.
    pub fn new(level: LogLevel, category: &str, message: &str) -> (r: DebugLogEntry)
        ensures
            r.says(level, category@, message@),
    {
        DebugLogEntry {
            timestamp: now_text(),
            level,
            direction: None,
            category: category.to_owned(),
            message: message.to_owned(),
            details: None,
        }
    }

    /// The entry with a direction.
    pub fn with_direction(self, direction: Direction) -> (r: DebugLogEntry)
        ensures
            r == (DebugLogEntry { direction: Some(direction), ..self }),
    {
        DebugLogEntry { direction: Some(direction), ..self }
    }

    /// The entry with details.
    pub fn with_details(self, details: &str) -> (r: DebugLogEntry)
        ensures
            r.details matches Some(d) && d@ == details@ && r == (DebugLogEntry {
                details: Some(d),
                ..self
            }),
    {
        DebugLogEntry { details: Some(details.to_owned()), ..self }
    }

    /// The same entry once more.
    pub fn copied(&self) -> (r: DebugLogEntry)
        ensures
            r == *self,
    {
        DebugLogEntry {
            timestamp: self.timestamp.clone(),
            level: self.level,
            direction: self.direction,
            category: self.category.clone(),
            message: self.message.clone(),
            details: match &self.details {
                Some(d) => Some(d.clone()),
                None => None,
            },
        }
    }
}

/// A radio port of the modem.
#[derive(Debug, Clone)]
pub struct PortInfo {
    pub port_num: u8,
    pub description: String,
}

/// All that the station shows.
pub struct AppState {
    pub config: FileConfig,
    pub connection_state: ConnectionState,
    pub debug_log: VecDeque<DebugLogEntry>,
    pub available_ports: Vec<PortInfo>,
    pub agwpe_port_num: Option<u8>,
    pub last_agreed_disclaimer: Option<String>,
    pub log_capacity: usize,
}

/// The log after one more entry: with the capacity reached, the oldest entry
/// goes first.
pub open spec fn logged<T>(log: Seq<T>, capacity: nat, entry: T) -> Seq<T> {
    if log.len() >= capacity && log.len() > 0 {
        log.drop_first().push(entry)
    } else {
        log.push(entry)
    }
}

/// The log after a row of entries.
pub open spec fn logged_all<T>(log: Seq<T>, capacity: nat, entries: Seq<T>) -> Seq<T>
    decreases entries.len(),
{
    if entries.len() == 0 {
        log
    } else {
        logged(logged_all(log, capacity, entries.drop_last()), capacity, entries.last())
    }
}

/// The entries of at most a level, in their order.
pub open spec fn filtered(log: Seq<DebugLogEntry>, limit: LogLevel) -> Seq<DebugLogEntry>
    decreases log.len(),
{
    if log.len() == 0 {
        log
    } else {
        let done = filtered(log.drop_last(), limit);
        if log.last().level.rank() <= limit.rank() {
            done.push(log.last())
        } else {
            done
        }
    }
}

impl AppState {
    /// How many entries the log holds at most.
    pub open spec fn capacity(self) -> nat {
        self.log_capacity as nat
    }

    /// Everything but the log stays as it was.
    pub open spec fn same_but_log(self, other: AppState) -> bool {
        &&& self.config == other.config
        &&& self.connection_state == other.connection_state
        &&& self.available_ports == other.available_ports
        &&& self.agwpe_port_num == other.agwpe_port_num
        &&& self.last_agreed_disclaimer == other.last_agreed_disclaimer
        &&& self.capacity() == other.capacity()
    }

    /// The state at the start, with room for a thousand log entries.
    pub fn new(config: FileConfig) -> (r: AppState)
        ensures
            r.config == config,
            r.connection_state == ConnectionState::Disconnected,
            r.debug_log@ == Seq::<DebugLogEntry>::empty(),
            r.available_ports@ == Seq::<PortInfo>::empty(),
            r.agwpe_port_num is None,
            r.last_agreed_disclaimer is None,
            r.capacity() == 1000,
    {
        AppState {
            config,
            connection_state: ConnectionState::Disconnected,
            debug_log: VecDeque::new(),
            available_ports: Vec::new(),
            agwpe_port_num: None,
            last_agreed_disclaimer: None,
            log_capacity: 1000,
        }
    }

    /// The state with room for `capacity` log entries.
    pub fn with_capacity(self, capacity: usize) -> (r: AppState)
        ensures
            r.capacity() == capacity,
            r.debug_log == self.debug_log,
            r.config == self.config,
            r.connection_state == self.connection_state,
            r.available_ports == self.available_ports,
            r.agwpe_port_num == self.agwpe_port_num,
            r.last_agreed_disclaimer == self.last_agreed_disclaimer,
    {
        AppState { log_capacity: capacity, ..self }
    }

    /// Adds an entry to the log.
    pub fn add_log(&mut self, entry: DebugLogEntry)
        ensures
            final(self).debug_log@ == logged(old(self).debug_log@, old(self).capacity(), entry),
            final(self).same_but_log(*old(self)),
    {
        if self.debug_log.len() >= self.log_capacity {
            let _ = self.debug_log.pop_front();
            assert(old(self).debug_log@.len() > 0 ==> self.debug_log@
                =~= old(self).debug_log@.drop_first());
        }
        self.debug_log.push_back(entry);
    }

    /// Changes the state of the connection and logs that. The entry comes
    /// back, for whoever follows the log.
    pub fn set_connection_state(&mut self, state: ConnectionState) -> (r: DebugLogEntry)
        ensures
            r.says(LogLevel::Info, "STATE"@, "State changed to: "@ + state@.text()),
            final(self).connection_state == state,
            final(self).debug_log@ == logged(old(self).debug_log@, old(self).capacity(), r),
            final(self).config == old(self).config,
            final(self).available_ports == old(self).available_ports,
            final(self).agwpe_port_num == old(self).agwpe_port_num,
            final(self).last_agreed_disclaimer == old(self).last_agreed_disclaimer,
            final(self).capacity() == old(self).capacity(),
    {
        let words = state.to_text();
        let entry = DebugLogEntry::new(
            LogLevel::Info,
            "STATE",
            join2("State changed to: ", words.as_str()).as_str(),
        );
        self.connection_state = state;
        self.add_log(entry.copied());
        entry
    }

    /// Changes the state of the connection to an error and logs that.
    pub fn set_error(&mut self, error: &str)
        ensures
            final(self).connection_state matches ConnectionState::Error(m) && m@ == error@,
            exists|e: DebugLogEntry| #[trigger]
                e.says(LogLevel::Info, "ERROR"@, "Error: "@ + error@) && final(self).debug_log@
                    == logged(old(self).debug_log@, old(self).capacity(), e),
            final(self).config == old(self).config,
            final(self).available_ports == old(self).available_ports,
            final(self).agwpe_port_num == old(self).agwpe_port_num,
            final(self).last_agreed_disclaimer == old(self).last_agreed_disclaimer,
            final(self).capacity() == old(self).capacity(),
    {
        let entry = DebugLogEntry::new(
            LogLevel::Info,
            "ERROR",
            join2("Error: ", error).as_str(),
        );
        self.connection_state = ConnectionState::Error(error.to_owned());
        assert(entry.says(LogLevel::Info, "ERROR"@, "Error: "@ + error@));
        self.add_log(entry);
    }

    /// The log, or the entries in it of at most a level.
    pub fn get_logs(&self, min_level: Option<LogLevel>) -> (r: Vec<DebugLogEntry>)
        ensures
            match min_level {
                None => r@ == self.debug_log@,
                Some(level) => r@ == filtered(self.debug_log@, level),
            },
    {
        let mut out: Vec<DebugLogEntry> = Vec::new();
        let ghost log = self.debug_log@;
        let mut i: usize = 0;
        assert(log.take(0) =~= Seq::<DebugLogEntry>::empty());
        while i < self.debug_log.len()
            invariant
                i <= log.len(),
                log == self.debug_log@,
                match min_level {
                    None => out@ == log.take(i as int),
                    Some(level) => out@ == filtered(log.take(i as int), level),
                },
            decreases self.debug_log.len() - i,
        {
            assert(log.take(i + 1).drop_last() =~= log.take(i as int));
            assert(log.take(i + 1) =~= log.take(i as int).push(log[i as int]));
            let entry = &self.debug_log[i];
            let shown = match min_level {
                None => true,
                Some(level) => entry.level.within(level),
            };
            if shown {
                out.push(entry.copied());
            }
            i += 1;
        }
        assert(log.take(i as int) =~= log);
        out
    }

    /// Takes over the ports that the modem reported.
    pub fn set_ports(&mut self, ports: Vec<PortInfo>)
        ensures
            *final(self) == (AppState { available_ports: ports, ..*old(self) }),
    {
        self.available_ports = ports;
    }

    /// Notes the port in use.
    pub fn set_agwpe_port(&mut self, port_num: u8)
        ensures
            *final(self) == (AppState { agwpe_port_num: Some(port_num), ..*old(self) }),
    {
        self.agwpe_port_num = Some(port_num);
    }

    /// Forgets the ports.
    pub fn clear_ports(&mut self)
        ensures
            final(self).available_ports@ == Seq::<PortInfo>::empty(),
            final(self).agwpe_port_num is None,
            final(self).debug_log == old(self).debug_log,
            final(self).config == old(self).config,
            final(self).connection_state == old(self).connection_state,
            final(self).last_agreed_disclaimer == old(self).last_agreed_disclaimer,
            final(self).capacity() == old(self).capacity(),
    {
        self.available_ports = Vec::new();
        self.agwpe_port_num = None;
    }

    /// Remembers the disclaimer that the operator agreed to.
    pub fn record_agreed_disclaimer(&mut self, disclaimer: &str)
        ensures
            final(self).last_agreed_disclaimer matches Some(d) && d@ == disclaimer@
                && *final(self) == (AppState { last_agreed_disclaimer: Some(d), ..*old(self) }),
    {
        self.last_agreed_disclaimer = Some(disclaimer.to_owned());
    }

    /// Forgets the disclaimer that the operator agreed to.
    pub fn clear_agreed_disclaimer(&mut self)
        ensures
            *final(self) == (AppState { last_agreed_disclaimer: None, ..*old(self) }),
    {
        self.last_agreed_disclaimer = None;
    }
}

/// The log never holds more entries than its capacity, if that is not zero.
pub proof fn log_stays_within_capacity<T>(log: Seq<T>, capacity: nat, entry: T)
    requires
        capacity > 0,
        log.len() <= capacity,
    ensures
        logged(log, capacity, entry).len() <= capacity,
        logged(log, capacity, entry).last() == entry,
{
}

/// A log that starts empty holds the newest entries, as many as it has room
/// for.
pub proof fn log_keeps_the_newest<T>(capacity: nat, entries: Seq<T>)
    requires
        capacity > 0,
    ensures
        logged_all(Seq::<T>::empty(), capacity, entries) == (if entries.len() <= capacity {
            entries
        } else {
            entries.skip(entries.len() - capacity)
        }),
    decreases entries.len(),
{
    if entries.len() > 0 {
        log_keeps_the_newest(capacity, entries.drop_last());
        let before = logged_all(Seq::<T>::empty(), capacity, entries.drop_last());
        let after = logged(before, capacity, entries.last());
        if entries.len() <= capacity {
            assert(after =~= entries);
        } else {
            assert(after =~= entries.skip(entries.len() - capacity));
        }
    } else {
        assert(logged_all(Seq::<T>::empty(), capacity, entries) =~= entries);
    }
}

/// A level asked for shows the entries of that level and of the weightier ones,
/// in their order: information always, debugging on request, traces on further
/// request.
pub proof fn levels_show_what_matters_as_much(
    a: Seq<DebugLogEntry>,
    b: Seq<DebugLogEntry>,
    e: DebugLogEntry,
    limit: LogLevel,
)
    ensures
        filtered(a + b, limit) == filtered(a, limit) + filtered(b, limit),
        filtered(seq![e], LogLevel::Trace) == seq![e],
        filtered(seq![e], LogLevel::Debug) == (if e.level == LogLevel::Trace {
            Seq::<DebugLogEntry>::empty()
        } else {
            seq![e]
        }),
        filtered(seq![e], LogLevel::Info) == (if e.level == LogLevel::Info {
            seq![e]
        } else {
            Seq::<DebugLogEntry>::empty()
        }),
    decreases b.len(),
{
    reveal_with_fuel(filtered, 2);
    assert(seq![e].drop_last() =~= Seq::<DebugLogEntry>::empty());
    if b.len() == 0 {
        assert(a + b =~= a);
        assert(filtered(a, limit) + filtered(b, limit) =~= filtered(a, limit));
    } else {
        levels_show_what_matters_as_much(a, b.drop_last(), e, limit);
        assert((a + b).drop_last() =~= a + b.drop_last());
        assert((a + b).last() == b.last());
        assert(filtered(a + b, limit) =~= filtered(a, limit) + filtered(b, limit));
    }
}

/// States, levels and directions are told apart by their words, and the state
/// of an error tells the error.
pub proof fn states_are_told_in_words(why: Seq<char>, text: Seq<char>)
    ensures
        StateView::Disconnected.text() == "Disconnected"@,
        StateView::AgwpeConnected.text() == "AGWPE Connected"@,
        StateView::Connecting.text() == "Connecting"@,
        (StateView::AwaitingConsent { disclaimer: text }).text() == "Awaiting consent"@,
        StateView::Connected.text() == "Connected"@,
        (StateView::Reconnecting { reason: why }).text() == "Reconnecting"@,
        StateView::Error(why).text() == "Error: "@ + why,
        LogLevel::Info.name() == "INFO"@,
        LogLevel::Debug.name() == "DEBUG"@,
        LogLevel::Trace.name() == "TRACE"@,
        Direction::Tx.name() == "TX"@,
        Direction::Rx.name() == "RX"@,
{
}

} // verus!
