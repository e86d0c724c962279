//! What the pages of the client ask of it, and what they are told.

use vstd::prelude::*;
use crate::client::cache::{by_recency, remaining_secs, seconds_left, Cache, Moment, RowView};
use crate::client::config::{ConfigView, FileConfig};
use crate::client::state::{AppState, ConnectionState, PortInfo, StateView};
use crate::client::transport::agwpe::AgwpeError;
use crate::client::transport::{TransportKind, VaraBandwidth, VaraMode, VaraParams};
use crate::client::ui::CachePageRow;
use crate::number::{decimal, decimal_text};
use crate::server::session::{base_call, callsign_shape, has_callsign_shape};
use crate::shared::json::{json_quote, json_string};
use crate::text::{join2, opt_view, same, split_at_char, views};

verus! {

// ---------------------------------------------------------------------------
// The state
// ---------------------------------------------------------------------------

/// The class under which the pages show a state.
pub open spec fn state_class(state: StateView) -> Seq<char> {
    match state {
        StateView::Disconnected => "status-disconnected"@,
        StateView::AgwpeConnected => "status-agwpe-connected"@,
        StateView::Connecting => "status-connecting"@,
        StateView::AwaitingConsent { .. } => "status-connecting"@,
        StateView::Connected => "status-connected"@,
        StateView::Reconnecting { .. } => "status-reconnecting"@,
        StateView::Error(_) => "status-error"@,
    }
}

/// The class under which the pages show a state.
pub fn connection_state_class(state: &ConnectionState) -> (r: &'static str)
    ensures
        r@ == state_class(state@),
{
    match state {
        ConnectionState::Disconnected => "status-disconnected",
        ConnectionState::AgwpeConnected => "status-agwpe-connected",
        ConnectionState::Connecting => "status-connecting",
        ConnectionState::AwaitingConsent { .. } => "status-connecting",
        ConnectionState::Connected => "status-connected",
        ConnectionState::Reconnecting { .. } => "status-reconnecting",
        ConnectionState::Error(_) => "status-error",
    }
}

/// A port as a JSON object.
pub open spec fn port_json(p: PortInfo) -> Seq<char> {
    "{\"port_num\":"@ + decimal(p.port_num as nat) + ",\"description\":"@ + json_string(
        p.description@,
    ) + "}"@
}

/// Ports as JSON objects, with commas between them.
pub open spec fn ports_list(ports: Seq<PortInfo>) -> Seq<char>
    decreases ports.len(),
{
    if ports.len() == 0 {
        Seq::empty()
    } else if ports.len() == 1 {
        port_json(ports[0])
    } else {
        ports_list(ports.drop_last()) + ","@ + port_json(ports.last())
    }
}

/// The ports as a JSON array.
pub fn ports_json(ports: &Vec<PortInfo>) -> (r: String)
    ensures
        r@ == "["@ + ports_list(ports@) + "]"@,
{
    let mut list = String::new();
    let mut i: usize = 0;
    assert(ports@.take(0) =~= Seq::<PortInfo>::empty());
    assert(list@ =~= ports_list(ports@.take(0)));
    while i < ports.len()
        invariant
            i <= ports@.len(),
            list@ == ports_list(ports@.take(i as int)),
        decreases ports.len() - i,
    {
        let ghost before = list@;
        assert(ports@.take(i + 1).drop_last() =~= ports@.take(i as int));
        assert(ports@.take(i + 1).last() == ports@[i as int]);
        let mut one = "{\"port_num\":".to_owned();
        one.append(decimal_text(ports[i].port_num as u64).as_str());
        one.append(",\"description\":");
        one.append(json_quote(ports[i].description.as_str()).as_str());
        one.append("}");
        if i > 0 {
            list.append(",");
        }
        list.append(one.as_str());
        if i == 0 {
            assert(before =~= Seq::<char>::empty());
            assert(list@ =~= port_json(ports@[0]));
        }
        i += 1;
    }
    assert(ports@.take(i as int) =~= ports@);
    crate::text::join3("[", list.as_str(), "]")
}

/// What a page is told of the modem.
#[derive(Debug)]
pub struct AgwpeStatus {
    pub ok: bool,
    pub state: String,
    pub ports: Option<Vec<PortInfo>>,
    pub error: Option<String>,
}

impl AgwpeStatus {
    /// All is well, in this state and with these ports.
    pub open spec fn reports(&self, state: StateView, ports: Seq<PortInfo>) -> bool {
        self.ok && self.state@ == state.text() && (self.ports matches Some(p) && same_ports(
            p@,
            ports,
        )) && self.error is None
    }

    /// It went wrong.
    pub open spec fn fails(&self, error: Seq<char>) -> bool {
        !self.ok && self.state@ == "Error"@ && self.ports is None && opt_view(self.error) == Some(
            error,
        )
    }
}

/// The same ports.
pub open spec fn same_ports(a: Seq<PortInfo>, b: Seq<PortInfo>) -> bool {
    a.len() == b.len() && forall|i: int|
        0 <= i < a.len() ==> (#[trigger] a[i]).port_num == b[i].port_num && a[i].description@
            == b[i].description@
}

/// A copy of the ports.
fn copy_ports(ports: &Vec<PortInfo>) -> (r: Vec<PortInfo>)
    ensures
        same_ports(r@, ports@),
{
    let mut out: Vec<PortInfo> = Vec::new();
    let mut i: usize = 0;
    while i < ports.len()
        invariant
            i <= ports@.len(),
            out@.len() == i,
            forall|k: int|
                0 <= k < i ==> (#[trigger] out@[k]).port_num == ports@[k].port_num
                    && out@[k].description@ == ports@[k].description@,
        decreases ports.len() - i,
    {
        out.push(
            PortInfo {
                port_num: ports[i].port_num,
                description: ports[i].description.clone(),
            },
        );
        i += 1;
    }
    out
}

/// Tells of the modem as it is.
pub fn agwpe_status(state: &AppState) -> (r: AgwpeStatus)
    ensures
        r.reports(state.connection_state@, state.available_ports@),
{
    AgwpeStatus {
        ok: true,
        state: state.connection_state.to_text(),
        ports: Some(copy_ports(&state.available_ports)),
        error: None,
    }
}

/// Tells that it went wrong.
pub fn agwpe_failed(error: &str) -> (r: AgwpeStatus)
    ensures
        r.fails(error@),
{
    AgwpeStatus { ok: false, state: "Error".to_owned(), ports: None, error: Some(error.to_owned()) }
}

/// Where the modem is to be reached, unless the station has no callsign.
pub fn modem_target(config: &FileConfig) -> (r: Result<(String, u16, String), AgwpeStatus>)
    ensures
        if config.my_callsign@.len() == 0 {
            r matches Err(s) && s.fails("My callsign not configured"@)
        } else {
            r matches Ok(t) && t.0@ == config.agwpe_host@ && t.1 == config.agwpe_port && t.2@
                == config.my_callsign@
        },
{
    if config.my_callsign.as_str().unicode_len() == 0 {
        return Err(agwpe_failed("My callsign not configured"));
    }
    Ok((config.agwpe_host.clone(), config.agwpe_port, config.my_callsign.clone()))
}

/// Tells how reaching the modem went, and then asking for its ports.
pub fn modem_outcome(
    connected: Result<(), AgwpeError>,
    queried: Result<(), AgwpeError>,
    state: &AppState,
) -> (r: AgwpeStatus)
    ensures
        match (connected, queried) {
            (Err(e), _) => r.fails(e@.text()),
            (Ok(_), Err(e)) => r.fails("Connected but port query failed: "@ + e@.text()),
            (Ok(_), Ok(_)) => r.reports(state.connection_state@, state.available_ports@),
        },
{
    match (connected, queried) {
        (Err(e), _) => agwpe_failed(e.message().as_str()),
        (Ok(_), Err(e)) => agwpe_failed(
            join2("Connected but port query failed: ", e.message().as_str()).as_str(),
        ),
        (Ok(_), Ok(_)) => agwpe_status(state),
    }
}

// ---------------------------------------------------------------------------
// Connecting
// ---------------------------------------------------------------------------

/// What a page asks to be connected to.
#[derive(Debug)]
pub struct ConnectRequest {
    pub target_callsign: String,
    pub port_num: u8,
    pub transport: Option<String>,
    pub vara_cmd_host: Option<String>,
    pub vara_cmd_port: Option<u16>,
    pub vara_data_host: Option<String>,
    pub vara_data_port: Option<u16>,
    pub vara_mode: Option<String>,
    pub vara_bandwidth: Option<String>,
}

/// What is used where a page does not say.
#[derive(Debug)]
pub struct TransportDefaults {
    pub kind: TransportKind,
    pub vara: VaraParams,
}

/// How to connect.
#[derive(Debug)]
pub enum ConnectPlan {
    /// By the modem in use.
    Ax25 { target_callsign: String, port_num: u8 },
    /// By a VARA modem, which is to be reached first.
    Vara { target_callsign: String, port_num: u8, vara: VaraParams },
}

/// What a page is told of the modems.
#[derive(Debug)]
pub struct TransportState {
    pub agwpe_host: String,
    pub agwpe_port: u16,
    pub transport: String,
    pub vara_cmd_host: String,
    pub vara_cmd_port: u16,
    pub vara_data_host: String,
    pub vara_data_port: u16,
    pub vara_mode: String,
    pub vara_bandwidth: String,
}

/// Tells which modems there are and which is used.
pub fn transport_state(config: &FileConfig, defaults: &TransportDefaults) -> (r: TransportState)
    ensures
        r.agwpe_host@ == config.agwpe_host@,
        r.agwpe_port == config.agwpe_port,
        r.transport@ == defaults.kind.name(),
        r.vara_cmd_host@ == defaults.vara.cmd_host@,
        r.vara_cmd_port == defaults.vara.cmd_port,
        r.vara_data_host@ == defaults.vara.data_host@,
        r.vara_data_port == defaults.vara.data_port,
        r.vara_mode@ == defaults.vara.mode.name(),
        r.vara_bandwidth@ == defaults.vara.bandwidth.name(),
{
    TransportState {
        agwpe_host: config.agwpe_host.clone(),
        agwpe_port: config.agwpe_port,
        transport: defaults.kind.to_text(),
        vara_cmd_host: defaults.vara.cmd_host.clone(),
        vara_cmd_port: defaults.vara.cmd_port,
        vara_data_host: defaults.vara.data_host.clone(),
        vara_data_port: defaults.vara.data_port,
        vara_mode: defaults.vara.mode.to_text(),
        vara_bandwidth: defaults.vara.bandwidth.to_text(),
    }
}

/// A page that asks for the mode and the bandwidth that it was told of gets
/// them.
pub proof fn vara_names_round_trip(mode: VaraMode, bandwidth: VaraBandwidth)
    ensures
        mode_named(mode.name()) == mode,
        bandwidth_named(bandwidth.name()) == bandwidth,
{
    reveal_strlit("fm");
    reveal_strlit("hf");
    reveal_strlit("vnarrow");
    reveal_strlit("vwide");
    reveal_strlit("bw250");
    reveal_strlit("bw500");
    reveal_strlit("bw2300");
    reveal_strlit("bw2750");
    assert("vnarrow"@.len() == 7);
    assert("vwide"@.len() == 5 && "bw250"@.len() == 5 && "bw500"@.len() == 5);
    assert("bw2300"@.len() == 6 && "bw2750"@.len() == 6);
    assert("fm"@[0] != "hf"@[0]);
    assert("vwide"@[0] != "bw250"@[0]);
    assert("vwide"@[0] != "bw500"@[0]);
    assert("bw250"@[2] != "bw500"@[2]);
    assert("bw2300"@[3] != "bw2750"@[3]);
}

/// The mode that a name stands for.
pub open spec fn mode_named(s: Seq<char>) -> VaraMode {
    if s == "hf"@ {
        VaraMode::Hf
    } else {
        VaraMode::Fm
    }
}

/// The bandwidth that a name stands for.
pub open spec fn bandwidth_named(s: Seq<char>) -> VaraBandwidth {
    if s == "vnarrow"@ {
        VaraBandwidth::VNarrow
    } else if s == "bw250"@ {
        VaraBandwidth::Bw250
    } else if s == "bw500"@ {
        VaraBandwidth::Bw500
    } else if s == "bw2300"@ {
        VaraBandwidth::Bw2300
    } else if s == "bw2750"@ {
        VaraBandwidth::Bw2750
    } else {
        VaraBandwidth::VWide
    }
}

/// Reads the name of a mode.
fn read_mode(s: &str) -> (r: VaraMode)
    ensures
        r == mode_named(s@),
{
    if same(s, "hf") {
        VaraMode::Hf
    } else {
        VaraMode::Fm
    }
}

/// Reads the name of a bandwidth.
fn read_bandwidth(s: &str) -> (r: VaraBandwidth)
    ensures
        r == bandwidth_named(s@),
{
    if same(s, "vnarrow") {
        VaraBandwidth::VNarrow
    } else if same(s, "bw250") {
        VaraBandwidth::Bw250
    } else if same(s, "bw500") {
        VaraBandwidth::Bw500
    } else if same(s, "bw2300") {
        VaraBandwidth::Bw2300
    } else if same(s, "bw2750") {
        VaraBandwidth::Bw2750
    } else {
        VaraBandwidth::VWide
    }
}

/// A text, or another where there is none.
pub open spec fn text_or(s: Option<String>, other: Seq<char>) -> Seq<char> {
    match s {
        Some(t) => t@,
        None => other,
    }
}

/// A port, or another where there is none.
pub open spec fn port_or(p: Option<u16>, other: u16) -> u16 {
    match p {
        Some(n) => n,
        None => other,
    }
}

/// The VARA modem that a page asks for, where it says, and else the one that is
/// used by default.
pub open spec fn vara_of(v: VaraParams, req: ConnectRequest, defaults: VaraParams) -> bool {
    &&& v.cmd_host@ == text_or(req.vara_cmd_host, defaults.cmd_host@)
    &&& v.cmd_port == port_or(req.vara_cmd_port, defaults.cmd_port)
    &&& v.data_host@ == text_or(req.vara_data_host, defaults.data_host@)
    &&& v.data_port == port_or(req.vara_data_port, defaults.data_port)
    &&& v.mode == mode_named(text_or(req.vara_mode, defaults.mode.name()))
    &&& v.bandwidth == bandwidth_named(text_or(req.vara_bandwidth, defaults.bandwidth.name()))
}

/// The kind of modem that a page asks for, where it is one.
pub open spec fn kind_of(req: ConnectRequest, default: TransportKind) -> Option<TransportKind> {
    match req.transport {
        Some(s) => TransportKind::named(s@),
        None => Some(default),
    }
}

/// Picks a text, or another where there is none.
fn pick_text(s: &Option<String>, other: &str) -> (r: String)
    ensures
        r@ == text_or(*s, other@),
{
    match s {
        Some(t) => t.clone(),
        None => other.to_owned(),
    }
}

/// Picks a port, or another where there is none.
fn pick_port(p: Option<u16>, other: u16) -> (r: u16)
    ensures
        r == port_or(p, other),
{
    match p {
        Some(n) => n,
        None => other,
    }
}

/// Decides how to connect: the target has to be a callsign and the kind of
/// modem one that there is.
pub fn plan_connect(req: &ConnectRequest, defaults: &TransportDefaults) -> (r: Result<
    ConnectPlan,
    String,
>)
    ensures
        if !callsign_shape(base_call(req.target_callsign@)) {
            r matches Err(e) && e@ == "Invalid target callsign format"@
        } else {
            match kind_of(*req, defaults.kind) {
                None => r matches Err(e) && e@ == "Unknown transport: "@ + ("unknown transport: "@
                    + req.transport->0@),
                Some(TransportKind::Ax25) => r matches Ok(
                    ConnectPlan::Ax25 { target_callsign, port_num },
                ) && target_callsign@ == req.target_callsign@ && port_num == req.port_num,
                Some(_) => r matches Ok(ConnectPlan::Vara { target_callsign, port_num, vara })
                    && target_callsign@ == req.target_callsign@ && port_num == req.port_num
                    && vara_of(vara, *req, defaults.vara),
            }
        },
{
    let parts = split_at_char(req.target_callsign.as_str(), '-');
    assert(views(parts@)[0] == parts@[0]@);
    if !has_callsign_shape(parts[0].as_str()) {
        return Err("Invalid target callsign format".to_owned());
    }
    let kind = match &req.transport {
        Some(s) => match TransportKind::from_str(s.as_str()) {
            Ok(k) => k,
            Err(e) => return Err(join2("Unknown transport: ", e.as_str())),
        },
        None => defaults.kind,
    };
    match kind {
        TransportKind::Ax25 => Ok(
            ConnectPlan::Ax25 {
                target_callsign: req.target_callsign.clone(),
                port_num: req.port_num,
            },
        ),
        TransportKind::VaraFm | TransportKind::VaraHf => {
            let mode_name = pick_text(&req.vara_mode, defaults.vara.mode.to_text().as_str());
            let bandwidth_name = pick_text(
                &req.vara_bandwidth,
                defaults.vara.bandwidth.to_text().as_str(),
            );
            let vara = VaraParams {
                cmd_host: pick_text(&req.vara_cmd_host, defaults.vara.cmd_host.as_str()),
                cmd_port: pick_port(req.vara_cmd_port, defaults.vara.cmd_port),
                data_host: pick_text(&req.vara_data_host, defaults.vara.data_host.as_str()),
                data_port: pick_port(req.vara_data_port, defaults.vara.data_port),
                mode: read_mode(mode_name.as_str()),
                bandwidth: read_bandwidth(bandwidth_name.as_str()),
            };
            Ok(
                ConnectPlan::Vara {
                    target_callsign: req.target_callsign.clone(),
                    port_num: req.port_num,
                    vara,
                },
            )
        },
    }
}

/// What a page is told of an attempt.
#[derive(Debug)]
pub struct ConnectResponse {
    pub ok: bool,
    pub state: Option<String>,
    pub error: Option<String>,
}

impl ConnectResponse {
    /// It went well, and the state is now this.
    pub open spec fn succeeds(&self, state: Seq<char>) -> bool {
        self.ok && opt_view(self.state) == Some(state) && self.error is None
    }

    /// It went wrong.
    pub open spec fn fails(&self, error: Seq<char>) -> bool {
        !self.ok && self.state is None && opt_view(self.error) == Some(error)
    }
}

/// Tells that it went wrong.
pub fn connect_failed(error: &str) -> (r: ConnectResponse)
    ensures
        r.fails(error@),
{
    ConnectResponse { ok: false, state: None, error: Some(error.to_owned()) }
}

/// Tells how opening a session went.
pub fn connect_outcome(outcome: Result<(), AgwpeError>, state: &ConnectionState) -> (r: ConnectResponse)
    ensures
        match outcome {
            Ok(_) => r.succeeds(state@.text()),
            Err(e) => r.fails(e@.text()),
        },
{
    match outcome {
        Ok(_) => ConnectResponse { ok: true, state: Some(state.to_text()), error: None },
        Err(e) => connect_failed(e.message().as_str()),
    }
}

/// Tells that the VARA modem was not reached.
pub fn vara_unreachable(e: &AgwpeError) -> (r: ConnectResponse)
    ensures
        r.fails("VARA modem connect failed: "@ + e@.text()),
{
    connect_failed(join2("VARA modem connect failed: ", e.message().as_str()).as_str())
}

/// Tells how leaving went. With the session goes what the operator agreed to.
pub fn disconnect_outcome(outcome: Result<(), AgwpeError>, state: &mut AppState) -> (r: ConnectResponse)
    ensures
        match outcome {
            Ok(_) => r.succeeds("Disconnected"@) && *final(state) == (AppState {
                last_agreed_disclaimer: None,
                ..*old(state)
            }),
            Err(e) => r.fails(e@.text()) && *final(state) == *old(state),
        },
{
    match outcome {
        Ok(_) => {
            state.clear_agreed_disclaimer();
            ConnectResponse { ok: true, state: Some("Disconnected".to_owned()), error: None }
        },
        Err(e) => connect_failed(e.message().as_str()),
    }
}

// ---------------------------------------------------------------------------
// Consent
// ---------------------------------------------------------------------------

/// What a page is told of a disclaimer.
#[derive(Debug)]
pub struct ConsentInfo {
    pub awaiting: bool,
    pub disclaimer: Option<String>,
}

/// Tells whether the operator is to agree to something, and to what.
pub fn consent_info(state: &ConnectionState) -> (r: ConsentInfo)
    ensures
        match *state {
            ConnectionState::AwaitingConsent { disclaimer } => r.awaiting && opt_view(r.disclaimer)
                == Some(disclaimer@),
            _ => !r.awaiting && r.disclaimer is None,
        },
{
    match state {
        ConnectionState::AwaitingConsent { disclaimer } => ConsentInfo {
            awaiting: true,
            disclaimer: Some(disclaimer.clone()),
        },
        _ => ConsentInfo { awaiting: false, disclaimer: None },
    }
}

/// Notes what the operator decided, where a decision is awaited: a disclaimer
/// that was agreed to is remembered.
pub fn note_consent(state: &mut AppState, pending: bool, accepted: bool)
    ensures
        match old(state).connection_state {
            ConnectionState::AwaitingConsent { disclaimer } if pending && accepted => {
                final(state).last_agreed_disclaimer matches Some(d) && d@ == disclaimer@
                    && *final(state) == (AppState { last_agreed_disclaimer: Some(d), ..*old(state) })
            },
            _ => *final(state) == *old(state),
        },
{
    if pending && accepted {
        let info = consent_info(&state.connection_state);
        if let Some(text) = info.disclaimer {
            state.record_agreed_disclaimer(text.as_str());
        }
    }
}

/// What a page is told of a decision.
#[derive(Debug)]
pub struct ConsentResponse {
    pub ok: bool,
    pub error: Option<String>,
}

/// Tells whether a decision was awaited and taken up.
pub fn consent_outcome(pending: bool, delivered: bool) -> (r: ConsentResponse)
    ensures
        r.ok == (pending && delivered),
        opt_view(r.error) == (if !pending {
            Some("No consent prompt is pending"@)
        } else if !delivered {
            Some("Handshake no longer awaiting consent"@)
        } else {
            None
        }),
{
    if !pending {
        ConsentResponse { ok: false, error: Some("No consent prompt is pending".to_owned()) }
    } else if !delivered {
        ConsentResponse { ok: false, error: Some("Handshake no longer awaiting consent".to_owned()) }
    } else {
        ConsentResponse { ok: true, error: None }
    }
}

// ---------------------------------------------------------------------------
// Settings
// ---------------------------------------------------------------------------

/// The settings that a page changes.
#[derive(Debug)]
pub struct ConfigUpdate {
    pub agwpe_host: Option<String>,
    pub agwpe_port: Option<u16>,
    pub my_callsign: Option<String>,
    pub target_callsign: Option<String>,
    pub bpq_command: Option<String>,
    pub skip_bpq_app: Option<bool>,
}

/// The settings after a change: what the page does not name stays.
pub open spec fn updated(c: ConfigView, u: ConfigUpdate) -> ConfigView {
    ConfigView {
        agwpe_host: text_or(u.agwpe_host, c.agwpe_host),
        agwpe_port: port_or(u.agwpe_port, c.agwpe_port),
        my_callsign: text_or(u.my_callsign, c.my_callsign),
        target_callsign: text_or(u.target_callsign, c.target_callsign),
        bpq_command: text_or(u.bpq_command, c.bpq_command),
        skip_bpq_app: match u.skip_bpq_app {
            Some(b) => b,
            None => c.skip_bpq_app,
        },
        ..c
    }
}

/// Changes the settings.
pub fn apply_update(config: &mut FileConfig, update: ConfigUpdate)
    ensures
        final(config)@ == updated(old(config)@, update),
{
    if let Some(host) = update.agwpe_host {
        config.agwpe_host = host;
    }
    if let Some(port) = update.agwpe_port {
        config.agwpe_port = port;
    }
    if let Some(callsign) = update.my_callsign {
        config.my_callsign = callsign;
    }
    if let Some(target) = update.target_callsign {
        config.target_callsign = target;
    }
    if let Some(command) = update.bpq_command {
        config.bpq_command = command;
    }
    if let Some(skip) = update.skip_bpq_app {
        config.skip_bpq_app = skip;
    }
}

// ---------------------------------------------------------------------------
// What is kept
// ---------------------------------------------------------------------------

/// The latest second that has a date.
pub const LAST_DATED_SECOND: u64 = 8_210_266_876_799;

/// A second since the start of 1970 as a date and a time in UTC.
pub uninterp spec fn utc_date_text(secs: u64) -> Seq<char>;

/// `DateTime::from_timestamp` of the `chrono` crate, and `format` with the
/// pattern `%Y-%m-%dT%H:%M:%SZ`. There is no date beyond the latest second.
#[verifier::external_body]
fn iso_from_seconds(secs: u64) -> (r: String)
    requires
        secs <= LAST_DATED_SECOND,
    ensures
        r@ == utc_date_text(secs),
{
    chrono::DateTime::from_timestamp(secs as i64, 0).unwrap().format("%Y-%m-%dT%H:%M:%SZ").to_string()
}

/// The bytes of the first `n` entries of a list.
pub open spec fn listed_size(rows: Seq<RowView>, n: nat) -> int
    decreases n,
{
    if n == 0 {
        0
    } else {
        listed_size(rows, (n - 1) as nat) + rows[n - 1].brotli_body.len()
    }
}

/// How many entries a list shows.
pub open spec fn listed_count(rows: Seq<RowView>) -> nat {
    if rows.len() < 200 {
        rows.len()
    } else {
        200
    }
}

/// A row of the list shows a page that is kept.
pub open spec fn row_shows(r: CachePageRow, row: RowView, now: Moment) -> bool {
    &&& r.url@ == row.url
    &&& r.size_bytes == row.brotli_body.len()
    &&& r.fetched_at_iso@ == utc_date_text(row.fetched_at)
    &&& r.last_used_iso@ == utc_date_text(row.last_used)
    &&& r.ttl_remaining_secs == left_as_signed(seconds_left(row.fetched_at, row.max_age, now))
    &&& r.etag@ == row.etag
}

/// A number of 64 bits as a signed one; the upper half wraps round.
pub open spec fn left_as_signed(n: int) -> int {
    if n > i64::MAX {
        n - 0x1_0000_0000_0000_0000
    } else {
        n
    }
}

/// A number of 64 bits as a signed one.
fn as_signed(n: u64) -> (r: i64)
    ensures
        r == left_as_signed(n as int),
{
    if n > 0x7fff_ffff_ffff_ffff {
        -((u64::MAX - n) as i64) - 1
    } else {
        n as i64
    }
}

/// The rows of the list of kept pages, and how many bytes they are.
pub fn cache_page_rows(cache: &Cache, now: Moment) -> (r: (Vec<CachePageRow>, u64))
    requires
        forall|i: int|
            0 <= i < listed_count(cache@) ==> (#[trigger] by_recency(cache@)[i]).fetched_at
                <= LAST_DATED_SECOND && by_recency(cache@)[i].last_used <= LAST_DATED_SECOND,
        listed_size(by_recency(cache@), listed_count(cache@)) <= u64::MAX,
    ensures
        r.0@.len() == listed_count(cache@),
        forall|i: int|
            0 <= i < r.0@.len() ==> row_shows(#[trigger] r.0@[i], by_recency(cache@)[i], now),
        r.1 == listed_size(by_recency(cache@), listed_count(cache@)),
{
    let entries = cache.list();
    let ghost rows = by_recency(cache@);
    let ghost count = listed_count(cache@);
    proof {
        crate::client::cache::the_list_goes_by_recency(cache@);
    }
    let mut out: Vec<CachePageRow> = Vec::new();
    let mut total: u64 = 0;
    let mut i: usize = 0;
    while i < entries.len()
        invariant
            i <= entries@.len(),
            entries@.len() == count,
            count <= cache@.len(),
            rows == by_recency(cache@),
            forall|k: int| 0 <= k < entries@.len() ==> (#[trigger] entries@[k]).lists(rows[k]),
            forall|k: int|
                0 <= k < count ==> (#[trigger] rows[k]).fetched_at <= LAST_DATED_SECOND
                    && rows[k].last_used <= LAST_DATED_SECOND,
            listed_size(rows, count) <= u64::MAX,
            total == listed_size(rows, i as nat),
            out@.len() == i,
            forall|k: int| 0 <= k < i ==> row_shows(#[trigger] out@[k], rows[k], now),
        decreases entries.len() - i,
    {
        let e = &entries[i];
        assert(entries@[i as int].lists(rows[i as int]));
        proof {
            lemma_listed_size(rows, (i + 1) as nat, count);
        }
        total = total + e.size;
        let left: u64 = remaining_secs(e.fetched_at, e.max_age, now);
        out.push(
            CachePageRow {
                url: e.url.clone(),
                size_bytes: e.size,
                fetched_at_iso: iso_from_seconds(e.fetched_at),
                last_used_iso: iso_from_seconds(e.last_used),
                ttl_remaining_secs: as_signed(left),
                etag: e.etag.clone(),
            },
        );
        i += 1;
    }
    (out, total)
}

proof fn lemma_listed_size(rows: Seq<RowView>, m: nat, n: nat)
    requires
        m <= n,
    ensures
        0 <= listed_size(rows, m) <= listed_size(rows, n),
    decreases n,
{
    if n > 0 {
        if m < n {
            lemma_listed_size(rows, m, (n - 1) as nat);
        } else {
            lemma_listed_size(rows, (n - 1) as nat, (n - 1) as nat);
        }
    }
}

// ---------------------------------------------------------------------------
// Laws
// ---------------------------------------------------------------------------

/// Ports are listed in their order, each with its number and its description.
pub proof fn ports_are_listed_in_order(ports: Seq<PortInfo>, p: PortInfo)
    ensures
        ports_list(ports.push(p)) == (if ports.len() == 0 {
            Seq::<char>::empty()
        } else {
            ports_list(ports) + ","@
        }) + "{\"port_num\":"@ + decimal(p.port_num as nat) + ",\"description\":"@ + json_string(
            p.description@,
        ) + "}"@,
        ports_list(Seq::empty()) == Seq::<char>::empty(),
{
    let all = ports.push(p);
    assert(all.drop_last() =~= ports);
    assert(all.last() == p);
    if ports.len() == 0 {
        assert(all[0] == p);
    }
    assert(ports_list(all) =~= (if ports.len() == 0 {
        Seq::<char>::empty()
    } else {
        ports_list(ports) + ","@
    }) + "{\"port_num\":"@ + decimal(p.port_num as nat) + ",\"description\":"@ + json_string(
        p.description@,
    ) + "}"@);
}

/// Each state has the class under which the pages colour it; while consent is
/// awaited, the station is still connecting.
pub proof fn states_have_their_classes(s: Seq<char>)
    ensures
        state_class(StateView::Disconnected) == "status-disconnected"@,
        state_class(StateView::AgwpeConnected) == "status-agwpe-connected"@,
        state_class(StateView::Connecting) == "status-connecting"@,
        state_class(StateView::AwaitingConsent { disclaimer: s }) == "status-connecting"@,
        state_class(StateView::Connected) == "status-connected"@,
        state_class(StateView::Reconnecting { reason: s }) == "status-reconnecting"@,
        state_class(StateView::Error(s)) == "status-error"@,
{
}

/// What a page says of the modem is what is used; for what it does not say, the
/// defaults are. A mode or a bandwidth that nobody knows is the usual one.
pub proof fn pages_choose_the_modem(v: VaraParams, req: ConnectRequest, defaults: VaraParams)
    requires
        vara_of(v, req, defaults),
    ensures
        req.vara_cmd_host matches Some(s) ==> v.cmd_host@ == s@,
        req.vara_cmd_host is None ==> v.cmd_host@ == defaults.cmd_host@,
        req.vara_cmd_port matches Some(p) ==> v.cmd_port == p,
        req.vara_cmd_port is None ==> v.cmd_port == defaults.cmd_port,
        req.vara_data_host matches Some(s) ==> v.data_host@ == s@,
        req.vara_data_host is None ==> v.data_host@ == defaults.data_host@,
        req.vara_data_port matches Some(p) ==> v.data_port == p,
        req.vara_data_port is None ==> v.data_port == defaults.data_port,
        req.vara_mode is None ==> v.mode == defaults.mode,
        req.vara_mode matches Some(s) ==> (v.mode == VaraMode::Hf <==> s@ == "hf"@),
        req.vara_bandwidth is None ==> v.bandwidth == defaults.bandwidth,
        req.vara_bandwidth matches Some(s) ==> {
            &&& v.bandwidth == VaraBandwidth::VNarrow <==> s@ == "vnarrow"@
            &&& v.bandwidth == VaraBandwidth::Bw250 <==> s@ == "bw250"@
            &&& v.bandwidth == VaraBandwidth::Bw500 <==> s@ == "bw500"@
            &&& v.bandwidth == VaraBandwidth::Bw2300 <==> s@ == "bw2300"@
            &&& v.bandwidth == VaraBandwidth::Bw2750 <==> s@ == "bw2750"@
        },
{
    vara_names_round_trip(defaults.mode, defaults.bandwidth);
    vara_names_round_trip(VaraMode::Fm, VaraBandwidth::VNarrow);
    vara_names_round_trip(VaraMode::Fm, VaraBandwidth::Bw250);
    vara_names_round_trip(VaraMode::Fm, VaraBandwidth::Bw500);
    vara_names_round_trip(VaraMode::Fm, VaraBandwidth::Bw2300);
    vara_names_round_trip(VaraMode::Fm, VaraBandwidth::Bw2750);
}

/// A page chooses the kind of modem by its name; without one the default stays,
/// and a name that is none chooses nothing.
pub proof fn pages_choose_the_kind(req: ConnectRequest, default: TransportKind)
    ensures
        req.transport is None ==> kind_of(req, default) == Some(default),
        req.transport matches Some(s) ==> {
            &&& s@ == "ax25"@ ==> kind_of(req, default) == Some(TransportKind::Ax25)
            &&& s@ == "vara_fm"@ ==> kind_of(req, default) == Some(TransportKind::VaraFm)
            &&& s@ == "vara_hf"@ ==> kind_of(req, default) == Some(TransportKind::VaraHf)
            &&& s@ != "ax25"@ && s@ != "vara_fm"@ && s@ != "vara_hf"@ ==> kind_of(
                req,
                default,
            ) is None
        },
{
    crate::client::transport::transport_names_round_trip(TransportKind::Ax25);
    crate::client::transport::transport_names_round_trip(TransportKind::VaraFm);
    crate::client::transport::transport_names_round_trip(TransportKind::VaraHf);
}

/// A change sets what it names to what it says and nothing else.
pub proof fn changes_set_what_they_name(c: ConfigView, u: ConfigUpdate)
    ensures
        ({
            let n = updated(c, u);
            &&& u.agwpe_host is Some ==> n.agwpe_host == u.agwpe_host->Some_0@
            &&& u.agwpe_host is None ==> n.agwpe_host == c.agwpe_host
            &&& u.agwpe_port is Some ==> n.agwpe_port == u.agwpe_port->Some_0
            &&& u.agwpe_port is None ==> n.agwpe_port == c.agwpe_port
            &&& u.my_callsign is Some ==> n.my_callsign == u.my_callsign->Some_0@
            &&& u.my_callsign is None ==> n.my_callsign == c.my_callsign
            &&& u.target_callsign is Some ==> n.target_callsign == u.target_callsign->Some_0@
            &&& u.target_callsign is None ==> n.target_callsign == c.target_callsign
            &&& u.bpq_command is Some ==> n.bpq_command == u.bpq_command->Some_0@
            &&& u.bpq_command is None ==> n.bpq_command == c.bpq_command
            &&& u.skip_bpq_app is Some ==> n.skip_bpq_app == u.skip_bpq_app->Some_0
            &&& u.skip_bpq_app is None ==> n.skip_bpq_app == c.skip_bpq_app
            &&& n.cache_enabled == c.cache_enabled
            &&& n.cache_max_bytes == c.cache_max_bytes
            &&& n.cache_max_ttl_seconds == c.cache_max_ttl_seconds
            &&& n.cache_dir == c.cache_dir
            &&& n.response_timeout_secs == c.response_timeout_secs
            &&& n.auto_reconnect == c.auto_reconnect
        }),
{
}

/// The list of kept pages shows all of them up to two hundred, and no more, and
/// the bytes that it tells are those of the pages that it shows.
pub proof fn lists_show_two_hundred_pages(rows: Seq<RowView>, row: RowView)
    ensures
        rows.len() <= 200 ==> listed_count(rows) == rows.len(),
        rows.len() >= 200 ==> listed_count(rows) == 200,
        listed_size(rows, 0) == 0,
        listed_size(rows.push(row), (rows.len() + 1) as nat) == listed_size(rows, rows.len())
            + row.brotli_body.len(),
        forall|n: int| 0 <= n <= i64::MAX ==> #[trigger] left_as_signed(n) == n,
{
    lemma_listed_size_front(rows, row, rows.len());
}

/// The bytes of the first entries do not depend on what follows them.
proof fn lemma_listed_size_front(rows: Seq<RowView>, row: RowView, n: nat)
    requires
        n <= rows.len(),
    ensures
        listed_size(rows.push(row), n) == listed_size(rows, n),
    decreases n,
{
    if n > 0 {
        lemma_listed_size_front(rows, row, (n - 1) as nat);
        assert(rows.push(row)[n - 1] == rows[n - 1]);
    }
}

} // verus!
