//! Modems and what the session above them needs to know.

pub mod agwpe;
pub mod session;
pub mod vara;

use vstd::prelude::*;
use crate::text::{join2, same};

verus! {

/// Why a modem could not do what was asked of it.
#[derive(Debug, Clone)]
pub enum TransportError {
    NotConnected,
    Io(String),
    ModemError(String),
    SessionRejected(String),
    Timeout,
}

impl TransportError {
    /// The message for the operator.
    pub open spec fn text(self) -> Seq<char> {
        match self {
            TransportError::NotConnected => "transport not connected"@,
            TransportError::Io(e) => "io: "@ + e@,
            TransportError::ModemError(e) => "modem error: "@ + e@,
            TransportError::SessionRejected(e) => "session rejected: "@ + e@,
            TransportError::Timeout => "timed out"@,
        }
    }

    /// The message for the operator.
    pub fn message(&self) -> (r: String)
        ensures
            r@ == self.text(),
    {
        match self {
            TransportError::NotConnected => "transport not connected".to_owned(),
            TransportError::Io(e) => join2("io: ", e.as_str()),
            TransportError::ModemError(e) => join2("modem error: ", e.as_str()),
            TransportError::SessionRejected(e) => join2("session rejected: ", e.as_str()),
            TransportError::Timeout => "timed out".to_owned(),
        }
    }
}

/// What a modem reports during a session.
#[derive(Debug, Clone)]
pub enum TransportEvent {
    Data(Vec<u8>),
    Disconnected { reason: String },
}

/// The kinds of modem.
#[derive(Debug, Clone, Copy, PartialEq, Eq, Structural)]
pub enum TransportKind {
    Ax25,
    VaraFm,
    VaraHf,
}

impl TransportKind {
    /// The name in configuration files.
    pub open spec fn name(self) -> Seq<char> {
        match self {
            TransportKind::Ax25 => "ax25"@,
            TransportKind::VaraFm => "vara_fm"@,
            TransportKind::VaraHf => "vara_hf"@,
        }
    }

    /// The kind with this name, where there is one.
    pub open spec fn named(s: Seq<char>) -> Option<TransportKind> {
        if s == "ax25"@ {
            Some(TransportKind::Ax25)
        } else if s == "vara_fm"@ {
            Some(TransportKind::VaraFm)
        } else if s == "vara_hf"@ {
            Some(TransportKind::VaraHf)
        } else {
            None
        }
    }

    /// Reads the name of a kind.
    pub fn from_str(s: &str) -> (r: Result<TransportKind, String>)
        ensures
            match TransportKind::named(s@) {
                Some(k) => r == Ok::<TransportKind, String>(k),
                None => r matches Err(e) && e@ == "unknown transport: "@ + s@,
            },
    {
        if same(s, "ax25") {
            Ok(TransportKind::Ax25)
        } else if same(s, "vara_fm") {
            Ok(TransportKind::VaraFm)
        } else if same(s, "vara_hf") {
            Ok(TransportKind::VaraHf)
        } else {
            Err(join2("unknown transport: ", s))
        }
    }

    /// The name of the kind.
    pub fn to_text(&self) -> (r: String)
        ensures
            r@ == self.name(),
    {
        match self {
            TransportKind::Ax25 => "ax25".to_owned(),
            TransportKind::VaraFm => "vara_fm".to_owned(),
            TransportKind::VaraHf => "vara_hf".to_owned(),
        }
    }
}

/// A kind's name is read back as that kind.
pub proof fn transport_names_round_trip(k: TransportKind)
    ensures
        TransportKind::named(k.name()) == Some(k),
{
    reveal_strlit("ax25");
    reveal_strlit("vara_fm");
    reveal_strlit("vara_hf");
    assert("ax25"@.len() != "vara_fm"@.len());
    assert("vara_fm"@[5] != "vara_hf"@[5]);
}

/// Where the AGWPE modem listens.
#[derive(Debug, Clone)]
pub struct AgwpeParams {
    pub host: String,
    pub port: u16,
}

/// Where the VARA modem listens and how it is to transmit.
#[derive(Debug, Clone)]
pub struct VaraParams {
    pub cmd_host: String,
    pub cmd_port: u16,
    pub data_host: String,
    pub data_port: u16,
    pub mode: VaraMode,
    pub bandwidth: VaraBandwidth,
}

/// The two VARA modems.
#[derive(Debug, Clone, Copy, PartialEq, Eq, Structural)]
pub enum VaraMode {
    Fm,
    Hf,
}

impl VaraMode {
    /// The name of the mode.
    pub open spec fn name(self) -> Seq<char> {
        match self {
            VaraMode::Fm => "fm"@,
            VaraMode::Hf => "hf"@,
        }
    }

    /// The name of the mode.
    pub fn to_text(&self) -> (r: String)
        ensures
            r@ == self.name(),
    {
        match self {
            VaraMode::Fm => "fm".to_owned(),
            VaraMode::Hf => "hf".to_owned(),
        }
    }
}

/// The bandwidths that VARA offers.
#[derive(Debug, Clone, Copy, PartialEq, Eq, Structural)]
pub enum VaraBandwidth {
    VNarrow,
    VWide,
    Bw250,
    Bw500,
    Bw2300,
    Bw2750,
}

impl VaraBandwidth {
    /// The name of the bandwidth.
    pub open spec fn name(self) -> Seq<char> {
        match self {
            VaraBandwidth::VNarrow => "vnarrow"@,
            VaraBandwidth::VWide => "vwide"@,
            VaraBandwidth::Bw250 => "bw250"@,
            VaraBandwidth::Bw500 => "bw500"@,
            VaraBandwidth::Bw2300 => "bw2300"@,
            VaraBandwidth::Bw2750 => "bw2750"@,
        }
    }

    /// The name of the bandwidth.
    pub fn to_text(&self) -> (r: String)
        ensures
            r@ == self.name(),
    {
        match self {
            VaraBandwidth::VNarrow => "vnarrow".to_owned(),
            VaraBandwidth::VWide => "vwide".to_owned(),
            VaraBandwidth::Bw250 => "bw250".to_owned(),
            VaraBandwidth::Bw500 => "bw500".to_owned(),
            VaraBandwidth::Bw2300 => "bw2300".to_owned(),
            VaraBandwidth::Bw2750 => "bw2750".to_owned(),
        }
    }
}

/// All that is needed to reach a modem.
#[derive(Debug, Clone)]
pub struct TransportConfig {
    pub kind: TransportKind,
    pub agwpe: AgwpeParams,
    pub vara: VaraParams,
    /// The station's callsign, with which it registers at the modem.
    pub local_callsign: String,
}

/// All that is needed to open a session with a node.
#[derive(Debug, Clone)]
pub struct SessionConfig {
    pub local_callsign: String,
    pub remote_callsign: String,
    pub bpq_command: String,
    pub skip_bpq_app: bool,
    pub agwpe_port: u8,
}

/// Kinds, modes and bandwidths go by these names, and no other names a kind.
pub proof fn modems_go_by_these_names(s: Seq<char>)
    ensures
        TransportKind::named(s) == Some(TransportKind::Ax25) <==> s == "ax25"@,
        TransportKind::named(s) == Some(TransportKind::VaraFm) <==> s == "vara_fm"@,
        TransportKind::named(s) == Some(TransportKind::VaraHf) <==> s == "vara_hf"@,
        VaraMode::Fm.name() == "fm"@,
        VaraMode::Hf.name() == "hf"@,
        VaraBandwidth::VNarrow.name() == "vnarrow"@,
        VaraBandwidth::VWide.name() == "vwide"@,
        VaraBandwidth::Bw250.name() == "bw250"@,
        VaraBandwidth::Bw500.name() == "bw500"@,
        VaraBandwidth::Bw2300.name() == "bw2300"@,
        VaraBandwidth::Bw2750.name() == "bw2750"@,
{
    reveal_strlit("ax25");
    reveal_strlit("vara_fm");
    reveal_strlit("vara_hf");
    assert("ax25"@.len() != "vara_fm"@.len());
    assert("ax25"@.len() != "vara_hf"@.len());
    assert("vara_fm"@[5] != "vara_hf"@[5]);
}

} // verus!
