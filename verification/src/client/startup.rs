//! Starting the client.

use vstd::prelude::*;
use crate::client::config::ConfigError;
use crate::client::hosts::is_loopback;
use crate::client::transport::agwpe::AgwpeError;
use crate::ip::{IpAddr, IpView};
use crate::text::{join2, lemma_occurs_within, occurs};

verus! {

/// Why the client stopped.
#[derive(Debug)]
pub enum ClientError {
    Agwpe(AgwpeError),
    Config(ConfigError),
    Io(String),
}

impl ClientError {
    /// The message for the operator.
    pub open spec fn text(self) -> Seq<char> {
        match self {
            ClientError::Agwpe(e) => "AGWPE error: "@ + e@.text(),
            ClientError::Config(e) => "Configuration error: "@ + e.text(),
            ClientError::Io(e) => "IO error: "@ + e@,
        }
    }

    /// The message for the operator.
    pub fn message(&self) -> (r: String)
        ensures
            r@ == self.text(),
    {
        match self {
            ClientError::Agwpe(e) => join2("AGWPE error: ", e.message().as_str()),
            ClientError::Config(e) => join2("Configuration error: ", e.message().as_str()),
            ClientError::Io(e) => join2("IO error: ", e.as_str()),
        }
    }
}

/// How much is logged.
#[derive(Debug, Clone, Copy, PartialEq, Eq, Structural)]
pub enum Verbosity {
    Warn,
    Info,
    Debug,
    Trace,
}

/// How much is logged, by how often the operator asked for more.
pub fn verbosity(count: u8) -> (r: Verbosity)
    ensures
        r == (match count {
            0 => Verbosity::Warn,
            1 => Verbosity::Info,
            2 => Verbosity::Debug,
            _ => Verbosity::Trace,
        }),
{
    match count {
        0 => Verbosity::Warn,
        1 => Verbosity::Info,
        2 => Verbosity::Debug,
        _ => Verbosity::Trace,
    }
}

/// The address that the client listens on: the address alone, and as it is
/// shown with its port.
#[derive(Debug)]
pub struct Bound {
    pub ip: IpAddr,
    pub shown: String,
}

/// A line of sixty equals signs.
pub open spec fn bar() -> Seq<char> {
    "============================================================\n"@
}

/// What the operator is told at the start, with a warning where others can
/// reach the client.
pub open spec fn banner_text(
    version: Seq<char>,
    listen_addr: Seq<char>,
    bound: Option<(IpView, Seq<char>)>,
) -> Seq<char> {
    let shown = match bound {
        Some((_, s)) => s,
        None => listen_addr,
    };
    let warning = match bound {
        Some((ip, _)) => if ip.is_loopback() {
            ""@
        } else {
            "\n  WARNING: bound to "@ + ip.text()
                + " (non-loopback address).\n           Anyone who can reach this host on the network\n           can use this proxy and change its configuration.\n           Use --listen-addr 127.0.0.1:PORT to restrict it\n           to this machine only.\n"@
        },
        None => ""@,
    };
    "\n"@ + bar() + "  Packet Browser Client v"@ + version + "\n\n  Open http://"@ + shown
        + " in your browser\n"@ + warning + bar() + "\n"@
}

/// What the operator is told at the start.
pub fn startup_banner(version: &str, listen_addr: &str, bound: &Option<Bound>) -> (r: String)
    ensures
        r@ == banner_text(
            version@,
            listen_addr@,
            match *bound {
                Some(b) => Some((b.ip@, b.shown@)),
                None => None,
            },
        ),
{
    let mut out = "\n".to_owned();
    out.append("============================================================\n");
    out.append("  Packet Browser Client v");
    out.append(version);
    out.append("\n\n  Open http://");
    let warning = match bound {
        Some(b) => {
            out.append(b.shown.as_str());
            if is_loopback(&b.ip) {
                "".to_owned()
            } else {
                join2("\n  WARNING: bound to ", b.ip.to_text().as_str()).concat(
                    " (non-loopback address).\n           Anyone who can reach this host on the network\n           can use this proxy and change its configuration.\n           Use --listen-addr 127.0.0.1:PORT to restrict it\n           to this machine only.\n",
                )
            }
        },
        None => {
            out.append(listen_addr);
            "".to_owned()
        },
    };
    out.append(" in your browser\n");
    out.append(warning.as_str());
    out.append("============================================================\n");
    out.append("\n");
    out
}

/// The operator is told under which address the client answers, and warned where
/// that is not one that this machine alone can reach.
pub proof fn the_operator_is_told_where_and_warned(
    version: Seq<char>,
    listen: Seq<char>,
    ip: IpView,
    shown: Seq<char>,
)
    ensures
        occurs(
            banner_text(version, listen, Some((ip, shown))),
            "\n\n  Open http://"@ + shown + " in your browser\n"@,
        ),
        occurs(
            banner_text(version, listen, None),
            "\n\n  Open http://"@ + listen + " in your browser\n"@,
        ),
        occurs(
            banner_text(version, listen, Some((ip, shown))),
            "  Packet Browser Client v"@ + version,
        ),
        !ip.is_loopback() ==> occurs(
            banner_text(version, listen, Some((ip, shown))),
            "\n  WARNING: bound to "@ + ip.text(),
        ),
        ip.is_loopback() ==> banner_text(version, listen, Some((ip, shown))) == banner_text(
            version,
            shown,
            None,
        ),
{
    let head = "\n"@ + bar();
    let name = "  Packet Browser Client v"@ + version;
    let warned = "\n  WARNING: bound to "@ + ip.text();
    let advice =
        " (non-loopback address).\n           Anyone who can reach this host on the network\n           can use this proxy and change its configuration.\n           Use --listen-addr 127.0.0.1:PORT to restrict it\n           to this machine only.\n"@;
    let end = bar() + "\n"@;
    let open = "\n\n  Open http://"@ + shown + " in your browser\n"@;
    let all = banner_text(version, listen, Some((ip, shown)));
    if ip.is_loopback() {
        assert(all =~= (head + name) + open + (""@ + end));
        lemma_occurs_within(head + name, open, ""@ + end);
        assert(all =~= head + name + (open + ""@ + end));
        lemma_occurs_within(head, name, open + ""@ + end);
    } else {
        assert(all =~= (head + name) + open + (warned + advice + end));
        lemma_occurs_within(head + name, open, warned + advice + end);
        assert(all =~= head + name + (open + warned + advice + end));
        lemma_occurs_within(head, name, open + warned + advice + end);
        assert(all =~= (head + name + open) + warned + (advice + end));
        lemma_occurs_within(head + name + open, warned, advice + end);
    }
    let plain = "\n\n  Open http://"@ + listen + " in your browser\n"@;
    assert(banner_text(version, listen, None) =~= (head + name) + plain + (""@ + end));
    lemma_occurs_within(head + name, plain, ""@ + end);
}

} // verus!
