//! The forward proxy that every browser goes through: where a request may go,
//! and how one that may not is answered.

use vstd::prelude::*;
use crate::number::{
    decimal, decimal_text, lemma_decimal, read_unsigned, unsigned, unsigned_decimal_round_trip,
};
use crate::server::blocklist::DomainBlocklist;
use crate::server::filter::{
    drop_brackets, pinned, resolve_and_pin, unbracketed, Pin, PinView, UrlError, UrlErrorView,
};
use crate::text::{
    around_last, ascii_lower, join2, join3, lemma_around_last, rsplit_once, same, to_ascii_lower,
    views,
};

verus! {

/// Where a tunnel is to go.
#[derive(Debug)]
pub struct Tunnel {
    pub host: String,
    pub port: u16,
    pub pin: Pin,
}

/// Where a tunnel to an authority, such as `example.com:443`, is to go: to the
/// ports of the web alone, and to a host that may be reached.
pub open spec fn tunnel_to(
    authority: Option<Seq<char>>,
    ranges: Seq<Seq<char>>,
    listed: Set<Seq<char>>,
) -> Result<(Seq<char>, u16, PinView), UrlErrorView> {
    match authority {
        None => Err(UrlErrorView::InvalidUrl),
        Some(auth) => match around_last(auth, ':') {
            None => Err(UrlErrorView::InvalidUrl),
            Some((host, port)) => match unsigned(port, u16::MAX as nat) {
                None => Err(UrlErrorView::InvalidUrl),
                Some(n) => if n != 443 && n != 80 {
                    Err(UrlErrorView::BlockedProtocol("CONNECT :"@ + decimal(n)))
                } else {
                    match pinned(unbracketed(host), n as u16, ranges, listed) {
                        Ok(pin) => Ok((host, n as u16, pin)),
                        Err(e) => Err(e),
                    }
                },
            },
        },
    }
}

/// Judges where a tunnel is to go.
pub fn handle_connect(
    authority: Option<&str>,
    blocked_ranges: &[String],
    list: &DomainBlocklist,
) -> (r: Result<Tunnel, UrlError>)
    ensures
        match tunnel_to(
            match authority {
                Some(a) => Some(a@),
                None => None,
            },
            views(blocked_ranges@),
            list@,
        ) {
            Ok(t) => r matches Ok(x) && (x.host@, x.port, x.pin@) == t,
            Err(e) => r matches Err(x) && x@ == e,
        },
{
    let auth = match authority {
        Some(a) => a,
        None => return Err(UrlError::InvalidUrl),
    };
    match rsplit_once(auth, ':') {
        None => Err(UrlError::InvalidUrl),
        Some((host, port_text)) => match read_unsigned(port_text.as_str(), 0xffff) {
            None => Err(UrlError::InvalidUrl),
            Some(n) => {
                if n != 443 && n != 80 {
                    return Err(
                        UrlError::BlockedProtocol(join2("CONNECT :", decimal_text(n).as_str())),
                    );
                }
                let port: u16 = n as u16;
                let clean = drop_brackets(host.as_str());
                match resolve_and_pin(clean.as_str(), port, blocked_ranges, list) {
                    Ok(pin) => Ok(Tunnel { host, port, pin }),
                    Err(e) => Err(e),
                }
            },
        },
    }
}

/// Why a request was not forwarded.
#[derive(Debug)]
pub enum ForwardError {
    Blocked(UrlError),
    BadRequest,
    Upstream(String),
}

/// Why a request was not forwarded, by the text in it.
pub enum ForwardErrorView {
    Blocked(UrlErrorView),
    BadRequest,
    Upstream(Seq<char>),
}

impl View for ForwardError {
    type V = ForwardErrorView;

    open spec fn view(&self) -> ForwardErrorView {
        match self {
            ForwardError::Blocked(e) => ForwardErrorView::Blocked(e@),
            ForwardError::BadRequest => ForwardErrorView::BadRequest,
            ForwardError::Upstream(s) => ForwardErrorView::Upstream(s@),
        }
    }
}

/// Where a plain request is to go.
#[derive(Debug)]
pub struct Forward {
    pub host: String,
    pub port: u16,
    pub pin: Pin,
    /// What the `Host` header is to say.
    pub host_header: String,
}

/// The `Host` header of a request.
pub open spec fn host_header(host: Seq<char>, port: u16) -> Seq<char> {
    if port == 80 {
        host
    } else {
        host + ":"@ + decimal(port as nat)
    }
}

/// Where a plain request is to go: one with an absolute URL of the scheme
/// `http` alone, to a host that may be reached.
pub open spec fn forward_to(
    scheme: Option<Seq<char>>,
    host: Option<Seq<char>>,
    port: Option<u16>,
    ranges: Seq<Seq<char>>,
    listed: Set<Seq<char>>,
) -> Result<(Seq<char>, u16, PinView, Seq<char>), ForwardErrorView> {
    match (scheme, host) {
        (None, _) => Err(ForwardErrorView::BadRequest),
        (Some(s), h) => if s != "http"@ {
            Err(ForwardErrorView::Blocked(UrlErrorView::BlockedProtocol(s)))
        } else {
            match h {
                None => Err(ForwardErrorView::BadRequest),
                Some(name) => {
                    let p = match port {
                        Some(p) => p,
                        None => 80,
                    };
                    match pinned(name, p, ranges, listed) {
                        Ok(pin) => Ok((name, p, pin, host_header(name, p))),
                        Err(e) => Err(ForwardErrorView::Blocked(e)),
                    }
                },
            }
        },
    }
}

/// An optional text by its view.
pub open spec fn opt_str(s: Option<&str>) -> Option<Seq<char>> {
    match s {
        Some(t) => Some(t@),
        None => None,
    }
}

/// Judges where a plain request is to go, by the parts of its URL.
pub fn forward_http(
    scheme: Option<&str>,
    host: Option<&str>,
    port: Option<u16>,
    blocked_ranges: &[String],
    list: &DomainBlocklist,
) -> (r: Result<Forward, ForwardError>)
    ensures
        match forward_to(opt_str(scheme), opt_str(host), port, views(blocked_ranges@), list@) {
            Ok(t) => r matches Ok(x) && (x.host@, x.port, x.pin@, x.host_header@) == t,
            Err(e) => r matches Err(x) && x@ == e,
        },
{
    let s = match scheme {
        Some(s) => s,
        None => return Err(ForwardError::BadRequest),
    };
    if !same(s, "http") {
        return Err(ForwardError::Blocked(UrlError::BlockedProtocol(s.to_owned())));
    }
    let name = match host {
        Some(h) => h,
        None => return Err(ForwardError::BadRequest),
    };
    let p: u16 = match port {
        Some(p) => p,
        None => 80,
    };
    match resolve_and_pin(name, p, blocked_ranges, list) {
        Ok(pin) => {
            let header = if p == 80 {
                name.to_owned()
            } else {
                join3(name, ":", decimal_text(p as u64).as_str())
            };
            Ok(Forward { host: name.to_owned(), port: p, pin, host_header: header })
        },
        Err(e) => Err(ForwardError::Blocked(e)),
    }
}

/// The path of the request to the origin.
pub fn origin_path(path_and_query: Option<&str>) -> (r: String)
    ensures
        r@ == (match path_and_query {
            Some(p) => p@,
            None => "/"@,
        }),
{
    match path_and_query {
        Some(p) => p.to_owned(),
        None => "/".to_owned(),
    }
}

/// A header that is meant for the next hop alone.
pub open spec fn hop_by_hop(name: Seq<char>) -> bool {
    let n = ascii_lower(name);
    ||| n == "connection"@
    ||| n == "proxy-connection"@
    ||| n == "keep-alive"@
    ||| n == "transfer-encoding"@
    ||| n == "te"@
    ||| n == "trailer"@
    ||| n == "upgrade"@
    ||| n == "proxy-authenticate"@
    ||| n == "proxy-authorization"@
}

/// Tells whether a header is meant for the next hop alone.
pub fn is_hop_by_hop(name: &str) -> (r: bool)
    ensures
        r == hop_by_hop(name@),
{
    let lower = to_ascii_lower(name);
    let n = lower.as_str();
    same(n, "connection") || same(n, "proxy-connection") || same(n, "keep-alive") || same(
        n,
        "transfer-encoding",
    ) || same(n, "te") || same(n, "trailer") || same(n, "upgrade") || same(n, "proxy-authenticate")
        || same(n, "proxy-authorization")
}

/// The names of the headers that are forwarded, in their order.
pub open spec fn forwarded(names: Seq<Seq<char>>) -> Seq<Seq<char>>
    decreases names.len(),
{
    if names.len() == 0 {
        names
    } else if hop_by_hop(names.last()) {
        forwarded(names.drop_last())
    } else {
        forwarded(names.drop_last()).push(names.last())
    }
}

/// Leaves out the headers that are meant for the next hop alone.
pub fn remove_hop_by_hop(names: &Vec<String>) -> (r: Vec<String>)
    ensures
        views(r@) == forwarded(views(names@)),
{
    let ghost all = views(names@);
    let mut out: Vec<String> = Vec::new();
    let mut i: usize = 0;
    assert(views(out@) =~= forwarded(all.take(0)));
    while i < names.len()
        invariant
            i <= names@.len(),
            all == views(names@),
            views(out@) == forwarded(all.take(i as int)),
        decreases names.len() - i,
    {
        assert(all.take(i + 1).drop_last() =~= all.take(i as int));
        assert(all.take(i + 1).last() == names@[i as int]@);
        if !is_hop_by_hop(names[i].as_str()) {
            let name = names[i].clone();
            proof {
                crate::text::lemma_views_push(out@, name);
            }
            out.push(name);
        }
        i += 1;
    }
    assert(all.take(i as int) =~= all);
    out
}

/// How a request that was not forwarded is answered: a status code and a body.
pub open spec fn proxy_answer(e: ForwardErrorView) -> (u16, Seq<char>) {
    match e {
        ForwardErrorView::Blocked(u) => (403, "packet-browser proxy: "@ + u.text() + "\n"@),
        ForwardErrorView::BadRequest => (400, Seq::empty()),
        ForwardErrorView::Upstream(_) => (502, Seq::empty()),
    }
}

/// Answers a request that was not forwarded.
pub fn error_response(e: &ForwardError) -> (r: (u16, String))
    ensures
        (r.0, r.1@) == proxy_answer(e@),
{
    match e {
        ForwardError::Blocked(u) => {
            (403, join3("packet-browser proxy: ", u.message().as_str(), "\n"))
        },
        ForwardError::BadRequest => {
            let empty = String::new();
            assert(empty@ =~= Seq::<char>::empty());
            (400, empty)
        },
        ForwardError::Upstream(_) => {
            let empty = String::new();
            assert(empty@ =~= Seq::<char>::empty());
            (502, empty)
        },
    }
}

// ---------------------------------------------------------------------------
// Laws
// ---------------------------------------------------------------------------

/// Whatever a browser asks of the proxy, no connection goes to a blocked
/// address that it names itself, and a tunnel goes to the ports of the web
/// alone.
pub proof fn the_proxy_never_pins_a_blocked_address(
    authority: Option<Seq<char>>,
    scheme: Option<Seq<char>>,
    host: Option<Seq<char>>,
    port: Option<u16>,
    ranges: Seq<Seq<char>>,
    listed: Set<Seq<char>>,
)
    ensures
        tunnel_to(authority, ranges, listed) matches Ok((_, p, pin)) ==> {
            &&& p == 443 || p == 80
            &&& pin matches PinView::Address(ip) ==> !crate::server::filter::ip_blocked(ip, ranges)
        },
        forward_to(scheme, host, port, ranges, listed) matches Ok((_, _, pin, _)) ==> (
        pin matches PinView::Address(ip) ==> !crate::server::filter::ip_blocked(ip, ranges)),
{
}

/// No header that is meant for the next hop alone is forwarded.
pub proof fn hop_by_hop_headers_stop_here(names: Seq<Seq<char>>)
    ensures
        forall|i: int|
            0 <= i < forwarded(names).len() ==> !hop_by_hop(#[trigger] forwarded(names)[i]),
        forall|n: Seq<char>|
            names.contains(n) && !hop_by_hop(n) ==> #[trigger] forwarded(names).contains(n),
    decreases names.len(),
{
    if names.len() > 0 {
        let front = names.drop_last();
        hop_by_hop_headers_stop_here(front);
        let out = forwarded(names);
        let kept = forwarded(front);
        assert forall|i: int| 0 <= i < out.len() implies !hop_by_hop(#[trigger] out[i]) by {
            if i < kept.len() {
                assert(out[i] == kept[i]);
            }
        }
        assert forall|n: Seq<char>| names.contains(n) && !hop_by_hop(n) implies
            #[trigger] out.contains(n) by {
            let k = choose|k: int| 0 <= k < names.len() && names[k] == n;
            if k == names.len() - 1 {
                assert(out[kept.len() as int] == n);
            } else {
                assert(front[k] == n);
                assert(kept.contains(n));
                let j = choose|j: int| 0 <= j < kept.len() && kept[j] == n;
                assert(out[j] == n);
            }
        }
    }
}

/// A tunnel to a port of the web goes to the host and the port that it names,
/// where the host may be reached; one to another port is refused, and so is one
/// that names nothing.
pub proof fn tunnels_go_where_they_are_asked_to(
    host: Seq<char>,
    port: u16,
    ranges: Seq<Seq<char>>,
    listed: Set<Seq<char>>,
)
    ensures
        ({
            let r = tunnel_to(Some(host + ":"@ + decimal(port as nat)), ranges, listed);
            &&& port == 443 || port == 80 ==> match pinned(
                unbracketed(host),
                port,
                ranges,
                listed,
            ) {
                Ok(pin) => r == Ok::<(Seq<char>, u16, PinView), UrlErrorView>((host, port, pin)),
                Err(e) => r == Err::<(Seq<char>, u16, PinView), UrlErrorView>(e),
            }
            &&& port != 443 && port != 80 ==> r == Err::<(Seq<char>, u16, PinView), UrlErrorView>(
                UrlErrorView::BlockedProtocol("CONNECT :"@ + decimal(port as nat)),
            )
        }),
        tunnel_to(None, ranges, listed) == Err::<(Seq<char>, u16, PinView), UrlErrorView>(
            UrlErrorView::InvalidUrl,
        ),
        !host.contains(':') ==> tunnel_to(Some(host), ranges, listed) == Err::<
            (Seq<char>, u16, PinView),
            UrlErrorView,
        >(UrlErrorView::InvalidUrl),
{
    reveal_strlit(":");
    let digits = decimal(port as nat);
    let auth = host + ":"@ + digits;
    let n = host.len() as int;
    lemma_decimal(port as nat);
    assert forall|k: int| n < k < auth.len() implies #[trigger] auth[k] != ':' by {
        assert(auth[k] == digits[k - n - 1]);
        assert(crate::text::is_digit(digits[k - n - 1]));
    }
    lemma_around_last(auth, ':', n);
    assert(auth.take(n) =~= host);
    assert(auth.skip(n + 1) =~= digits);
    unsigned_decimal_round_trip(port as nat, u16::MAX as nat);
    if !host.contains(':') {
        assert forall|k: int| -1 < k < host.len() implies #[trigger] host[k] != ':' by {
            assert(host.contains(host[k]));
        }
        if host.len() > 0 {
            lemma_around_last(host, ':', -1);
        }
    }
}

/// A plain request goes to the host and the port that its URL names, port 80
/// where it names none, and the host is told how it was named; one of another
/// scheme is refused.
pub proof fn plain_requests_go_where_they_are_asked_to(
    host: Seq<char>,
    port: Option<u16>,
    other: Seq<char>,
    ranges: Seq<Seq<char>>,
    listed: Set<Seq<char>>,
)
    requires
        other != "http"@,
    ensures
        ({
            let at = if port is Some {
                port->Some_0
            } else {
                80
            };
            let named = if at == 80 {
                host
            } else {
                host + ":"@ + decimal(at as nat)
            };
            match pinned(host, at, ranges, listed) {
                Ok(pin) => forward_to(Some("http"@), Some(host), port, ranges, listed) == Ok::<
                    (Seq<char>, u16, PinView, Seq<char>),
                    ForwardErrorView,
                >((host, at, pin, named)),
                Err(e) => forward_to(Some("http"@), Some(host), port, ranges, listed) == Err::<
                    (Seq<char>, u16, PinView, Seq<char>),
                    ForwardErrorView,
                >(ForwardErrorView::Blocked(e)),
            }
        }),
        forward_to(Some(other), Some(host), port, ranges, listed) == Err::<
            (Seq<char>, u16, PinView, Seq<char>),
            ForwardErrorView,
        >(ForwardErrorView::Blocked(UrlErrorView::BlockedProtocol(other))),
        forward_to(Some("http"@), None, port, ranges, listed) == Err::<
            (Seq<char>, u16, PinView, Seq<char>),
            ForwardErrorView,
        >(ForwardErrorView::BadRequest),
        forward_to(None, Some(host), port, ranges, listed) == Err::<
            (Seq<char>, u16, PinView, Seq<char>),
            ForwardErrorView,
        >(ForwardErrorView::BadRequest),
{
}

/// The headers that stop at the proxy are these, in any case of their letters,
/// and no others.
pub proof fn these_headers_stop_here(name: Seq<char>)
    ensures
        hop_by_hop(name) <==> seq![
            "connection"@,
            "keep-alive"@,
            "proxy-authenticate"@,
            "proxy-authorization"@,
            "proxy-connection"@,
            "te"@,
            "trailer"@,
            "transfer-encoding"@,
            "upgrade"@,
        ].contains(ascii_lower(name)),
{
    let all = seq![
        "connection"@,
        "keep-alive"@,
        "proxy-authenticate"@,
        "proxy-authorization"@,
        "proxy-connection"@,
        "te"@,
        "trailer"@,
        "transfer-encoding"@,
        "upgrade"@,
    ];
    assert(all[0] == "connection"@);
    assert(all[1] == "keep-alive"@);
    assert(all[2] == "proxy-authenticate"@);
    assert(all[3] == "proxy-authorization"@);
    assert(all[4] == "proxy-connection"@);
    assert(all[5] == "te"@);
    assert(all[6] == "trailer"@);
    assert(all[7] == "transfer-encoding"@);
    assert(all[8] == "upgrade"@);
}

/// The headers that go on keep their order, and one after another they are
/// judged apart.
pub proof fn headers_keep_their_order(a: Seq<Seq<char>>, b: Seq<Seq<char>>, name: Seq<char>)
    ensures
        forwarded(a + b) == forwarded(a) + forwarded(b),
        forwarded(seq![name]) == (if hop_by_hop(name) {
            Seq::<Seq<char>>::empty()
        } else {
            seq![name]
        }),
    decreases b.len(),
{
    reveal_with_fuel(forwarded, 2);
    assert(seq![name].drop_last() =~= Seq::<Seq<char>>::empty());
    if b.len() == 0 {
        assert(a + b =~= a);
        assert(forwarded(a) + forwarded(b) =~= forwarded(a));
    } else {
        headers_keep_their_order(a, b.drop_last(), name);
        assert((a + b).drop_last() =~= a + b.drop_last());
        assert((a + b).last() == b.last());
        assert(forwarded(a + b) =~= forwarded(a) + forwarded(b));
    }
}

/// A request that is refused is answered with 403 and the reason, one that is
/// none with 400, and one whose host failed with 502.
pub proof fn refused_requests_have_their_statuses(e: ForwardErrorView, why: UrlErrorView)
    ensures
        proxy_answer(ForwardErrorView::Blocked(why)) == (
            403u16,
            "packet-browser proxy: "@ + why.text() + "\n"@,
        ),
        e is BadRequest ==> proxy_answer(e) == (400u16, Seq::<char>::empty()),
        e is Upstream ==> proxy_answer(e) == (502u16, Seq::<char>::empty()),
{
}

} // verus!
