//! Which URLs may be fetched, and which addresses connected to.

use vstd::prelude::*;
use crate::ip::{
    dotted_addresses_round_trip, ip_number, ip_of, ipv4_of, ipv4_text, is_ipv4_in_cidr, is_mapped,
    mapped, parse_ip, quad, quad_of, read_ipv4, same_network, IpAddr, IpView,
};
use crate::number::{decimal, lemma_decimal, read_unsigned, unsigned, unsigned_decimal_round_trip};
use crate::server::blocklist::{is_domain_blocked, DomainBlocklist};
use crate::server::config::default_ranges;
use crate::text::{
    around_first, ascii_lower, chars_of, is_digit, join2, join3, lemma_find, occurs_at, same,
    split_once, text_of, to_ascii_lower, views,
};

verus! {

/// Why a URL or a host may not be fetched.
#[derive(Debug, Clone)]
pub enum UrlError {
    BlockedProtocol(String),
    BlockedHost(String),
    UnresolvableHost(String),
    InvalidUrl,
}

/// Why a URL or a host may not be fetched, by the text in it.
pub enum UrlErrorView {
    BlockedProtocol(Seq<char>),
    BlockedHost(Seq<char>),
    UnresolvableHost(Seq<char>),
    InvalidUrl,
}

impl View for UrlError {
    type V = UrlErrorView;

    open spec fn view(&self) -> UrlErrorView {
        match self {
            UrlError::BlockedProtocol(s) => UrlErrorView::BlockedProtocol(s@),
            UrlError::BlockedHost(s) => UrlErrorView::BlockedHost(s@),
            UrlError::UnresolvableHost(s) => UrlErrorView::UnresolvableHost(s@),
            UrlError::InvalidUrl => UrlErrorView::InvalidUrl,
        }
    }
}

impl UrlErrorView {
    /// The message for the operator.
    pub open spec fn text(self) -> Seq<char> {
        match self {
            UrlErrorView::BlockedProtocol(s) => "Blocked protocol: "@ + s,
            UrlErrorView::BlockedHost(s) => "Blocked host: "@ + s,
            UrlErrorView::UnresolvableHost(s) => "Unresolvable host: "@ + s,
            UrlErrorView::InvalidUrl => "Invalid URL"@,
        }
    }
}

impl UrlError {
    /// The message for the operator.
    pub fn message(&self) -> (r: String)
        ensures
            r@ == self@.text(),
    {
        match self {
            UrlError::BlockedProtocol(s) => join2("Blocked protocol: ", s.as_str()),
            UrlError::BlockedHost(s) => join2("Blocked host: ", s.as_str()),
            UrlError::UnresolvableHost(s) => join2("Unresolvable host: ", s.as_str()),
            UrlError::InvalidUrl => "Invalid URL".to_owned(),
        }
    }
}

// ---------------------------------------------------------------------------
// URLs
// ---------------------------------------------------------------------------

/// The host of a URL.
#[derive(Debug, Clone)]
pub enum UrlHost {
    Missing,
    Name(String),
    Address(IpAddr),
}

/// The parts of a URL that decide.
#[derive(Debug, Clone)]
pub struct UrlParts {
    pub scheme: String,
    pub host: UrlHost,
    /// The port, given or known for the scheme.
    pub port: Option<u16>,
}

/// The host of a URL by its text or numbers.
pub enum HostView {
    Missing,
    Name(Seq<char>),
    Address(IpView),
}

/// The parts of a URL by their texts and numbers.
pub struct UrlView {
    pub scheme: Seq<char>,
    pub host: HostView,
    pub port: Option<u16>,
}

impl View for UrlHost {
    type V = HostView;

    open spec fn view(&self) -> HostView {
        match self {
            UrlHost::Missing => HostView::Missing,
            UrlHost::Name(s) => HostView::Name(s@),
            UrlHost::Address(a) => HostView::Address(a@),
        }
    }
}

impl View for UrlParts {
    type V = UrlView;

    open spec fn view(&self) -> UrlView {
        UrlView { scheme: self.scheme@, host: self.host@, port: self.port }
    }
}

/// The view of optional URL parts.
pub open spec fn opt_parts_view(p: Option<UrlParts>) -> Option<UrlView> {
    match p {
        Some(x) => Some(x@),
        None => None,
    }
}

/// The parts of the URL that a text is, where it is one.
pub uninterp spec fn url_parts(text: Seq<char>) -> Option<UrlView>;

/// `Url::parse` of the `url` crate, with the scheme, the host and the port that
/// it found, the last by `port_or_known_default`.
#[verifier::external_body]
pub(crate) fn parse_url(text: &str) -> (r: Option<UrlParts>)
    ensures
        opt_parts_view(r) == url_parts(text@),
{
    let parsed = url::Url::parse(text).ok()?;
    let host = match parsed.host() {
        None => UrlHost::Missing,
        Some(url::Host::Domain(d)) => UrlHost::Name(d.to_string()),
        Some(url::Host::Ipv4(a)) => UrlHost::Address(IpAddr::V4(a.octets())),
        Some(url::Host::Ipv6(a)) => UrlHost::Address(IpAddr::V6(a.segments())),
    };
    let scheme = parsed.scheme().to_string();
    Some(UrlParts { scheme, host, port: parsed.port_or_known_default() })
}

// ---------------------------------------------------------------------------
// Addresses
// ---------------------------------------------------------------------------

/// A range, an address and a number of bits with a slash between them, holds a
/// dotted address. A text of another form holds none.
pub open spec fn range_holds(range: Seq<char>, ip: Seq<u8>) -> bool {
    match around_first(range, "/"@) {
        Some((network, bits)) => match (ipv4_of(network), unsigned(bits, 255)) {
            (Some(net), Some(n)) => n <= 32 && same_network(ip, net, n),
            _ => false,
        },
        None => false,
    }
}

/// Some range holds a dotted address.
pub open spec fn v4_blocked(ip: Seq<u8>, ranges: Seq<Seq<char>>) -> bool {
    exists|i: int| 0 <= i < ranges.len() && range_holds(#[trigger] ranges[i], ip)
}

/// An address of groups that could lead back to this machine or its networks:
/// loopback, unspecified, multicast, unique local, link-local or discard, or
/// one that stands for a blocked dotted address.
pub open spec fn v6_blocked(g: Seq<u16>, ranges: Seq<Seq<char>>) -> bool {
    let front_zero = g[0] == 0 && g[1] == 0 && g[2] == 0 && g[3] == 0 && g[4] == 0 && g[5] == 0
        && g[6] == 0;
    ||| front_zero && g[7] <= 1
    ||| g[0] >= 0xff00
    ||| 0xfc00 <= g[0] <= 0xfdff
    ||| 0xfe80 <= g[0] <= 0xfebf
    ||| g[0] == 0x100 && g[1] == 0 && g[2] == 0 && g[3] == 0
    ||| is_mapped(g) && v4_blocked(quad_of(g[6], g[7]), ranges)
    ||| g[0] == 0x2002 && v4_blocked(quad_of(g[1], g[2]), ranges)
}

/// An address that must not be connected to.
pub open spec fn ip_blocked(ip: IpView, ranges: Seq<Seq<char>>) -> bool {
    match ip {
        IpView::V4(a) => v4_blocked(a, ranges),
        IpView::V6(g) => v6_blocked(g, ranges),
    }
}

/// Tells whether a range holds a dotted address.
fn range_has(range: &str, ip: &[u8; 4]) -> (r: bool)
    ensures
        r == range_holds(range@, ip@),
{
    match split_once(range, "/") {
        Some((network, bits)) => match (
            read_ipv4(network.as_str()),
            read_unsigned(bits.as_str(), 255),
        ) {
            (Some(net), Some(n)) => n <= 32 && is_ipv4_in_cidr(ip, &net, n as u8),
            _ => false,
        },
        None => false,
    }
}

/// Tells whether some range holds a dotted address.
pub fn ipv4_is_blocked(ip: &[u8; 4], blocked_ranges: &[String]) -> (r: bool)
    ensures
        r == v4_blocked(ip@, views(blocked_ranges@)),
{
    let ghost ranges = views(blocked_ranges@);
    let mut i: usize = 0;
    while i < blocked_ranges.len()
        invariant
            i <= blocked_ranges@.len(),
            ranges == views(blocked_ranges@),
            forall|k: int| 0 <= k < i ==> !range_holds(#[trigger] ranges[k], ip@),
        decreases blocked_ranges.len() - i,
    {
        if range_has(blocked_ranges[i].as_str(), ip) {
            assert(range_holds(ranges[i as int], ip@));
            return true;
        }
        i += 1;
    }
    false
}

/// Tells whether an address of groups must not be connected to.
pub fn ipv6_is_blocked(g: &[u16; 8], blocked_ranges: &[String]) -> (r: bool)
    ensures
        r == v6_blocked(g@, views(blocked_ranges@)),
{
    if g[0] == 0 && g[1] == 0 && g[2] == 0 && g[3] == 0 && g[4] == 0 && g[5] == 0 && g[6] == 0
        && g[7] <= 1 {
        return true;
    }
    if g[0] >= 0xff00 || (0xfc00 <= g[0] && g[0] <= 0xfdff) || (0xfe80 <= g[0] && g[0] <= 0xfebf) {
        return true;
    }
    if g[0] == 0x100 && g[1] == 0 && g[2] == 0 && g[3] == 0 {
        return true;
    }
    if mapped(g) {
        return ipv4_is_blocked(&quad(g[6], g[7]), blocked_ranges);
    }
    if g[0] == 0x2002 {
        return ipv4_is_blocked(&quad(g[1], g[2]), blocked_ranges);
    }
    false
}

/// Tells whether an address must not be connected to.
pub fn ip_is_blocked(ip: &IpAddr, blocked_ranges: &[String]) -> (r: bool)
    ensures
        r == ip_blocked(ip@, views(blocked_ranges@)),
{
    match ip {
        IpAddr::V4(a) => ipv4_is_blocked(a, blocked_ranges),
        IpAddr::V6(g) => ipv6_is_blocked(g, blocked_ranges),
    }
}

/// A name for this machine.
pub open spec fn blocked_name(s: Seq<char>) -> bool {
    s == "localhost"@ || s == "localhost.localdomain"@ || s == "ip6-localhost"@ || s
        == "ip6-loopback"@ || s == "broadcasthost"@
}

/// Tells whether a text is a name for this machine.
fn is_blocked_name(s: &str) -> (r: bool)
    ensures
        r == blocked_name(s@),
{
    same(s, "localhost") || same(s, "localhost.localdomain") || same(s, "ip6-localhost") || same(
        s,
        "ip6-loopback",
    ) || same(s, "broadcasthost")
}

// ---------------------------------------------------------------------------
// Judging URLs
// ---------------------------------------------------------------------------

/// What is known of a URL before its host is looked up.
#[derive(Debug, Clone)]
pub enum UrlCheck {
    /// It may be fetched.
    Allowed,
    /// Its host is a name, and what the name stands for decides.
    Lookup { host: String, port: u16 },
}

/// What is known of a URL, by the text in it.
pub enum UrlCheckView {
    Allowed,
    Lookup { host: Seq<char>, port: u16 },
}

impl View for UrlCheck {
    type V = UrlCheckView;

    open spec fn view(&self) -> UrlCheckView {
        match self {
            UrlCheck::Allowed => UrlCheckView::Allowed,
            UrlCheck::Lookup { host, port } => UrlCheckView::Lookup { host: host@, port: *port },
        }
    }
}

/// The verdict on the parts of a URL.
pub open spec fn url_verdict(parts: Option<UrlView>, ranges: Seq<Seq<char>>) -> Result<
    UrlCheckView,
    UrlErrorView,
> {
    match parts {
        None => Err(UrlErrorView::InvalidUrl),
        Some(u) => {
            if u.scheme != "http"@ && u.scheme != "https"@ {
                Err(UrlErrorView::BlockedProtocol(u.scheme))
            } else {
                match u.host {
                    HostView::Missing => Err(UrlErrorView::InvalidUrl),
                    HostView::Name(name) => if blocked_name(ascii_lower(name)) {
                        Err(UrlErrorView::BlockedHost(ascii_lower(name)))
                    } else {
                        Ok(
                            UrlCheckView::Lookup {
                                host: name,
                                port: match u.port {
                                    Some(p) => p,
                                    None => 80,
                                },
                            },
                        )
                    },
                    HostView::Address(ip) => if ip_blocked(ip, ranges) {
                        Err(UrlErrorView::BlockedHost(ip.text()))
                    } else {
                        Ok(UrlCheckView::Allowed)
                    },
                }
            }
        },
    }
}

/// A verdict by its view.
pub open spec fn verdict_view(r: Result<UrlCheck, UrlError>) -> Result<UrlCheckView, UrlErrorView> {
    match r {
        Ok(c) => Ok(c@),
        Err(e) => Err(e@),
    }
}

/// Judges the parts of a URL.
pub fn judge_url(parts: Option<UrlParts>, blocked_ranges: &[String]) -> (r: Result<
    UrlCheck,
    UrlError,
>)
    ensures
        verdict_view(r) == url_verdict(opt_parts_view(parts), views(blocked_ranges@)),
{
    let u = match parts {
        Some(u) => u,
        None => {
            return Err(UrlError::InvalidUrl);
        },
    };
    if !same(u.scheme.as_str(), "http") && !same(u.scheme.as_str(), "https") {
        return Err(UrlError::BlockedProtocol(u.scheme));
    }
    match u.host {
        UrlHost::Missing => Err(UrlError::InvalidUrl),
        UrlHost::Name(name) => {
            let lower = to_ascii_lower(name.as_str());
            if is_blocked_name(lower.as_str()) {
                return Err(UrlError::BlockedHost(lower));
            }
            let port: u16 = match u.port {
                Some(p) => p,
                None => 80,
            };
            Ok(UrlCheck::Lookup { host: name, port })
        },
        UrlHost::Address(ip) => {
            if ip_is_blocked(&ip, blocked_ranges) {
                Err(UrlError::BlockedHost(ip.to_text()))
            } else {
                Ok(UrlCheck::Allowed)
            }
        },
    }
}

/// Judges a URL: only `http` and `https`, no name for this machine and no
/// blocked address. A host that is a name is still to be looked up, and
/// `judge_resolved` judges what it stands for.
pub fn validate_url(url: &str, blocked_ranges: &[String]) -> (r: Result<UrlCheck, UrlError>)
    ensures
        verdict_view(r) == url_verdict(url_parts(url@), views(blocked_ranges@)),
{
    judge_url(parse_url(url), blocked_ranges)
}

// ---------------------------------------------------------------------------
// Pinning hosts
// ---------------------------------------------------------------------------

/// The host without the brackets that some forms put round it.
pub open spec fn unbracketed(s: Seq<char>) -> Seq<char> {
    drop_closing(drop_opening(s))
}

/// A text without `[` in front.
pub open spec fn drop_opening(s: Seq<char>) -> Seq<char>
    decreases s.len(),
{
    if s.len() > 0 && s[0] == '[' {
        drop_opening(s.drop_first())
    } else {
        s
    }
}

/// A text without `]` behind.
pub open spec fn drop_closing(s: Seq<char>) -> Seq<char>
    decreases s.len(),
{
    if s.len() > 0 && s.last() == ']' {
        drop_closing(s.drop_last())
    } else {
        s
    }
}

/// Where a connection is to go.
#[derive(Debug, Clone)]
pub enum Pin {
    /// To this address.
    Address(IpAddr),
    /// To what this name stands for.
    Lookup { host: String, port: u16 },
}

/// Where a connection is to go, by its text or numbers.
pub enum PinView {
    Address(IpView),
    Lookup { host: Seq<char>, port: u16 },
}

impl View for Pin {
    type V = PinView;

    open spec fn view(&self) -> PinView {
        match self {
            Pin::Address(a) => PinView::Address(a@),
            Pin::Lookup { host, port } => PinView::Lookup { host: host@, port: *port },
        }
    }
}

/// Where a connection to a host is to go: an address that is not blocked, or
/// what a name stands for that is neither one for this machine nor listed.
pub open spec fn pinned(
    host: Seq<char>,
    port: u16,
    ranges: Seq<Seq<char>>,
    listed: Set<Seq<char>>,
) -> Result<PinView, UrlErrorView> {
    let h = unbracketed(host);
    match ip_of(h) {
        Some(ip) => if ip_blocked(ip, ranges) {
            Err(UrlErrorView::BlockedHost(ip.text()))
        } else {
            Ok(PinView::Address(ip))
        },
        None => if blocked_name(ascii_lower(h)) || listed.contains(ascii_lower(h)) {
            Err(UrlErrorView::BlockedHost(ascii_lower(h)))
        } else {
            Ok(PinView::Lookup { host: h, port })
        },
    }
}

/// A pin by its view.
pub open spec fn pin_view(r: Result<Pin, UrlError>) -> Result<PinView, UrlErrorView> {
    match r {
        Ok(p) => Ok(p@),
        Err(e) => Err(e@),
    }
}

/// Drops the brackets round a host.
pub fn drop_brackets(s: &str) -> (r: String)
    ensures
        r@ == unbracketed(s@),
{
    let chars = chars_of(s);
    let mut from: usize = 0;
    assert(s@.skip(0) =~= s@);
    while from < chars.len() && chars[from] == '['
        invariant
            from <= chars@.len(),
            chars@ == s@,
            drop_opening(s@) == drop_opening(s@.skip(from as int)),
        decreases chars.len() - from,
    {
        assert(s@.skip(from as int).drop_first() =~= s@.skip(from + 1));
        from += 1;
    }
    let ghost mid = s@.skip(from as int);
    let mut to: usize = chars.len();
    assert(s@.subrange(from as int, to as int) =~= mid);
    while to > from && chars[to - 1] == ']'
        invariant
            from <= to <= chars@.len(),
            chars@ == s@,
            mid == s@.skip(from as int),
            drop_closing(mid) == drop_closing(s@.subrange(from as int, to as int)),
        decreases to,
    {
        assert(s@.subrange(from as int, to as int).drop_last() =~= s@.subrange(
            from as int,
            to - 1,
        ));
        to -= 1;
    }
    text_of(&chars, from, to)
}

/// Judges where a connection to a host is to go. A name that passes is still to
/// be looked up, and `pin_resolved` judges what it stands for.
pub fn resolve_and_pin(
    host: &str,
    port: u16,
    blocked_ranges: &[String],
    list: &DomainBlocklist,
) -> (r: Result<Pin, UrlError>)
    ensures
        pin_view(r) == pinned(host@, port, views(blocked_ranges@), list@),
{
    let h = drop_brackets(host);
    match parse_ip(h.as_str()) {
        Some(ip) => {
            if ip_is_blocked(&ip, blocked_ranges) {
                Err(UrlError::BlockedHost(ip.to_text()))
            } else {
                Ok(Pin::Address(ip))
            }
        },
        None => {
            let lower = to_ascii_lower(h.as_str());
            if is_blocked_name(lower.as_str()) || is_domain_blocked(list, h.as_str()) {
                Err(UrlError::BlockedHost(lower))
            } else {
                Ok(Pin::Lookup { host: h, port })
            }
        },
    }
}

/// The views of a list of addresses.
pub open spec fn ip_views(v: Seq<IpAddr>) -> Seq<IpView> {
    v.map_values(|a: IpAddr| a@)
}

/// `i` is the first blocked address of a list.
pub open spec fn first_blocked(addrs: Seq<IpView>, ranges: Seq<Seq<char>>, i: int) -> bool {
    0 <= i < addrs.len() && ip_blocked(addrs[i], ranges) && forall|k: int|
        0 <= k < i ==> !ip_blocked(#[trigger] addrs[k], ranges)
}

/// The error for a name that stands for a blocked address.
pub open spec fn leads_to_blocked(
    host: Seq<char>,
    addrs: Seq<IpView>,
    ranges: Seq<Seq<char>>,
    e: UrlErrorView,
) -> bool {
    exists|i: int|
        #[trigger] first_blocked(addrs, ranges, i) && e == UrlErrorView::BlockedHost(
            host + " (resolves to "@ + addrs[i].text() + ")"@,
        )
}

/// No address of a list is blocked.
pub open spec fn all_allowed(addrs: Seq<IpView>, ranges: Seq<Seq<char>>) -> bool {
    forall|k: int| 0 <= k < addrs.len() ==> !ip_blocked(#[trigger] addrs[k], ranges)
}

/// Judges the addresses that a name stands for: every one must be allowed.
fn judge_addresses(host: &str, addrs: &Vec<IpAddr>, blocked_ranges: &[String]) -> (r: Result<
    (),
    UrlError,
>)
    ensures
        match r {
            Ok(_) => all_allowed(ip_views(addrs@), views(blocked_ranges@)),
            Err(e) => leads_to_blocked(host@, ip_views(addrs@), views(blocked_ranges@), e@),
        },
{
    let ghost all = ip_views(addrs@);
    let ghost ranges = views(blocked_ranges@);
    let mut i: usize = 0;
    while i < addrs.len()
        invariant
            i <= addrs@.len(),
            all == ip_views(addrs@),
            ranges == views(blocked_ranges@),
            forall|k: int| 0 <= k < i ==> !ip_blocked(#[trigger] all[k], ranges),
        decreases addrs.len() - i,
    {
        if ip_is_blocked(&addrs[i], blocked_ranges) {
            let text = addrs[i].to_text();
            assert(first_blocked(all, ranges, i as int));
            return Err(
                UrlError::BlockedHost(
                    join3(host, " (resolves to ", text.as_str()).concat(")"),
                ),
            );
        }
        i += 1;
    }
    Ok(())
}

/// Judges a URL by what its host stands for, given what looking that up came to:
/// nothing where it failed. Every address must be allowed.
pub fn judge_resolved(host: &str, addrs: &Option<Vec<IpAddr>>, blocked_ranges: &[String]) -> (r:
    Result<(), UrlError>)
    ensures
        match (*addrs, r) {
            (None, _) => r == Err::<(), UrlError>(UrlError::InvalidUrl),
            (Some(a), Ok(_)) => all_allowed(ip_views(a@), views(blocked_ranges@)),
            (Some(a), Err(e)) => leads_to_blocked(
                host@,
                ip_views(a@),
                views(blocked_ranges@),
                e@,
            ),
        },
{
    match addrs {
        None => Err(UrlError::InvalidUrl),
        Some(a) => judge_addresses(host, a, blocked_ranges),
    }
}

/// Judges what a name stands for: every address must be allowed, and the first
/// is the one to connect to.
pub fn pin_resolved(host: &str, addrs: &Vec<IpAddr>, blocked_ranges: &[String]) -> (r: Result<
    IpAddr,
    UrlError,
>)
    ensures
        match r {
            Ok(ip) => addrs@.len() > 0 && ip == addrs@[0] && all_allowed(
                ip_views(addrs@),
                views(blocked_ranges@),
            ),
            Err(e) => if addrs@.len() == 0 {
                e@ == UrlErrorView::UnresolvableHost(host@)
            } else {
                leads_to_blocked(host@, ip_views(addrs@), views(blocked_ranges@), e@)
            },
        },
{
    if addrs.len() == 0 {
        return Err(UrlError::UnresolvableHost(host.to_owned()));
    }
    match judge_addresses(host, addrs, blocked_ranges) {
        Ok(_) => Ok(addrs[0]),
        Err(e) => Err(e),
    }
}

// ---------------------------------------------------------------------------
// Laws
// ---------------------------------------------------------------------------

/// A URL passes only with the scheme `http` or `https`.
pub proof fn only_web_schemes_pass(parts: Option<UrlView>, ranges: Seq<Seq<char>>)
    ensures
        url_verdict(parts, ranges) is Ok ==> (parts matches Some(u) && (u.scheme == "http"@
            || u.scheme == "https"@)),
{
}

/// No blocked address passes, neither in a URL nor as the target of a
/// connection.
pub proof fn blocked_addresses_never_pass(
    ip: IpView,
    scheme: Seq<char>,
    port: Option<u16>,
    ranges: Seq<Seq<char>>,
)
    requires
        ip_blocked(ip, ranges),
    ensures
        url_verdict(Some(UrlView { scheme, host: HostView::Address(ip), port }), ranges) is Err,
        forall|host: Seq<char>, p: u16, listed: Set<Seq<char>>|
            pinned(host, p, ranges, listed) != Ok::<PinView, UrlErrorView>(PinView::Address(ip)),
{
}

/// A mapped address is blocked exactly where the dotted address in it is.
pub proof fn mapped_addresses_inherit(a: Seq<u8>, ranges: Seq<Seq<char>>)
    requires
        a.len() == 4,
    ensures
        ({
            let g = seq![
                0u16,
                0u16,
                0u16,
                0u16,
                0u16,
                0xffffu16,
                (a[0] * 256 + a[1]) as u16,
                (a[2] * 256 + a[3]) as u16,
            ];
            v6_blocked(g, ranges) == v4_blocked(a, ranges)
        }),
{
    let hi = (a[0] * 256 + a[1]) as u16;
    let lo = (a[2] * 256 + a[3]) as u16;
    assert(quad_of(hi, lo) =~= a);
}

/// More ranges block more.
pub proof fn more_ranges_block_more(ip: IpView, few: Seq<Seq<char>>, many: Seq<Seq<char>>)
    requires
        forall|i: int| 0 <= i < few.len() ==> many.contains(#[trigger] few[i]),
        ip_blocked(ip, few),
    ensures
        ip_blocked(ip, many),
{
    assert forall|a: Seq<u8>| v4_blocked(a, few) implies v4_blocked(a, many) by {
        let i = choose|i: int| 0 <= i < few.len() && range_holds(#[trigger] few[i], a);
        let j = choose|j: int| 0 <= j < many.len() && many[j] == few[i];
        assert(range_holds(many[j], a));
    }
}

/// A range as it is written.
pub open spec fn range_text(network: Seq<u8>, bits: nat) -> Seq<char> {
    ipv4_text(network) + "/"@ + decimal(bits)
}

/// A range that is written out holds the addresses that agree with its network
/// in so many bits, and no others.
pub proof fn written_ranges_hold_their_networks(network: Seq<u8>, bits: nat, ip: Seq<u8>)
    requires
        network.len() == 4,
        bits <= 32,
    ensures
        range_holds(range_text(network, bits), ip) == same_network(ip, network, bits),
{
    reveal_strlit("/");
    let net = ipv4_text(network);
    let text = range_text(network, bits);
    let slash = "/"@;
    let n = net.len() as int;
    assert(slash =~= seq!['/']);
    assert(text.subrange(n, n + 1) =~= slash);
    assert(occurs_at(text, slash, n));
    lemma_no_slash(network);
    assert forall|j: int| 0 <= j < n implies !#[trigger] occurs_at(text, slash, j) by {
        if occurs_at(text, slash, j) {
            assert(text.subrange(j, j + 1)[0] == net[j]);
        }
    }
    lemma_find(text, slash, n);
    assert(text.take(n) =~= net);
    assert(text.skip(n + 1) =~= decimal(bits));
    dotted_addresses_round_trip(network);
    unsigned_decimal_round_trip(bits, 255);
}

proof fn lemma_no_slash(a: Seq<u8>)
    ensures
        forall|i: int| 0 <= i < ipv4_text(a).len() ==> #[trigger] ipv4_text(a)[i] != '/',
{
    let d0 = decimal(a[0] as nat);
    let d1 = decimal(a[1] as nat);
    let d2 = decimal(a[2] as nat);
    let d3 = decimal(a[3] as nat);
    lemma_decimal(a[0] as nat);
    lemma_decimal(a[1] as nat);
    lemma_decimal(a[2] as nat);
    lemma_decimal(a[3] as nat);
    let t = ipv4_text(a);
    assert forall|i: int| 0 <= i < t.len() implies #[trigger] t[i] != '/' by {
        let e0 = d0.len() as int;
        let e1 = e0 + 1 + d1.len();
        let e2 = e1 + 1 + d2.len();
        if i < e0 {
            assert(t[i] == d0[i]);
            assert(is_digit(d0[i]));
        } else if e0 < i < e1 {
            assert(t[i] == d1[i - e0 - 1]);
            assert(is_digit(d1[i - e0 - 1]));
        } else if e1 < i < e2 {
            assert(t[i] == d2[i - e1 - 1]);
            assert(is_digit(d2[i - e1 - 1]));
        } else if i > e2 {
            assert(t[i] == d3[i - e2 - 1]);
            assert(is_digit(d3[i - e2 - 1]));
        }
    }
}

/// An address of this machine, of a private network or of the link alone.
pub open spec fn is_internal(a: Seq<u8>) -> bool {
    ||| a[0] == 127
    ||| a[0] == 10
    ||| a[0] == 172 && 16 <= a[1] <= 31
    ||| a[0] == 192 && a[1] == 168
    ||| a[0] == 169 && a[1] == 254
}

/// Where nothing else is set, exactly the addresses of this machine, of private
/// networks and of the link alone are blocked.
pub proof fn internal_addresses_are_blocked_by_default(a: Seq<u8>)
    requires
        a.len() == 4,
    ensures
        ip_blocked(IpView::V4(a), default_ranges()) == is_internal(a),
{
    let r = default_ranges();
    let n0 = seq![127u8, 0, 0, 0];
    let n1 = seq![10u8, 0, 0, 0];
    let n2 = seq![172u8, 16, 0, 0];
    let n3 = seq![192u8, 168, 0, 0];
    let n4 = seq![169u8, 254, 0, 0];
    lemma_default_texts();
    written_ranges_hold_their_networks(n0, 8, a);
    written_ranges_hold_their_networks(n1, 8, a);
    written_ranges_hold_their_networks(n2, 12, a);
    written_ranges_hold_their_networks(n3, 16, a);
    written_ranges_hold_their_networks(n4, 16, a);
    lemma_first_octet(a, n0);
    lemma_first_octet(a, n1);
    lemma_first_octet_and_half(a, n2);
    lemma_first_octets(a, n3);
    lemma_first_octets(a, n4);
    assert(range_holds(r[0], a) == (a[0] == 127));
    assert(range_holds(r[1], a) == (a[0] == 10));
    assert(range_holds(r[2], a) == (a[0] == 172 && 16 <= a[1] <= 31));
    assert(range_holds(r[3], a) == (a[0] == 192 && a[1] == 168));
    assert(range_holds(r[4], a) == (a[0] == 169 && a[1] == 254));
}

/// Eight bits are the first number.
proof fn lemma_first_octet(a: Seq<u8>, b: Seq<u8>)
    requires
        a.len() == 4,
        b.len() == 4,
    ensures
        same_network(a, b, 8) == (a[0] == b[0]),
{
    vstd::arithmetic::power2::lemma2_to64();
    assert(ip_number(a) / 0x100_0000 == a[0]);
    assert(ip_number(b) / 0x100_0000 == b[0]);
}

/// Twelve bits are the first number and half of the second.
proof fn lemma_first_octet_and_half(a: Seq<u8>, b: Seq<u8>)
    requires
        a.len() == 4,
        b.len() == 4,
    ensures
        same_network(a, b, 12) == (a[0] == b[0] && a[1] / 16 == b[1] / 16),
{
    vstd::arithmetic::power2::lemma2_to64();
    assert(ip_number(a) / 0x10_0000 == a[0] * 0x10 + a[1] / 16);
    assert(ip_number(b) / 0x10_0000 == b[0] * 0x10 + b[1] / 16);
}

/// Sixteen bits are the first two numbers.
proof fn lemma_first_octets(a: Seq<u8>, b: Seq<u8>)
    requires
        a.len() == 4,
        b.len() == 4,
    ensures
        same_network(a, b, 16) == (a[0] == b[0] && a[1] == b[1]),
{
    vstd::arithmetic::power2::lemma2_to64();
    assert(ip_number(a) / 0x1_0000 == a[0] * 0x100 + a[1]);
    assert(ip_number(b) / 0x1_0000 == b[0] * 0x100 + b[1]);
}

proof fn lemma_default_texts()
    ensures
        default_ranges()[0] == range_text(seq![127u8, 0, 0, 0], 8),
        default_ranges()[1] == range_text(seq![10u8, 0, 0, 0], 8),
        default_ranges()[2] == range_text(seq![172u8, 16, 0, 0], 12),
        default_ranges()[3] == range_text(seq![192u8, 168, 0, 0], 16),
        default_ranges()[4] == range_text(seq![169u8, 254, 0, 0], 16),
{
    reveal_with_fuel(decimal, 4);
    reveal_strlit("127.0.0.0/8");
    reveal_strlit("10.0.0.0/8");
    reveal_strlit("172.16.0.0/12");
    reveal_strlit("192.168.0.0/16");
    reveal_strlit("169.254.0.0/16");
    reveal_strlit("/");
    assert("127.0.0.0/8"@ =~= range_text(seq![127u8, 0, 0, 0], 8));
    assert("10.0.0.0/8"@ =~= range_text(seq![10u8, 0, 0, 0], 8));
    assert("172.16.0.0/12"@ =~= range_text(seq![172u8, 16, 0, 0], 12));
    assert("192.168.0.0/16"@ =~= range_text(seq![192u8, 168, 0, 0], 16));
    assert("169.254.0.0/16"@ =~= range_text(seq![169u8, 254, 0, 0], 16));
}

/// A URL of the web passes where nothing blocks its host: one that names an
/// address as it is, one that names a host once that is looked up, at the port
/// of the URL. A name for this machine does not pass, in any case of its
/// letters.
pub proof fn web_urls_pass(
    scheme: Seq<char>,
    name: Seq<char>,
    ip: IpView,
    port: u16,
    ranges: Seq<Seq<char>>,
)
    requires
        scheme == "http"@ || scheme == "https"@,
    ensures
        ({
            let own = seq![
                "broadcasthost"@,
                "ip6-localhost"@,
                "ip6-loopback"@,
                "localhost"@,
                "localhost.localdomain"@,
            ];
            let host = HostView::Name(name);
            if own.contains(ascii_lower(name)) {
                url_verdict(Some(UrlView { scheme, host, port: Some(port) }), ranges) == Err::<
                    UrlCheckView,
                    UrlErrorView,
                >(UrlErrorView::BlockedHost(ascii_lower(name)))
            } else {
                &&& url_verdict(Some(UrlView { scheme, host, port: Some(port) }), ranges) == Ok::<
                    UrlCheckView,
                    UrlErrorView,
                >(UrlCheckView::Lookup { host: name, port })
                &&& url_verdict(Some(UrlView { scheme, host, port: None }), ranges) == Ok::<
                    UrlCheckView,
                    UrlErrorView,
                >(UrlCheckView::Lookup { host: name, port: 80 })
            }
        }),
        url_verdict(
            Some(UrlView { scheme, host: HostView::Address(ip), port: Some(port) }),
            ranges,
        ) == (if ip_blocked(ip, ranges) {
            Err::<UrlCheckView, UrlErrorView>(UrlErrorView::BlockedHost(ip.text()))
        } else {
            Ok(UrlCheckView::Allowed)
        }),
        url_verdict(
            Some(UrlView { scheme, host: HostView::Missing, port: Some(port) }),
            ranges,
        ) is Err,
        url_verdict(None, ranges) is Err,
{
    let own = seq![
        "broadcasthost"@,
        "ip6-localhost"@,
        "ip6-loopback"@,
        "localhost"@,
        "localhost.localdomain"@,
    ];
    assert(own[0] == "broadcasthost"@);
    assert(own[1] == "ip6-localhost"@);
    assert(own[2] == "ip6-loopback"@);
    assert(own[3] == "localhost"@);
    assert(own[4] == "localhost.localdomain"@);
}

/// A connection to a dotted address goes there unless a range holds it; one to
/// a name is to be looked up under the same name and port unless the name is
/// listed or one for this machine.
#[verifier::rlimit(50)]
#[verifier::spinoff_prover]
pub proof fn hosts_that_nothing_blocks_are_pinned(
    a: Seq<u8>,
    name: Seq<char>,
    port: u16,
    ranges: Seq<Seq<char>>,
    listed: Set<Seq<char>>,
)
    requires
        a.len() == 4,
        ip_of(name) is None,
        name.len() > 0,
        name[0] != '[',
        name.last() != ']',
    ensures
        pinned(ipv4_text(a), port, ranges, listed) == (if v4_blocked(a, ranges) {
            Err::<PinView, UrlErrorView>(UrlErrorView::BlockedHost(ipv4_text(a)))
        } else {
            Ok(PinView::Address(IpView::V4(a)))
        }),
        listed.contains(ascii_lower(name)) ==> pinned(name, port, ranges, listed) == Err::<
            PinView,
            UrlErrorView,
        >(UrlErrorView::BlockedHost(ascii_lower(name))),
        ascii_lower(name) == "localhost"@ ==> pinned(name, port, ranges, listed) is Err,
        !listed.contains(ascii_lower(name)) && !blocked_name(ascii_lower(name)) ==> pinned(
            name,
            port,
            ranges,
            listed,
        ) == Ok::<PinView, UrlErrorView>(PinView::Lookup { host: name, port }),
{
    dotted_addresses_round_trip(a);
    let t = ipv4_text(a);
    let d0 = decimal(a[0] as nat);
    let d3 = decimal(a[3] as nat);
    lemma_decimal(a[0] as nat);
    lemma_decimal(a[3] as nat);
    assert(t[0] == d0[0]);
    assert(t.last() == d3.last());
    assert(is_digit(d0[0]));
    assert(is_digit(d3[d3.len() - 1]));
    assert(drop_opening(t) == t);
    assert(drop_closing(t) == t);
    assert(ip_of(t) == Some(IpView::V4(a)));
}

/// Brackets round a host do not count.
#[verifier::rlimit(50)]
#[verifier::spinoff_prover]
pub proof fn brackets_do_not_count(
    host: Seq<char>,
    port: u16,
    ranges: Seq<Seq<char>>,
    listed: Set<Seq<char>>,
)
    requires
        host.len() > 0,
        host[0] != '[',
        host.last() != ']',
    ensures
        unbracketed("["@ + host + "]"@) == host,
        pinned("["@ + host + "]"@, port, ranges, listed) == pinned(host, port, ranges, listed),
{
    lemma_unbracketed(host);
}

/// Brackets come off.
#[verifier::rlimit(50)]
#[verifier::spinoff_prover]
proof fn lemma_unbracketed(host: Seq<char>)
    requires
        host.len() > 0,
        host[0] != '[',
        host.last() != ']',
    ensures
        unbracketed("["@ + host + "]"@) == host,
        unbracketed(host) == host,
{
    reveal_strlit("[");
    reveal_strlit("]");
    let s = "["@ + host + "]"@;
    assert(s[0] == '[');
    assert(s.drop_first() =~= host + "]"@);
    assert((host + "]"@)[0] == host[0]);
    assert(drop_opening(host + "]"@) == host + "]"@);
    assert((host + "]"@).last() == ']');
    assert((host + "]"@).drop_last() =~= host);
    assert(drop_closing(host) == host);
    assert(drop_opening(host) == host);
}

/// An address of groups is blocked by the bits that it begins with, where these
/// are those of multicast, unique local, link-local or discard addresses, where
/// it is the loopback or the unspecified address, and where it stands for a
/// dotted one that is blocked; any other is not.
pub proof fn groups_are_blocked_by_their_first_bits(g: Seq<u16>, ranges: Seq<Seq<char>>)
    requires
        g.len() == 8,
    ensures
        g[0] as int / 0x100 == 0xff ==> v6_blocked(g, ranges),
        g[0] as int / 0x200 == 0x7e ==> v6_blocked(g, ranges),
        g[0] as int / 0x40 == 0x3fa ==> v6_blocked(g, ranges),
        g.take(4) == seq![0x100u16, 0, 0, 0] ==> v6_blocked(g, ranges),
        g == seq![0u16, 0, 0, 0, 0, 0, 0, 0] ==> v6_blocked(g, ranges),
        g == seq![0u16, 0, 0, 0, 0, 0, 0, 1] ==> v6_blocked(g, ranges),
        0x2000 <= g[0] < 0x4000 && g[0] != 0x2002 ==> !v6_blocked(g, ranges),
        g[0] == 0x2002 ==> v6_blocked(g, ranges) == v4_blocked(
            seq![
                (g[1] as int / 0x100) as u8,
                (g[1] as int % 0x100) as u8,
                (g[2] as int / 0x100) as u8,
                (g[2] as int % 0x100) as u8,
            ],
            ranges,
        ),
{
    if g.take(4) == seq![0x100u16, 0, 0, 0] {
        assert(g[0] == g.take(4)[0]);
        assert(g[1] == g.take(4)[1]);
        assert(g[2] == g.take(4)[2]);
        assert(g[3] == g.take(4)[3]);
    }
    assert(quad_of(g[1], g[2]) =~= seq![
        (g[1] as int / 0x100) as u8,
        (g[1] as int % 0x100) as u8,
        (g[2] as int / 0x100) as u8,
        (g[2] as int % 0x100) as u8,
    ]);
}

/// A range of no bits holds every address, one of all bits its own alone, and
/// one of three numbers the addresses that begin with them.
pub proof fn ranges_are_as_wide_as_they_say(a: Seq<u8>, b: Seq<u8>)
    requires
        a.len() == 4,
        b.len() == 4,
    ensures
        range_holds(range_text(b, 0), a),
        range_holds(range_text(b, 24), a) == (a.take(3) == b.take(3)),
        range_holds(range_text(b, 32), a) == (a == b),
{
    vstd::arithmetic::power2::lemma2_to64();
    written_ranges_hold_their_networks(b, 0, a);
    written_ranges_hold_their_networks(b, 24, a);
    written_ranges_hold_their_networks(b, 32, a);
    assert(ip_number(a) < 0x1_0000_0000);
    assert(ip_number(b) < 0x1_0000_0000);
    assert(ip_number(a) / 0x1_0000_0000 == 0);
    assert(ip_number(b) / 0x1_0000_0000 == 0);
    assert(ip_number(a) / 0x100 == a[0] * 0x1_0000 + a[1] * 0x100 + a[2]);
    assert(ip_number(b) / 0x100 == b[0] * 0x1_0000 + b[1] * 0x100 + b[2]);
    vstd::arithmetic::power2::lemma_pow2(0);
    assert(vstd::arithmetic::power2::pow2(0) == 1);
    assert(ip_number(a) / 1 == ip_number(a));
    assert(ip_number(b) / 1 == ip_number(b));
    assert(same_network(a, b, 32) == (ip_number(a) == ip_number(b)));
    if ip_number(a) == ip_number(b) {
        assert(a[3] == ip_number(a) % 0x100);
        assert(b[3] == ip_number(b) % 0x100);
        assert(a[0] == b[0] && a[1] == b[1] && a[2] == b[2]);
    }
    if a.take(3) == b.take(3) {
        assert(a.take(3)[0] == b.take(3)[0]);
        assert(a.take(3)[1] == b.take(3)[1]);
        assert(a.take(3)[2] == b.take(3)[2]);
    }
    if a[0] == b[0] && a[1] == b[1] && a[2] == b[2] {
        assert(a.take(3) =~= b.take(3));
        if a[3] == b[3] {
            assert(a =~= b);
        }
    }
}

/// A name may be connected to only where every address that it stands for is
/// allowed; else the error names the host and the first address that is not.
pub proof fn one_blocked_address_blocks_a_name(
    host: Seq<char>,
    addrs: Seq<IpView>,
    ranges: Seq<Seq<char>>,
    i: int,
)
    requires
        0 <= i < addrs.len(),
    ensures
        ip_blocked(addrs[i], ranges) ==> !all_allowed(addrs, ranges),
        all_allowed(addrs, ranges) ==> forall|e: UrlErrorView|
            !leads_to_blocked(host, addrs, ranges, e),
        all_allowed(addrs.push(addrs[i]), ranges) == all_allowed(addrs, ranges),
        ip_blocked(addrs[i], ranges) && all_allowed(addrs.take(i), ranges) ==> forall|
            e: UrlErrorView,
        |
            #[trigger] leads_to_blocked(host, addrs, ranges, e) <==> e == UrlErrorView::BlockedHost(
                host + " (resolves to "@ + addrs[i].text() + ")"@,
            ),
        all_allowed(Seq::empty(), ranges),
{
    let more = addrs.push(addrs[i]);
    if all_allowed(addrs, ranges) {
        assert forall|k: int| 0 <= k < more.len() implies !ip_blocked(#[trigger] more[k], ranges) by {
            if k < addrs.len() {
                assert(more[k] == addrs[k]);
            }
        }
        assert forall|e: UrlErrorView| !leads_to_blocked(host, addrs, ranges, e) by {
            if leads_to_blocked(host, addrs, ranges, e) {
                let j = choose|j: int| #[trigger] first_blocked(addrs, ranges, j);
                assert(!ip_blocked(addrs[j], ranges));
            }
        }
    }
    if all_allowed(more, ranges) {
        assert forall|k: int| 0 <= k < addrs.len() implies !ip_blocked(
            #[trigger] addrs[k],
            ranges,
        ) by {
            assert(more[k] == addrs[k]);
        }
    }
    if ip_blocked(addrs[i], ranges) && all_allowed(addrs.take(i), ranges) {
        assert forall|k: int| 0 <= k < i implies !ip_blocked(#[trigger] addrs[k], ranges) by {
            assert(addrs.take(i)[k] == addrs[k]);
        }
        assert(first_blocked(addrs, ranges, i));
        assert forall|j: int| #[trigger] first_blocked(addrs, ranges, j) implies j == i by {
            if j < i {
                assert(!ip_blocked(addrs[j], ranges));
            } else if i < j {
                assert(!ip_blocked(addrs[i], ranges));
            }
        }
    }
}

} // verus!
