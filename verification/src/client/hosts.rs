//! Under which names the client answers, and to whom.
//!
//! A page whose name is made to point at this client still carries that name in
//! its `Host` header, and a page of another site names itself in the `Origin`
//! header of what it posts. Both are turned away.

use vstd::hash_set::StringHashSet;
use vstd::prelude::*;
use crate::ip::{ip_of, parse_ip, same_ip, IpAddr, IpView};
use crate::text::{
    after_prefix, around_last, ascii_lower, chars_of, find, lemma_find, occurs_at, rsplit_once,
    same, starts_with, strip_prefix, text_of, to_ascii_lower, trim, trimmed, views,
};

verus! {

impl IpView {
    /// An address that every machine has for itself.
    pub open spec fn is_loopback(self) -> bool {
        match self {
            IpView::V4(a) => a[0] == 127,
            IpView::V6(g) => g == seq![0u16, 0, 0, 0, 0, 0, 0, 1],
        }
    }

    /// The address that stands for all of this machine.
    pub open spec fn is_unspecified(self) -> bool {
        match self {
            IpView::V4(a) => a == seq![0u8, 0, 0, 0],
            IpView::V6(g) => g == seq![0u16, 0, 0, 0, 0, 0, 0, 0],
        }
    }

    /// An address of a local network: private or of the link alone.
    pub open spec fn is_lan(self) -> bool {
        match self {
            IpView::V4(a) => {
                ||| a[0] == 10
                ||| a[0] == 172 && 16 <= a[1] <= 31
                ||| a[0] == 192 && a[1] == 168
                ||| a[0] == 169 && a[1] == 254
            },
            IpView::V6(g) => 0xfc00 <= g[0] <= 0xfdff || 0xfe80 <= g[0] <= 0xfebf,
        }
    }
}

/// Tells whether an address is one that every machine has for itself.
pub fn is_loopback(ip: &IpAddr) -> (r: bool)
    ensures
        r == ip@.is_loopback(),
{
    match ip {
        IpAddr::V4(a) => a[0] == 127,
        IpAddr::V6(g) => {
            let r = g[0] == 0 && g[1] == 0 && g[2] == 0 && g[3] == 0 && g[4] == 0 && g[5] == 0
                && g[6] == 0 && g[7] == 1;
            assert(r ==> g@ =~= seq![0u16, 0, 0, 0, 0, 0, 0, 1]);
            r
        },
    }
}

/// Tells whether an address stands for all of this machine.
pub fn is_unspecified(ip: &IpAddr) -> (r: bool)
    ensures
        r == ip@.is_unspecified(),
{
    match ip {
        IpAddr::V4(a) => {
            let r = a[0] == 0 && a[1] == 0 && a[2] == 0 && a[3] == 0;
            assert(r ==> a@ =~= seq![0u8, 0, 0, 0]);
            r
        },
        IpAddr::V6(g) => {
            let r = g[0] == 0 && g[1] == 0 && g[2] == 0 && g[3] == 0 && g[4] == 0 && g[5] == 0
                && g[6] == 0 && g[7] == 0;
            assert(r ==> g@ =~= seq![0u16, 0, 0, 0, 0, 0, 0, 0]);
            r
        },
    }
}

/// Tells whether an address is one of a local network.
pub fn is_lan_ip(ip: &IpAddr) -> (r: bool)
    ensures
        r == ip@.is_lan(),
{
    match ip {
        IpAddr::V4(a) => a[0] == 10 || (a[0] == 172 && 16 <= a[1] && a[1] <= 31) || (a[0] == 192
            && a[1] == 168) || (a[0] == 169 && a[1] == 254),
        IpAddr::V6(g) => (0xfc00 <= g[0] && g[0] <= 0xfdff) || (0xfe80 <= g[0] && g[0] <= 0xfebf),
    }
}

/// The names and addresses that the client answers under.
pub struct HostAllowlist {
    hostnames: StringHashSet,
    bound_ip: Option<IpAddr>,
    allow_lan: bool,
}

/// The names and addresses that the client answers under, by their texts.
pub struct AllowlistView {
    pub names: Set<Seq<char>>,
    pub bound: Option<IpView>,
    pub lan: bool,
}

impl View for HostAllowlist {
    type V = AllowlistView;

    closed spec fn view(&self) -> AllowlistView {
        AllowlistView {
            names: self.hostnames@,
            bound: match self.bound_ip {
                Some(ip) => Some(ip@),
                None => None,
            },
            lan: self.allow_lan,
        }
    }
}

/// The names in a list that are not blank, in lower case, and that of this
/// machine.
pub open spec fn allowed_names(extra: Seq<Seq<char>>) -> Set<Seq<char>>
    decreases extra.len(),
{
    if extra.len() == 0 {
        Set::<Seq<char>>::empty().insert("localhost"@)
    } else {
        let name = ascii_lower(trim(extra.last()));
        if name.len() == 0 {
            allowed_names(extra.drop_last())
        } else {
            allowed_names(extra.drop_last()).insert(name)
        }
    }
}

/// The host of a `Host` header, without its port.
pub open spec fn host_of(header: Seq<char>) -> Seq<char> {
    if header.len() > 0 && header[0] == '[' && find(header.skip(1), seq![']']) is Some {
        header.take(find(header.skip(1), seq![']'])->0 + 2)
    } else {
        match around_last(header, ':') {
            Some((host, _)) => host,
            None => header,
        }
    }
}

/// A host without the brackets of an address.
pub open spec fn unwrapped(host: Seq<char>) -> Seq<char> {
    if host.len() >= 2 && host[0] == '[' && host.last() == ']' {
        host.subrange(1, host.len() - 1)
    } else {
        host
    }
}

impl AllowlistView {
    /// The client answers under this address.
    pub open spec fn allows_ip(self, ip: IpView) -> bool {
        ip.is_loopback() || self.bound == Some(ip) || (self.lan && ip.is_lan())
    }

    /// The client answers under the name or address in this `Host` header.
    pub open spec fn allows(self, header: Seq<char>) -> bool {
        match ip_of(unwrapped(host_of(header))) {
            Some(ip) => self.allows_ip(ip),
            None => self.names.contains(ascii_lower(host_of(header))),
        }
    }
}

/// Cuts the port off a `Host` header.
pub fn strip_port_from_host(host: &str) -> (r: String)
    ensures
        r@ == host_of(host@),
{
    let chars = chars_of(host);
    let n: usize = chars.len();
    if n > 0 && chars[0] == '[' {
        let mut i: usize = 1;
        while i < n
            invariant
                1 <= i <= n,
                n == chars@.len(),
                chars@ == host@,
                host@[0] == '[',
                forall|k: int| 1 <= k < i ==> #[trigger] host@[k] != ']',
            decreases n - i,
        {
            if chars[i] == ']' {
                proof {
                    let rest = host@.skip(1);
                    let pat = seq![']'];
                    assert(rest.subrange(i - 1, i as int) =~= pat);
                    assert(occurs_at(rest, pat, i - 1));
                    assert forall|j: int| 0 <= j < i - 1 implies !#[trigger] occurs_at(rest, pat, j) by {
                        if occurs_at(rest, pat, j) {
                            assert(rest.subrange(j, j + 1)[0] == host@[j + 1]);
                        }
                    }
                    lemma_find(rest, pat, i - 1);
                }
                let r = text_of(&chars, 0, i + 1);
                assert(r@ =~= host@.take(i + 1));
                return r;
            }
            i += 1;
        }
        proof {
            let rest = host@.skip(1);
            let pat = seq![']'];
            if let Some(j) = find(rest, pat) {
                crate::text::lemma_first_exists(rest, pat);
                assert(occurs_at(rest, pat, j));
                assert(rest.subrange(j, j + 1)[0] == host@[j + 1]);
            }
        }
    }
    match rsplit_once(host, ':') {
        Some((front, _)) => front,
        None => host.to_owned(),
    }
}

/// Takes the brackets of an address off.
fn unwrap_brackets(host: &str) -> (r: String)
    ensures
        r@ == unwrapped(host@),
{
    let chars = chars_of(host);
    let n: usize = chars.len();
    if n >= 2 && chars[0] == '[' && chars[n - 1] == ']' {
        text_of(&chars, 1, n - 1)
    } else {
        host.to_owned()
    }
}

impl HostAllowlist {
    /// The names and addresses of a client that listens on `listen_ip` and has
    /// some more names. One that listens on all addresses answers under any of
    /// a local network.
    pub fn new(listen_ip: IpAddr, extra_hostnames: Vec<String>) -> (r: HostAllowlist)
        ensures
            r@.names == allowed_names(views(extra_hostnames@)),
            r@.bound == (if listen_ip@.is_loopback() || listen_ip@.is_unspecified() {
                None
            } else {
                Some(listen_ip@)
            }),
            r@.lan == listen_ip@.is_unspecified(),
    {
        let mut hostnames = StringHashSet::new();
        hostnames.insert("localhost".to_owned());
        let ghost all = views(extra_hostnames@);
        let mut i: usize = 0;
        assert(all.take(0) =~= Seq::<Seq<char>>::empty());
        assert(hostnames@ =~= allowed_names(all.take(0)));
        while i < extra_hostnames.len()
            invariant
                i <= extra_hostnames@.len(),
                all == views(extra_hostnames@),
                hostnames@ == allowed_names(all.take(i as int)),
            decreases extra_hostnames.len() - i,
        {
            let name = to_ascii_lower(trimmed(extra_hostnames[i].as_str()).as_str());
            assert(all.take(i + 1).drop_last() =~= all.take(i as int));
            assert(all.take(i + 1).last() == extra_hostnames@[i as int]@);
            if name.as_str().unicode_len() > 0 {
                hostnames.insert(name);
            }
            i += 1;
        }
        assert(all.take(i as int) =~= all);
        let everywhere = is_unspecified(&listen_ip);
        let bound_ip = if is_loopback(&listen_ip) || everywhere {
            None
        } else {
            Some(listen_ip)
        };
        HostAllowlist { hostnames, bound_ip, allow_lan: everywhere }
    }

    /// Tells whether the client answers under what a `Host` header says.
    pub fn contains_host_header(&self, host_header: &str) -> (r: bool)
        ensures
            r == self@.allows(host_header@),
    {
        let host = strip_port_from_host(host_header);
        let inner = unwrap_brackets(host.as_str());
        match parse_ip(inner.as_str()) {
            Some(ip) => {
                if is_loopback(&ip) {
                    return true;
                }
                if let Some(bound) = &self.bound_ip {
                    if same_ip(bound, &ip) {
                        return true;
                    }
                }
                self.allow_lan && is_lan_ip(&ip)
            },
            None => self.hostnames.contains(to_ascii_lower(host.as_str()).as_str()),
        }
    }
}

/// An `Origin` that is of the host itself.
pub open spec fn same_origin(origin: Seq<char>, host: Seq<char>) -> bool {
    match after_prefix(origin, "http://"@) {
        Some(authority) => authority == host,
        None => match after_prefix(origin, "https://"@) {
            Some(authority) => authority == host,
            None => false,
        },
    }
}

/// Tells whether an `Origin` is of the host itself.
pub fn origin_matches_host(origin: &str, host: &str) -> (r: bool)
    ensures
        r == same_origin(origin@, host@),
{
    match strip_prefix(origin, "http://") {
        Some(authority) => same(authority.as_str(), host),
        None => match strip_prefix(origin, "https://") {
            Some(authority) => same(authority.as_str(), host),
            None => false,
        },
    }
}

/// A request is let in: under a name or address of the client, and where it
/// posts, from the client's own pages.
pub open spec fn let_in(
    list: AllowlistView,
    host: Option<Seq<char>>,
    posts: bool,
    origin: Option<Seq<char>>,
) -> bool {
    match host {
        Some(h) => list.allows(h) && (posts ==> match origin {
            Some(o) => same_origin(o, h),
            None => false,
        }),
        None => false,
    }
}

/// Decides whether a request is let in.
pub fn security_guard(
    list: &HostAllowlist,
    host: Option<&str>,
    posts: bool,
    origin: Option<&str>,
) -> (r: bool)
    ensures
        r == let_in(
            list@,
            match host {
                Some(h) => Some(h@),
                None => None,
            },
            posts,
            match origin {
                Some(o) => Some(o@),
                None => None,
            },
        ),
{
    match host {
        Some(h) => list.contains_host_header(h) && (!posts || match origin {
            Some(o) => origin_matches_host(o, h),
            None => false,
        }),
        None => false,
    }
}

// ---------------------------------------------------------------------------
// Laws
// ---------------------------------------------------------------------------

/// A page of another site never gets to post, whatever it says of itself.
pub proof fn other_sites_cannot_post(list: AllowlistView, host: Seq<char>, origin: Option<Seq<char>>)
    ensures
        let_in(list, Some(host), true, origin) ==> origin == Some("http://"@ + host) || origin
            == Some("https://"@ + host),
{
    if let Some(o) = origin {
        if starts_with(o, "http://"@) {
            assert("http://"@ + o.skip("http://"@.len() as int) =~= o);
        }
        if starts_with(o, "https://"@) {
            assert("https://"@ + o.skip("https://"@.len() as int) =~= o);
        }
    }
}

/// A name that is no address and was not given to the client is turned away,
/// whatever address it points at and on whatever address the client listens.
pub proof fn rebound_names_are_turned_away(
    list: AllowlistView,
    header: Seq<char>,
    posts: bool,
    origin: Option<Seq<char>>,
)
    requires
        ip_of(unwrapped(host_of(header))) is None,
        !list.names.contains(ascii_lower(host_of(header))),
    ensures
        !let_in(list, Some(header), posts, origin),
{
}

/// This machine may always reach the client by an address of its own.
pub proof fn loopback_addresses_are_allowed(list: AllowlistView, header: Seq<char>)
    requires
        ip_of(unwrapped(host_of(header))) matches Some(ip) && ip.is_loopback(),
    ensures
        list.allows(header),
{
}

/// The client's own pages may post, over either scheme, and reading needs no
/// origin: a request under a name of the client is let in.
pub proof fn own_pages_are_let_in(
    list: AllowlistView,
    host: Seq<char>,
    origin: Option<Seq<char>>,
)
    requires
        list.allows(host),
    ensures
        let_in(list, Some(host), false, origin),
        let_in(list, Some(host), true, Some("http://"@ + host)),
        let_in(list, Some(host), true, Some("https://"@ + host)),
        !let_in(list, Some(host), true, None),
{
    reveal_strlit("http://");
    reveal_strlit("https://");
    let plain = "http://"@ + host;
    let secure = "https://"@ + host;
    assert(plain.take(7) =~= "http://"@);
    assert(plain.skip(7) =~= host);
    assert(secure.take(8) =~= "https://"@);
    assert(secure.skip(8) =~= host);
    assert(secure.take(7)[4] == 's');
    assert("http://"@[4] == ':');
}

/// A request that names no host is turned away.
pub proof fn nameless_requests_are_turned_away(
    list: AllowlistView,
    posts: bool,
    origin: Option<Seq<char>>,
)
    ensures
        !let_in(list, None, posts, origin),
{
}

/// The names of a client are `localhost` and those that it was given, without
/// space around them and in lower case, but for the blank ones.
pub proof fn given_names_are_known(extra: Seq<Seq<char>>, name: Seq<char>)
    ensures
        allowed_names(extra).contains(name) <==> name == "localhost"@ || (exists|i: int|
            0 <= i < extra.len() && name == ascii_lower(trim(#[trigger] extra[i]))
                && name.len() > 0),
    decreases extra.len(),
{
    reveal_strlit("localhost");
    if extra.len() > 0 {
        let front = extra.drop_last();
        given_names_are_known(front, name);
        if exists|i: int|
            0 <= i < extra.len() && name == ascii_lower(trim(#[trigger] extra[i])) && name.len()
                > 0 {
            let i = choose|i: int|
                0 <= i < extra.len() && name == ascii_lower(trim(#[trigger] extra[i]))
                    && name.len() > 0;
            if i < front.len() {
                assert(front[i] == extra[i]);
            }
        }
        if exists|i: int|
            0 <= i < front.len() && name == ascii_lower(trim(#[trigger] front[i])) && name.len()
                > 0 {
            let i = choose|i: int|
                0 <= i < front.len() && name == ascii_lower(trim(#[trigger] front[i]))
                    && name.len() > 0;
            assert(extra[i] == front[i]);
        }
        if name == ascii_lower(trim(extra.last())) && name.len() > 0 {
            assert(extra[extra.len() - 1] == extra.last());
        }
    }
}

/// A known name is answered to in any case of its letters, with a port and
/// without one.
pub proof fn known_names_are_answered_to(list: AllowlistView, name: Seq<char>, port: Seq<char>)
    requires
        name.len() > 0,
        name[0] != '[',
        !name.contains(':'),
        !port.contains(':'),
        ip_of(name) is None,
        list.names.contains(ascii_lower(name)),
    ensures
        list.allows(name),
        list.allows(name + seq![':'] + port),
{
    lemma_host_and_port(name, port);
}

/// An address is answered to with a port and without one: one of this machine
/// always, the one that the client listens on, and where it listens on all, any
/// of a local network. No other is.
pub proof fn addresses_are_answered_to(
    list: AllowlistView,
    text: Seq<char>,
    ip: IpView,
    port: Seq<char>,
)
    requires
        text.len() > 0,
        text[0] != '[',
        !text.contains(':'),
        !port.contains(':'),
        ip_of(text) == Some(ip),
    ensures
        list.allows(text) <==> {
            ||| ip.is_loopback()
            ||| list.bound == Some(ip)
            ||| list.lan && ip.is_lan()
        },
        list.allows(text + seq![':'] + port) == list.allows(text),
{
    lemma_host_and_port(text, port);
}

proof fn lemma_host_and_port(name: Seq<char>, port: Seq<char>)
    requires
        name.len() > 0,
        name[0] != '[',
        !name.contains(':'),
        !port.contains(':'),
    ensures
        host_of(name) == name,
        host_of(name + seq![':'] + port) == name,
        unwrapped(name) == name,
{
    let whole = name + seq![':'] + port;
    assert(whole[0] == name[0]);
    assert forall|i: int| 0 <= i < name.len() implies name[i] != ':' by {
        assert(name.contains(name[i]));
    }
    assert forall|i: int| name.len() < i < whole.len() implies whole[i] != ':' by {
        assert(whole[i] == port[i - name.len() - 1]);
        assert(port.contains(port[i - name.len() - 1]));
    }
    crate::text::lemma_around_last(whole, ':', name.len() as int);
    crate::text::lemma_around_last(name, ':', -1);
    assert(whole.take(name.len() as int) =~= name);
}

/// The addresses of this machine are those under 127 and `::1`; those of local
/// networks are the private ones and those of the link.
pub proof fn local_addresses_are_these(a: Seq<u8>, g: Seq<u16>)
    requires
        a.len() == 4,
        g.len() == 8,
    ensures
        IpView::V4(a).is_loopback() <==> a[0] == 127,
        IpView::V4(a).is_unspecified() <==> a[0] == 0 && a[1] == 0 && a[2] == 0 && a[3] == 0,
        a[0] == 10 ==> IpView::V4(a).is_lan(),
        a[0] == 192 && a[1] == 168 ==> IpView::V4(a).is_lan(),
        a[0] == 172 ==> (IpView::V4(a).is_lan() <==> 16 <= a[1] <= 31),
        a[0] == 169 && a[1] == 254 ==> IpView::V4(a).is_lan(),
        IpView::V4(a).is_lan() ==> a[0] == 10 || a[0] == 172 || (a[0] == 192 && a[1] == 168) || (
        a[0] == 169 && a[1] == 254),
        IpView::V6(g).is_loopback() <==> g == seq![0u16, 0, 0, 0, 0, 0, 0, 1],
        IpView::V6(g).is_lan() <==> g[0] / 512 == 0x7e || g[0] / 64 == 0x3fa,
{
    if a[0] == 0 && a[1] == 0 && a[2] == 0 && a[3] == 0 {
        assert(a =~= seq![0u8, 0, 0, 0]);
    }
}

/// An address in brackets is answered to as the address is, with a port and
/// without one.
#[verifier::rlimit(50)]
#[verifier::spinoff_prover]
pub proof fn bracketed_addresses_are_answered_to(
    list: AllowlistView,
    header: Seq<char>,
    text: Seq<char>,
    ip: IpView,
    port: Seq<char>,
)
    requires
        header == seq!['['] + text + seq![']'] || header == seq!['['] + text + seq![']', ':'] + port,
        !text.contains(']'),
        ip_of(text) == Some(ip),
    ensures
        list.allows(header) == (ip.is_loopback() || list.bound == Some(ip) || (list.lan
            && ip.is_lan())),
{
    lemma_bracketed_forms(header, text, port);
    lemma_address_header(list, header, text, ip);
}

/// A header that holds an address is judged by it.
proof fn lemma_address_header(list: AllowlistView, header: Seq<char>, text: Seq<char>, ip: IpView)
    requires
        unwrapped(host_of(header)) == text,
        ip_of(text) == Some(ip),
    ensures
        list.allows(header) == (ip.is_loopback() || list.bound == Some(ip) || (list.lan
            && ip.is_lan())),
{
}

/// The host in brackets is found with a port and without one.
#[verifier::rlimit(50)]
#[verifier::spinoff_prover]
proof fn lemma_bracketed_forms(header: Seq<char>, text: Seq<char>, port: Seq<char>)
    requires
        header == seq!['['] + text + seq![']'] || header == seq!['['] + text + seq![']', ':'] + port,
        !text.contains(']'),
    ensures
        unwrapped(host_of(header)) == text,
{
    lemma_in_brackets(text, port);
    let rest = if header == seq!['['] + text + seq![']'] {
        Seq::<char>::empty()
    } else {
        seq![':'] + port
    };
    assert(header == seq!['['] + text + seq![']'] + rest);
    lemma_bracketed(header, text, rest);
}

/// What follows the brackets may be nothing, or a colon and a port.
proof fn lemma_in_brackets(text: Seq<char>, port: Seq<char>)
    ensures
        seq!['['] + text + seq![']'] + Seq::<char>::empty() == seq!['['] + text + seq![']'],
        seq!['['] + text + seq![']'] + (seq![':'] + port) == seq!['['] + text + seq![']', ':']
            + port,
{
}

/// The host in brackets is found whatever follows it.
#[verifier::rlimit(50)]
#[verifier::spinoff_prover]
proof fn lemma_bracketed(header: Seq<char>, text: Seq<char>, rest: Seq<char>)
    requires
        header == seq!['['] + text + seq![']'] + rest,
        !text.contains(']'),
    ensures
        unwrapped(host_of(header)) == text,
{
    lemma_closing(text, rest);
    lemma_bracket_ends(text, rest);
}

/// The brackets come off again.
proof fn lemma_bracket_ends(text: Seq<char>, rest: Seq<char>)
    ensures
        (seq!['['] + text + seq![']'] + rest)[0] == '[',
        (seq!['['] + text + seq![']'] + rest).len() > 0,
        (seq!['['] + text + seq![']'] + rest).take(text.len() as int + 2) == seq!['['] + text + seq![']'],
        unwrapped(seq!['['] + text + seq![']']) == text,
{
    let host = seq!['['] + text + seq![']'];
    assert(host.subrange(1, host.len() - 1) =~= text);
}

/// The first closing bracket is the one behind the text.
proof fn lemma_closing(text: Seq<char>, rest: Seq<char>)
    requires
        !text.contains(']'),
    ensures
        find((seq!['['] + text + seq![']'] + rest).skip(1), seq![']']) == Some(text.len() as int),
{
    let tail = (seq!['['] + text + seq![']'] + rest).skip(1);
    let close = seq![']'];
    let n = text.len() as int;
    assert(tail.subrange(n, n + 1) =~= close);
    assert(occurs_at(tail, close, n));
    assert forall|j: int| 0 <= j < n implies !#[trigger] occurs_at(tail, close, j) by {
        if occurs_at(tail, close, j) {
            assert(tail.subrange(j, j + 1)[0] == text[j]);
            assert(text.contains(text[j]));
        }
    }
    lemma_find(tail, close, n);
}

} // verus!
