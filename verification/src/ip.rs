//! IP addresses: their text, and the ranges they lie in.

use vstd::arithmetic::power2::pow2;
use vstd::prelude::*;
use crate::number::{all_digits, decimal, decimal_value, lemma_decimal, push_decimal, read_unsigned};
use crate::text::{
    around_first, chars_of, is_digit, join2, lemma_find, lemma_split_join, lemma_split_whole,
    occurs, occurs_at, split, split_at_char, split_once,
};

verus! {

/// An IP address: the four bytes of the old kind, or the eight 16-bit groups of
/// the new one.
#[derive(Debug, Clone, Copy, PartialEq, Eq)]
pub enum IpAddr {
    V4([u8; 4]),
    V6([u16; 8]),
}

/// An IP address by its numbers.
pub enum IpView {
    V4(Seq<u8>),
    V6(Seq<u16>),
}

impl View for IpAddr {
    type V = IpView;

    open spec fn view(&self) -> IpView {
        match self {
            IpAddr::V4(a) => IpView::V4(a@),
            IpAddr::V6(a) => IpView::V6(a@),
        }
    }
}

// ---------------------------------------------------------------------------
// Reading
// ---------------------------------------------------------------------------

/// One number of a dotted address: one to three digits without a leading zero,
/// and at most 255.
pub open spec fn octet_of(s: Seq<char>) -> Option<u8> {
    if 1 <= s.len() <= 3 && all_digits(s) && (s.len() > 1 ==> s[0] != '0') && decimal_value(s)
        <= 255 {
        Some(decimal_value(s) as u8)
    } else {
        None
    }
}

/// The address that four numbers with dots between them make.
pub open spec fn ipv4_of(s: Seq<char>) -> Option<Seq<u8>> {
    let p = split(s, '.');
    if p.len() == 4 && octet_of(p[0]) is Some && octet_of(p[1]) is Some && octet_of(p[2]) is Some
        && octet_of(p[3]) is Some {
        Some(seq![octet_of(p[0])->0, octet_of(p[1])->0, octet_of(p[2])->0, octet_of(p[3])->0])
    } else {
        None
    }
}

/// The number that a hexadecimal digit stands for.
pub open spec fn hex_value(c: char) -> Option<nat> {
    if '0' <= c <= '9' {
        Some((c as int - '0' as int) as nat)
    } else if 'a' <= c <= 'f' {
        Some((c as int - 'a' as int + 10) as nat)
    } else if 'A' <= c <= 'F' {
        Some((c as int - 'A' as int + 10) as nat)
    } else {
        None
    }
}

/// The number that a row of hexadecimal digits stands for.
pub open spec fn hex_number(s: Seq<char>) -> Option<nat>
    decreases s.len(),
{
    if s.len() == 0 {
        Some(0)
    } else {
        match (hex_number(s.drop_last()), hex_value(s.last())) {
            (Some(n), Some(d)) => Some(16 * n + d),
            _ => None,
        }
    }
}

/// One group of an address: one to four hexadecimal digits.
pub open spec fn group_of(s: Seq<char>) -> Option<u16> {
    if 1 <= s.len() <= 4 {
        match hex_number(s) {
            Some(n) => Some(n as u16),
            None => None,
        }
    } else {
        None
    }
}

/// The groups that the pieces of a text make, one each.
pub open spec fn plain_groups(p: Seq<Seq<char>>) -> Option<Seq<u16>>
    decreases p.len(),
{
    if p.len() == 0 {
        Some(Seq::<u16>::empty())
    } else {
        match (plain_groups(p.drop_last()), group_of(p.last())) {
            (Some(g), Some(n)) => Some(g.push(n)),
            _ => None,
        }
    }
}

/// The two groups that a dotted address stands for.
pub open spec fn quad_groups(q: Seq<u8>) -> Seq<u16> {
    seq![(q[0] * 256 + q[1]) as u16, (q[2] * 256 + q[3]) as u16]
}

/// The groups of a text with colons between them. Where `quad` is set, the last
/// piece may be a dotted address, which stands for two groups.
pub open spec fn groups_of(s: Seq<char>, quad: bool) -> Option<Seq<u16>> {
    if s.len() == 0 {
        Some(Seq::<u16>::empty())
    } else {
        let p = split(s, ':');
        match (plain_groups(p.drop_last()), ipv4_of(p.last()), group_of(p.last())) {
            (Some(g), Some(q), _) => if quad {
                Some(g + quad_groups(q))
            } else {
                None
            },
            (Some(g), None, Some(n)) => Some(g.push(n)),
            _ => None,
        }
    }
}

/// Zeros for the groups that `::` stands for.
pub open spec fn filled(head: Seq<u16>, tail: Seq<u16>) -> Seq<u16> {
    head + Seq::new((8 - head.len() - tail.len()) as nat, |i: int| 0u16) + tail
}

/// The address that eight groups make, or fewer where `::` stands for one or
/// more zero groups.
pub open spec fn ipv6_of(s: Seq<char>) -> Option<Seq<u16>> {
    match around_first(s, "::"@) {
        Some((a, b)) => match (groups_of(a, false), groups_of(b, true)) {
            (Some(head), Some(tail)) => if head.len() + tail.len() <= 7 {
                Some(filled(head, tail))
            } else {
                None
            },
            _ => None,
        },
        None => match groups_of(s, true) {
            Some(g) => if g.len() == 8 {
                Some(g)
            } else {
                None
            },
            None => None,
        },
    }
}

/// The address that a text stands for.
pub open spec fn ip_of(s: Seq<char>) -> Option<IpView> {
    match ipv4_of(s) {
        Some(a) => Some(IpView::V4(a)),
        None => match ipv6_of(s) {
            Some(a) => Some(IpView::V6(a)),
            None => None,
        },
    }
}

/// Reads one number of a dotted address.
fn read_octet(s: &str) -> (r: Option<u8>)
    ensures
        r == octet_of(s@),
{
    let chars = chars_of(s);
    if chars.len() < 1 || chars.len() > 3 || (chars.len() > 1 && chars[0] == '0') {
        return None;
    }
    if chars[0] == '+' {
        assert(!is_digit(s@[0]));
        return None;
    }
    match read_unsigned(s, 255) {
        Some(n) => Some(n as u8),
        None => None,
    }
}

/// Reads a dotted address.
pub fn read_ipv4(s: &str) -> (r: Option<[u8; 4]>)
    ensures
        match r {
            Some(a) => ipv4_of(s@) == Some(a@),
            None => ipv4_of(s@) is None,
        },
{
    let p = split_at_char(s, '.');
    let ghost v = split(s@, '.');
    assert(v.len() == p@.len());
    if p.len() != 4 {
        return None;
    }
    assert(v[0] == p@[0]@ && v[1] == p@[1]@ && v[2] == p@[2]@ && v[3] == p@[3]@);
    match (
        read_octet(p[0].as_str()),
        read_octet(p[1].as_str()),
        read_octet(p[2].as_str()),
        read_octet(p[3].as_str()),
    ) {
        (Some(a), Some(b), Some(c), Some(d)) => {
            let r: [u8; 4] = [a, b, c, d];
            assert(r@ =~= seq![a, b, c, d]);
            Some(r)
        },
        _ => None,
    }
}

/// The number that a hexadecimal digit stands for.
fn read_hex_digit(c: char) -> (r: Option<u8>)
    ensures
        match r {
            Some(n) => hex_value(c) == Some(n as nat) && n < 16,
            None => hex_value(c) is None,
        },
{
    if '0' <= c && c <= '9' {
        Some(c as u8 - 48)
    } else if 'a' <= c && c <= 'f' {
        Some(c as u8 - 87)
    } else if 'A' <= c && c <= 'F' {
        Some(c as u8 - 55)
    } else {
        None
    }
}

/// A digit that is none spoils every longer row.
proof fn lemma_hex_prefix(s: Seq<char>, n: int)
    requires
        0 <= n <= s.len(),
        hex_number(s.take(n)) is None,
    ensures
        hex_number(s) is None,
    decreases s.len() - n,
{
    if n < s.len() {
        assert(s.take(n + 1).drop_last() =~= s.take(n));
        lemma_hex_prefix(s, n + 1);
    } else {
        assert(s.take(n) =~= s);
    }
}

/// Reads one group of an address.
fn read_group(s: &str) -> (r: Option<u16>)
    ensures
        r == group_of(s@),
{
    let chars = chars_of(s);
    if chars.len() < 1 || chars.len() > 4 {
        return None;
    }
    let mut value: u32 = 0;
    let mut bound: u32 = 1;
    let mut i: usize = 0;
    while i < chars.len()
        invariant
            i <= chars@.len() <= 4,
            chars@ == s@,
            hex_number(s@.take(i as int)) == Some(value as nat),
            value < bound,
            i == 0 ==> bound == 1,
            i == 1 ==> bound == 16,
            i == 2 ==> bound == 256,
            i == 3 ==> bound == 4096,
            i == 4 ==> bound == 65536,
        decreases chars.len() - i,
    {
        assert(s@.take(i + 1).drop_last() =~= s@.take(i as int));
        match read_hex_digit(chars[i]) {
            Some(d) => {
                value = value * 16 + d as u32;
                bound = bound * 16;
            },
            None => {
                proof {
                    lemma_hex_prefix(s@, i + 1);
                }
                return None;
            },
        }
        i += 1;
    }
    assert(s@.take(i as int) =~= s@);
    Some(value as u16)
}

/// A piece that is no group spoils every longer row.
proof fn lemma_groups_prefix(p: Seq<Seq<char>>, n: int)
    requires
        0 <= n <= p.len(),
        plain_groups(p.take(n)) is None,
    ensures
        plain_groups(p) is None,
    decreases p.len() - n,
{
    if n < p.len() {
        assert(p.take(n + 1).drop_last() =~= p.take(n));
        lemma_groups_prefix(p, n + 1);
    } else {
        assert(p.take(n) =~= p);
    }
}

/// Reads groups with colons between them.
fn read_groups(s: &str, quad: bool) -> (r: Option<Vec<u16>>)
    ensures
        match r {
            Some(g) => groups_of(s@, quad) == Some(g@),
            None => groups_of(s@, quad) is None,
        },
{
    let mut out: Vec<u16> = Vec::new();
    if s.is_empty() {
        assert(out@ =~= Seq::<u16>::empty());
        return Some(out);
    }
    let p = split_at_char(s, ':');
    let ghost v = split(s@, ':');
    assert(v.len() == p@.len());
    assert(forall|k: int| 0 <= k < v.len() ==> v[k] == (#[trigger] p@[k])@);
    let last: usize = p.len() - 1;
    let mut i: usize = 0;
    assert(plain_groups(v.drop_last().take(0)) == Some(out@)) by {
        assert(out@ =~= Seq::<u16>::empty());
    }
    while i < last
        invariant
            i <= last,
            last + 1 == p@.len(),
            v.len() == p@.len(),
            v == split(s@, ':'),
            s@.len() > 0,
            forall|k: int| 0 <= k < v.len() ==> v[k] == (#[trigger] p@[k])@,
            plain_groups(v.drop_last().take(i as int)) == Some(out@),
        decreases last - i,
    {
        assert(v.drop_last().take(i + 1).drop_last() =~= v.drop_last().take(i as int));
        assert(v.drop_last().take(i + 1).last() == p@[i as int]@);
        match read_group(p[i].as_str()) {
            Some(n) => {
                out.push(n);
            },
            None => {
                proof {
                    lemma_groups_prefix(v.drop_last(), i + 1);
                }
                return None;
            },
        }
        i += 1;
    }
    assert(v.drop_last().take(i as int) =~= v.drop_last());
    assert(v.last() == p@[last as int]@);
    match read_ipv4(p[last].as_str()) {
        Some(q) => {
            if !quad {
                return None;
            }
            let ghost g = out@;
            out.push(q[0] as u16 * 256 + q[1] as u16);
            out.push(q[2] as u16 * 256 + q[3] as u16);
            assert(out@ =~= g + quad_groups(q@));
            Some(out)
        },
        None => match read_group(p[last].as_str()) {
            Some(n) => {
                out.push(n);
                Some(out)
            },
            None => None,
        },
    }
}

/// Eight groups as an array.
fn eight(g: &Vec<u16>) -> (r: [u16; 8])
    requires
        g@.len() == 8,
    ensures
        r@ == g@,
{
    let r: [u16; 8] = [g[0], g[1], g[2], g[3], g[4], g[5], g[6], g[7]];
    assert(r@ =~= g@);
    r
}

/// Reads an address of groups.
pub fn read_ipv6(s: &str) -> (r: Option<[u16; 8]>)
    ensures
        match r {
            Some(a) => ipv6_of(s@) == Some(a@),
            None => ipv6_of(s@) is None,
        },
{
    match split_once(s, "::") {
        Some((a, b)) => {
            let head = match read_groups(a.as_str(), false) {
                Some(g) => g,
                None => {
                    return None;
                },
            };
            let tail = match read_groups(b.as_str(), true) {
                Some(g) => g,
                None => {
                    return None;
                },
            };
            if head.len() > 7 || tail.len() > 7 - head.len() {
                return None;
            }
            let mut all: Vec<u16> = Vec::new();
            let mut i: usize = 0;
            let zeros: usize = 8 - head.len() - tail.len();
            let ghost want = filled(head@, tail@);
            assert(all@ =~= want.take(0));
            while i < 8
                invariant
                    i <= 8,
                    head@.len() + zeros + tail@.len() == 8,
                    want == filled(head@, tail@),
                    all@ == want.take(i as int),
                decreases 8 - i,
            {
                if i < head.len() {
                    all.push(head[i]);
                } else if i < head.len() + zeros {
                    all.push(0);
                } else {
                    all.push(tail[i - head.len() - zeros]);
                }
                assert(want.take(i + 1) =~= want.take(i as int).push(want[i as int]));
                i += 1;
            }
            assert(want.take(8) =~= want);
            Some(eight(&all))
        },
        None => match read_groups(s, true) {
            Some(g) => {
                if g.len() == 8 {
                    Some(eight(&g))
                } else {
                    None
                }
            },
            None => None,
        },
    }
}

/// Reads an address.
pub fn parse_ip(s: &str) -> (r: Option<IpAddr>)
    ensures
        match r {
            Some(a) => ip_of(s@) == Some(a@),
            None => ip_of(s@) is None,
        },
{
    match read_ipv4(s) {
        Some(a) => Some(IpAddr::V4(a)),
        None => match read_ipv6(s) {
            Some(a) => Some(IpAddr::V6(a)),
            None => None,
        },
    }
}

// ---------------------------------------------------------------------------
// Writing
// ---------------------------------------------------------------------------

/// A dotted address.
pub open spec fn ipv4_text(a: Seq<u8>) -> Seq<char> {
    decimal(a[0] as nat) + seq!['.'] + decimal(a[1] as nat) + seq!['.'] + decimal(a[2] as nat)
        + seq!['.'] + decimal(a[3] as nat)
}

/// A lower-case hexadecimal digit.
pub open spec fn hex_char(n: nat) -> char {
    if n < 10 {
        ((n + 48) as u8) as char
    } else {
        ((n + 87) as u8) as char
    }
}

/// A number in hexadecimal, without leading zeros.
pub open spec fn hex_text(n: nat) -> Seq<char>
    decreases n,
{
    if n < 16 {
        seq![hex_char(n)]
    } else {
        hex_text(n / 16).push(hex_char(n % 16))
    }
}

/// Groups in hexadecimal with colons between them.
pub open spec fn groups_text(g: Seq<u16>) -> Seq<char>
    decreases g.len(),
{
    if g.len() == 0 {
        Seq::<char>::empty()
    } else if g.len() == 1 {
        hex_text(g[0] as nat)
    } else {
        groups_text(g.drop_last()).push(':') + hex_text(g.last() as nat)
    }
}

/// How many zero groups end at the end of `g`.
pub open spec fn zeros_at_end(g: Seq<u16>) -> nat
    decreases g.len(),
{
    if g.len() > 0 && g.last() == 0 {
        zeros_at_end(g.drop_last()) + 1
    } else {
        0
    }
}

/// The first of the longest rows of zero groups: where it begins and how long it
/// is.
pub open spec fn longest_zeros(g: Seq<u16>) -> (nat, nat)
    decreases g.len(),
{
    if g.len() == 0 {
        (0, 0)
    } else {
        let best = longest_zeros(g.drop_last());
        let here = zeros_at_end(g);
        if here > best.1 {
            ((g.len() - here) as nat, here)
        } else {
            best
        }
    }
}

/// An address whose last two groups are one of the old kind.
pub open spec fn is_mapped(g: Seq<u16>) -> bool {
    g[0] == 0 && g[1] == 0 && g[2] == 0 && g[3] == 0 && g[4] == 0 && g[5] == 0xffff
}

/// The dotted address in two groups.
pub open spec fn quad_of(hi: u16, lo: u16) -> Seq<u8> {
    seq![(hi / 256) as u8, (hi % 256) as u8, (lo / 256) as u8, (lo % 256) as u8]
}

/// An address of groups: `::` stands for the first of the longest rows of two or
/// more zero groups, and a mapped address ends in its dotted form.
pub open spec fn ipv6_text(g: Seq<u16>) -> Seq<char> {
    let z = longest_zeros(g);
    if is_mapped(g) {
        "::ffff:"@ + ipv4_text(quad_of(g[6], g[7]))
    } else if z.1 > 1 {
        groups_text(g.take(z.0 as int)) + "::"@ + groups_text(g.skip((z.0 + z.1) as int))
    } else {
        groups_text(g)
    }
}

impl IpView {
    /// The address as text.
    pub open spec fn text(self) -> Seq<char> {
        match self {
            IpView::V4(a) => ipv4_text(a),
            IpView::V6(g) => ipv6_text(g),
        }
    }
}

/// Writes a dotted address.
fn write_ipv4(a: &[u8; 4]) -> (r: String)
    ensures
        r@ == ipv4_text(a@),
{
    let mut out = String::new();
    push_decimal(&mut out, a[0] as u64);
    out.push('.');
    push_decimal(&mut out, a[1] as u64);
    out.push('.');
    push_decimal(&mut out, a[2] as u64);
    out.push('.');
    push_decimal(&mut out, a[3] as u64);
    assert(out@ =~= ipv4_text(a@));
    out
}

/// Appends a number in hexadecimal.
fn push_hex(out: &mut String, n: u16)
    ensures
        final(out)@ == old(out)@ + hex_text(n as nat),
    decreases n,
{
    if n >= 16 {
        push_hex(out, n / 16);
    }
    let d: u8 = (n % 16) as u8;
    proof {
        if n < 16 {
            assert(old(out)@ + hex_text(n as nat) =~= old(out)@.push(hex_char(n as nat)));
        } else {
            assert(old(out)@ + hex_text(n as nat) =~= (old(out)@ + hex_text(
                (n / 16) as nat,
            )).push(hex_char((n % 16) as nat)));
        }
    }
    if d < 10 {
        out.push((d + 48) as char);
    } else {
        out.push((d + 87) as char);
    }
}

/// Appends the groups `g[from..to]` with colons between them.
fn push_groups(out: &mut String, g: &[u16; 8], from: usize, to: usize)
    requires
        from <= to <= 8,
    ensures
        final(out)@ == old(out)@ + groups_text(g@.subrange(from as int, to as int)),
{
    let ghost start = out@;
    let mut i: usize = from;
    assert(start + groups_text(g@.subrange(from as int, from as int)) =~= start);
    while i < to
        invariant
            from <= i <= to <= 8,
            out@ == start + groups_text(g@.subrange(from as int, i as int)),
        decreases to - i,
    {
        let ghost done = g@.subrange(from as int, i as int);
        let ghost next = g@.subrange(from as int, i + 1);
        assert(next.drop_last() =~= done);
        assert(next.last() == g@[i as int]);
        if i > from {
            out.push(':');
        }
        push_hex(out, g[i]);
        proof {
            if i > from {
                assert(out@ =~= start + groups_text(next));
            } else {
                assert(next[0] == g@[i as int]);
                assert(out@ =~= start + groups_text(next));
            }
        }
        i += 1;
    }
}

/// Rows of zeros lie within the groups.
proof fn lemma_zeros_within(g: Seq<u16>)
    ensures
        zeros_at_end(g) <= g.len(),
        longest_zeros(g).0 + longest_zeros(g).1 <= g.len(),
    decreases g.len(),
{
    if g.len() > 0 {
        lemma_zeros_within(g.drop_last());
    }
}

/// Finds the first of the longest rows of zero groups.
fn find_zeros(g: &[u16; 8]) -> (r: (usize, usize))
    ensures
        (r.0 as nat, r.1 as nat) == longest_zeros(g@),
        r.0 + r.1 <= 8,
{
    let mut start: usize = 0;
    let mut len: usize = 0;
    let mut here: usize = 0;
    let mut i: usize = 0;
    while i < 8
        invariant
            i <= 8,
            (start as nat, len as nat) == longest_zeros(g@.take(i as int)),
            here as nat == zeros_at_end(g@.take(i as int)),
            here <= i,
        decreases 8 - i,
    {
        let ghost next = g@.take(i + 1);
        assert(next.drop_last() =~= g@.take(i as int));
        assert(next.last() == g@[i as int]);
        if g[i] == 0 {
            here = here + 1;
        } else {
            here = 0;
        }
        if here > len {
            start = i + 1 - here;
            len = here;
        }
        i += 1;
    }
    assert(g@.take(8) =~= g@);
    proof {
        lemma_zeros_within(g@);
    }
    (start, len)
}

/// The dotted address in two groups.
pub fn quad(hi: u16, lo: u16) -> (r: [u8; 4])
    ensures
        r@ == quad_of(hi, lo),
{
    let r: [u8; 4] = [
        (hi / 256) as u8,
        (hi % 256) as u8,
        (lo / 256) as u8,
        (lo % 256) as u8,
    ];
    assert(r@ =~= quad_of(hi, lo));
    r
}

/// Tells whether the last two groups are an address of the old kind.
pub fn mapped(g: &[u16; 8]) -> (r: bool)
    ensures
        r == is_mapped(g@),
{
    g[0] == 0 && g[1] == 0 && g[2] == 0 && g[3] == 0 && g[4] == 0 && g[5] == 0xffff
}

/// Tells whether two addresses are the same.
pub fn same_ip(a: &IpAddr, b: &IpAddr) -> (r: bool)
    ensures
        r == (a@ == b@),
{
    match (a, b) {
        (IpAddr::V4(x), IpAddr::V4(y)) => {
            let mut i: usize = 0;
            while i < 4
                invariant
                    i <= 4,
                    a@ == IpView::V4(x@) && b@ == IpView::V4(y@),
                    forall|k: int| 0 <= k < i ==> x@[k] == y@[k],
                decreases 4 - i,
            {
                if x[i] != y[i] {
                    assert(x@[i as int] != y@[i as int]);
                    return false;
                }
                i += 1;
            }
            assert(x@ =~= y@);
            true
        },
        (IpAddr::V6(x), IpAddr::V6(y)) => {
            let mut i: usize = 0;
            while i < 8
                invariant
                    i <= 8,
                    a@ == IpView::V6(x@) && b@ == IpView::V6(y@),
                    forall|k: int| 0 <= k < i ==> x@[k] == y@[k],
                decreases 8 - i,
            {
                if x[i] != y[i] {
                    assert(x@[i as int] != y@[i as int]);
                    return false;
                }
                i += 1;
            }
            assert(x@ =~= y@);
            true
        },
        _ => false,
    }
}

impl IpAddr {
    /// The address as text.
    pub fn to_text(&self) -> (r: String)
        ensures
            r@ == self@.text(),
    {
        match self {
            IpAddr::V4(a) => write_ipv4(a),
            IpAddr::V6(g) => {
                if mapped(g) {
                    let q = quad(g[6], g[7]);
                    return join2("::ffff:", write_ipv4(&q).as_str());
                }
                let (start, len) = find_zeros(g);
                let mut out = String::new();
                if len > 1 {
                    push_groups(&mut out, g, 0, start);
                    out.append("::");
                    push_groups(&mut out, g, start + len, 8);
                    assert(g@.subrange(0, start as int) =~= g@.take(start as int));
                    assert(g@.subrange(start + len, 8) =~= g@.skip(start + len));
                    assert(out@ =~= ipv6_text(g@));
                } else {
                    push_groups(&mut out, g, 0, 8);
                    assert(g@.subrange(0, 8) =~= g@);
                    assert(out@ =~= ipv6_text(g@));
                }
                out
            },
        }
    }
}

// ---------------------------------------------------------------------------
// Ranges
// ---------------------------------------------------------------------------

/// A dotted address as one number.
pub open spec fn ip_number(a: Seq<u8>) -> nat {
    (a[0] * 0x100_0000 + a[1] * 0x1_0000 + a[2] * 0x100 + a[3]) as nat
}

/// Two dotted addresses agree in their first `bits` bits.
pub open spec fn same_network(a: Seq<u8>, b: Seq<u8>, bits: nat) -> bool {
    ip_number(a) / pow2((32 - bits) as nat) == ip_number(b) / pow2((32 - bits) as nat)
}

/// A dotted address as one number.
fn number_of(a: &[u8; 4]) -> (r: u32)
    ensures
        r == ip_number(a@),
{
    (a[0] as u32) * 0x100_0000 + (a[1] as u32) * 0x1_0000 + (a[2] as u32) * 0x100 + (a[3] as u32)
}

/// Tells whether an address lies in a network.
pub fn is_ipv4_in_cidr(ip: &[u8; 4], network: &[u8; 4], prefix_len: u8) -> (r: bool)
    requires
        prefix_len <= 32,
    ensures
        r == same_network(ip@, network@, prefix_len as nat),
{
    let a: u32 = number_of(ip);
    let b: u32 = number_of(network);
    if prefix_len == 0 {
        proof {
            vstd::arithmetic::power2::lemma2_to64();
            vstd::arithmetic::div_mod::lemma_basic_div(a as int, 0x1_0000_0000);
            vstd::arithmetic::div_mod::lemma_basic_div(b as int, 0x1_0000_0000);
        }
        return true;
    }
    let shift: u32 = 32 - prefix_len as u32;
    proof {
        vstd::bits::lemma_u32_shr_is_div(a, shift);
        vstd::bits::lemma_u32_shr_is_div(b, shift);
    }
    (a >> shift) == (b >> shift)
}

// ---------------------------------------------------------------------------
// Laws
// ---------------------------------------------------------------------------

/// A number of a dotted address is read back from its text.
proof fn lemma_octet(n: u8)
    ensures
        octet_of(decimal(n as nat)) == Some(n),
        forall|i: int| 0 <= i < decimal(n as nat).len() ==> #[trigger] decimal(n as nat)[i] != '.',
{
    let s = decimal(n as nat);
    lemma_decimal(n as nat);
    reveal_with_fuel(decimal, 4);
    if n >= 100 {
        assert(n as nat / 10 / 10 < 10);
        assert(s.len() == 3);
        assert(s[0] == crate::number::digit_char(n as nat / 10 / 10));
        assert(s[0] != '0');
    } else if n >= 10 {
        assert(s.len() == 2);
        assert(s[0] == crate::number::digit_char(n as nat / 10));
        assert(s[0] != '0');
    }
    assert forall|i: int| 0 <= i < s.len() implies #[trigger] s[i] != '.' by {
        assert(is_digit(s[i]));
    }
}

/// A dotted address is read back from its text.
pub proof fn dotted_addresses_round_trip(a: Seq<u8>)
    requires
        a.len() == 4,
    ensures
        ipv4_of(ipv4_text(a)) == Some(a),
{
    let d0 = decimal(a[0] as nat);
    let d1 = decimal(a[1] as nat);
    let d2 = decimal(a[2] as nat);
    let d3 = decimal(a[3] as nat);
    lemma_octet(a[0]);
    lemma_octet(a[1]);
    lemma_octet(a[2]);
    lemma_octet(a[3]);
    lemma_split_whole(d0, '.');
    lemma_split_whole(d1, '.');
    lemma_split_whole(d2, '.');
    lemma_split_whole(d3, '.');
    lemma_split_join(d0, '.', d1);
    lemma_split_join(d0 + seq!['.'] + d1, '.', d2);
    lemma_split_join(d0 + seq!['.'] + d1 + seq!['.'] + d2, '.', d3);
    assert(split(ipv4_text(a), '.') =~= seq![d0, d1, d2, d3]);
    assert(ipv4_of(ipv4_text(a))->0 =~= a);
}

// ---------------------------------------------------------------------------
// Addresses of groups
// ---------------------------------------------------------------------------

/// A group in hexadecimal is one to four digits and reads back as the group.
proof fn lemma_hex_text(n: nat)
    ensures
        hex_text(n).len() >= 1,
        hex_number(hex_text(n)) == Some(n),
        forall|i: int| 0 <= i < hex_text(n).len() ==> hex_value(#[trigger] hex_text(n)[i]) is Some,
        n < 0x10 ==> hex_text(n).len() == 1,
        n < 0x100 ==> hex_text(n).len() <= 2,
        n < 0x1000 ==> hex_text(n).len() <= 3,
        n < 0x1_0000 ==> hex_text(n).len() <= 4,
    decreases n,
{
    let s = hex_text(n);
    let last = if n < 16 {
        n
    } else {
        n % 16
    };
    assert(hex_value(hex_char(last)) == Some(last));
    if n < 16 {
        assert(s.drop_last() =~= Seq::<char>::empty());
        reveal_with_fuel(hex_number, 2);
    } else {
        lemma_hex_text(n / 16);
        let front = hex_text(n / 16);
        assert(s.drop_last() =~= front);
        assert forall|i: int| 0 <= i < s.len() implies hex_value(#[trigger] s[i]) is Some by {
            if i < front.len() {
                assert(s[i] == front[i]);
            }
        }
    }
}

/// Groups with colons between them: no two colons stand together, none stands at
/// an end, and the pieces read back as the groups.
proof fn lemma_groups_text(g: Seq<u16>)
    requires
        g.len() > 0,
    ensures
        ({
            let t = groups_text(g);
            &&& t.len() > 0
            &&& hex_value(t[0]) is Some
            &&& hex_value(t.last()) is Some
            &&& forall|i: int|
                0 <= i < t.len() ==> hex_value(#[trigger] t[i]) is Some || t[i] == ':'
            &&& forall|i: int, j: int|
                0 <= i < t.len() && j == i + 1 && j < t.len() && #[trigger] t[i] == ':'
                    ==> #[trigger] t[j] != ':'
            &&& split(t, ':').len() == g.len()
            &&& split(t, ':').last() == hex_text(g.last() as nat)
            &&& plain_groups(split(t, ':').drop_last()) == Some(g.drop_last())
            &&& plain_groups(split(t, ':')) == Some(g)
        }),
    decreases g.len(),
{
    let t = groups_text(g);
    let b = hex_text(g.last() as nat);
    lemma_hex_text(g.last() as nat);
    assert forall|i: int| 0 <= i < b.len() implies b[i] != ':' by {
        assert(hex_value(b[i]) is Some);
    }
    lemma_split_whole(b, ':');
    assert(group_of(b) == Some(g.last()));
    if g.len() == 1 {
        assert(g.last() == g[0]);
        assert(t == b);
        assert(split(t, ':').drop_last() =~= Seq::<Seq<char>>::empty());
        assert(g.drop_last() =~= Seq::<u16>::empty());
        assert(split(t, ':') == seq![b]);
        assert(split(t, ':').last() == b);
        assert(plain_groups(split(t, ':').drop_last()) == Some(Seq::<u16>::empty()));
        assert(plain_groups(split(t, ':')) == Some(Seq::<u16>::empty().push(g.last())));
        assert(Seq::<u16>::empty().push(g.last()) =~= g);
    } else {
        let front = g.drop_last();
        lemma_groups_text(front);
        let a = groups_text(front);
        assert(t =~= a + seq![':'] + b);
        lemma_split_join(a, ':', b);
        assert(split(t, ':') =~= split(a, ':').push(b));
        assert(split(t, ':').drop_last() =~= split(a, ':'));
        assert(front.push(g.last()) =~= g);
        assert forall|i: int| 0 <= i < t.len() implies hex_value(#[trigger] t[i]) is Some || t[i]
            == ':' by {
            if i < a.len() {
                assert(t[i] == a[i]);
            } else if i > a.len() {
                assert(t[i] == b[i - a.len() - 1]);
            }
        }
        assert forall|i: int, j: int|
            0 <= i < t.len() && j == i + 1 && j < t.len() && #[trigger] t[i] == ':' implies
            #[trigger] t[j] != ':' by {
            if j < a.len() {
                assert(t[i] == a[i] && t[j] == a[j]);
            } else if j == a.len() {
                assert(t[i] == a.last());
            } else {
                assert(t[j] == b[j - a.len() - 1]);
            }
        }
        assert(t[0] == a[0]);
        assert(t.last() == b.last());
        assert(hex_value(b[b.len() - 1]) is Some);
    }
}

/// Groups with colons between them are read as these groups.
proof fn lemma_groups_read(g: Seq<u16>, quad: bool)
    ensures
        groups_of(groups_text(g), quad) == Some(g),
{
    if g.len() > 0 {
        lemma_groups_text(g);
        let last = hex_text(g.last() as nat);
        lemma_hex_text(g.last() as nat);
        lemma_no_dots(last);
        assert(group_of(last) == Some(g.last()));
        assert(g.drop_last().push(g.last()) =~= g);
    } else {
        assert(g =~= Seq::<u16>::empty());
    }
}

/// A text of hexadecimal digits and colons is no dotted address.
proof fn lemma_no_dots(s: Seq<char>)
    requires
        forall|i: int| 0 <= i < s.len() ==> hex_value(#[trigger] s[i]) is Some || s[i] == ':',
    ensures
        ipv4_of(s) is None,
{
    assert forall|i: int| 0 <= i < s.len() implies s[i] != '.' by {
        assert(hex_value(s[i]) is Some || s[i] == ':');
    }
    lemma_split_whole(s, '.');
}

/// Groups with colons between them hold no two colons together and end in none.
proof fn lemma_groups_apart(g: Seq<u16>)
    ensures
        !occurs(groups_text(g), "::"@),
        groups_text(g).len() > 0 ==> groups_text(g).last() != ':',
        forall|i: int|
            0 <= i < groups_text(g).len() ==> hex_value(#[trigger] groups_text(g)[i]) is Some
                || groups_text(g)[i] == ':',
{
    reveal_strlit("::");
    let t = groups_text(g);
    if g.len() > 0 {
        lemma_groups_text(g);
    }
    assert forall|j: int| !#[trigger] occurs_at(t, "::"@, j) by {
        if occurs_at(t, "::"@, j) {
            let w = t.subrange(j, j + 2);
            assert(w[0] == ':' && w[1] == ':');
            assert(t[j] == ':' && t[j + 1] == ':');
        }
    }
}

/// Two colons behind a text that holds none together are found.
proof fn lemma_two_colons(x: Seq<char>, y: Seq<char>)
    requires
        !occurs(x, "::"@),
        x.len() > 0 ==> x.last() != ':',
    ensures
        around_first(x + "::"@ + y, "::"@) == Some((x, y)),
{
    reveal_strlit("::");
    let sep = "::"@;
    let t = x + sep + y;
    let n = x.len() as int;
    assert(t.subrange(n, n + 2) =~= sep);
    assert(occurs_at(t, sep, n));
    assert forall|j: int| 0 <= j < n implies !#[trigger] occurs_at(t, sep, j) by {
        if occurs_at(t, sep, j) {
            if j + 2 <= n {
                assert(x.subrange(j, j + 2) =~= t.subrange(j, j + 2));
                assert(occurs_at(x, sep, j));
            } else {
                assert(t.subrange(j, j + 2)[0] == x[j]);
            }
        }
    }
    lemma_find(t, sep, n);
    assert(t.take(n) =~= x);
    assert(t.skip(n + 2) =~= y);
}

/// Two rows of groups with two colons between them are no dotted address.
proof fn lemma_compressed_no_dots(x: Seq<char>, y: Seq<char>)
    requires
        forall|i: int| 0 <= i < x.len() ==> hex_value(#[trigger] x[i]) is Some || x[i] == ':',
        forall|i: int| 0 <= i < y.len() ==> hex_value(#[trigger] y[i]) is Some || y[i] == ':',
    ensures
        ipv4_of(x + "::"@ + y) is None,
{
    reveal_strlit("::");
    let t = x + "::"@ + y;
    assert forall|i: int| 0 <= i < t.len() implies hex_value(#[trigger] t[i]) is Some || t[i]
        == ':' by {
        if i < x.len() {
            assert(t[i] == x[i]);
        } else if i >= x.len() + 2 {
            assert(t[i] == y[i - x.len() - 2]);
        }
    }
    lemma_no_dots(t);
}

/// An address by its two rows of groups.
proof fn lemma_compressed(t: Seq<char>, x: Seq<char>, y: Seq<char>, a: Seq<u16>, b: Seq<u16>)
    requires
        ipv4_of(t) is None,
        around_first(t, "::"@) == Some((x, y)),
        groups_of(x, false) == Some(a),
        groups_of(y, true) == Some(b),
        a.len() + b.len() <= 7,
    ensures
        ip_of(t) == Some(IpView::V6(filled(a, b))),
{
}

/// The groups that `::` stands for are zeros.
proof fn lemma_filled(a: Seq<u16>, b: Seq<u16>)
    requires
        a.len() + b.len() <= 7,
    ensures
        filled(a, b) == a + Seq::new((8 - a.len() - b.len()) as nat, |i: int| 0u16) + b,
{
}

/// Two colons stand for as many zeros as eight groups need.
pub proof fn two_colons_stand_for_zeros(a: Seq<u16>, b: Seq<u16>)
    requires
        a.len() + b.len() <= 7,
    ensures
        ip_of(groups_text(a) + "::"@ + groups_text(b)) == Some(
            IpView::V6(a + Seq::new((8 - a.len() - b.len()) as nat, |i: int| 0u16) + b),
        ),
{
    let x = groups_text(a);
    let y = groups_text(b);
    assert(around_first(x + "::"@ + y, "::"@) == Some((x, y))) by {
        lemma_groups_apart(a);
        lemma_two_colons(x, y);
    }
    assert(ipv4_of(x + "::"@ + y) is None) by {
        lemma_groups_apart(a);
        lemma_groups_apart(b);
        lemma_compressed_no_dots(x, y);
    }
    assert(groups_of(x, false) == Some(a)) by {
        lemma_groups_read(a, false);
    }
    assert(groups_of(y, true) == Some(b)) by {
        lemma_groups_read(b, true);
    }
    lemma_compressed(x + "::"@ + y, x, y, a, b);
    lemma_filled(a, b);
}

/// Eight groups with colons between them are an address.
pub proof fn eight_groups_are_an_address(g: Seq<u16>)
    requires
        g.len() == 8,
    ensures
        ip_of(groups_text(g)) == Some(IpView::V6(g)),
{
    lemma_groups_apart(g);
    lemma_groups_read(g, true);
    lemma_no_dots(groups_text(g));
}

/// The zero groups at an end are zeros, and no fewer than there are.
proof fn lemma_zeros_at_end(g: Seq<u16>, n: nat)
    requires
        n <= g.len(),
    ensures
        zeros_at_end(g) <= g.len(),
        forall|i: int| g.len() - zeros_at_end(g) <= i < g.len() ==> #[trigger] g[i] == 0,
        (forall|i: int| g.len() - n <= i < g.len() ==> #[trigger] g[i] == 0) ==> n <= zeros_at_end(
            g,
        ),
    decreases g.len(),
{
    if g.len() > 0 {
        let front = g.drop_last();
        lemma_zeros_at_end(
            front,
            if n > 0 {
                (n - 1) as nat
            } else {
                0
            },
        );
        assert forall|i: int| g.len() - zeros_at_end(g) <= i < g.len() implies #[trigger] g[i]
            == 0 by {
            if i < front.len() {
                assert(g[i] == front[i]);
            }
        }
        if n > 0 && (forall|i: int| g.len() - n <= i < g.len() ==> #[trigger] g[i] == 0) {
            assert(g[g.len() - 1] == 0);
            assert forall|i: int| front.len() - (n - 1) <= i < front.len() implies #[trigger] front[i]
                == 0 by {
                assert(g[i] == 0);
            }
        }
    }
}

/// What two colons are written for: a row of zeros that no other row exceeds,
/// the first of those.
pub proof fn the_longest_zeros_are_left_out(g: Seq<u16>, i: int, n: nat)
    requires
        0 <= i,
        i + n <= g.len(),
        forall|k: int| i <= k < i + n ==> #[trigger] g[k] == 0,
    ensures
        n <= longest_zeros(g).1,
        n == longest_zeros(g).1 && n > 0 ==> longest_zeros(g).0 <= i,
        longest_zeros(g).0 + longest_zeros(g).1 <= g.len(),
        forall|k: int|
            longest_zeros(g).0 <= k < longest_zeros(g).0 + longest_zeros(g).1 ==> #[trigger] g[k]
                == 0,
    decreases g.len(),
{
    if g.len() > 0 {
        let front = g.drop_last();
        let here = zeros_at_end(g);
        let best = longest_zeros(front);
        let z = longest_zeros(g);
        if i + n < g.len() {
            assert forall|k: int| i <= k < i + n implies #[trigger] front[k] == 0 by {
                assert(front[k] == g[k]);
            }
            the_longest_zeros_are_left_out(front, i, n);
            lemma_zeros_at_end(g, 0);
        } else {
            the_longest_zeros_are_left_out(front, 0, 0);
            assert forall|k: int| g.len() - n <= k < g.len() implies #[trigger] g[k] == 0 by {}
            lemma_zeros_at_end(g, n);
        }
        assert forall|k: int| z.0 <= k < z.0 + z.1 implies #[trigger] g[k] == 0 by {
            if here <= best.1 {
                assert(front[k] == g[k]);
            }
        }
    }
}

/// Reading back an address of groups gives the address.
pub proof fn addresses_of_groups_round_trip(g: Seq<u16>)
    requires
        g.len() == 8,
    ensures
        ip_of(IpView::V6(g).text()) == Some(IpView::V6(g)),
{
    let z = longest_zeros(g);
    the_longest_zeros_are_left_out(g, 0, 0);
    if is_mapped(g) {
        lemma_mapped_text(g);
    } else if z.1 > 1 {
        let a = g.take(z.0 as int);
        let b = g.skip((z.0 + z.1) as int);
        two_colons_stand_for_zeros(a, b);
        assert(a + Seq::new((8 - a.len() - b.len()) as nat, |i: int| 0u16) + b =~= g);
    } else {
        eight_groups_are_an_address(g);
    }
}

/// A mapped address is read back.
proof fn lemma_mapped_text(g: Seq<u16>)
    requires
        g.len() == 8,
        is_mapped(g),
    ensures
        ip_of(ipv6_text(g)) == Some(IpView::V6(g)),
{
    reveal_strlit("::ffff:");
    reveal_strlit("::");
    let q = quad_of(g[6], g[7]);
    let dotted = ipv4_text(q);
    let t = "::ffff:"@ + dotted;
    let ffff = seq!['f', 'f', 'f', 'f'];
    let rest = ffff + seq![':'] + dotted;
    dotted_addresses_round_trip(q);
    assert(t.subrange(0, 2) =~= "::"@);
    assert(occurs_at(t, "::"@, 0));
    lemma_find(t, "::"@, 0);
    assert(t.take(0) =~= Seq::<char>::empty());
    assert(t.skip(2) =~= rest);
    let d0 = decimal(q[0] as nat);
    let d1 = decimal(q[1] as nat);
    let d2 = decimal(q[2] as nat);
    let d3 = decimal(q[3] as nat);
    lemma_octet(q[0]);
    lemma_octet(q[1]);
    lemma_octet(q[2]);
    lemma_octet(q[3]);
    lemma_decimal(q[0] as nat);
    lemma_decimal(q[1] as nat);
    lemma_decimal(q[2] as nat);
    lemma_decimal(q[3] as nat);
    // As a dotted address the text fails at its first number.
    let first = "::ffff:"@ + d0;
    assert forall|i: int| 0 <= i < first.len() implies first[i] != '.' by {
        if i >= 7 {
            assert(first[i] == d0[i - 7]);
        }
    }
    lemma_split_whole(first, '.');
    lemma_split_whole(d1, '.');
    lemma_split_whole(d2, '.');
    lemma_split_whole(d3, '.');
    lemma_split_join(first, '.', d1);
    lemma_split_join(first + seq!['.'] + d1, '.', d2);
    lemma_split_join(first + seq!['.'] + d1 + seq!['.'] + d2, '.', d3);
    assert(t =~= first + seq!['.'] + d1 + seq!['.'] + d2 + seq!['.'] + d3);
    assert(split(t, '.') =~= seq![first, d1, d2, d3]);
    assert(!is_digit(first[0]));
    assert(octet_of(first) is None);
    assert(ipv4_of(t) is None);
    // Behind the two colons stand one group and the dotted address.
    assert forall|i: int| 0 <= i < dotted.len() implies dotted[i] != ':' by {
        let e0 = d0.len() as int;
        let e1 = e0 + 1 + d1.len();
        let e2 = e1 + 1 + d2.len();
        if i < e0 {
            assert(dotted[i] == d0[i] && is_digit(d0[i]));
        } else if e0 < i < e1 {
            assert(dotted[i] == d1[i - e0 - 1] && is_digit(d1[i - e0 - 1]));
        } else if e1 < i < e2 {
            assert(dotted[i] == d2[i - e1 - 1] && is_digit(d2[i - e1 - 1]));
        } else if i > e2 {
            assert(dotted[i] == d3[i - e2 - 1] && is_digit(d3[i - e2 - 1]));
        }
    }
    lemma_split_whole(dotted, ':');
    lemma_split_whole(ffff, ':');
    lemma_split_join(ffff, ':', dotted);
    assert(split(rest, ':') =~= seq![ffff, dotted]);
    let p = split(rest, ':');
    assert(p.drop_last() =~= seq![ffff]);
    assert(seq![ffff].drop_last() =~= Seq::<Seq<char>>::empty());
    assert(hex_number(ffff) == Some(0xffffnat)) by {
        reveal_with_fuel(hex_number, 5);
        assert(ffff.drop_last() =~= seq!['f', 'f', 'f']);
        assert(seq!['f', 'f', 'f'].drop_last() =~= seq!['f', 'f']);
        assert(seq!['f', 'f'].drop_last() =~= seq!['f']);
        assert(seq!['f'].drop_last() =~= Seq::<char>::empty());
    }
    assert(group_of(ffff) == Some(0xffffu16));
    reveal_with_fuel(plain_groups, 2);
    assert(plain_groups(p.drop_last()) == Some(Seq::<u16>::empty().push(0xffffu16)));
    let tail = Seq::<u16>::empty().push(0xffffu16) + quad_groups(q);
    assert(groups_of(rest, true) == Some(tail));
    assert(groups_of(t.take(0), false) == Some(Seq::<u16>::empty()));
    assert(filled(Seq::<u16>::empty(), tail) =~= g);
}

/// Hexadecimal digits count from zero to fifteen, in either case.
pub proof fn hexadecimal_digits_have_their_values(n: nat)
    requires
        n < 16,
    ensures
        ({
            let small = seq![
                '0', '1', '2', '3', '4', '5', '6', '7', '8', '9', 'a', 'b', 'c', 'd', 'e', 'f',
            ];
            let large = seq![
                '0', '1', '2', '3', '4', '5', '6', '7', '8', '9', 'A', 'B', 'C', 'D', 'E', 'F',
            ];
            &&& hex_text(n) == seq![small[n as int]]
            &&& hex_value(small[n as int]) == Some(n)
            &&& hex_value(large[n as int]) == Some(n)
        }),
{
}

} // verus!
