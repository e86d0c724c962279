//! Byte strings: searching, cutting and their reading as UTF-8 text.

use vstd::prelude::*;
use vstd::utf8::*;
use crate::text::{find, first_at, lemma_find, occurs, occurs_at, starts_with};

verus! {

/// The text that `bytes` hold, where they are valid UTF-8.
pub open spec fn utf8_text(bytes: Seq<u8>) -> Option<Seq<char>> {
    if valid_utf8(bytes) {
        Some(decode_utf8(bytes))
    } else {
        None
    }
}

/// `String::from_utf8` of the standard library: the string that the bytes
/// hold, exactly where they are valid UTF-8.
#[verifier::external_body]
pub(crate) fn string_from_utf8(bytes: Vec<u8>) -> (r: Option<String>)
    ensures
        match r {
            Some(s) => utf8_text(bytes@) == Some(s@),
            None => utf8_text(bytes@) is None,
        },
{
    String::from_utf8(bytes).ok()
}

/// What `String::from_utf8_lossy` makes of bytes that are no valid UTF-8.
pub uninterp spec fn utf8_mended(bytes: Seq<u8>) -> Seq<char>;

/// The text that `bytes` hold, mended where they are no valid UTF-8.
pub open spec fn utf8_lossy(bytes: Seq<u8>) -> Seq<char> {
    if valid_utf8(bytes) {
        decode_utf8(bytes)
    } else {
        utf8_mended(bytes)
    }
}

/// `String::from_utf8_lossy` of the standard library: valid UTF-8 is taken as
/// it is, and what becomes of other bytes depends on them alone.
#[verifier::external_body]
pub(crate) fn string_from_utf8_lossy(bytes: &[u8]) -> (r: String)
    ensures
        r@ == utf8_lossy(bytes@),
        !valid_utf8(bytes@) ==> r@ == utf8_mended(bytes@),
{
    String::from_utf8_lossy(bytes).into_owned()
}

/// Encoding joins as the texts do.
pub proof fn lemma_encode_concat(a: Seq<char>, b: Seq<char>)
    ensures
        encode_utf8(a + b) == encode_utf8(a) + encode_utf8(b),
    decreases a.len(),
{
    if a.len() == 0 {
        assert(a + b =~= b);
        assert(encode_utf8(a) + encode_utf8(b) =~= encode_utf8(b));
    } else {
        assert((a + b).drop_first() =~= a.drop_first() + b);
        lemma_encode_concat(a.drop_first(), b);
        assert(encode_utf8(a + b) =~= encode_utf8(a) + encode_utf8(b));
    }
}

/// Which bytes stand for one character: its own below U+0080, and only bytes
/// from 0x80 on otherwise.
proof fn lemma_scalar_bytes(c: char)
    ensures
        '\0' <= c,
        c <= '\u{7f}' ==> encode_scalar(c as u32) == seq![c as u8],
        c > '\u{7f}' ==> forall|i: int|
            0 <= i < encode_scalar(c as u32).len() ==> #[trigger] encode_scalar(c as u32)[i]
                >= 0x80,
{
    char_is_scalar(c);
    let u = c as u32;
    if u < 0x80 {
        assert((u & 0x7f) as u8 == u) by (bit_vector)
            requires
                u < 0x80,
        ;
        assert(encode_scalar(u) =~= seq![c as u8]);
    } else {
        assert(0xC0u8 | ((u >> 6) & 0x1F) as u8 >= 0x80) by (bit_vector);
        assert(0xE0u8 | ((u >> 12) & 0x0F) as u8 >= 0x80) by (bit_vector);
        assert(0xF0u8 | ((u >> 18) & 0x7) as u8 >= 0x80) by (bit_vector);
        assert(0x80u8 | (u & 0x3F) as u8 >= 0x80) by (bit_vector);
        assert(0x80u8 | ((u >> 6) & 0x3F) as u8 >= 0x80) by (bit_vector);
        assert(0x80u8 | ((u >> 12) & 0x3F) as u8 >= 0x80) by (bit_vector);
    }
}

/// An ASCII byte stands in the encoding of a text only where its character
/// stands in the text.
pub proof fn lemma_ascii_byte_absent(s: Seq<char>, b: u8)
    requires
        b < 0x80,
        !s.contains(b as char),
    ensures
        forall|i: int| 0 <= i < encode_utf8(s).len() ==> #[trigger] encode_utf8(s)[i] != b,
    decreases s.len(),
{
    if s.len() > 0 {
        let c = s[0];
        lemma_scalar_bytes(c);
        char_is_scalar(c);
        assert(s.contains(c));
        assert(c != b as char);
        assert(!s.drop_first().contains(b as char)) by {
            assert forall|i: int| 0 <= i < s.drop_first().len() implies s.drop_first()[i]
                != b as char by {
                assert(s.contains(s[i + 1]));
            }
        }
        lemma_ascii_byte_absent(s.drop_first(), b);
        let head = encode_scalar(c as u32);
        let tail = encode_utf8(s.drop_first());
        assert(encode_utf8(s) == head + tail);
        if c <= '\u{7f}' {
            assert(c as u8 != b);
        }
        assert forall|i: int| 0 <= i < encode_utf8(s).len() implies #[trigger] encode_utf8(s)[i]
            != b by {
            if i < head.len() {
                assert(encode_utf8(s)[i] == head[i]);
            } else {
                assert(encode_utf8(s)[i] == tail[i - head.len()]);
            }
        }
    }
}

/// The bytes `data[from..to]`.
pub fn copy_range(data: &[u8], from: usize, to: usize) -> (r: Vec<u8>)
    requires
        from <= to <= data@.len(),
    ensures
        r@ == data@.subrange(from as int, to as int),
{
    let mut out: Vec<u8> = Vec::new();
    let mut i: usize = from;
    while i < to
        invariant
            from <= i <= to <= data@.len(),
            out@ == data@.subrange(from as int, i as int),
        decreases to - i,
    {
        out.push(data[i]);
        i += 1;
        assert(data@.subrange(from as int, i as int) =~= data@.subrange(from as int, i - 1).push(
            data@[i - 1],
        ));
    }
    out
}

/// Appends all of `data`.
pub fn append(out: &mut Vec<u8>, data: &[u8])
    ensures
        final(out)@ == old(out)@ + data@,
{
    let ghost start = out@;
    let mut i: usize = 0;
    assert(start + data@.take(0) =~= start);
    while i < data.len()
        invariant
            i <= data@.len(),
            out@ == start + data@.take(i as int),
        decreases data.len() - i,
    {
        out.push(data[i]);
        i += 1;
        assert(start + data@.take(i as int) =~= (start + data@.take(i - 1)).push(data@[i - 1]));
    }
    assert(data@.take(i as int) =~= data@);
}

/// Tells whether `pat` stands in `s` at position `i`.
fn bytes_match_at(s: &[u8], pat: &[u8], i: usize) -> (r: bool)
    requires
        i + pat@.len() <= s@.len(),
    ensures
        r == occurs_at(s@, pat@, i as int),
{
    let n: usize = s.len();
    let mut k: usize = 0;
    while k < pat.len()
        invariant
            k <= pat@.len(),
            i + pat@.len() <= s@.len(),
            s@.len() == n,
            forall|m: int| 0 <= m < k ==> s@[i + m] == #[trigger] pat@[m],
        decreases pat.len() - k,
    {
        if s[i + k] != pat[k] {
            assert(s@.subrange(i as int, i + pat@.len())[k as int] != pat@[k as int]);
            return false;
        }
        k += 1;
    }
    assert(s@.subrange(i as int, i + pat@.len()) =~= pat@);
    true
}

/// The leftmost position of `pat` in `s`.
pub fn find_bytes(s: &[u8], pat: &[u8]) -> (r: Option<usize>)
    ensures
        match r {
            Some(i) => first_at(s@, pat@, i as int) && find(s@, pat@) == Some(i as int) && i
                + pat@.len() <= s@.len(),
            None => !occurs(s@, pat@) && find(s@, pat@) is None,
        },
{
    if pat.len() > s.len() {
        return None;
    }
    let last: usize = s.len() - pat.len();
    let mut i: usize = 0;
    loop
        invariant
            i <= last,
            last + pat@.len() == s@.len(),
            forall|j: int| 0 <= j < i ==> !#[trigger] occurs_at(s@, pat@, j),
        ensures
            forall|j: int| 0 <= j <= last ==> !#[trigger] occurs_at(s@, pat@, j),
        decreases last - i,
    {
        if bytes_match_at(s, pat, i) {
            proof {
                lemma_find(s@, pat@, i as int);
            }
            return Some(i);
        }
        if i == last {
            break;
        }
        i += 1;
    }
    None
}

/// Tells whether `s` begins with `pat`.
pub fn bytes_begin(s: &[u8], pat: &[u8]) -> (r: bool)
    ensures
        r == starts_with(s@, pat@),
{
    if pat.len() > s.len() {
        return false;
    }
    assert(s@.subrange(0, pat@.len() as int) =~= s@.take(pat@.len() as int));
    bytes_match_at(s, pat, 0)
}

/// The first position from `from` on at which `b` stands in `data`.
pub open spec fn index_of(data: Seq<u8>, b: u8, from: int) -> Option<int>
    decreases data.len() - from,
{
    if from >= data.len() {
        None
    } else if data[from] == b {
        Some(from)
    } else {
        index_of(data, b, from + 1)
    }
}

/// A position that holds `b`, with no `b` between `from` and it, is what
/// `index_of` gives.
pub proof fn lemma_index_of(data: Seq<u8>, b: u8, from: int, at: int)
    requires
        0 <= from <= at < data.len(),
        data[at] == b,
        forall|i: int| from <= i < at ==> data[i] != b,
    ensures
        index_of(data, b, from) == Some(at),
    decreases at - from,
{
    if from < at {
        lemma_index_of(data, b, from + 1, at);
    }
}

/// Finds `b` in `data` from `from` on.
pub fn find_byte(data: &[u8], b: u8, from: usize) -> (r: Option<usize>)
    requires
        from <= data@.len(),
    ensures
        match r {
            Some(i) => index_of(data@, b, from as int) == Some(i as int) && from <= i < data@.len(),
            None => index_of(data@, b, from as int) is None,
        },
{
    let mut i: usize = from;
    while i < data.len()
        invariant
            from <= i <= data@.len(),
            index_of(data@, b, from as int) == index_of(data@, b, i as int),
        decreases data.len() - i,
    {
        if data[i] == b {
            return Some(i);
        }
        i += 1;
    }
    None
}

/// A 32-bit number in four bytes, the most significant first.
pub open spec fn be32(n: u32) -> Seq<u8> {
    seq![
        (n / 0x100_0000) as u8,
        (n / 0x1_0000 % 0x100) as u8,
        (n / 0x100 % 0x100) as u8,
        (n % 0x100) as u8,
    ]
}

/// The number that four bytes hold, the most significant first.
pub open spec fn from_be32(b: Seq<u8>) -> nat {
    (b[0] * 0x100_0000 + b[1] * 0x1_0000 + b[2] * 0x100 + b[3]) as nat
}

/// A 32-bit number in four bytes, the least significant first.
pub open spec fn le32(n: u32) -> Seq<u8> {
    seq![
        (n % 0x100) as u8,
        (n / 0x100 % 0x100) as u8,
        (n / 0x1_0000 % 0x100) as u8,
        (n / 0x100_0000) as u8,
    ]
}

/// The number that four bytes hold, the least significant first.
pub open spec fn from_le32(b: Seq<u8>) -> nat {
    (b[3] * 0x100_0000 + b[2] * 0x1_0000 + b[1] * 0x100 + b[0]) as nat
}

/// Four bytes of either order give back the number that was written.
pub proof fn four_bytes_round_trip(n: u32)
    ensures
        from_be32(be32(n)) == n,
        from_le32(le32(n)) == n,
{
}

/// Appends a 32-bit number, the most significant byte first.
pub fn append_be32(out: &mut Vec<u8>, n: u32)
    ensures
        final(out)@ == old(out)@ + be32(n),
{
    out.push((n / 0x100_0000) as u8);
    out.push((n / 0x1_0000 % 0x100) as u8);
    out.push((n / 0x100 % 0x100) as u8);
    out.push((n % 0x100) as u8);
    assert(out@ =~= old(out)@ + be32(n));
}

/// Appends a 32-bit number, the least significant byte first.
pub fn append_le32(out: &mut Vec<u8>, n: u32)
    ensures
        final(out)@ == old(out)@ + le32(n),
{
    out.push((n % 0x100) as u8);
    out.push((n / 0x100 % 0x100) as u8);
    out.push((n / 0x1_0000 % 0x100) as u8);
    out.push((n / 0x100_0000) as u8);
    assert(out@ =~= old(out)@ + le32(n));
}

/// Reads a 32-bit number at `at`, the most significant byte first.
pub fn read_be32(data: &[u8], at: usize) -> (r: u32)
    requires
        at + 4 <= data@.len(),
    ensures
        r == from_be32(data@.subrange(at as int, at + 4)),
{
    let n: usize = data.len();
    (data[at] as u32) * 0x100_0000 + (data[at + 1] as u32) * 0x1_0000 + (data[at + 2] as u32)
        * 0x100 + (data[at + 3] as u32)
}

/// Reads a 32-bit number at `at`, the least significant byte first.
pub fn read_le32(data: &[u8], at: usize) -> (r: u32)
    requires
        at + 4 <= data@.len(),
    ensures
        r == from_le32(data@.subrange(at as int, at + 4)),
{
    let n: usize = data.len();
    (data[at + 3] as u32) * 0x100_0000 + (data[at + 2] as u32) * 0x1_0000 + (data[at + 1] as u32)
        * 0x100 + (data[at] as u32)
}

} // verus!
