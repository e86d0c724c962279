//! Base64, SHA-256 and brotli.

use base64::engine::general_purpose::{STANDARD, URL_SAFE_NO_PAD};
use base64::Engine;
use sha2::Digest;
use std::io::{Read, Write};
use vstd::prelude::*;
use vstd::utf8::*;

verus! {

// ---------------------------------------------------------------------------
// Base64
// ---------------------------------------------------------------------------

/// The character for a six-bit number, in the standard alphabet of RFC 4648
/// or in its URL-safe one.
pub open spec fn sextet_char(v: int, url_safe: bool) -> char {
    if v < 26 {
        ((v + 65) as u8) as char
    } else if v < 52 {
        ((v + 71) as u8) as char
    } else if v < 62 {
        ((v - 4) as u8) as char
    } else if v == 62 {
        if url_safe {
            '-'
        } else {
            '+'
        }
    } else {
        if url_safe {
            '_'
        } else {
            '/'
        }
    }
}

/// The base64 text of a byte string, as RFC 4648 defines it: four characters
/// for three bytes, and for one or two bytes at the end two or three
/// characters, filled up to four with `=` where `pad` is set.
pub open spec fn base64_text(data: Seq<u8>, url_safe: bool, pad: bool) -> Seq<char>
    decreases data.len(),
{
    let fill = |n: nat|
        if pad {
            Seq::new(n, |i: int| '=')
        } else {
            Seq::<char>::empty()
        };
    if data.len() == 0 {
        Seq::<char>::empty()
    } else if data.len() == 1 {
        let n = data[0] * 0x1_0000;
        seq![sextet_char(n / 0x4_0000, url_safe), sextet_char(n / 0x1000 % 64, url_safe)] + fill(2)
    } else if data.len() == 2 {
        let n = data[0] * 0x1_0000 + data[1] * 0x100;
        seq![
            sextet_char(n / 0x4_0000, url_safe),
            sextet_char(n / 0x1000 % 64, url_safe),
            sextet_char(n / 64 % 64, url_safe),
        ] + fill(1)
    } else {
        let n = data[0] * 0x1_0000 + data[1] * 0x100 + data[2];
        seq![
            sextet_char(n / 0x4_0000, url_safe),
            sextet_char(n / 0x1000 % 64, url_safe),
            sextet_char(n / 64 % 64, url_safe),
            sextet_char(n % 64, url_safe),
        ] + base64_text(data.skip(3), url_safe, pad)
    }
}

/// A character of the standard alphabet or its padding.
pub open spec fn is_base64_char(c: char) -> bool {
    ('A' <= c <= 'Z') || ('a' <= c <= 'z') || ('0' <= c <= '9') || c == '+' || c == '/' || c == '='
}

/// A character of the URL-safe alphabet.
pub open spec fn is_base64url_char(c: char) -> bool {
    ('A' <= c <= 'Z') || ('a' <= c <= 'z') || ('0' <= c <= '9') || c == '-' || c == '_'
}

/// The length of padded base64 text for `n` bytes.
pub open spec fn base64_len(n: int) -> int {
    (n + 2) / 3 * 4
}

/// Base64 text holds only characters of its alphabet.
pub proof fn lemma_base64_alphabet(data: Seq<u8>, url_safe: bool, pad: bool)
    ensures
        !url_safe ==> forall|i: int|
            0 <= i < base64_text(data, url_safe, pad).len() ==> is_base64_char(
                #[trigger] base64_text(data, url_safe, pad)[i],
            ),
        url_safe && !pad ==> forall|i: int|
            0 <= i < base64_text(data, url_safe, pad).len() ==> is_base64url_char(
                #[trigger] base64_text(data, url_safe, pad)[i],
            ),
    decreases data.len(),
{
    if data.len() >= 3 {
        lemma_base64_alphabet(data.skip(3), url_safe, pad);
        let tail = base64_text(data.skip(3), url_safe, pad);
        let all = base64_text(data, url_safe, pad);
        assert forall|i: int| 4 <= i < all.len() implies all[i] == #[trigger] tail[i - 4] by {}
        assert forall|i: int| 0 <= i < all.len() implies (!url_safe ==> is_base64_char(
            #[trigger] all[i],
        )) && (url_safe && !pad ==> is_base64url_char(all[i])) by {
            if i >= 4 {
                assert(all[i] == tail[i - 4]);
            }
        }
    }
}

/// Padded base64 text has four characters for every three bytes begun.
pub proof fn lemma_base64_len(data: Seq<u8>, url_safe: bool)
    ensures
        base64_text(data, url_safe, true).len() == base64_len(data.len() as int),
    decreases data.len(),
{
    if data.len() >= 3 {
        lemma_base64_len(data.skip(3), url_safe);
    }
}

/// Padded base64 text is ASCII: one byte for each character.
pub proof fn lemma_base64_ascii(data: Seq<u8>)
    ensures
        is_ascii_chars(base64_text(data, false, true)),
        encode_utf8(base64_text(data, false, true)) == Seq::new(
            base64_text(data, false, true).len(),
            |i: int| base64_text(data, false, true)[i] as u8,
        ),
{
    lemma_base64_alphabet(data, false, true);
    is_ascii_chars_encode_utf8(base64_text(data, false, true));
}

/// Twelve bytes make sixteen characters without padding.
pub proof fn lemma_twelve_bytes(data: Seq<u8>)
    requires
        data.len() == 12,
    ensures
        base64_text(data, true, false).len() == 16,
{
    reveal_with_fuel(base64_text, 5);
}

/// Six-bit numbers have different characters, and none has the padding
/// character.
proof fn lemma_sextet(a: int, b: int)
    requires
        0 <= a < 64,
        0 <= b < 64,
        sextet_char(a, false) == sextet_char(b, false),
    ensures
        a == b,
{
}

/// The 24-bit number that the first three bytes make, with zeros where there
/// are fewer.
spec fn first_group(data: Seq<u8>) -> int {
    data[0] * 0x1_0000 + (if data.len() > 1 {
        data[1] * 0x100
    } else {
        0
    }) + (if data.len() > 2 {
        data[2] as int
    } else {
        0
    })
}

/// What the first four characters of a padded base64 text are.
proof fn lemma_first_group(data: Seq<u8>)
    requires
        data.len() > 0,
    ensures
        ({
            let t = base64_text(data, false, true);
            let n = first_group(data);
            &&& t.len() >= 4
            &&& t[0] == sextet_char(n / 0x4_0000, false)
            &&& t[1] == sextet_char(n / 0x1000 % 64, false)
            &&& t[2] == (if data.len() > 1 {
                sextet_char(n / 64 % 64, false)
            } else {
                '='
            })
            &&& t[3] == (if data.len() > 2 {
                sextet_char(n % 64, false)
            } else {
                '='
            })
            &&& data.len() >= 3 ==> t.skip(4) == base64_text(data.skip(3), false, true)
            &&& data.len() < 3 ==> t.len() == 4
        }),
{
    let t = base64_text(data, false, true);
    if data.len() >= 3 {
        assert(t.skip(4) =~= base64_text(data.skip(3), false, true));
    }
}

/// A 24-bit number is known by its four six-bit digits.
proof fn lemma_digits(a: int, b: int)
    requires
        0 <= a < 0x100_0000,
        0 <= b < 0x100_0000,
        sextet_char(a / 0x4_0000, false) == sextet_char(b / 0x4_0000, false),
        sextet_char(a / 0x1000 % 64, false) == sextet_char(b / 0x1000 % 64, false),
        a / 64 % 64 == b / 64 % 64,
        a % 64 == b % 64,
    ensures
        a == b,
{
    lemma_sextet(a / 0x4_0000, b / 0x4_0000);
    lemma_sextet(a / 0x1000 % 64, b / 0x1000 % 64);
}

/// Three bytes are known by the number that they make.
proof fn lemma_group_bytes(a: Seq<u8>, b: Seq<u8>)
    requires
        a.len() > 0,
        b.len() > 0,
        a.len() >= 3 && b.len() >= 3 || a.len() == b.len(),
        first_group(a) == first_group(b),
    ensures
        a[0] == b[0],
        a.len() > 1 ==> a[1] == b[1],
        a.len() > 2 ==> a[2] == b[2],
{
}

/// Different byte strings have different padded base64 texts.
pub proof fn base64_is_injective(a: Seq<u8>, b: Seq<u8>)
    requires
        base64_text(a, false, true) == base64_text(b, false, true),
    ensures
        a == b,
    decreases a.len(),
{
    lemma_base64_len(a, false);
    lemma_base64_len(b, false);
    if a.len() == 0 || b.len() == 0 {
        assert(a =~= b);
    } else {
        let na = first_group(a);
        let nb = first_group(b);
        lemma_first_group(a);
        lemma_first_group(b);
        if a.len() > 1 && b.len() > 1 {
            lemma_sextet(na / 64 % 64, nb / 64 % 64);
        }
        if a.len() > 2 && b.len() > 2 {
            lemma_sextet(na % 64, nb % 64);
        }
        assert(a.len() >= 3 && b.len() >= 3 || a.len() == b.len());
        lemma_digits(na, nb);
        lemma_group_bytes(a, b);
        if a.len() >= 3 {
            base64_is_injective(a.skip(3), b.skip(3));
            assert forall|i: int| 3 <= i < a.len() implies a[i] == b[i] by {
                assert(a.skip(3)[i - 3] == b.skip(3)[i - 3]);
            }
            assert(a.skip(3).len() == b.skip(3).len());
        }
        assert(a =~= b);
    }
}

/// `STANDARD.encode` of the `base64` crate: the padded base64 text in the
/// standard alphabet. It panics where that text is longer than a vector can
/// be.
#[verifier::external_body]
pub(crate) fn base64_encode(data: &[u8]) -> (r: String)
    requires
        base64_len(data@.len() as int) <= isize::MAX,
    ensures
        r@ == base64_text(data@, false, true),
{
    STANDARD.encode(data)
}

/// `URL_SAFE_NO_PAD.encode` of the `base64` crate: the unpadded base64 text in
/// the URL-safe alphabet. It panics where that text is longer than a vector
/// can be.
#[verifier::external_body]
pub(crate) fn base64url_encode(data: &[u8]) -> (r: String)
    requires
        base64_len(data@.len() as int) <= isize::MAX,
    ensures
        r@ == base64_text(data@, true, false),
{
    URL_SAFE_NO_PAD.encode(data)
}

/// `STANDARD.decode` of the `base64` crate: it accepts exactly the texts that
/// encoding produces, canonical padding and zero trailing bits included, and
/// gives the bytes that they encode.
#[verifier::external_body]
pub(crate) fn base64_decode(text: &[u8]) -> (r: Option<Vec<u8>>)
    ensures
        match r {
            Some(d) => text@ == encode_utf8(base64_text(d@, false, true)),
            None => forall|d: Seq<u8>|
                text@ != encode_utf8(#[trigger] base64_text(d, false, true)),
        },
{
    STANDARD.decode(text).ok()
}

// ---------------------------------------------------------------------------
// SHA-256
// ---------------------------------------------------------------------------

/// The SHA-256 digest of a byte string.
pub uninterp spec fn sha256(data: Seq<u8>) -> Seq<u8>;

/// `Sha256::digest` of the `sha2` crate: the 32 bytes of the digest.
#[verifier::external_body]
pub(crate) fn sha256_digest(data: &[u8]) -> (r: Vec<u8>)
    ensures
        r@ == sha256(data@),
        r@.len() == 32,
{
    sha2::Sha256::digest(data).to_vec()
}

// ---------------------------------------------------------------------------
// Brotli
// ---------------------------------------------------------------------------

/// What the brotli decoder makes of `data`, or the text of the error that
/// stops it.
pub uninterp spec fn brotli_decoded(data: Seq<u8>) -> Result<Seq<u8>, Seq<char>>;

/// Success with these bytes.
pub open spec fn decoded_to(data: Seq<u8>) -> Result<Seq<u8>, Seq<char>> {
    Ok(data)
}

/// A result of bytes or of an error text, by its view.
pub open spec fn bytes_or_text(r: Result<Vec<u8>, String>) -> Result<Seq<u8>, Seq<char>> {
    match r {
        Ok(b) => Ok(b@),
        Err(e) => Err(e@),
    }
}

/// `CompressorWriter` of the `brotli` crate, with a buffer of 4096 bytes and a
/// 22-bit window: one whole stream, which the decoder turns back into `data`.
/// Which of the streams of `data` it is, is left open: the encoder weighs its
/// choices by logarithms whose last digits depend on the machine.
#[verifier::external_body]
pub(crate) fn brotli_encode(data: &[u8], quality: u32) -> (r: Result<Vec<u8>, String>)
    ensures
        r matches Ok(c) ==> brotli_decoded(c@) == decoded_to(data@),
{
    let mut output = Vec::new();
    let mut compressor = brotli::CompressorWriter::new(&mut output, 4096, quality, 22);
    compressor.write_all(data).map_err(|e| e.to_string())?;
    drop(compressor);
    Ok(output)
}

/// What a call of the brotli encoder on `data` at `quality` came to: a stream,
/// or the text of the error that stopped it.
pub closed spec fn is_encoding(
    data: Seq<u8>,
    quality: u32,
    outcome: Result<Seq<u8>, Seq<char>>,
) -> bool {
    exists|d: &[u8], r: Result<Vec<u8>, String>|
        d@ == data && bytes_or_text(r) == outcome && #[trigger] call_ensures(
            brotli_encode,
            (d, quality),
            r,
        )
}

/// Calls the brotli encoder.
pub(crate) fn encode_stream(data: &[u8], quality: u32) -> (r: Result<Vec<u8>, String>)
    ensures
        is_encoding(data@, quality, bytes_or_text(r)),
        r matches Ok(c) ==> brotli_decoded(c@) == decoded_to(data@),
{
    let encoder = brotli_encode;
    encoder(data, quality)
}

/// Whatever stream the encoder gives, the decoder turns it back into the data.
pub proof fn encodings_decode(data: Seq<u8>, quality: u32, stream: Seq<u8>)
    requires
        is_encoding(data, quality, Ok(stream)),
    ensures
        brotli_decoded(stream) == decoded_to(data),
{
}

/// `Decompressor` of the `brotli` crate, with a buffer of 4096 bytes, read to
/// its end.
#[verifier::external_body]
pub(crate) fn brotli_decode(data: &[u8]) -> (r: Result<Vec<u8>, String>)
    ensures
        bytes_or_text(r) == brotli_decoded(data@),
{
    let mut output = Vec::new();
    let mut decompressor = brotli::Decompressor::new(data, 4096);
    decompressor.read_to_end(&mut output).map_err(|e| e.to_string())?;
    Ok(output)
}

} // verus!
