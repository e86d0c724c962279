//! Texts as JSON strings.

use vstd::prelude::*;
use crate::ip::hex_char;

verus! {

/// A character inside a JSON string.
pub open spec fn json_char(c: char) -> Seq<char> {
    if c == '"' {
        seq!['\\', '"']
    } else if c == '\\' {
        seq!['\\', '\\']
    } else if c == '\u{8}' {
        seq!['\\', 'b']
    } else if c == '\t' {
        seq!['\\', 't']
    } else if c == '\n' {
        seq!['\\', 'n']
    } else if c == '\u{c}' {
        seq!['\\', 'f']
    } else if c == '\r' {
        seq!['\\', 'r']
    } else if (c as int) < 0x20 {
        seq!['\\', 'u', '0', '0', hex_char((c as nat) / 16), hex_char((c as nat) % 16)]
    } else {
        seq![c]
    }
}

/// What stands between the quotes of a JSON string.
pub open spec fn json_chars(s: Seq<char>) -> Seq<char>
    decreases s.len(),
{
    if s.len() == 0 {
        s
    } else {
        json_chars(s.drop_last()) + json_char(s.last())
    }
}

/// A text as a JSON string.
pub open spec fn json_string(s: Seq<char>) -> Seq<char> {
    seq!['"'] + json_chars(s) + seq!['"']
}

/// `to_string` of the `serde_json` crate on a text, which cannot fail: the text
/// in quotes, with quotes, backslashes and control characters escaped.
#[verifier::external_body]
pub(crate) fn json_quote(text: &str) -> (r: String)
    ensures
        r@ == json_string(text@),
{
    serde_json::to_string(text).unwrap_or_default()
}

proof fn lemma_json_char(c: char)
    ensures
        forall|i: int| 0 <= i < json_char(c).len() ==> (#[trigger] json_char(c)[i]) as int >= 0x20,
{
    if (c as int) < 0x20 {
        let n = c as nat;
        assert(n / 16 < 16 && n % 16 < 16);
        assert('0' <= hex_char(n / 16));
        assert('0' <= hex_char(n % 16));
    }
}

/// A JSON string holds no control character, whatever the text holds: it stays
/// on one line.
pub proof fn json_strings_stay_on_one_line(s: Seq<char>)
    ensures
        forall|i: int|
            0 <= i < json_string(s).len() ==> (#[trigger] json_string(s)[i]) as int >= 0x20,
{
    lemma_json_chars(s);
}

proof fn lemma_json_chars(s: Seq<char>)
    ensures
        forall|i: int| 0 <= i < json_chars(s).len() ==> (#[trigger] json_chars(s)[i]) as int >= 0x20,
    decreases s.len(),
{
    if s.len() > 0 {
        lemma_json_chars(s.drop_last());
        lemma_json_char(s.last());
        let a = json_chars(s.drop_last());
        let b = json_char(s.last());
        assert forall|i: int| 0 <= i < json_chars(s).len() implies (#[trigger] json_chars(
            s,
        )[i]) as int >= 0x20 by {
            if i < a.len() {
                assert(json_chars(s)[i] == a[i]);
            } else {
                assert(json_chars(s)[i] == b[i - a.len()]);
            }
        }
    }
}

} // verus!
