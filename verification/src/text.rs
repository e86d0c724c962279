//! Text as sequences of characters: case, trimming, splitting and searching,
//! each with the meaning that the rest of the library's contracts refer to.

use vstd::prelude::*;
use vstd::utf8::is_ascii_chars;

verus! {

/// `String::push` of the standard library appends one character.
pub assume_specification[ String::push ](s: &mut String, c: char)
    ensures
        final(s)@ == old(s)@.push(c),
;

// ---------------------------------------------------------------------------
// Characters
// ---------------------------------------------------------------------------

/// An ASCII decimal digit.
pub open spec fn is_digit(c: char) -> bool {
    '0' <= c <= '9'
}

/// An ASCII letter.
pub open spec fn is_letter(c: char) -> bool {
    ('a' <= c <= 'z') || ('A' <= c <= 'Z')
}

/// A character with the Unicode `White_Space` property.
pub open spec fn is_space(c: char) -> bool {
    ||| '\u{9}' <= c <= '\u{d}'
    ||| c == '\u{20}'
    ||| c == '\u{85}'
    ||| c == '\u{a0}'
    ||| c == '\u{1680}'
    ||| '\u{2000}' <= c <= '\u{200a}'
    ||| c == '\u{2028}'
    ||| c == '\u{2029}'
    ||| c == '\u{202f}'
    ||| c == '\u{205f}'
    ||| c == '\u{3000}'
}

/// `A` to `Z` become `a` to `z`; everything else stays.
pub open spec fn lower_char(c: char) -> char {
    if 'A' <= c <= 'Z' {
        ((c as u8 + 32) as u8) as char
    } else {
        c
    }
}

/// `a` to `z` become `A` to `Z`; everything else stays.
pub open spec fn upper_char(c: char) -> char {
    if 'a' <= c <= 'z' {
        ((c as u8 - 32) as u8) as char
    } else {
        c
    }
}

/// ASCII lower case of a text.
pub open spec fn ascii_lower(s: Seq<char>) -> Seq<char> {
    s.map_values(|c: char| lower_char(c))
}

/// ASCII upper case of a text.
pub open spec fn ascii_upper(s: Seq<char>) -> Seq<char> {
    s.map_values(|c: char| upper_char(c))
}

/// Tells whether `c` has the Unicode `White_Space` property.
pub fn space(c: char) -> (r: bool)
    ensures
        r == is_space(c),
{
    ('\u{9}' <= c && c <= '\u{d}') || c == '\u{20}' || c == '\u{85}' || c == '\u{a0}' || c
        == '\u{1680}' || ('\u{2000}' <= c && c <= '\u{200a}') || c == '\u{2028}' || c == '\u{2029}'
        || c == '\u{202f}' || c == '\u{205f}' || c == '\u{3000}'
}

/// The ASCII lower case of one character.
pub fn to_lower(c: char) -> (r: char)
    ensures
        r == lower_char(c),
{
    if 'A' <= c && c <= 'Z' {
        (c as u8 + 32) as char
    } else {
        c
    }
}

// ---------------------------------------------------------------------------
// Conversions
// ---------------------------------------------------------------------------

/// The characters of a string, in order.
pub fn chars_of(s: &str) -> (r: Vec<char>)
    ensures
        r@ == s@,
{
    let mut out: Vec<char> = Vec::new();
    for c in it: s.chars()
        invariant
            it.seq() == s@,
            out@ == it.seq().take(it.index()),
    {
        proof {
            assert(it.seq().take(it.index() + 1) =~= it.seq().take(it.index()).push(c));
        }
        out.push(c);
    }
    assert(s@.take(s@.len() as int) =~= s@);
    out
}

/// The string made of the characters `chars[from..to]`.
pub fn text_of(chars: &[char], from: usize, to: usize) -> (r: String)
    requires
        from <= to <= chars@.len(),
    ensures
        r@ == chars@.subrange(from as int, to as int),
{
    let mut out = String::new();
    let mut i: usize = from;
    while i < to
        invariant
            from <= i <= to <= chars@.len(),
            out@ == chars@.subrange(from as int, i as int),
        decreases to - i,
    {
        out.push(chars[i]);
        i += 1;
        assert(chars@.subrange(from as int, i as int) =~= chars@.subrange(
            from as int,
            i - 1,
        ).push(chars@[i - 1]));
    }
    out
}

/// The views of a list of strings.
pub open spec fn views(v: Seq<String>) -> Seq<Seq<char>> {
    v.map_values(|s: String| s@)
}

/// `views` of a list with one string more.
pub proof fn lemma_views_push(v: Seq<String>, s: String)
    ensures
        views(v.push(s)) == views(v).push(s@),
{
    assert(views(v.push(s)) =~= views(v).push(s@));
}

/// Compares two texts.
pub fn same(a: &str, b: &str) -> (r: bool)
    ensures
        r == (a@ == b@),
{
    let x = a.to_owned();
    let y = b.to_owned();
    x == y
}

/// The text in ASCII lower case.
pub fn to_ascii_lower(s: &str) -> (r: String)
    ensures
        r@ == ascii_lower(s@),
{
    let chars = chars_of(s);
    let mut out = String::new();
    let mut i: usize = 0;
    while i < chars.len()
        invariant
            i <= chars@.len(),
            chars@ == s@,
            out@ == ascii_lower(s@.take(i as int)),
        decreases chars.len() - i,
    {
        out.push(to_lower(chars[i]));
        i += 1;
        assert(ascii_lower(s@.take(i as int)) =~= ascii_lower(s@.take(i - 1)).push(
            lower_char(s@[i - 1]),
        ));
    }
    assert(s@.take(i as int) =~= s@);
    out
}

/// Compares two texts, taking ASCII letters without regard to case.
pub fn same_ignoring_case(a: &str, b: &str) -> (r: bool)
    ensures
        r == (ascii_lower(a@) == ascii_lower(b@)),
{
    let x = to_ascii_lower(a);
    let y = to_ascii_lower(b);
    x == y
}

/// Two texts joined.
pub fn join2(a: &str, b: &str) -> (r: String)
    ensures
        r@ == a@ + b@,
{
    a.to_owned().concat(b)
}

/// Three texts joined.
pub fn join3(a: &str, b: &str, c: &str) -> (r: String)
    ensures
        r@ == a@ + b@ + c@,
{
    a.to_owned().concat(b).concat(c)
}

/// A text as the `Debug` formatting of the standard library shows it.
pub uninterp spec fn debug_text(s: Seq<char>) -> Seq<char>;

/// `format!("{:?}", ..)` of a string: quoted, with its escapes.
#[verifier::external_body]
pub(crate) fn to_debug_text(s: &str) -> (r: String)
    ensures
        r@ == debug_text(s@),
{
    format!("{:?}", s)
}

/// What `str::to_uppercase` makes of a text beyond ASCII.
pub uninterp spec fn unicode_upper(s: Seq<char>) -> Seq<char>;

/// A text in Unicode upper case, which on ASCII text changes `a` to `z` alone.
pub open spec fn upper(s: Seq<char>) -> Seq<char> {
    if is_ascii_chars(s) {
        ascii_upper(s)
    } else {
        unicode_upper(s)
    }
}

/// `str::to_uppercase` of the standard library.
#[verifier::external_body]
pub(crate) fn to_uppercase(s: &str) -> (r: String)
    ensures
        r@ == upper(s@),
        !is_ascii_chars(s@) ==> r@ == unicode_upper(s@),
{
    s.to_uppercase()
}

/// What `str::to_lowercase` makes of a text beyond ASCII.
pub uninterp spec fn unicode_lower(s: Seq<char>) -> Seq<char>;

/// A text in Unicode lower case, which on ASCII text changes `A` to `Z` alone.
pub open spec fn lower(s: Seq<char>) -> Seq<char> {
    if is_ascii_chars(s) {
        ascii_lower(s)
    } else {
        unicode_lower(s)
    }
}

/// `str::to_lowercase` of the standard library.
#[verifier::external_body]
pub(crate) fn to_lowercase(s: &str) -> (r: String)
    ensures
        r@ == lower(s@),
        !is_ascii_chars(s@) ==> r@ == unicode_lower(s@),
{
    s.to_lowercase()
}

// ---------------------------------------------------------------------------
// Trimming
// ---------------------------------------------------------------------------

/// What is left of `s` without its leading whitespace.
pub open spec fn trim_start(s: Seq<char>) -> Seq<char>
    decreases s.len(),
{
    if s.len() > 0 && is_space(s[0]) {
        trim_start(s.drop_first())
    } else {
        s
    }
}

/// What is left of `s` without its trailing whitespace.
pub open spec fn trim_end(s: Seq<char>) -> Seq<char>
    decreases s.len(),
{
    if s.len() > 0 && is_space(s.last()) {
        trim_end(s.drop_last())
    } else {
        s
    }
}

/// What is left of `s` without whitespace at either end.
pub open spec fn trim(s: Seq<char>) -> Seq<char> {
    trim_end(trim_start(s))
}

/// Drops leading whitespace.
pub fn trimmed_start(s: &str) -> (r: String)
    ensures
        r@ == trim_start(s@),
{
    let chars = chars_of(s);
    let mut i: usize = 0;
    assert(s@.skip(0) =~= s@);
    while i < chars.len() && space(chars[i])
        invariant
            i <= chars@.len(),
            chars@ == s@,
            trim_start(s@) == trim_start(s@.skip(i as int)),
        decreases chars.len() - i,
    {
        assert(s@.skip(i as int).drop_first() =~= s@.skip(i + 1));
        i += 1;
    }
    assert(s@.skip(i as int) =~= s@.subrange(i as int, s@.len() as int));
    text_of(&chars, i, chars.len())
}

/// Drops trailing whitespace.
pub fn trimmed_end(s: &str) -> (r: String)
    ensures
        r@ == trim_end(s@),
{
    let chars = chars_of(s);
    let mut n: usize = chars.len();
    assert(s@.take(n as int) =~= s@);
    while n > 0 && space(chars[n - 1])
        invariant
            n <= chars@.len(),
            chars@ == s@,
            trim_end(s@) == trim_end(s@.take(n as int)),
        decreases n,
    {
        assert(s@.take(n as int).drop_last() =~= s@.take(n - 1));
        n -= 1;
    }
    assert(s@.take(n as int) =~= s@.subrange(0, n as int));
    text_of(&chars, 0, n)
}

/// Drops whitespace at both ends.
pub fn trimmed(s: &str) -> (r: String)
    ensures
        r@ == trim(s@),
{
    let front = trimmed_start(s);
    trimmed_end(front.as_str())
}

/// Whitespace at the end of a text changes nothing of its start, unless the
/// text is blank.
proof fn lemma_trim_start_push(s: Seq<char>, c: char)
    requires
        is_space(c),
    ensures
        trim_start(s).len() == 0 ==> trim_start(s.push(c)).len() == 0,
        trim_start(s).len() > 0 ==> trim_start(s.push(c)) == trim_start(s).push(c),
    decreases s.len(),
{
    if s.len() > 0 && is_space(s[0]) {
        assert(s.push(c).drop_first() =~= s.drop_first().push(c));
        lemma_trim_start_push(s.drop_first(), c);
    } else if s.len() == 0 {
        assert(s.push(c).drop_first() =~= s);
    }
}

/// Whitespace at the end of a text is trimmed away.
pub proof fn lemma_trim_push(s: Seq<char>, c: char)
    requires
        is_space(c),
    ensures
        trim(s.push(c)) == trim(s),
{
    lemma_trim_start_push(s, c);
    if trim_start(s).len() > 0 {
        assert(trim_start(s).push(c).drop_last() =~= trim_start(s));
    } else {
        assert(trim_start(s) =~= trim_start(s.push(c)));
    }
}

// ---------------------------------------------------------------------------
// Searching
// ---------------------------------------------------------------------------

/// `pat` stands in `s` at position `i`.
pub open spec fn occurs_at<T>(s: Seq<T>, pat: Seq<T>, i: int) -> bool {
    0 <= i && i + pat.len() <= s.len() && s.subrange(i, i + pat.len()) == pat
}

/// `pat` stands somewhere in `s`.
pub open spec fn occurs<T>(s: Seq<T>, pat: Seq<T>) -> bool {
    exists|i: int| #[trigger] occurs_at(s, pat, i)
}

/// `i` is the leftmost position at which `pat` stands in `s`.
pub open spec fn first_at<T>(s: Seq<T>, pat: Seq<T>, i: int) -> bool {
    occurs_at(s, pat, i) && forall|j: int| 0 <= j < i ==> !#[trigger] occurs_at(s, pat, j)
}

/// The leftmost position at which `pat` stands in `s`, where it does.
pub open spec fn find<T>(s: Seq<T>, pat: Seq<T>) -> Option<int> {
    if occurs(s, pat) {
        Some(choose|i: int| first_at(s, pat, i))
    } else {
        None
    }
}

/// `s` begins with `pat`.
pub open spec fn starts_with<T>(s: Seq<T>, pat: Seq<T>) -> bool {
    pat.len() <= s.len() && s.take(pat.len() as int) == pat
}

/// A leftmost occurrence is what `find` gives.
pub proof fn lemma_find<T>(s: Seq<T>, pat: Seq<T>, i: int)
    requires
        first_at(s, pat, i),
    ensures
        find(s, pat) == Some(i),
{
    let j = choose|j: int| first_at(s, pat, j);
    assert(first_at(s, pat, j));
    if j < i {
        assert(occurs_at(s, pat, j));
    } else if i < j {
        assert(occurs_at(s, pat, i));
    }
}

/// Up to an occurrence there is a first one.
proof fn lemma_least<T>(s: Seq<T>, pat: Seq<T>, w: int)
    requires
        occurs_at(s, pat, w),
    ensures
        exists|i: int| first_at(s, pat, i),
    decreases w,
{
    if exists|j: int| 0 <= j < w && occurs_at(s, pat, j) {
        let j = choose|j: int| 0 <= j < w && occurs_at(s, pat, j);
        lemma_least(s, pat, j);
    } else {
        assert(first_at(s, pat, w));
    }
}

/// Where a pattern stands at all, `find` gives the place where it stands first.
pub proof fn lemma_first_exists<T>(s: Seq<T>, pat: Seq<T>)
    requires
        occurs(s, pat),
    ensures
        find(s, pat) matches Some(i) && first_at(s, pat, i),
{
    let w = choose|i: int| occurs_at(s, pat, i);
    lemma_least(s, pat, w);
}

/// Tells whether `pat` stands in `s` at position `i`.
fn matches_at(s: &[char], pat: &[char], i: usize) -> (r: bool)
    requires
        i + pat@.len() <= s@.len(),
    ensures
        r == occurs_at(s@, pat@, i as int),
{
    let n: usize = s.len();
    let mut k: usize = 0;
    while k < pat.len()
        invariant
            k <= pat@.len(),
            i + pat@.len() <= s@.len(),
            s@.len() == n,
            forall|m: int| 0 <= m < k ==> s@[i + m] == #[trigger] pat@[m],
        decreases pat.len() - k,
    {
        if s[i + k] != pat[k] {
            assert(s@.subrange(i as int, i + pat@.len())[k as int] != pat@[k as int]);
            return false;
        }
        k += 1;
    }
    assert(s@.subrange(i as int, i + pat@.len()) =~= pat@);
    true
}

/// The leftmost position of `pat` in `s`.
pub fn find_chars(s: &[char], pat: &[char]) -> (r: Option<usize>)
    ensures
        match r {
            Some(i) => first_at(s@, pat@, i as int) && find(s@, pat@) == Some(i as int) && i
                + pat@.len() <= s@.len(),
            None => !occurs(s@, pat@) && find(s@, pat@) is None,
        },
{
    if pat.len() > s.len() {
        return None;
    }
    let last: usize = s.len() - pat.len();
    let mut i: usize = 0;
    loop
        invariant
            i <= last,
            last + pat@.len() == s@.len(),
            forall|j: int| 0 <= j < i ==> !#[trigger] occurs_at(s@, pat@, j),
        ensures
            forall|j: int| 0 <= j <= last ==> !#[trigger] occurs_at(s@, pat@, j),
        decreases last - i,
    {
        if matches_at(s, pat, i) {
            proof {
                lemma_find(s@, pat@, i as int);
            }
            return Some(i);
        }
        if i == last {
            break;
        }
        i += 1;
    }
    None
}

/// Tells whether `pat` stands somewhere in `s`.
pub fn contains(s: &str, pat: &str) -> (r: bool)
    ensures
        r == occurs(s@, pat@),
{
    let a = chars_of(s);
    let b = chars_of(pat);
    match find_chars(&a, &b) {
        Some(_) => true,
        None => false,
    }
}

/// Tells whether `s` begins with `pat`.
pub fn begins(s: &str, pat: &str) -> (r: bool)
    ensures
        r == starts_with(s@, pat@),
{
    let a = chars_of(s);
    let b = chars_of(pat);
    if b.len() > a.len() {
        return false;
    }
    assert(s@.subrange(0, pat@.len() as int) =~= s@.take(pat@.len() as int));
    matches_at(&a, &b, 0)
}

/// What follows `prefix` in `s`, where `s` begins with it.
pub open spec fn after_prefix(s: Seq<char>, prefix: Seq<char>) -> Option<Seq<char>> {
    if starts_with(s, prefix) {
        Some(s.skip(prefix.len() as int))
    } else {
        None
    }
}

/// The view of an optional string.
pub open spec fn opt_view(s: Option<String>) -> Option<Seq<char>> {
    match s {
        Some(x) => Some(x@),
        None => None,
    }
}

/// What follows `prefix` in `s`, where `s` begins with it.
pub fn strip_prefix(s: &str, prefix: &str) -> (r: Option<String>)
    ensures
        opt_view(r) == after_prefix(s@, prefix@),
{
    if begins(s, prefix) {
        let a = chars_of(s);
        let b = chars_of(prefix);
        assert(s@.skip(prefix@.len() as int) =~= s@.subrange(
            prefix@.len() as int,
            s@.len() as int,
        ));
        Some(text_of(&a, b.len(), a.len()))
    } else {
        None
    }
}

/// The texts before and after the leftmost `sep` in `s`.
pub open spec fn around_first(s: Seq<char>, sep: Seq<char>) -> Option<(Seq<char>, Seq<char>)> {
    match find(s, sep) {
        Some(i) => Some((s.take(i), s.skip(i + sep.len()))),
        None => None,
    }
}

/// The view of an optional pair of strings.
pub open spec fn opt_pair_view(s: Option<(String, String)>) -> Option<(Seq<char>, Seq<char>)> {
    match s {
        Some(x) => Some((x.0@, x.1@)),
        None => None,
    }
}

/// Cuts `s` at the leftmost `sep`.
pub fn split_once(s: &str, sep: &str) -> (r: Option<(String, String)>)
    ensures
        opt_pair_view(r) == around_first(s@, sep@),
{
    let a = chars_of(s);
    let b = chars_of(sep);
    match find_chars(&a, &b) {
        Some(i) => {
            assert(s@.take(i as int) =~= s@.subrange(0, i as int));
            assert(s@.skip(i + sep@.len()) =~= s@.subrange(i + sep@.len(), s@.len() as int));
            let n: usize = a.len();
            Some((text_of(&a, 0, i), text_of(&a, i + b.len(), n)))
        },
        None => None,
    }
}

// ---------------------------------------------------------------------------
// Splitting
// ---------------------------------------------------------------------------

/// The parts in front of and behind the last `sep`.
pub open spec fn around_last(s: Seq<char>, sep: char) -> Option<(Seq<char>, Seq<char>)>
    decreases s.len(),
{
    if s.len() == 0 {
        None
    } else if s.last() == sep {
        Some((s.drop_last(), Seq::empty()))
    } else {
        match around_last(s.drop_last(), sep) {
            Some((a, b)) => Some((a, b.push(s.last()))),
            None => None,
        }
    }
}

/// What stands around the last separator, where its place is known.
pub proof fn lemma_around_last(s: Seq<char>, sep: char, at: int)
    requires
        -1 <= at < s.len(),
        forall|k: int| at < k < s.len() ==> #[trigger] s[k] != sep,
        at >= 0 ==> s[at] == sep,
    ensures
        around_last(s, sep) == (if at >= 0 {
            Some((s.take(at), s.skip(at + 1)))
        } else {
            None
        }),
    decreases s.len(),
{
    if s.len() == 0 {
    } else if at == s.len() - 1 {
        assert(s.drop_last() =~= s.take(at));
        assert(s.skip(at + 1) =~= Seq::empty());
    } else {
        assert(s.last() == s[s.len() - 1]);
        lemma_around_last(s.drop_last(), sep, at);
        if at >= 0 {
            assert(s.drop_last().take(at) =~= s.take(at));
            assert(s.drop_last().skip(at + 1).push(s.last()) =~= s.skip(at + 1));
        }
    }
}

/// Splits a text at the last `sep`.
pub fn rsplit_once(s: &str, sep: char) -> (r: Option<(String, String)>)
    ensures
        opt_pair_view(r) == around_last(s@, sep),
{
    let chars = chars_of(s);
    let mut i: usize = chars.len();
    while i > 0
        invariant
            i <= chars@.len(),
            chars@ == s@,
            forall|k: int| i <= k < s@.len() ==> #[trigger] s@[k] != sep,
        decreases i,
    {
        if chars[i - 1] == sep {
            proof {
                lemma_around_last(s@, sep, i - 1);
            }
            let front = text_of(&chars, 0, i - 1);
            let back = text_of(&chars, i, chars.len());
            assert(front@ =~= s@.take(i - 1));
            assert(back@ =~= s@.skip(i as int));
            return Some((front, back));
        }
        i -= 1;
    }
    proof {
        lemma_around_last(s@, sep, -1);
    }
    None
}

/// The pieces of `s` between the occurrences of `sep`: one more than there are
/// separators, and none of them holds `sep`.
pub open spec fn split(s: Seq<char>, sep: char) -> Seq<Seq<char>>
    decreases s.len(),
{
    if s.len() == 0 {
        seq![Seq::<char>::empty()]
    } else {
        let done = split(s.drop_last(), sep);
        if s.last() == sep {
            done.push(Seq::<char>::empty())
        } else {
            done.drop_last().push(done.last().push(s.last()))
        }
    }
}

/// A split has at least one piece.
pub proof fn lemma_split_some(s: Seq<char>, sep: char)
    ensures
        split(s, sep).len() >= 1,
    decreases s.len(),
{
    if s.len() > 0 {
        lemma_split_some(s.drop_last(), sep);
    }
}

/// A text without the separator is one piece.
pub proof fn lemma_split_whole(s: Seq<char>, sep: char)
    requires
        forall|i: int| 0 <= i < s.len() ==> s[i] != sep,
    ensures
        split(s, sep) == seq![s],
    decreases s.len(),
{
    if s.len() > 0 {
        lemma_split_whole(s.drop_last(), sep);
        assert(split(s, sep) =~= seq![s.drop_last().push(s.last())]);
        assert(s.drop_last().push(s.last()) =~= s);
    } else {
        assert(s =~= Seq::<char>::empty());
    }
}

/// The pieces of two texts joined by one separator are those of the first and
/// then those of the second.
pub proof fn lemma_split_join(a: Seq<char>, sep: char, b: Seq<char>)
    ensures
        split(a + seq![sep] + b, sep) == split(a, sep) + split(b, sep),
    decreases b.len(),
{
    let s = a + seq![sep] + b;
    if b.len() == 0 {
        assert(s.drop_last() =~= a);
        assert(split(s, sep) =~= split(a, sep) + split(b, sep));
    } else {
        lemma_split_join(a, sep, b.drop_last());
        lemma_split_some(b.drop_last(), sep);
        assert(s.drop_last() =~= a + seq![sep] + b.drop_last());
        assert(s.last() == b.last());
        assert(split(s, sep) =~= split(a, sep) + split(b, sep));
    }
}

/// Splits `s` at every `sep`.
pub fn split_at_char(s: &str, sep: char) -> (r: Vec<String>)
    ensures
        views(r@) == split(s@, sep),
        r@.len() >= 1,
{
    let chars = chars_of(s);
    let mut out: Vec<String> = Vec::new();
    let mut cur = String::new();
    let mut i: usize = 0;
    assert(split(s@.take(0), sep) =~= views(out@).push(cur@));
    while i < chars.len()
        invariant
            i <= chars@.len(),
            chars@ == s@,
            split(s@.take(i as int), sep) == views(out@).push(cur@),
        decreases chars.len() - i,
    {
        let c = chars[i];
        let ghost before = views(out@).push(cur@);
        assert(s@.take(i + 1).drop_last() =~= s@.take(i as int));
        assert(before.drop_last() =~= views(out@));
        if c == sep {
            proof {
                lemma_views_push(out@, cur);
            }
            out.push(cur);
            cur = String::new();
        } else {
            cur.push(c);
        }
        i += 1;
    }
    assert(s@.take(i as int) =~= s@);
    proof {
        lemma_views_push(out@, cur);
    }
    out.push(cur);
    out
}

/// The maximal runs of characters other than whitespace.
pub open spec fn words(s: Seq<char>) -> Seq<Seq<char>>
    decreases s.len(),
{
    if s.len() == 0 {
        Seq::<Seq<char>>::empty()
    } else {
        let done = words(s.drop_last());
        if is_space(s.last()) {
            done
        } else if s.len() >= 2 && !is_space(s[s.len() - 2]) {
            done.drop_last().push(done.last().push(s.last()))
        } else {
            done.push(seq![s.last()])
        }
    }
}

/// Splits `s` at whitespace.
pub fn split_words(s: &str) -> (r: Vec<String>)
    ensures
        views(r@) == words(s@),
{
    let chars = chars_of(s);
    let mut out: Vec<String> = Vec::new();
    let mut cur = String::new();
    let mut inside = false;
    let mut i: usize = 0;
    assert(words(s@.take(0)) =~= views(out@));
    while i < chars.len()
        invariant
            i <= chars@.len(),
            chars@ == s@,
            inside == (i > 0 && !is_space(s@[i - 1])),
            !inside ==> cur@ == Seq::<char>::empty(),
            inside ==> words(s@.take(i as int)) == views(out@).push(cur@),
            !inside ==> words(s@.take(i as int)) == views(out@),
        decreases chars.len() - i,
    {
        let c = chars[i];
        assert(s@.take(i + 1).drop_last() =~= s@.take(i as int));
        assert(views(out@).push(cur@).drop_last() =~= views(out@));
        if space(c) {
            if inside {
                proof {
                    lemma_views_push(out@, cur);
                }
                out.push(cur);
                cur = String::new();
                inside = false;
            }
        } else {
            if !inside {
                assert(cur@.push(c) =~= seq![c]);
            }
            cur.push(c);
            inside = true;
        }
        i += 1;
    }
    assert(s@.take(i as int) =~= s@);
    if inside {
        proof {
            lemma_views_push(out@, cur);
        }
        out.push(cur);
    }
    out
}

// ---------------------------------------------------------------------------
// Words and trimming
// ---------------------------------------------------------------------------

/// Every character is whitespace.
pub open spec fn all_space(s: Seq<char>) -> bool {
    forall|i: int| 0 <= i < s.len() ==> is_space(#[trigger] s[i])
}

/// No character is whitespace, and there is one.
pub open spec fn is_word(s: Seq<char>) -> bool {
    s.len() > 0 && forall|i: int| 0 <= i < s.len() ==> !is_space(#[trigger] s[i])
}

proof fn lemma_words_some(s: Seq<char>)
    requires
        s.len() > 0,
        !is_space(s.last()),
    ensures
        words(s).len() > 0,
{
}

/// Where two texts meet at whitespace, their words are those of the first and
/// those of the second.
pub proof fn lemma_words_join(x: Seq<char>, t: Seq<char>)
    requires
        x.len() == 0 || t.len() == 0 || is_space(x.last()) || is_space(t[0]),
    ensures
        words(x + t) == words(x) + words(t),
    decreases t.len(),
{
    let s = x + t;
    if t.len() == 0 {
        assert(s =~= x);
        assert(words(x) + words(t) =~= words(x));
    } else {
        let front = t.drop_last();
        assert(s.drop_last() =~= x + front);
        assert(s.last() == t.last());
        lemma_words_join(x, front);
        if t.len() == 1 {
            assert(front =~= Seq::<char>::empty());
            assert(words(x + front) =~= words(x));
            assert(x.len() > 0 ==> s[s.len() - 2] == x.last());
        } else {
            assert(s[s.len() - 2] == t[t.len() - 2]);
            if !is_space(t[t.len() - 2]) {
                assert(front.last() == t[t.len() - 2]);
                lemma_words_some(front);
                assert((words(x) + words(front)).last() == words(front).last());
                assert((words(x) + words(front)).drop_last() =~= words(x)
                    + words(front).drop_last());
            }
        }
        assert(words(s) =~= words(x) + words(t));
    }
}

/// A word is the only one of its text.
pub proof fn lemma_words_of_word(s: Seq<char>)
    requires
        is_word(s),
    ensures
        words(s) == seq![s],
    decreases s.len(),
{
    let front = s.drop_last();
    if s.len() == 1 {
        assert(front =~= Seq::<char>::empty());
        assert(!is_space(s[0]));
        assert(seq![s.last()] =~= s);
        assert(words(front) =~= Seq::<Seq<char>>::empty());
        assert(words(s) =~= seq![s]);
    } else {
        assert forall|i: int| 0 <= i < front.len() implies !is_space(#[trigger] front[i]) by {
            assert(front[i] == s[i]);
        }
        lemma_words_of_word(front);
        assert(!is_space(s[s.len() - 2]) && !is_space(s[s.len() - 1]));
        assert(front.push(s.last()) =~= s);
        assert(words(s) =~= seq![s]);
    }
}

/// Whitespace holds no word.
pub proof fn lemma_words_of_space(s: Seq<char>)
    requires
        all_space(s),
    ensures
        words(s) == Seq::<Seq<char>>::empty(),
    decreases s.len(),
{
    if s.len() > 0 {
        let front = s.drop_last();
        assert forall|i: int| 0 <= i < front.len() implies is_space(#[trigger] front[i]) by {
            assert(front[i] == s[i]);
        }
        lemma_words_of_space(front);
    }
}

/// Trimming leaves the words as they are.
pub proof fn lemma_words_of_trimmed(s: Seq<char>)
    ensures
        words(trim(s)) == words(s),
{
    lemma_words_trim_start(s);
    lemma_words_trim_end(trim_start(s));
}

proof fn lemma_words_trim_start(s: Seq<char>)
    ensures
        words(trim_start(s)) == words(s),
    decreases s.len(),
{
    if s.len() > 0 && is_space(s[0]) {
        lemma_words_trim_start(s.drop_first());
        assert(s =~= s.take(1) + s.drop_first());
        lemma_words_join(s.take(1), s.drop_first());
        lemma_words_of_space(s.take(1));
        assert(words(s) =~= words(s.drop_first()));
    }
}

proof fn lemma_words_trim_end(s: Seq<char>)
    ensures
        words(trim_end(s)) == words(s),
    decreases s.len(),
{
    if s.len() > 0 && is_space(s.last()) {
        lemma_words_trim_end(s.drop_last());
    }
}

/// The words of a text that whitespace keeps apart come out as they are, in
/// their order.
pub proof fn words_come_out_in_order(
    lead: Seq<char>,
    first: Seq<char>,
    gap: Seq<char>,
    rest: Seq<char>,
)
    requires
        all_space(lead),
        is_word(first),
        all_space(gap),
        gap.len() > 0 || rest.len() == 0,
    ensures
        words(lead + first + gap + rest) == seq![first] + words(rest),
{
    lemma_words_of_space(lead);
    lemma_words_of_space(gap);
    lemma_words_of_word(first);
    assert(first[0] == (lead + first)[lead.len() as int]);
    if lead.len() > 0 {
        assert(is_space(lead.last()));
    }
    lemma_words_join(lead, first);
    if gap.len() > 0 {
        assert(is_space(gap[0]));
        assert((lead + first + gap).last() == gap.last());
        assert(is_space(gap.last()));
    }
    lemma_words_join(lead + first, gap);
    lemma_words_join(lead + first + gap, rest);
    assert(words(lead + first + gap + rest) =~= seq![first] + words(rest));
}

/// Whitespace around a text that neither begins nor ends with any is trimmed
/// away, and nothing else is.
pub proof fn trimming_takes_space_alone(lead: Seq<char>, s: Seq<char>, tail: Seq<char>)
    requires
        all_space(lead),
        all_space(tail),
        s.len() > 0,
        !is_space(s[0]),
        !is_space(s.last()),
    ensures
        trim(lead + s + tail) == s,
{
    assert(lead + s + tail =~= lead + (s + tail));
    assert((s + tail)[0] == s[0]);
    lemma_trim_lead(lead, s + tail);
    lemma_trim_tail(s, tail);
}

/// Leading whitespace goes.
pub proof fn lemma_trim_lead(lead: Seq<char>, s: Seq<char>)
    requires
        all_space(lead),
        s.len() > 0,
        !is_space(s[0]),
    ensures
        trim_start(lead + s) == s,
    decreases lead.len(),
{
    if lead.len() == 0 {
        assert(lead + s =~= s);
    } else {
        assert(is_space(lead[0]));
        assert((lead + s).drop_first() =~= lead.drop_first() + s);
        assert forall|i: int| 0 <= i < lead.drop_first().len() implies is_space(
            #[trigger] lead.drop_first()[i],
        ) by {
            assert(lead.drop_first()[i] == lead[i + 1]);
        }
        lemma_trim_lead(lead.drop_first(), s);
    }
}

/// Trailing whitespace goes.
pub proof fn lemma_trim_tail(s: Seq<char>, tail: Seq<char>)
    requires
        all_space(tail),
        s.len() > 0,
        !is_space(s.last()),
    ensures
        trim_end(s + tail) == s,
    decreases tail.len(),
{
    if tail.len() == 0 {
        assert(s + tail =~= s);
    } else {
        assert(is_space(tail.last()));
        assert((s + tail).drop_last() =~= s + tail.drop_last());
        assert forall|i: int| 0 <= i < tail.drop_last().len() implies is_space(
            #[trigger] tail.drop_last()[i],
        ) by {
            assert(tail.drop_last()[i] == tail[i]);
        }
        lemma_trim_tail(s, tail.drop_last());
    }
}

/// A text that does not begin with whitespace keeps its first character.
pub proof fn lemma_trim_end_first(s: Seq<char>)
    requires
        s.len() > 0,
        !is_space(s[0]),
    ensures
        trim_end(s).len() > 0,
        trim_end(s)[0] == s[0],
    decreases s.len(),
{
    if is_space(s.last()) {
        assert(s.drop_last()[0] == s[0]);
        lemma_trim_end_first(s.drop_last());
    }
}

/// The blank, the tab and the two line ends are whitespace, and no printable
/// ASCII character is.
pub proof fn printable_characters_are_no_space(c: char)
    ensures
        c == ' ' || c == '\t' || c == '\r' || c == '\n' ==> is_space(c),
        '!' <= c <= '~' ==> !is_space(c),
{
}

/// Lower case changes the 26 capital letters alone, each into its small letter.
pub proof fn only_capitals_change(s: Seq<char>, i: int)
    requires
        0 <= i < s.len(),
    ensures
        ascii_lower(s).len() == s.len(),
        'A' <= s[i] <= 'Z' ==> ascii_lower(s)[i] as int == s[i] as int + 32,
        !('A' <= s[i] <= 'Z') ==> ascii_lower(s)[i] == s[i],
        ascii_upper(s).len() == s.len(),
        'a' <= s[i] <= 'z' ==> ascii_upper(s)[i] as int == s[i] as int - 32,
        !('a' <= s[i] <= 'z') ==> ascii_upper(s)[i] == s[i],
{
}

/// What stands in the middle of a text occurs in it.
pub proof fn lemma_occurs_within<T>(front: Seq<T>, middle: Seq<T>, back: Seq<T>)
    ensures
        occurs(front + middle + back, middle),
{
    let s = front + middle + back;
    let n = front.len() as int;
    assert(s.subrange(n, n + middle.len()) =~= middle);
    assert(occurs_at(s, middle, n));
}

/// Of space alone nothing is left.
pub proof fn lemma_trim_blank(s: Seq<char>)
    requires
        all_space(s),
    ensures
        trim(s).len() == 0,
    decreases s.len(),
{
    if s.len() > 0 {
        let rest = s.drop_first();
        assert forall|i: int| 0 <= i < rest.len() implies is_space(
            #[trigger] rest[i],
        ) by {
            assert(rest[i] == s[i + 1]);
        }
        lemma_trim_blank(rest);
    }
}

/// A text occurs in itself.
pub proof fn lemma_occurs_itself<T>(s: Seq<T>)
    ensures
        occurs(s, s),
{
    assert(s.subrange(0, s.len() as int) =~= s);
    assert(occurs_at(s, s, 0));
}

/// What occurs in a text occurs in a longer one.
pub proof fn lemma_occurs_longer<T>(s: Seq<T>, pat: Seq<T>, more: Seq<T>)
    requires
        occurs(s, pat),
    ensures
        occurs(s + more, pat),
{
    let i = choose|i: int| #[trigger] occurs_at(s, pat, i);
    assert((s + more).subrange(i, i + pat.len()) =~= s.subrange(i, i + pat.len()));
    assert(occurs_at(s + more, pat, i));
}

/// Three pieces occur together where they stand one after another.
pub proof fn lemma_three_within<T>(front: Seq<T>, a: Seq<T>, b: Seq<T>, c: Seq<T>)
    ensures
        occurs(front + a + b + c, a + b + c),
{
    let s = front + a + b + c;
    let pat = a + b + c;
    let n = front.len() as int;
    assert(s.subrange(n, n + pat.len()) =~= pat);
    assert(occurs_at(s, pat, n));
}

/// A longer text begins as the shorter one does.
pub proof fn lemma_starts_longer<T>(s: Seq<T>, pat: Seq<T>, more: Seq<T>)
    requires
        starts_with(s, pat),
    ensures
        starts_with(s + more, pat),
{
    assert((s + more).take(pat.len() as int) =~= s.take(pat.len() as int));
}

} // verus!
