//! How long a page stays fresh, as its origin says.

use vstd::prelude::*;
use crate::number::{decimal_signed, read_i64, signed};
use crate::server::config::Config;
use crate::text::{
    after_prefix, all_space, ascii_lower, is_space, is_word, opt_view, same, split, split_at_char,
    starts_with, strip_prefix, to_ascii_lower, trim, trimmed, views,
};

verus! {

/// Bounds on how long a page stays fresh.
pub struct CcDefaults {
    pub default_max_age: i32,
    pub max_max_age: i32,
}

/// What an origin says of a page.
pub struct OriginDirectives {
    pub max_age: i32,
}

/// The seconds from the start of 1970 to the point in time that an HTTP date
/// names, where a text is one.
pub uninterp spec fn http_date_secs(text: Seq<char>) -> Option<u64>;

/// `parse_http_date` of the `httpdate` crate, whose dates lie from 1970 on and
/// have whole seconds.
#[verifier::external_body]
fn parse_http_date(text: &str) -> (r: Option<u64>)
    ensures
        r == http_date_secs(text@),
{
    let time = httpdate::parse_http_date(text).ok()?;
    let since = time.duration_since(std::time::UNIX_EPOCH).ok()?;
    Some(since.as_secs())
}

/// The directives of a `Cache-Control` header: lower case, trimmed, with commas
/// between them.
pub open spec fn directives(cc: Seq<char>) -> Seq<Seq<char>> {
    split(ascii_lower(cc), ',').map_values(|t: Seq<char>| trim(t))
}

/// The number behind the first directive that begins with `name`, where it is
/// one.
pub open spec fn seconds_of(tokens: Seq<Seq<char>>, name: Seq<char>) -> Option<int>
    decreases tokens.len(),
{
    if tokens.len() == 0 {
        None
    } else {
        match after_prefix(tokens[0], name) {
            Some(v) => signed(v, i64::MAX as nat),
            None => seconds_of(tokens.drop_first(), name),
        }
    }
}

/// A number within bounds.
pub open spec fn clamped(n: int, max: int) -> int {
    if n < 0 {
        0
    } else if n > max {
        max
    } else {
        n
    }
}

/// What the directives of a `Cache-Control` header say: not to be kept, to be
/// asked about every time, or fresh for so long. A shared cache's own age goes
/// before the general one.
pub open spec fn age_by_directives(tokens: Seq<Seq<char>>, default: int, max: int) -> int {
    if tokens.contains("no-store"@) || tokens.contains("private"@) {
        -1
    } else if tokens.contains("no-cache"@) {
        0
    } else {
        match (seconds_of(tokens, "s-maxage="@), seconds_of(tokens, "max-age="@)) {
            (Some(n), _) => clamped(n, max),
            (None, Some(n)) => clamped(n, max),
            (None, None) => default,
        }
    }
}

/// Tells whether the directives leave the answer to a number of seconds.
pub open spec fn names_seconds(tokens: Seq<Seq<char>>) -> bool {
    &&& !tokens.contains("no-store"@)
    &&& !tokens.contains("private"@)
    &&& !tokens.contains("no-cache"@)
    &&& seconds_of(tokens, "s-maxage="@) is Some || seconds_of(tokens, "max-age="@) is Some
}

/// A bound as an unsigned number of 64 bits; a negative one wraps round.
pub open spec fn unsigned_bound(max: int) -> int {
    if max < 0 {
        max + 0x1_0000_0000_0000_0000
    } else {
        max
    }
}

/// The lower 32 bits of a number, as a signed number.
pub open spec fn low_half(n: int) -> int {
    let m = n % 0x1_0000_0000;
    if m >= 0x8000_0000 {
        m - 0x1_0000_0000
    } else {
        m
    }
}

/// What the time from `Date` to `Expires` says, the two given in seconds: that
/// time, or the bound where it is less. A negative bound bounds nothing, and
/// the time is then cut to 32 bits.
pub open spec fn age_by_dates(expires: Option<u64>, date: Option<u64>, default: int, max: int) -> int {
    match (expires, date) {
        (Some(e), Some(d)) => if e >= d {
            if e - d < unsigned_bound(max) {
                low_half(e - d)
            } else {
                low_half(unsigned_bound(max))
            }
        } else {
            default
        },
        _ => default,
    }
}

/// The seconds that an optional header names.
pub open spec fn opt_date(text: Option<&str>) -> Option<u64> {
    match text {
        Some(s) => http_date_secs(s@),
        None => None,
    }
}

/// Tells whether a directive is among others.
fn has_token(tokens: &Vec<String>, name: &str) -> (r: bool)
    ensures
        r == views(tokens@).contains(name@),
{
    let ghost all = views(tokens@);
    let mut i: usize = 0;
    while i < tokens.len()
        invariant
            i <= tokens@.len(),
            all == views(tokens@),
            forall|k: int| 0 <= k < i ==> #[trigger] all[k] != name@,
        decreases tokens.len() - i,
    {
        if same(tokens[i].as_str(), name) {
            assert(all[i as int] == name@);
            return true;
        }
        i += 1;
    }
    false
}

/// The number behind the first directive that begins with `name`.
fn find_seconds(tokens: &Vec<String>, name: &str) -> (r: Option<i64>)
    ensures
        match r {
            Some(n) => seconds_of(views(tokens@), name@) == Some(n as int),
            None => seconds_of(views(tokens@), name@) is None,
        },
{
    let ghost all = views(tokens@);
    let mut i: usize = 0;
    assert(all.skip(0) =~= all);
    while i < tokens.len()
        invariant
            i <= tokens@.len(),
            all == views(tokens@),
            seconds_of(all, name@) == seconds_of(all.skip(i as int), name@),
        decreases tokens.len() - i,
    {
        assert(all.skip(i as int)[0] == tokens@[i as int]@);
        assert(all.skip(i as int).drop_first() =~= all.skip(i + 1));
        if let Some(v) = strip_prefix(tokens[i].as_str(), name) {
            return read_i64(v.as_str());
        }
        i += 1;
    }
    assert(all.skip(i as int) =~= Seq::<Seq<char>>::empty());
    None
}

/// The directives of a `Cache-Control` header.
fn read_directives(cc: &str) -> (r: Vec<String>)
    ensures
        views(r@) == directives(cc@),
{
    let pieces = split_at_char(to_ascii_lower(cc).as_str(), ',');
    let ghost all = split(ascii_lower(cc@), ',');
    let mut out: Vec<String> = Vec::new();
    let mut i: usize = 0;
    assert(views(out@) =~= directives(cc@).take(0));
    while i < pieces.len()
        invariant
            i <= pieces@.len(),
            all == views(pieces@),
            all == split(ascii_lower(cc@), ','),
            views(out@) == directives(cc@).take(i as int),
        decreases pieces.len() - i,
    {
        let t = trimmed(pieces[i].as_str());
        assert(all[i as int] == pieces@[i as int]@);
        proof {
            crate::text::lemma_views_push(out@, t);
        }
        assert(directives(cc@).take(i + 1) =~= directives(cc@).take(i as int).push(t@));
        out.push(t);
        i += 1;
    }
    assert(directives(cc@).take(i as int) =~= directives(cc@));
    out
}

/// Decides from the directives of a `Cache-Control` header.
pub fn age_from_directives(tokens: &Vec<String>, defaults: &CcDefaults) -> (r: i32)
    requires
        names_seconds(views(tokens@)) ==> defaults.max_max_age >= 0,
    ensures
        r == age_by_directives(
            views(tokens@),
            defaults.default_max_age as int,
            defaults.max_max_age as int,
        ),
{
    if has_token(tokens, "no-store") || has_token(tokens, "private") {
        return -1;
    }
    if has_token(tokens, "no-cache") {
        return 0;
    }
    let picked = match find_seconds(tokens, "s-maxage=") {
        Some(n) => Some(n),
        None => find_seconds(tokens, "max-age="),
    };
    match picked {
        Some(n) => {
            if n < 0 {
                0
            } else if n > defaults.max_max_age as i64 {
                defaults.max_max_age
            } else {
                n as i32
            }
        },
        None => defaults.default_max_age,
    }
}

/// Tells whether a `Cache-Control` header leaves the answer to a number of
/// seconds, which the bound then limits.
pub fn leaves_it_to_seconds(cc: &str) -> (r: bool)
    ensures
        r == names_seconds(directives(cc@)),
{
    let tokens = read_directives(cc);
    !has_token(&tokens, "no-store") && !has_token(&tokens, "private") && !has_token(
        &tokens,
        "no-cache",
    ) && (find_seconds(&tokens, "s-maxage=").is_some() || find_seconds(
        &tokens,
        "max-age=",
    ).is_some())
}

/// Decides from the dates of the page, in seconds.
pub fn age_from_dates(expires: Option<u64>, date: Option<u64>, defaults: &CcDefaults) -> (r: i32)
    ensures
        r == age_by_dates(
            expires,
            date,
            defaults.default_max_age as int,
            defaults.max_max_age as int,
        ),
{
    match (expires, date) {
        (Some(e), Some(d)) => {
            if e < d {
                return defaults.default_max_age;
            }
            let bound: u64 = if defaults.max_max_age < 0 {
                u64::MAX - ((-(defaults.max_max_age as i64) - 1) as u64)
            } else {
                defaults.max_max_age as u64
            };
            let secs: u64 = if e - d < bound {
                e - d
            } else {
                bound
            };
            let low: u64 = secs % 0x1_0000_0000;
            if low >= 0x8000_0000 {
                (low as i64 - 0x1_0000_0000) as i32
            } else {
                low as i32
            }
        },
        _ => defaults.default_max_age,
    }
}

/// How long a page stays fresh: by its `Cache-Control` header where it has one,
/// else by its `Expires` and `Date` headers, else the default. A negative
/// number means that it is not to be kept.
pub fn parse_cache_control(
    cc: Option<&str>,
    expires: Option<&str>,
    date: Option<&str>,
    defaults: &CcDefaults,
) -> (r: i32)
    requires
        cc matches Some(s) ==> (names_seconds(directives(s@)) ==> defaults.max_max_age >= 0),
    ensures
        r == (match cc {
            Some(s) => age_by_directives(
                directives(s@),
                defaults.default_max_age as int,
                defaults.max_max_age as int,
            ),
            None => age_by_dates(
                opt_date(expires),
                opt_date(date),
                defaults.default_max_age as int,
                defaults.max_max_age as int,
            ),
        }),
{
    match cc {
        Some(s) => age_from_directives(&read_directives(s), defaults),
        None => {
            let e = match expires {
                Some(s) => parse_http_date(s),
                None => None,
            };
            let d = match date {
                Some(s) => parse_http_date(s),
                None => None,
            };
            age_from_dates(e, d, defaults)
        },
    }
}

/// What the origin replied to a probe.
pub struct ProbeReply {
    pub status: u16,
    pub cc: Option<String>,
    pub expires: Option<String>,
    pub date: Option<String>,
}

impl ProbeReply {
    /// A success or a redirection, whose headers count.
    pub open spec fn counts(&self) -> bool {
        200 <= self.status < 400
    }
}

/// What follows the reply to a probe.
pub enum ProbeStep {
    Finish(OriginDirectives),
    /// The same once more, as an ordinary request.
    AskAgain,
}

/// The view of an optional header, as a reference.
fn header_ref(h: &Option<String>) -> (r: Option<&str>)
    ensures
        match *h {
            Some(s) => r matches Some(t) && t@ == s@,
            None => r is None,
        },
{
    match h {
        Some(s) => Some(s.as_str()),
        None => None,
    }
}

/// The age that headers give.
pub open spec fn age_by_headers(
    cc: Option<Seq<char>>,
    expires: Option<Seq<char>>,
    date: Option<Seq<char>>,
    default: int,
    max: int,
) -> int {
    let secs = |h: Option<Seq<char>>|
        match h {
            Some(s) => http_date_secs(s),
            None => None,
        };
    match cc {
        Some(s) => age_by_directives(directives(s), default, max),
        None => age_by_dates(secs(expires), secs(date), default, max),
    }
}

/// Decides what follows a probe of the origin. There is no reply where the
/// request could not be made. `again` tells that it was made as an ordinary
/// request already. The headers of a success or a redirection are read; an
/// origin that refuses the method is asked once more; all else gives the
/// default.
pub fn probe_origin_cc(reply: Option<ProbeReply>, again: bool, config: &Config) -> (r: ProbeStep)
    requires
        reply matches Some(p) ==> (p.counts() ==> (p.cc matches Some(s) ==> (names_seconds(
            directives(s@),
        ) ==> config.max_max_age_seconds >= 0))),
    ensures
        match reply {
            Some(p) => if p.counts() {
                r matches ProbeStep::Finish(d) && d.max_age == age_by_headers(
                    opt_view(p.cc),
                    opt_view(p.expires),
                    opt_view(p.date),
                    config.default_max_age_seconds as int,
                    config.max_max_age_seconds as int,
                )
            } else if p.status == 405 && !again {
                r is AskAgain
            } else {
                r matches ProbeStep::Finish(d) && d.max_age == config.default_max_age_seconds
            },
            None => r matches ProbeStep::Finish(d) && d.max_age == config.default_max_age_seconds,
        },
{
    let defaults = CcDefaults {
        default_max_age: config.default_max_age_seconds,
        max_max_age: config.max_max_age_seconds,
    };
    if let Some(p) = reply {
        if 200 <= p.status && p.status < 400 {
            let max_age: i32 = parse_cache_control(
                header_ref(&p.cc),
                header_ref(&p.expires),
                header_ref(&p.date),
                &defaults,
            );
            return ProbeStep::Finish(OriginDirectives { max_age });
        }
        if p.status == 405 && !again {
            return ProbeStep::AskAgain;
        }
    }
    ProbeStep::Finish(OriginDirectives { max_age: defaults.default_max_age })
}

/// What an origin says is never more than the bound allows, unless the default
/// itself is.
pub proof fn ages_stay_within_the_bound(
    cc: Option<Seq<char>>,
    expires: Option<Seq<char>>,
    date: Option<Seq<char>>,
    default: int,
    max: int,
)
    requires
        0 <= max <= i32::MAX,
        -1 <= default <= max,
    ensures
        -1 <= age_by_headers(cc, expires, date, default, max) <= max,
{
}

/// The directives of two headers joined by a comma are those of the first and
/// those of the second.
pub proof fn directives_are_read_apart(a: Seq<char>, b: Seq<char>)
    ensures
        directives(a + seq![','] + b) == directives(a) + directives(b),
{
    assert(ascii_lower(a + seq![','] + b) =~= ascii_lower(a) + seq![','] + ascii_lower(b));
    crate::text::lemma_split_join(ascii_lower(a), ',', ascii_lower(b));
    assert(directives(a + seq![','] + b) =~= directives(a) + directives(b));
}

/// A directive counts whatever the case of its letters and whatever space is
/// around it.
pub proof fn directives_are_read_plainly(lead: Seq<char>, word: Seq<char>, tail: Seq<char>)
    requires
        all_space(lead),
        all_space(tail),
        is_word(word),
        !word.contains(','),
    ensures
        directives(lead + word + tail) == seq![ascii_lower(word)],
{
    let s = ascii_lower(lead + word + tail);
    assert(s =~= ascii_lower(lead) + ascii_lower(word) + ascii_lower(tail));
    assert(ascii_lower(lead) =~= lead) by {
        assert forall|i: int| 0 <= i < lead.len() implies ascii_lower(lead)[i] == lead[i] by {
            assert(is_space(lead[i]));
        }
    }
    assert(ascii_lower(tail) =~= tail) by {
        assert forall|i: int| 0 <= i < tail.len() implies ascii_lower(tail)[i] == tail[i] by {
            assert(is_space(tail[i]));
        }
    }
    let w = ascii_lower(word);
    assert forall|i: int| 0 <= i < w.len() implies !is_space(#[trigger] w[i]) && w[i] != ',' by {
        assert(!is_space(word[i]));
        assert(word.contains(word[i]));
        assert(word[i] != ',');
    }
    assert forall|i: int| 0 <= i < s.len() implies s[i] != ',' by {
        if i < lead.len() {
            assert(s[i] == lead[i] && is_space(lead[i]));
        } else if i < lead.len() + w.len() {
            assert(s[i] == w[i - lead.len()]);
        } else {
            assert(s[i] == tail[i - lead.len() - w.len()]);
            assert(is_space(tail[i - lead.len() - w.len()]));
        }
    }
    crate::text::lemma_split_whole(s, ',');
    crate::text::trimming_takes_space_alone(lead, w, tail);
    assert(directives(lead + word + tail) =~= seq![w]);
}

/// A page that the origin forbids to keep is not kept, whatever else it says;
/// one that it wants to be asked about is asked about every time.
pub proof fn prohibitions_go_first(tokens: Seq<Seq<char>>, default: int, max: int, i: int)
    requires
        0 <= i < tokens.len(),
    ensures
        tokens[i] == "no-store"@ || tokens[i] == "private"@ ==> age_by_directives(
            tokens,
            default,
            max,
        ) == -1,
        tokens[i] == "no-cache"@ ==> age_by_directives(tokens, default, max) == -1
            || age_by_directives(tokens, default, max) == 0,
        tokens[i] == "no-cache"@ && !tokens.contains("no-store"@) && !tokens.contains("private"@)
            ==> age_by_directives(tokens, default, max) == 0,
{
    assert(tokens.contains(tokens[i]));
}

/// What the origin says to shared caches goes before what it says to all: with
/// the one number given, the other changes nothing, and the age is that number,
/// brought within zero and the bound.
pub proof fn shared_ages_go_first(
    tokens: Seq<Seq<char>>,
    others: Seq<Seq<char>>,
    n: int,
    default: int,
    max: int,
)
    requires
        forall|t: Seq<char>| #[trigger]
            tokens.contains(t) || others.contains(t) ==> t != "no-store"@ && t != "private"@ && t
                != "no-cache"@,
        seconds_of(tokens, "s-maxage="@) == Some(n),
        seconds_of(others, "s-maxage="@) == Some(n),
        max >= 0,
    ensures
        age_by_directives(tokens, default, max) == age_by_directives(others, default, max),
        0 <= n <= max ==> age_by_directives(tokens, default, max) == n,
        n > max ==> age_by_directives(tokens, default, max) == max,
        n < 0 ==> age_by_directives(tokens, default, max) == 0,
{
}

/// Without a number for shared caches the general one counts, and without either
/// the default does.
pub proof fn general_ages_come_next(tokens: Seq<Seq<char>>, default: int, max: int)
    requires
        !tokens.contains("no-store"@),
        !tokens.contains("private"@),
        !tokens.contains("no-cache"@),
        seconds_of(tokens, "s-maxage="@) is None,
        max >= 0,
    ensures
        match seconds_of(tokens, "max-age="@) {
            Some(n) => {
                &&& 0 <= n <= max ==> age_by_directives(tokens, default, max) == n
                &&& n > max ==> age_by_directives(tokens, default, max) == max
                &&& n < 0 ==> age_by_directives(tokens, default, max) == 0
            },
            None => age_by_directives(tokens, default, max) == default,
        },
{
}

/// The first directive of a name gives its number, wherever it stands among
/// others.
pub proof fn numbers_are_found(
    before: Seq<Seq<char>>,
    name: Seq<char>,
    n: int,
    after: Seq<Seq<char>>,
)
    requires
        i64::MIN <= n <= i64::MAX,
        forall|i: int| 0 <= i < before.len() ==> !starts_with(#[trigger] before[i], name),
    ensures
        seconds_of(before + seq![name + decimal_signed(n)] + after, name) == Some(n),
    decreases before.len(),
{
    let all = before + seq![name + decimal_signed(n)] + after;
    if before.len() == 0 {
        assert(all[0] == name + decimal_signed(n));
        assert((name + decimal_signed(n)).take(name.len() as int) =~= name);
        assert((name + decimal_signed(n)).skip(name.len() as int) =~= decimal_signed(n));
        crate::number::signed_decimal_round_trip(n, i64::MAX as nat);
    } else {
        let less = before.drop_first();
        assert(all[0] == before[0]);
        assert forall|i: int| 0 <= i < less.len() implies !starts_with(#[trigger] less[i], name) by {
            assert(less[i] == before[i + 1]);
        }
        assert(all.drop_first() =~= less + seq![name + decimal_signed(n)] + after);
        numbers_are_found(less, name, n, after);
    }
}

/// A page with two dates is fresh for the time between them, and no longer than
/// the bound. One that has expired before it was sent, or lacks a date, is fresh
/// for the default.
pub proof fn dates_give_the_time_between_them(
    expires: Option<u64>,
    date: Option<u64>,
    default: int,
    max: int,
)
    requires
        0 <= max <= i32::MAX,
    ensures
        match (expires, date) {
            (Some(e), Some(d)) => {
                &&& e >= d && e - d <= max ==> age_by_dates(expires, date, default, max) == e - d
                &&& e >= d && e - d > max ==> age_by_dates(expires, date, default, max) == max
                &&& e < d ==> age_by_dates(expires, date, default, max) == default
            },
            _ => age_by_dates(expires, date, default, max) == default,
        },
{
}

/// Directives go before dates: where there are any, the dates change nothing.
pub proof fn directives_go_before_dates(
    cc: Seq<char>,
    expires: Option<Seq<char>>,
    date: Option<Seq<char>>,
    default: int,
    max: int,
)
    ensures
        age_by_headers(Some(cc), expires, date, default, max) == age_by_directives(
            directives(cc),
            default,
            max,
        ),
        age_by_headers(Some(cc), expires, date, default, max) == age_by_headers(
            Some(cc),
            None,
            None,
            default,
            max,
        ),
        expires is None || date is None ==> age_by_headers(None, expires, date, default, max)
            == default,
{
}

/// The headers of a success and of a redirection count, those of other replies
/// do not.
pub proof fn successes_and_redirections_count(p: ProbeReply)
    ensures
        p.status as int / 100 == 2 || p.status as int / 100 == 3 <==> p.counts(),
{
}

/// A time that is not negative and fits is taken as it is, and what does not fit
/// is cut to 32 bits.
pub proof fn times_are_cut_to_thirty_two_bits(n: int, k: int)
    ensures
        i32::MIN <= low_half(n) <= i32::MAX,
        i32::MIN <= n <= i32::MAX ==> low_half(n) == n,
        low_half(n + k * 0x1_0000_0000) == low_half(n),
        unsigned_bound(if n < 0 {
            -1
        } else {
            n
        }) == (if n < 0 {
            u64::MAX as int
        } else {
            n
        }),
{
    vstd::arithmetic::div_mod::lemma_mod_multiples_vanish(k, n, 0x1_0000_0000);
    assert((n + k * 0x1_0000_0000) % 0x1_0000_0000 == n % 0x1_0000_0000) by {
        assert(0x1_0000_0000 * k == k * 0x1_0000_0000);
    }
}

} // verus!
