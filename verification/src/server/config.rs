//! The node's settings, as environment variables give them.

use vstd::prelude::*;
use crate::number::{
    all_digits, decimal, decimal_signed, lemma_decimal, read_i32, read_unsigned, signed,
    signed_decimal_round_trip, unsigned, unsigned_decimal_round_trip,
};
use crate::text::{
    ascii_lower, lemma_split_join, lemma_split_whole, lower, opt_view, same, split, split_at_char,
    to_lowercase, trim, trimmed, views,
};

verus! {

/// The views of names and values.
pub open spec fn var_views(v: Seq<(String, String)>) -> Seq<(Seq<char>, Seq<char>)> {
    v.map_values(|p: (String, String)| (p.0@, p.1@))
}

/// The value of a variable: that of the first with the name.
pub open spec fn var(vars: Seq<(Seq<char>, Seq<char>)>, key: Seq<char>) -> Option<Seq<char>>
    decreases vars.len(),
{
    if vars.len() == 0 {
        None
    } else if vars[0].0 == key {
        Some(vars[0].1)
    } else {
        var(vars.drop_first(), key)
    }
}

/// The number that a variable gives, or another where it gives none.
pub open spec fn var_number(v: Option<Seq<char>>, max: nat, default: nat) -> nat {
    match v {
        Some(s) => match unsigned(s, max) {
            Some(n) => n,
            None => default,
        },
        None => default,
    }
}

/// The signed number that a variable gives, or another where it gives none.
pub open spec fn var_signed(v: Option<Seq<char>>, default: int) -> int {
    match v {
        Some(s) => match signed(s, i32::MAX as nat) {
            Some(n) => n,
            None => default,
        },
        None => default,
    }
}

/// Yes or no, where a word means either.
pub open spec fn answer(s: Seq<char>) -> Option<bool> {
    let w = lower(s);
    if w == "true"@ || w == "1"@ || w == "yes"@ || w == "on"@ {
        Some(true)
    } else if w == "false"@ || w == "0"@ || w == "no"@ || w == "off"@ {
        Some(false)
    } else {
        None
    }
}

/// The answer that a variable gives, or another where it gives none.
pub open spec fn var_answer(v: Option<Seq<char>>, default: bool) -> bool {
    match v {
        Some(s) => match answer(s) {
            Some(b) => b,
            None => default,
        },
        None => default,
    }
}

/// The pieces of a list, trimmed, the blank ones left out.
pub open spec fn items(pieces: Seq<Seq<char>>) -> Seq<Seq<char>>
    decreases pieces.len(),
{
    if pieces.len() == 0 {
        Seq::<Seq<char>>::empty()
    } else {
        let done = items(pieces.drop_last());
        let item = trim(pieces.last());
        if item.len() == 0 {
            done
        } else {
            done.push(item)
        }
    }
}

/// The list that a variable gives with commas between its items, or another
/// where it is not set.
pub open spec fn var_list(v: Option<Seq<char>>, default: Seq<Seq<char>>) -> Seq<Seq<char>> {
    match v {
        Some(s) => items(split(s, ',')),
        None => default,
    }
}

/// The text that a variable gives, or another where it is not set.
pub open spec fn var_text(v: Option<Seq<char>>, default: Seq<char>) -> Seq<char> {
    match v {
        Some(s) => s,
        None => default,
    }
}

/// Finds the value of a variable.
pub fn find_var(vars: &Vec<(String, String)>, key: &str) -> (r: Option<String>)
    ensures
        opt_view(r) == var(var_views(vars@), key@),
{
    let ghost all = var_views(vars@);
    let mut i: usize = 0;
    assert(all.skip(0) =~= all);
    while i < vars.len()
        invariant
            i <= vars@.len(),
            all == var_views(vars@),
            var(all, key@) == var(all.skip(i as int), key@),
        decreases vars.len() - i,
    {
        assert(all.skip(i as int)[0] == all[i as int]);
        assert(all.skip(i as int).drop_first() =~= all.skip(i + 1));
        if same(vars[i].0.as_str(), key) {
            return Some(vars[i].1.clone());
        }
        i += 1;
    }
    assert(all.skip(i as int) =~= Seq::<(Seq<char>, Seq<char>)>::empty());
    None
}

/// Reads a number from a variable.
fn parse_env_number(vars: &Vec<(String, String)>, key: &str, max: u64, default: u64) -> (r: u64)
    requires
        default <= max,
    ensures
        r == var_number(var(var_views(vars@), key@), max as nat, default as nat),
        r <= max,
{
    match find_var(vars, key) {
        Some(s) => match read_unsigned(s.as_str(), max) {
            Some(n) => n,
            None => default,
        },
        None => default,
    }
}

/// Reads a 16-bit number from a variable.
pub fn parse_env_u16(vars: &Vec<(String, String)>, key: &str, default: u16) -> (r: u16)
    ensures
        r == var_number(var(var_views(vars@), key@), u16::MAX as nat, default as nat),
{
    parse_env_number(vars, key, 0xffff, default as u64) as u16
}

/// Reads a 32-bit number from a variable.
pub fn parse_env_u32(vars: &Vec<(String, String)>, key: &str, default: u32) -> (r: u32)
    ensures
        r == var_number(var(var_views(vars@), key@), u32::MAX as nat, default as nat),
{
    parse_env_number(vars, key, 0xffff_ffff, default as u64) as u32
}

/// Reads a 64-bit number from a variable.
pub fn parse_env_u64(vars: &Vec<(String, String)>, key: &str, default: u64) -> (r: u64)
    ensures
        r == var_number(var(var_views(vars@), key@), u64::MAX as nat, default as nat),
{
    parse_env_number(vars, key, u64::MAX, default)
}

/// Reads a signed number from a variable.
fn parse_env_i32(vars: &Vec<(String, String)>, key: &str, default: i32) -> (r: i32)
    ensures
        r == var_signed(var(var_views(vars@), key@), default as int),
{
    match find_var(vars, key) {
        Some(s) => match read_i32(s.as_str()) {
            Some(n) => n,
            None => default,
        },
        None => default,
    }
}

/// Reads an answer from a variable.
pub fn parse_env_bool(vars: &Vec<(String, String)>, key: &str, default: bool) -> (r: bool)
    ensures
        r == var_answer(var(var_views(vars@), key@), default),
{
    match find_var(vars, key) {
        Some(s) => {
            let w = to_lowercase(s.as_str());
            if same(w.as_str(), "true") || same(w.as_str(), "1") || same(w.as_str(), "yes") || same(
                w.as_str(),
                "on",
            ) {
                true
            } else if same(w.as_str(), "false") || same(w.as_str(), "0") || same(w.as_str(), "no")
                || same(w.as_str(), "off") {
                false
            } else {
                default
            }
        },
        None => default,
    }
}

/// The items of a list.
fn list_items(text: &str) -> (r: Vec<String>)
    ensures
        views(r@) == items(split(text@, ',')),
{
    let pieces = split_at_char(text, ',');
    let ghost all = split(text@, ',');
    assert(all.len() == pieces@.len());
    assert(forall|k: int| 0 <= k < all.len() ==> all[k] == (#[trigger] pieces@[k])@);
    let mut out: Vec<String> = Vec::new();
    let mut i: usize = 0;
    assert(views(out@) =~= items(all.take(0)));
    while i < pieces.len()
        invariant
            i <= pieces@.len(),
            all.len() == pieces@.len(),
            forall|k: int| 0 <= k < all.len() ==> all[k] == (#[trigger] pieces@[k])@,
            views(out@) == items(all.take(i as int)),
        decreases pieces.len() - i,
    {
        assert(all.take(i + 1).drop_last() =~= all.take(i as int));
        assert(all.take(i + 1).last() == pieces@[i as int]@);
        let item = trimmed(pieces[i].as_str());
        if !item.as_str().is_empty() {
            proof {
                crate::text::lemma_views_push(out@, item);
            }
            out.push(item);
        }
        i += 1;
    }
    assert(all.take(i as int) =~= all);
    out
}

/// Reads a list from a variable.
pub fn parse_env_vec(vars: &Vec<(String, String)>, key: &str, default: Vec<String>) -> (r: Vec<
    String,
>)
    ensures
        views(r@) == var_list(var(var_views(vars@), key@), views(default@)),
{
    match find_var(vars, key) {
        Some(s) => list_items(s.as_str()),
        None => default,
    }
}

/// The settings of the node.
#[derive(Debug, Clone)]
pub struct Config {
    pub listen_port: u16,
    pub portal_url: String,
    pub idle_timeout_minutes: u64,
    pub brotli_quality: u32,
    pub blocked_ranges: Vec<String>,
    pub blocklist_urls: Vec<String>,
    pub blocklist_refresh_hours: u64,
    pub blocklist_enabled: bool,
    pub log_rotate_enabled: bool,
    pub log_retain_days: u32,
    pub syslog_enabled: bool,
    pub syslog_host: Option<String>,
    pub syslog_port: u16,
    /// Callsigns accepted although none like them is issued.
    pub allowed_callsigns: Vec<String>,
    /// How long a page stays fresh that does not say so itself.
    pub default_max_age_seconds: i32,
    /// How long a page stays fresh at most.
    pub max_max_age_seconds: i32,
    /// How long to wait for an origin's caching headers.
    pub origin_cc_head_timeout_ms: u64,
}

/// The ranges that are blocked where nothing else is set: the loopback, the
/// private and the link-local networks.
pub open spec fn default_ranges() -> Seq<Seq<char>> {
    seq![
        "127.0.0.0/8"@,
        "10.0.0.0/8"@,
        "172.16.0.0/12"@,
        "192.168.0.0/16"@,
        "169.254.0.0/16"@,
    ]
}

/// The ranges that are blocked where nothing else is set.
pub fn default_blocked_ranges() -> (r: Vec<String>)
    ensures
        views(r@) == default_ranges(),
{
    let mut out: Vec<String> = Vec::new();
    out.push("127.0.0.0/8".to_owned());
    out.push("10.0.0.0/8".to_owned());
    out.push("172.16.0.0/12".to_owned());
    out.push("192.168.0.0/16".to_owned());
    out.push("169.254.0.0/16".to_owned());
    assert(views(out@) =~= default_ranges());
    out
}

impl Config {
    /// The settings that the environment gives, with the default for each that
    /// it does not give.
    pub fn from_env(vars: &Vec<(String, String)>) -> (r: Config)
        ensures
            ({
                let e = var_views(vars@);
                &&& r.listen_port == var_number(var(e, "LISTEN_PORT"@), u16::MAX as nat, 63004)
                &&& r.portal_url@ == var_text(
                    var(e, "PORTAL_URL"@),
                    "https://www.zeroretries.radio"@,
                )
                &&& r.idle_timeout_minutes == var_number(
                    var(e, "IDLE_TIMEOUT_MINUTES"@),
                    u64::MAX as nat,
                    10,
                )
                &&& r.brotli_quality == var_number(
                    var(e, "BROTLI_QUALITY"@),
                    u32::MAX as nat,
                    11,
                )
                &&& views(r.blocked_ranges@) == var_list(
                    var(e, "BLOCKED_RANGES"@),
                    default_ranges(),
                )
                &&& views(r.blocklist_urls@) == var_list(
                    var(e, "BLOCKLIST_URLS"@),
                    Seq::<Seq<char>>::empty(),
                )
                &&& r.blocklist_refresh_hours == var_number(
                    var(e, "BLOCKLIST_REFRESH_HOURS"@),
                    u64::MAX as nat,
                    24,
                )
                &&& r.blocklist_enabled == var_answer(var(e, "BLOCKLIST_ENABLED"@), true)
                &&& r.log_rotate_enabled == var_answer(var(e, "LOG_ROTATE_ENABLED"@), true)
                &&& r.log_retain_days == var_number(
                    var(e, "LOG_RETAIN_DAYS"@),
                    u32::MAX as nat,
                    30,
                )
                &&& r.syslog_enabled == var_answer(var(e, "SYSLOG_ENABLED"@), false)
                &&& opt_view(r.syslog_host) == var(e, "SYSLOG_HOST"@)
                &&& r.syslog_port == var_number(var(e, "SYSLOG_PORT"@), u16::MAX as nat, 514)
                &&& views(r.allowed_callsigns@) == var_list(
                    var(e, "ALLOWED_CALLSIGNS"@),
                    Seq::<Seq<char>>::empty(),
                )
                &&& r.default_max_age_seconds == var_signed(
                    var(e, "DEFAULT_MAX_AGE_SECONDS"@),
                    3600,
                )
                &&& r.max_max_age_seconds == var_signed(
                    var(e, "MAX_MAX_AGE_SECONDS"@),
                    2_592_000,
                )
                &&& r.origin_cc_head_timeout_ms == var_number(
                    var(e, "ORIGIN_CC_HEAD_TIMEOUT_MS"@),
                    u64::MAX as nat,
                    5000,
                )
            }),
    {
        let none_a: Vec<String> = Vec::new();
        let none_b: Vec<String> = Vec::new();
        assert(views(none_a@) =~= Seq::<Seq<char>>::empty());
        assert(views(none_b@) =~= Seq::<Seq<char>>::empty());
        Config {
            listen_port: parse_env_u16(vars, "LISTEN_PORT", 63004),
            portal_url: match find_var(vars, "PORTAL_URL") {
                Some(s) => s,
                None => "https://www.zeroretries.radio".to_owned(),
            },
            idle_timeout_minutes: parse_env_u64(vars, "IDLE_TIMEOUT_MINUTES", 10),
            brotli_quality: parse_env_u32(vars, "BROTLI_QUALITY", 11),
            blocked_ranges: parse_env_vec(vars, "BLOCKED_RANGES", default_blocked_ranges()),
            blocklist_urls: parse_env_vec(vars, "BLOCKLIST_URLS", none_a),
            blocklist_refresh_hours: parse_env_u64(vars, "BLOCKLIST_REFRESH_HOURS", 24),
            blocklist_enabled: parse_env_bool(vars, "BLOCKLIST_ENABLED", true),
            log_rotate_enabled: parse_env_bool(vars, "LOG_ROTATE_ENABLED", true),
            log_retain_days: parse_env_u32(vars, "LOG_RETAIN_DAYS", 30),
            syslog_enabled: parse_env_bool(vars, "SYSLOG_ENABLED", false),
            syslog_host: find_var(vars, "SYSLOG_HOST"),
            syslog_port: parse_env_u16(vars, "SYSLOG_PORT", 514),
            allowed_callsigns: parse_env_vec(vars, "ALLOWED_CALLSIGNS", none_b),
            default_max_age_seconds: parse_env_i32(vars, "DEFAULT_MAX_AGE_SECONDS", 3600),
            max_max_age_seconds: parse_env_i32(vars, "MAX_MAX_AGE_SECONDS", 2_592_000),
            origin_cc_head_timeout_ms: parse_env_u64(vars, "ORIGIN_CC_HEAD_TIMEOUT_MS", 5000),
        }
    }
}

// ---------------------------------------------------------------------------
// Laws
// ---------------------------------------------------------------------------

/// A variable has the value that it was first given, whatever else is set.
pub proof fn variables_have_their_first_value(
    front: Seq<(Seq<char>, Seq<char>)>,
    key: Seq<char>,
    value: Seq<char>,
    back: Seq<(Seq<char>, Seq<char>)>,
)
    requires
        forall|i: int| 0 <= i < front.len() ==> (#[trigger] front[i]).0 != key,
    ensures
        var(front + seq![(key, value)] + back, key) == Some(value),
        var(front, key) is None,
    decreases front.len(),
{
    let all = front + seq![(key, value)] + back;
    if front.len() == 0 {
        assert(all[0] == (key, value));
    } else {
        assert(all[0] == front[0]);
        let rest = front.drop_first();
        assert forall|i: int| 0 <= i < rest.len() implies (#[trigger] rest[i]).0 != key by {
            assert(rest[i] == front[i + 1]);
        }
        variables_have_their_first_value(rest, key, value, back);
        assert(all.drop_first() =~= rest + seq![(key, value)] + back);
    }
}

/// A number that is set is the one that is used; what is not set, is no number
/// or is too large leaves the other.
pub proof fn numbers_that_are_set_are_used(
    n: nat,
    m: int,
    max: nat,
    text: Seq<char>,
    default: nat,
    other: int,
)
    requires
        n <= max,
        i32::MIN <= m <= i32::MAX,
        text.len() == 0 || exists|i: int|
            0 < i < text.len() && !crate::text::is_digit(#[trigger] text[i]),
    ensures
        var_number(Some(decimal(n)), max, default) == n,
        var_number(Some(text), max, default) == default,
        var_number(None, max, default) == default,
        forall|k: nat| k > max ==> var_number(Some(#[trigger] decimal(k)), max, default) == default,
        var_signed(Some(decimal_signed(m)), other) == m,
        var_signed(Some(text), other) == other,
        var_signed(None, other) == other,
{
    unsigned_decimal_round_trip(n, max);
    signed_decimal_round_trip(m, i32::MAX as nat);
    assert forall|k: nat| k > max implies var_number(Some(#[trigger] decimal(k)), max, default)
        == default by {
        lemma_decimal(k);
        assert(crate::text::is_digit(decimal(k)[0]));
    }
    if text.len() > 0 {
        let i = choose|i: int| 0 < i < text.len() && !crate::text::is_digit(#[trigger] text[i]);
        assert(text.drop_first()[i - 1] == text[i]);
        assert(!all_digits(text));
        assert(!all_digits(text.drop_first()));
    }
}

/// A word that means yes sets a switch and one that means no clears it, in any
/// case of its letters; anything else leaves it as it is.
pub proof fn words_set_switches(word: Seq<char>, default: bool)
    requires
        vstd::utf8::is_ascii_chars(word),
    ensures
        seq!["1"@, "on"@, "true"@, "yes"@].contains(ascii_lower(word)) ==> var_answer(
            Some(word),
            default,
        ),
        seq!["0"@, "off"@, "false"@, "no"@].contains(ascii_lower(word)) ==> !var_answer(
            Some(word),
            default,
        ),
        !seq!["1"@, "on"@, "true"@, "yes"@].contains(ascii_lower(word)) && !seq![
            "0"@,
            "off"@,
            "false"@,
            "no"@,
        ].contains(ascii_lower(word)) ==> var_answer(Some(word), default) == default,
        var_answer(None, default) == default,
{
    reveal_strlit("1");
    reveal_strlit("0");
    reveal_strlit("on");
    reveal_strlit("off");
    reveal_strlit("true");
    reveal_strlit("false");
    reveal_strlit("yes");
    reveal_strlit("no");
    let yes = seq!["1"@, "on"@, "true"@, "yes"@];
    let no = seq!["0"@, "off"@, "false"@, "no"@];
    assert(yes[0] == "1"@ && yes[1] == "on"@ && yes[2] == "true"@ && yes[3] == "yes"@);
    assert(no[0] == "0"@ && no[1] == "off"@ && no[2] == "false"@ && no[3] == "no"@);
    assert("no"@[0] == 'n' && "on"@[0] == 'o' && "0"@[0] == '0' && "1"@[0] == '1');
    assert("no"@.len() == 2 && "on"@.len() == 2 && "0"@.len() == 1 && "1"@.len() == 1);
    assert("off"@.len() == 3 && "yes"@.len() == 3 && "true"@.len() == 4 && "false"@.len() == 5);
    assert("off"@[0] == 'o' && "yes"@[0] == 'y');
}

/// A list holds its items in order, each without the space around it, and
/// nothing for a blank one; a list that is set replaces the other.
pub proof fn lists_hold_their_items(
    front: Seq<char>,
    lead: Seq<char>,
    item: Seq<char>,
    tail: Seq<char>,
    default: Seq<Seq<char>>,
)
    requires
        crate::text::all_space(lead),
        crate::text::all_space(tail),
        item.len() > 0,
        !crate::text::is_space(item[0]),
        !crate::text::is_space(item.last()),
        !item.contains(','),
    ensures
        var_list(Some(lead + item + tail), default) == seq![item],
        var_list(Some(lead), default) == Seq::<Seq<char>>::empty(),
        var_list(Some(front + seq![','] + (lead + item + tail)), default) == var_list(
            Some(front),
            default,
        ).push(item),
        var_list(Some(front + seq![','] + lead), default) == var_list(Some(front), default),
        var_list(None, default) == default,
{
    let piece = lead + item + tail;
    lemma_commas_are_no_space(lead);
    lemma_commas_are_no_space(tail);
    assert forall|i: int| 0 <= i < piece.len() implies piece[i] != ',' by {
        if i < lead.len() {
            assert(piece[i] == lead[i]);
        } else if i < lead.len() + item.len() {
            assert(piece[i] == item[i - lead.len()]);
            assert(item.contains(item[i - lead.len()]));
        } else {
            assert(piece[i] == tail[i - lead.len() - item.len()]);
        }
    }
    lemma_split_whole(piece, ',');
    lemma_split_whole(lead, ',');
    lemma_split_join(front, ',', piece);
    lemma_split_join(front, ',', lead);
    crate::text::trimming_takes_space_alone(lead, item, tail);
    crate::text::lemma_trim_blank(lead);
    reveal_with_fuel(items, 2);
    let one = seq![piece];
    assert(one.drop_last() =~= Seq::<Seq<char>>::empty());
    assert(items(one) =~= seq![item]);
    assert(seq![lead].drop_last() =~= Seq::<Seq<char>>::empty());
    let some = split(front, ',') + seq![piece];
    assert(some.drop_last() =~= split(front, ','));
    assert(some.last() == piece);
    let none = split(front, ',') + seq![lead];
    assert(none.drop_last() =~= split(front, ','));
    assert(none.last() == lead);
}

/// A comma is no space.
proof fn lemma_commas_are_no_space(s: Seq<char>)
    requires
        crate::text::all_space(s),
    ensures
        forall|i: int| 0 <= i < s.len() ==> s[i] != ',',
{
    crate::text::printable_characters_are_no_space(',');
}

} // verus!
