//! Who browses: callsigns and the session of a station.

use std::time::Instant;
use vstd::prelude::*;
use crate::text::{
    ascii_lower, chars_of, is_digit, is_letter, same_ignoring_case, split, split_at_char,
    to_uppercase, upper, views,
};

verus! {

/// Why a session was refused.
#[derive(Debug, Clone, Copy, PartialEq, Eq, Structural)]
pub enum SessionError {
    InvalidCallsign,
}

impl SessionError {
    /// The message for the operator.
    pub fn message(&self) -> (r: String)
        ensures
            r@ == "Invalid callsign format"@,
    {
        "Invalid callsign format".to_owned()
    }
}

/// An ASCII letter or digit.
pub open spec fn is_alnum(c: char) -> bool {
    is_letter(c) || is_digit(c)
}

/// `k` letters or digits in front, then a digit, then letters or digits, and a
/// letter at the end.
pub open spec fn shape_at(s: Seq<char>, k: int) -> bool {
    &&& 1 <= k <= 3
    &&& k + 2 <= s.len() <= k + 5
    &&& forall|i: int| 0 <= i < s.len() ==> is_alnum(#[trigger] s[i])
    &&& is_digit(s[k])
    &&& is_letter(s[s.len() - 1])
}

/// The shape of a callsign that is issued on air: one to three letters or
/// digits, a digit, up to three letters or digits, and a letter.
pub open spec fn callsign_shape(s: Seq<char>) -> bool {
    shape_at(s, 1) || shape_at(s, 2) || shape_at(s, 3)
}

/// Tells whether a character is an ASCII letter or digit.
fn alnum(c: char) -> (r: bool)
    ensures
        r == is_alnum(c),
{
    ('a' <= c && c <= 'z') || ('A' <= c && c <= 'Z') || ('0' <= c && c <= '9')
}

/// Tells whether a text has the shape of a callsign.
pub fn has_callsign_shape(s: &str) -> (r: bool)
    ensures
        r == callsign_shape(s@),
{
    let c = chars_of(s);
    let n: usize = c.len();
    if n < 3 || n > 8 {
        return false;
    }
    let mut i: usize = 0;
    while i < n
        invariant
            i <= n,
            n == c@.len(),
            c@ == s@,
            forall|k: int| 0 <= k < i ==> is_alnum(#[trigger] s@[k]),
        decreases n - i,
    {
        if !alnum(c[i]) {
            assert(!is_alnum(s@[i as int]));
            return false;
        }
        i += 1;
    }
    let last = c[n - 1];
    if '0' <= last && last <= '9' {
        return false;
    }
    assert(is_alnum(s@[n - 1]));
    (n <= 6 && '0' <= c[1] && c[1] <= '9') || (n >= 4 && n <= 7 && '0' <= c[2] && c[2] <= '9') || (n
        >= 5 && '0' <= c[3] && c[3] <= '9')
}

/// A callsign without the number of its station.
pub open spec fn base_call(s: Seq<char>) -> Seq<char> {
    split(s, '-')[0]
}

/// Some entry is the callsign, whatever the case of its letters.
pub open spec fn is_allowed(call: Seq<char>, allowlist: Seq<Seq<char>>) -> bool {
    exists|i: int|
        0 <= i < allowlist.len() && ascii_lower(#[trigger] allowlist[i]) == ascii_lower(call)
}

/// Accepts a callsign, without the number of its station and in upper case,
/// where it has the shape of one that is issued on air.
pub fn validate_callsign(callsign: &str) -> (r: Result<String, SessionError>)
    ensures
        if callsign_shape(base_call(callsign@)) {
            r matches Ok(c) && c@ == upper(base_call(callsign@))
        } else {
            r == Err::<String, SessionError>(SessionError::InvalidCallsign)
        },
{
    let none: Vec<String> = Vec::new();
    validate_callsign_with_allowlist(callsign, &none)
}

/// Accepts a callsign, without the number of its station and in upper case,
/// where it has the shape of one that is issued on air or is on the list.
pub fn validate_callsign_with_allowlist(callsign: &str, allowlist: &[String]) -> (r: Result<
    String,
    SessionError,
>)
    ensures
        ({
            let call = base_call(callsign@);
            if callsign_shape(call) || is_allowed(call, views(allowlist@)) {
                r matches Ok(c) && c@ == upper(call)
            } else {
                r == Err::<String, SessionError>(SessionError::InvalidCallsign)
            }
        }),
{
    let parts = split_at_char(callsign, '-');
    assert(views(parts@)[0] == parts@[0]@);
    let call = parts[0].as_str();
    if has_callsign_shape(call) {
        return Ok(to_uppercase(call));
    }
    let ghost list = views(allowlist@);
    let mut i: usize = 0;
    while i < allowlist.len()
        invariant
            i <= allowlist@.len(),
            list == views(allowlist@),
            call@ == base_call(callsign@),
            forall|k: int| 0 <= k < i ==> ascii_lower(#[trigger] list[k]) != ascii_lower(call@),
        decreases allowlist.len() - i,
    {
        if same_ignoring_case(allowlist[i].as_str(), call) {
            assert(ascii_lower(list[i as int]) == ascii_lower(call@));
            return Ok(to_uppercase(call));
        }
        i += 1;
    }
    Err(SessionError::InvalidCallsign)
}

/// `Instant` of the standard library: a point of a clock that only goes
/// forward.
#[verifier::external_type_specification]
#[verifier::external_body]
pub struct ExInstant(std::time::Instant);

/// `Instant::now` of the standard library. Nothing is claimed of what the clock
/// says.
pub assume_specification[ Instant::now ]() -> (r: Instant)
;

/// A time that `Instant::now` gave.
pub open spec fn is_reading(t: Instant) -> bool {
    call_ensures(Instant::now, (), t)
}

/// Reads the clock.
fn now() -> (r: Instant)
    ensures
        is_reading(r),
{
    let clock = Instant::now;
    clock()
}

/// `Instant::elapsed` of the standard library, in whole seconds. Nothing is
/// claimed of what the clock says.
#[verifier::external_body]
fn seconds_since(start: &Instant) -> (r: u64) {
    start.elapsed().as_secs()
}

/// A number of whole seconds that `Instant::elapsed` gave for a time.
pub closed spec fn is_elapsed(start: Instant, secs: u64) -> bool {
    call_ensures(seconds_since, (&start,), secs)
}

/// Reads how many whole seconds have gone by since a time.
fn read_elapsed(start: &Instant) -> (r: u64)
    ensures
        is_elapsed(*start, r),
{
    let clock = seconds_since;
    clock(start)
}

/// The session of a station.
pub struct Session {
    pub callsign: String,
    pub acknowledged: bool,
    pub current_url: Option<String>,
    pub last_activity: Instant,
}

/// More whole seconds have gone by than the minutes hold.
pub open spec fn idle_for_too_long(idle_secs: u64, timeout_minutes: u64) -> bool {
    idle_secs > timeout_minutes * 60
}

/// Tells whether a station has been idle for too long.
pub fn idle_too_long(idle_secs: u64, timeout_minutes: u64) -> (r: bool)
    requires
        timeout_minutes * 60 <= u64::MAX,
    ensures
        r == idle_for_too_long(idle_secs, timeout_minutes),
{
    idle_secs > timeout_minutes * 60
}

impl Session {
    /// A session that has agreed to nothing yet.
    pub fn new(callsign: String) -> (r: Session)
        ensures
            r.callsign == callsign,
            !r.acknowledged,
            r.current_url is None,
            is_reading(r.last_activity),
    {
        Session { callsign, acknowledged: false, current_url: None, last_activity: now() }
    }

    /// Notes that the station agreed, and with that was heard.
    pub fn acknowledge(&mut self)
        ensures
            final(self).acknowledged,
            is_reading(final(self).last_activity),
            final(self).callsign == old(self).callsign,
            final(self).current_url == old(self).current_url,
    {
        self.acknowledged = true;
        self.touch();
    }

    /// Notes that the station was heard or answered: the time of its last
    /// activity becomes what the clock says.
    pub fn touch(&mut self)
        ensures
            is_reading(final(self).last_activity),
            final(self).acknowledged == old(self).acknowledged,
            final(self).callsign == old(self).callsign,
            final(self).current_url == old(self).current_url,
    {
        self.last_activity = now();
    }

    /// Tells whether the station has been idle for too long, by the seconds that
    /// the clock gives since its last activity.
    pub fn is_timed_out(&self, timeout_minutes: u64) -> (r: bool)
        requires
            timeout_minutes * 60 <= u64::MAX,
        ensures
            exists|secs: u64| #[trigger]
                is_elapsed(self.last_activity, secs) && r == idle_for_too_long(
                    secs,
                    timeout_minutes,
                ),
    {
        let secs: u64 = read_elapsed(&self.last_activity);
        idle_too_long(secs, timeout_minutes)
    }

    /// Notes the page that the station is on.
    pub fn visit(&mut self, url: &str)
        ensures
            final(self).current_url matches Some(u) && u@ == url@,
            final(self).acknowledged == old(self).acknowledged,
            final(self).callsign == old(self).callsign,
            final(self).last_activity == old(self).last_activity,
    {
        self.current_url = Some(url.to_owned());
    }
}

/// A callsign that was accepted by its shape is accepted again, as it is.
pub proof fn accepted_callsigns_stay_accepted(call: Seq<char>)
    requires
        callsign_shape(call),
    ensures
        callsign_shape(upper(call)),
        base_call(upper(call)) == upper(call),
        upper(upper(call)) == upper(call),
{
    let u = upper(call);
    assert(forall|i: int| 0 <= i < call.len() ==> is_alnum(#[trigger] call[i]));
    assert(vstd::utf8::is_ascii_chars(call));
    assert(u == crate::text::ascii_upper(call));
    assert forall|i: int| 0 <= i < u.len() implies is_alnum(#[trigger] u[i]) && (is_digit(u[i])
        == is_digit(call[i])) && u[i] != '-' && crate::text::upper_char(u[i]) == u[i] by {
        assert(is_alnum(call[i]));
    }
    assert(vstd::utf8::is_ascii_chars(u));
    assert(upper(u) =~= u);
    crate::text::lemma_split_whole(u, '-');
    if shape_at(call, 1) {
        assert(shape_at(u, 1));
    }
    if shape_at(call, 2) {
        assert(shape_at(u, 2));
    }
    if shape_at(call, 3) {
        assert(shape_at(u, 3));
    }
}

/// One to three letters or digits, a digit, up to three letters or digits, and a
/// letter make a callsign.
pub proof fn issued_callsigns_are_accepted(
    front: Seq<char>,
    digit: char,
    middle: Seq<char>,
    last: char,
)
    requires
        1 <= front.len() <= 3,
        middle.len() <= 3,
        forall|i: int|
            0 <= i < front.len() ==> is_letter(#[trigger] front[i]) || is_digit(front[i]),
        '0' <= digit <= '9',
        forall|i: int|
            0 <= i < middle.len() ==> is_letter(#[trigger] middle[i]) || is_digit(middle[i]),
        'a' <= last <= 'z' || 'A' <= last <= 'Z',
    ensures
        callsign_shape(front + seq![digit] + middle + seq![last]),
{
    let s = front + seq![digit] + middle + seq![last];
    let k = front.len() as int;
    assert forall|i: int| 0 <= i < s.len() implies is_alnum(#[trigger] s[i]) by {
        if i < k {
            assert(s[i] == front[i]);
        } else if i > k && i < s.len() - 1 {
            assert(s[i] == middle[i - k - 1]);
        }
    }
    assert(s[k] == digit);
    assert(s[s.len() - 1] == last);
    assert(shape_at(s, k));
}

/// Whatever is accepted by its shape has three to eight letters or digits, a
/// digit in the second, third or fourth place, and a letter at the end.
pub proof fn accepted_callsigns_look_like_this(call: Seq<char>, i: int)
    requires
        callsign_shape(call),
        0 <= i < call.len(),
    ensures
        3 <= call.len() <= 8,
        is_letter(call[i]) || is_digit(call[i]),
        is_letter(call.last()),
        is_digit(call[1]) || (call.len() >= 4 && is_digit(call[2])) || (call.len() >= 5
            && is_digit(call[3])),
{
    assert(is_alnum(call[i]));
}

/// The number of a station behind its callsign does not count.
pub proof fn station_numbers_do_not_count(call: Seq<char>, number: Seq<char>)
    requires
        !call.contains('-'),
    ensures
        base_call(call) == call,
        base_call(call + seq!['-'] + number) == call,
{
    assert forall|i: int| 0 <= i < call.len() implies call[i] != '-' by {
        assert(call.contains(call[i]));
    }
    crate::text::lemma_split_whole(call, '-');
    crate::text::lemma_split_join(call, '-', number);
}

/// A callsign on the list is allowed in any case of its letters, and no other
/// is.
pub proof fn listed_callsigns_are_allowed(call: Seq<char>, allowlist: Seq<Seq<char>>, i: int)
    requires
        0 <= i < allowlist.len(),
    ensures
        ascii_lower(allowlist[i]) == ascii_lower(call) ==> is_allowed(call, allowlist),
        is_allowed(call, allowlist) ==> exists|k: int|
            0 <= k < allowlist.len() && (#[trigger] allowlist[k]).len() == call.len(),
        !is_allowed(call, Seq::empty()),
{
    if is_allowed(call, allowlist) {
        let k = choose|k: int|
            0 <= k < allowlist.len() && ascii_lower(#[trigger] allowlist[k]) == ascii_lower(call);
        assert(ascii_lower(allowlist[k]).len() == allowlist[k].len());
        assert(ascii_lower(call).len() == call.len());
    }
}

/// A station is idle for too long once more than the minutes have gone by, a
/// minute being sixty seconds, and not before.
pub proof fn minutes_have_sixty_seconds(minutes: u64, secs: u64)
    ensures
        secs <= 60 * minutes ==> !idle_for_too_long(secs, minutes),
        secs > 60 * minutes ==> idle_for_too_long(secs, minutes),
{
}

} // verus!
