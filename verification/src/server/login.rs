//! The handshake of a station in plain text, before any framed request.

use vstd::prelude::*;
use vstd::utf8::is_ascii_chars;
use crate::server::logger::{LogEntry, LogStatus};
use crate::server::session::{
    base_call, callsign_shape, is_allowed, validate_callsign_with_allowlist,
};
use crate::text::{
    all_space, ascii_upper, begins, is_space, same, starts_with, to_uppercase, trim, trimmed, upper,
    views,
};

verus! {

/// What a line is that comes in while consent is awaited.
#[derive(Debug, Clone, Copy, PartialEq, Eq, Structural)]
pub enum PreAuthLine {
    /// The node delivered the callsign once more.
    DuplicateCallsign,
    /// The node reports on itself.
    LinbpqStatus,
    /// What the station typed.
    Candidate,
}

/// A line without the space around it and in upper case.
pub open spec fn shouted(line: Seq<char>) -> Seq<char> {
    upper(trim(line))
}

/// What a line is, from a station with this callsign.
pub open spec fn preauth_line(line: Seq<char>, callsign: Seq<char>) -> PreAuthLine {
    if shouted(line) == callsign {
        PreAuthLine::DuplicateCallsign
    } else if starts_with(shouted(line), "***"@) {
        PreAuthLine::LinbpqStatus
    } else {
        PreAuthLine::Candidate
    }
}

/// Tells noise of the node from what a station typed.
pub fn classify_preauth_line(line: &str, callsign: &str) -> (r: PreAuthLine)
    ensures
        r == preauth_line(line@, callsign@),
{
    let said = to_uppercase(trimmed(line).as_str());
    if same(said.as_str(), callsign) {
        return PreAuthLine::DuplicateCallsign;
    }
    if begins(said.as_str(), "***") {
        return PreAuthLine::LinbpqStatus;
    }
    PreAuthLine::Candidate
}

/// How far the handshake has come.
#[derive(Debug, Clone)]
pub enum Login {
    AwaitCallsign,
    AwaitConsent { callsign: String },
}

/// How far the handshake has come, by the text in it.
pub enum LoginView {
    AwaitCallsign,
    AwaitConsent { callsign: Seq<char> },
}

impl View for Login {
    type V = LoginView;

    open spec fn view(&self) -> LoginView {
        match self {
            Login::AwaitCallsign => LoginView::AwaitCallsign,
            Login::AwaitConsent { callsign } => LoginView::AwaitConsent { callsign: callsign@ },
        }
    }
}

/// What follows a line of the handshake.
#[derive(Debug)]
pub enum LoginStep {
    /// Say this and listen.
    Ask { next: Login, say: String },
    /// Listen on.
    Listen { next: Login },
    /// Say this, where it is anything, and hang up.
    Leave { say: Option<String> },
    /// The station is in; note the entry in the log.
    Admit { callsign: String, entry: LogEntry },
}

/// What follows a line of the handshake, by the texts in it.
pub enum LoginStepView {
    Ask { next: LoginView, say: Seq<char> },
    Listen { next: LoginView },
    Leave { say: Option<Seq<char>> },
    Admit { callsign: Seq<char> },
}

impl View for LoginStep {
    type V = LoginStepView;

    open spec fn view(&self) -> LoginStepView {
        match self {
            LoginStep::Ask { next, say } => LoginStepView::Ask { next: next@, say: say@ },
            LoginStep::Listen { next } => LoginStepView::Listen { next: next@ },
            LoginStep::Leave { say } => LoginStepView::Leave {
                say: crate::text::opt_view(*say),
            },
            LoginStep::Admit { callsign, .. } => LoginStepView::Admit { callsign: callsign@ },
        }
    }
}

/// What a station is asked for first.
pub open spec fn callsign_prompt() -> Seq<char> {
    "Enter your callsign: "@
}

/// What a station has to agree to.
pub open spec fn consent_prompt() -> Seq<char> {
    "All activity is logged including your callsign.\nType AGREE to proceed: "@
}

/// What follows a line; the end of the connection is no line.
pub open spec fn login_step(state: LoginView, line: Option<Seq<char>>, allowed: Seq<Seq<char>>) -> LoginStepView {
    match (state, line) {
        (_, None) => LoginStepView::Leave { say: None },
        (LoginView::AwaitCallsign, Some(s)) => {
            let call = base_call(trim(s));
            if callsign_shape(call) || is_allowed(call, allowed) {
                LoginStepView::Ask {
                    next: LoginView::AwaitConsent { callsign: upper(call) },
                    say: consent_prompt(),
                }
            } else {
                LoginStepView::Leave { say: Some("Invalid callsign format. Disconnecting.\n"@) }
            }
        },
        (LoginView::AwaitConsent { callsign }, Some(s)) => match preauth_line(s, callsign) {
            PreAuthLine::Candidate => if shouted(s) == "AGREE"@ {
                LoginStepView::Admit { callsign }
            } else {
                LoginStepView::Leave { say: Some("Acknowledgment required. Goodbye.\n"@) }
            },
            _ => LoginStepView::Listen { next: state },
        },
    }
}

impl Login {
    /// A new connection: what to say, and what to await.
    pub fn start() -> (r: (Login, String))
        ensures
            r.0@ is AwaitCallsign,
            r.1@ == callsign_prompt(),
    {
        (Login::AwaitCallsign, "Enter your callsign: ".to_owned())
    }

    /// Hears a line, or that the connection ended.
    pub fn hear(self, line: Option<String>, allowed: &[String]) -> (r: LoginStep)
        ensures
            r@ == login_step(self@, crate::text::opt_view(line), views(allowed@)),
            r matches LoginStep::Admit { callsign, entry } ==> entry.says(
                callsign@,
                "AGREED"@,
                LogStatus::Agreed,
                None,
            ),
    {
        let said = match line {
            None => return LoginStep::Leave { say: None },
            Some(s) => s,
        };
        match self {
            Login::AwaitCallsign => {
                let call = trimmed(said.as_str());
                match validate_callsign_with_allowlist(call.as_str(), allowed) {
                    Ok(callsign) => LoginStep::Ask {
                        next: Login::AwaitConsent { callsign },
                        say:
                            "All activity is logged including your callsign.\nType AGREE to proceed: ".to_owned(),
                    },
                    Err(_) => LoginStep::Leave {
                        say: Some("Invalid callsign format. Disconnecting.\n".to_owned()),
                    },
                }
            },
            Login::AwaitConsent { callsign } => {
                match classify_preauth_line(said.as_str(), callsign.as_str()) {
                    PreAuthLine::Candidate => {
                        let shout = to_uppercase(trimmed(said.as_str()).as_str());
                        if same(shout.as_str(), "AGREE") {
                            let entry = LogEntry::new(
                                callsign.clone(),
                                "AGREED".to_owned(),
                                LogStatus::Agreed,
                                None,
                            );
                            LoginStep::Admit { callsign, entry }
                        } else {
                            LoginStep::Leave {
                                say: Some("Acknowledgment required. Goodbye.\n".to_owned()),
                            }
                        }
                    },
                    _ => LoginStep::Listen { next: Login::AwaitConsent { callsign } },
                }
            },
        }
    }
}

// ---------------------------------------------------------------------------
// Laws
// ---------------------------------------------------------------------------

/// The handshake over many lines: the last step, once nothing more is asked or
/// listened for, or none while more is.
pub open spec fn login_run(
    state: LoginView,
    lines: Seq<Option<Seq<char>>>,
    allowed: Seq<Seq<char>>,
) -> Option<LoginStepView>
    decreases lines.len(),
{
    if lines.len() == 0 {
        None
    } else {
        match login_step(state, lines[0], allowed) {
            LoginStepView::Ask { next, .. } => login_run(next, lines.drop_first(), allowed),
            LoginStepView::Listen { next } => login_run(next, lines.drop_first(), allowed),
            step => Some(step),
        }
    }
}

/// A station is admitted only after a line that says `AGREE`, and only under a
/// callsign that its first line gave and that was accepted.
pub proof fn admission_needs_consent(lines: Seq<Option<Seq<char>>>, allowed: Seq<Seq<char>>)
    ensures
        login_run(LoginView::AwaitCallsign, lines, allowed) matches Some(
            LoginStepView::Admit { callsign },
        ) ==> {
            &&& lines.len() >= 2
            &&& lines[0] matches Some(first)
            &&& callsign == upper(base_call(trim(first)))
            &&& callsign_shape(base_call(trim(first))) || is_allowed(base_call(trim(first)), allowed)
            &&& exists|k: int|
                1 <= k < lines.len() && (#[trigger] lines[k] matches Some(s) && shouted(s) == "AGREE"@)
        },
{
    if lines.len() > 0 {
        if let LoginStepView::Ask { next, .. } = login_step(
            LoginView::AwaitCallsign,
            lines[0],
            allowed,
        ) {
            let rest = lines.drop_first();
            lemma_consent(next->callsign, rest, allowed);
            if let Some(LoginStepView::Admit { callsign }) = login_run(next, rest, allowed) {
                let k = choose|k: int|
                    0 <= k < rest.len() && (#[trigger] rest[k] matches Some(s) && shouted(s)
                        == "AGREE"@);
                assert(lines[k + 1] == rest[k]);
            }
        }
    }
}

proof fn lemma_consent(callsign: Seq<char>, lines: Seq<Option<Seq<char>>>, allowed: Seq<Seq<char>>)
    ensures
        login_run(LoginView::AwaitConsent { callsign }, lines, allowed) matches Some(
            LoginStepView::Admit { callsign: c },
        ) ==> {
            &&& c == callsign
            &&& exists|k: int|
                0 <= k < lines.len() && (#[trigger] lines[k] matches Some(s) && shouted(s) == "AGREE"@)
        },
    decreases lines.len(),
{
    if lines.len() > 0 {
        let state = LoginView::AwaitConsent { callsign };
        match login_step(state, lines[0], allowed) {
            LoginStepView::Listen { next } => {
                let rest = lines.drop_first();
                lemma_consent(callsign, rest, allowed);
                if let Some(LoginStepView::Admit { .. }) = login_run(state, rest, allowed) {
                    let k = choose|k: int|
                        0 <= k < rest.len() && (#[trigger] rest[k] matches Some(s) && shouted(s)
                            == "AGREE"@);
                    assert(lines[k + 1] == rest[k]);
                }
            },
            LoginStepView::Admit { .. } => {
                assert(lines[0] matches Some(s) && shouted(s) == "AGREE"@);
            },
            _ => {},
        }
    }
}

/// Noise of the node in front of the consent changes nothing: neither its
/// status lines nor the callsign that it delivers twice.
pub proof fn node_noise_is_passed_over(
    callsign: Seq<char>,
    noise: Seq<char>,
    rest: Seq<Option<Seq<char>>>,
    allowed: Seq<Seq<char>>,
)
    requires
        shouted(noise) == callsign || starts_with(shouted(noise), "***"@),
    ensures
        login_run(
            LoginView::AwaitConsent { callsign },
            seq![Some(noise)] + rest,
            allowed,
        ) == login_run(LoginView::AwaitConsent { callsign }, rest, allowed),
{
    let lines = seq![Some(noise)] + rest;
    assert(lines[0] == Some(noise));
    assert(lines.drop_first() =~= rest);
}

/// A station whose callsign is taken is told that all it does is logged, and
/// asked to agree; any other is sent away.
pub proof fn callsigns_are_judged_first(line: Seq<char>, allowed: Seq<Seq<char>>)
    ensures
        ({
            let call = base_call(trim(line));
            login_step(LoginView::AwaitCallsign, Some(line), allowed) == (if callsign_shape(call)
                || is_allowed(call, allowed) {
                LoginStepView::Ask {
                    next: LoginView::AwaitConsent { callsign: upper(call) },
                    say:
                        "All activity is logged including your callsign.\nType AGREE to proceed: "@,
                }
            } else {
                LoginStepView::Leave { say: Some("Invalid callsign format. Disconnecting.\n"@) }
            })
        }),
{
}

/// The word of consent lets a station in under its callsign, whatever space is
/// around it and whatever the case of its letters; any other word that is not
/// the node's sends it away.
pub proof fn the_word_of_consent_lets_in(
    callsign: Seq<char>,
    lead: Seq<char>,
    word: Seq<char>,
    tail: Seq<char>,
    allowed: Seq<Seq<char>>,
)
    requires
        all_space(lead),
        all_space(tail),
        word.len() > 0,
        !is_space(word[0]),
        !is_space(word.last()),
        is_ascii_chars(word),
        ascii_upper(word) != callsign,
        !starts_with(ascii_upper(word), "***"@),
    ensures
        login_step(LoginView::AwaitConsent { callsign }, Some(lead + word + tail), allowed) == (
        if ascii_upper(word) == "AGREE"@ {
            LoginStepView::Admit { callsign }
        } else {
            LoginStepView::Leave { say: Some("Acknowledgment required. Goodbye.\n"@) }
        }),
{
    crate::text::trimming_takes_space_alone(lead, word, tail);
}

/// A station that hangs up is gone, and nothing more is said to it.
pub proof fn hanging_up_ends_the_handshake(state: LoginView, allowed: Seq<Seq<char>>)
    ensures
        login_step(state, None, allowed) == (LoginStepView::Leave { say: None }),
        callsign_prompt() == "Enter your callsign: "@,
{
}

/// A station that gives a callsign and agrees is let in, however much the node
/// reports in between.
pub proof fn stations_get_in(
    line: Seq<char>,
    noise: Seq<Option<Seq<char>>>,
    allowed: Seq<Seq<char>>,
)
    requires
        callsign_shape(base_call(trim(line))) || is_allowed(base_call(trim(line)), allowed),
        upper(base_call(trim(line))) != "AGREE"@,
        forall|i: int|
            0 <= i < noise.len() ==> ((#[trigger] noise[i]) matches Some(s) && starts_with(
                shouted(s),
                "***"@,
            )),
    ensures
        login_run(
            LoginView::AwaitCallsign,
            seq![Some(line)] + (noise + seq![Some("AGREE"@)]),
            allowed,
        ) == Some(LoginStepView::Admit { callsign: upper(base_call(trim(line))) }),
{
    let rest = noise + seq![Some("AGREE"@)];
    let lines = seq![Some(line)] + rest;
    assert(lines[0] == Some(line));
    assert(lines.drop_first() =~= rest);
    lemma_noise_then_consent(upper(base_call(trim(line))), noise, allowed);
}

proof fn lemma_noise_then_consent(
    callsign: Seq<char>,
    noise: Seq<Option<Seq<char>>>,
    allowed: Seq<Seq<char>>,
)
    requires
        callsign != "AGREE"@,
        forall|i: int|
            0 <= i < noise.len() ==> ((#[trigger] noise[i]) matches Some(s) && starts_with(
                shouted(s),
                "***"@,
            )),
    ensures
        login_run(
            LoginView::AwaitConsent { callsign },
            noise + seq![Some("AGREE"@)],
            allowed,
        ) == Some(LoginStepView::Admit { callsign }),
    decreases noise.len(),
{
    let lines = noise + seq![Some("AGREE"@)];
    if noise.len() == 0 {
        reveal_strlit("AGREE");
        reveal_strlit("***");
        let word = "AGREE"@;
        let none = Seq::<char>::empty();
        assert(none + word + none =~= word);
        assert(ascii_upper(word) =~= word);
        assert(starts_with(word, "***"@) ==> word.take(3)[0] == '*');
        the_word_of_consent_lets_in(callsign, none, word, none, allowed);
        assert(lines[0] == Some(word));
    } else {
        let less = noise.drop_first();
        assert forall|i: int| 0 <= i < less.len() implies ((#[trigger] less[i]) matches Some(s)
            && starts_with(shouted(s), "***"@)) by {
            assert(less[i] == noise[i + 1]);
        }
        assert(lines[0] == noise[0]);
        assert(lines.drop_first() =~= less + seq![Some("AGREE"@)]);
        lemma_noise_then_consent(callsign, less, allowed);
        let s = noise[0]->0;
        node_noise_is_passed_over(callsign, s, less + seq![Some("AGREE"@)], allowed);
        assert(lines =~= seq![Some(s)] + (less + seq![Some("AGREE"@)]));
    }
}

/// Before a station is let in, a line that repeats its callsign and one that
/// begins with three stars are the node's own, in any case of their letters and
/// whatever space stands around them; any other is the station's.
pub proof fn the_node_speaks_in_stars(
    lead: Seq<char>,
    text: Seq<char>,
    tail: Seq<char>,
    callsign: Seq<char>,
)
    requires
        crate::text::all_space(lead),
        crate::text::all_space(tail),
        text.len() > 0,
        !crate::text::is_space(text[0]),
        !crate::text::is_space(text.last()),
        vstd::utf8::is_ascii_chars(text),
    ensures
        crate::text::ascii_upper(text) == callsign ==> preauth_line(lead + text + tail, callsign)
            is DuplicateCallsign,
        crate::text::ascii_upper(text) != callsign && starts_with(text, "***"@) ==> preauth_line(
            lead + text + tail,
            callsign,
        ) is LinbpqStatus,
        crate::text::ascii_upper(text) != callsign && !starts_with(text, "***"@) ==> preauth_line(
            lead + text + tail,
            callsign,
        ) is Candidate,
{
    reveal_strlit("***");
    crate::text::trimming_takes_space_alone(lead, text, tail);
    let up = crate::text::ascii_upper(text);
    assert(shouted(lead + text + tail) == up);
    if starts_with(text, "***"@) {
        assert(text.take(3)[0] == '*' && text.take(3)[1] == '*' && text.take(3)[2] == '*');
        assert(up.take(3) =~= "***"@);
    }
    if starts_with(up, "***"@) {
        assert(up.take(3)[0] == '*' && up.take(3)[1] == '*' && up.take(3)[2] == '*');
        assert(text.take(3) =~= "***"@);
    }
}

} // verus!
