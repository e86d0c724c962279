//! The session over the air: setting it up and restoring it, with the
//! operator's consent in between, and collecting the answer to a request.
//!
//! Nothing here waits or sends. Each part takes what happened and says what is
//! to be done next.

use vstd::prelude::*;
use vstd::utf8::*;
use crate::bytes::{append, string_from_utf8_lossy, utf8_lossy};
use crate::client::state::{ConnectionState, StateView};
use crate::client::transport::agwpe::{
    as_agwpe_error, is_session_dead_payload, session_dead, transport_err_to_agwpe, AgwpeError,
    ErrorView, EventView,
};
use crate::client::transport::{TransportError, TransportEvent};
use crate::number::{decimal, decimal_signed, push_decimal};
use crate::shared::codec::{base64_len, base64_text};
use crate::shared::protocol::{
    header_fields, header_of, header_text, header_waits_for_its_line, is_line_break, line_break,
    magic, response_round_trip, response_text, response_wire, valid_etag, wire_is_telnet_safe,
    HeaderView, Response, Status,
};
use crate::text::{
    contains, debug_text, find, first_at, join2, occurs, occurs_at, opt_view, same, to_debug_text,
    to_uppercase, upper,
};

verus! {

/// The most bytes of an answer.
pub const MAX_RESPONSE_SIZE: usize = 10485760;

/// The most bytes of text before a prompt.
pub const MAX_HANDSHAKE_TEXT: usize = 65536;

/// The most bytes without a sign of an answer in them.
pub const MAX_NOISE: usize = 32768;

/// What lasts over the requests of a session.
pub struct SessionState {
    pub response_timeout_secs: u64,
    pub aborted: bool,
}

impl SessionState {
    /// The state at the start. Waiting takes at least a second.
    pub fn new(response_timeout_secs: u64) -> (r: SessionState)
        ensures
            r.response_timeout_secs == (if response_timeout_secs < 1 {
                1
            } else {
                response_timeout_secs
            }),
            !r.aborted,
    {
        SessionState {
            response_timeout_secs: if response_timeout_secs < 1 {
                1
            } else {
                response_timeout_secs
            },
            aborted: false,
        }
    }

    /// Takes back an abort.
    pub fn reset_abort(&mut self)
        ensures
            *final(self) == (SessionState { aborted: false, ..*old(self) }),
    {
        self.aborted = false;
    }

    /// Asks whatever is going on to end.
    pub fn abort(&mut self)
        ensures
            *final(self) == (SessionState { aborted: true, ..*old(self) }),
    {
        self.aborted = true;
    }

    /// Tells whether whatever is going on is to end.
    pub fn is_aborted(&self) -> (r: bool)
        ensures
            r == self.aborted,
    {
        self.aborted
    }
}

/// The view of an optional text.
pub open spec fn opt_str_view(s: Option<&str>) -> Option<Seq<char>> {
    match s {
        Some(x) => Some(x@),
        None => None,
    }
}

/// Tells whether the node's text is, character for character, the one that the
/// operator agreed to. Without one the answer is no.
pub fn matches_stored_disclaimer(server_text: &str, stored: Option<&str>) -> (r: bool)
    ensures
        r == (opt_str_view(stored) == Some(server_text@)),
{
    match stored {
        Some(s) => same(s, server_text),
        None => false,
    }
}

// ---------------------------------------------------------------------------
// Prompts
// ---------------------------------------------------------------------------

/// What the station waits for the node to say.
#[derive(Debug, Clone, Copy, PartialEq, Eq, Structural)]
pub enum Prompt {
    Callsign,
    Agree,
}

/// The text holds the prompt.
pub open spec fn prompt_found(prompt: Prompt, text: Seq<char>) -> bool {
    match prompt {
        Prompt::Callsign => occurs(text, "callsign"@) || occurs(text, "AGREE"@),
        Prompt::Agree => occurs(upper(text), "AGREE"@),
    }
}

/// The text with what the node said last, where that is not too much.
pub open spec fn heard(text: Seq<char>, data: Seq<u8>) -> Option<Seq<char>> {
    let more = utf8_lossy(data);
    if encode_utf8(text).len() + encode_utf8(more).len() > MAX_HANDSHAKE_TEXT {
        None
    } else {
        Some(text + more)
    }
}

/// Takes what the node said and tells whether the prompt is there.
pub fn hear(prompt: Prompt, text: &mut String, data: &[u8]) -> (r: Result<bool, AgwpeError>)
    ensures
        match heard(old(text)@, data@) {
            Some(t) => final(text)@ == t && (r matches Ok(b) && b == prompt_found(prompt, t)),
            None => final(text)@ == old(text)@ && (r matches Err(e) && e@
                == ErrorView::ConnectionFailed("Handshake text exceeded maximum size"@)),
        },
{
    let more = string_from_utf8_lossy(data);
    let have: usize = text.as_str().as_bytes().len();
    let add: usize = more.as_str().as_bytes().len();
    if have > MAX_HANDSHAKE_TEXT || add > MAX_HANDSHAKE_TEXT - have {
        return Err(
            AgwpeError::ConnectionFailed("Handshake text exceeded maximum size".to_owned()),
        );
    }
    text.append(more.as_str());
    match prompt {
        Prompt::Callsign => Ok(contains(text.as_str(), "callsign") || contains(
            text.as_str(),
            "AGREE",
        )),
        Prompt::Agree => Ok(contains(to_uppercase(text.as_str()).as_str(), "AGREE")),
    }
}

// ---------------------------------------------------------------------------
// Setting up and restoring
// ---------------------------------------------------------------------------

/// What the session is set up for: a first connection, or one to replace a
/// session that was lost, with the disclaimer that the operator agreed to.
pub enum Goal {
    Connect,
    Reconnect { reason: String, stored: Option<String> },
}

/// A goal by the texts that it holds.
pub enum GoalView {
    Connect,
    Reconnect { reason: Seq<char>, stored: Option<Seq<char>> },
}

impl View for Goal {
    type V = GoalView;

    open spec fn view(&self) -> GoalView {
        match self {
            Goal::Connect => GoalView::Connect,
            Goal::Reconnect { reason, stored } => GoalView::Reconnect {
                reason: reason@,
                stored: opt_view(*stored),
            },
        }
    }
}

/// How far the setup is: what is being done or awaited.
#[derive(Debug, Clone, Copy, PartialEq, Eq, Structural)]
pub enum Phase {
    ReopeningModem,
    OpeningLink,
    SendingCommand,
    AwaitingPrompt,
    SendingCallsign,
    AwaitingDisclaimer,
    AwaitingConsent,
    SendingAgree,
    Over,
}

/// A setup in progress.
pub struct Setup {
    pub goal: Goal,
    pub phase: Phase,
    pub callsign: String,
    /// The command that starts the application, unless the node needs none.
    pub command: Option<String>,
    /// What the node said since the last answer to it.
    pub text: String,
}

/// A setup by the texts that it holds.
pub struct SetupView {
    pub goal: GoalView,
    pub phase: Phase,
    pub callsign: Seq<char>,
    pub command: Option<Seq<char>>,
    pub text: Seq<char>,
}

impl View for Setup {
    type V = SetupView;

    open spec fn view(&self) -> SetupView {
        SetupView {
            goal: self.goal@,
            phase: self.phase,
            callsign: self.callsign@,
            command: opt_view(self.command),
            text: self.text@,
        }
    }
}

/// What happened to what the setup asked for.
pub enum SetupEvent {
    /// It was done.
    Done,
    /// It failed.
    Failed(AgwpeError),
    /// The node was heard.
    Received(TransportEvent),
    /// The operator answered, or did not within the time.
    Consent(Option<bool>),
}

/// What happened, by the texts and bytes in it.
pub enum SetupEventView {
    Done,
    Failed(ErrorView),
    Received(EventView),
    Consent(Option<bool>),
}

impl View for SetupEvent {
    type V = SetupEventView;

    open spec fn view(&self) -> SetupEventView {
        match self {
            SetupEvent::Done => SetupEventView::Done,
            SetupEvent::Failed(e) => SetupEventView::Failed(e@),
            SetupEvent::Received(e) => SetupEventView::Received(e@),
            SetupEvent::Consent(c) => SetupEventView::Consent(*c),
        }
    }
}

/// What the setup asks for.
pub enum SetupAction {
    ReopenModem,
    OpenLink,
    SendCommand(Vec<u8>),
    SendCallsign(Vec<u8>),
    SendAgree(Vec<u8>),
    Receive,
    AskOperator,
    /// Close the link: the operator has not agreed, and with this error the
    /// setup is over.
    HangUp(AgwpeError),
    Finish(Result<(), AgwpeError>),
}

/// What the setup asks for, by the bytes and texts in it.
pub enum SetupActionView {
    ReopenModem,
    OpenLink,
    SendCommand(Seq<u8>),
    SendCallsign(Seq<u8>),
    SendAgree(Seq<u8>),
    Receive,
    AskOperator,
    HangUp(ErrorView),
    Succeed,
    Fail(ErrorView),
}

impl View for SetupAction {
    type V = SetupActionView;

    open spec fn view(&self) -> SetupActionView {
        match self {
            SetupAction::ReopenModem => SetupActionView::ReopenModem,
            SetupAction::OpenLink => SetupActionView::OpenLink,
            SetupAction::SendCommand(b) => SetupActionView::SendCommand(b@),
            SetupAction::SendCallsign(b) => SetupActionView::SendCallsign(b@),
            SetupAction::SendAgree(b) => SetupActionView::SendAgree(b@),
            SetupAction::Receive => SetupActionView::Receive,
            SetupAction::AskOperator => SetupActionView::AskOperator,
            SetupAction::HangUp(e) => SetupActionView::HangUp(e@),
            SetupAction::Finish(Ok(_)) => SetupActionView::Succeed,
            SetupAction::Finish(Err(e)) => SetupActionView::Fail(e@),
        }
    }
}

/// A step: the state to show, where it changes, and what to do.
pub struct Step {
    pub show: Option<ConnectionState>,
    pub action: SetupAction,
}

/// A step by the texts and bytes in it.
pub struct StepView {
    pub show: Option<StateView>,
    pub action: SetupActionView,
}

impl View for Step {
    type V = StepView;

    open spec fn view(&self) -> StepView {
        StepView {
            show: match self.show {
                Some(s) => Some(s@),
                None => None,
            },
            action: self.action@,
        }
    }
}

/// A line on the air.
pub open spec fn line_of(s: Seq<char>) -> Seq<u8> {
    encode_utf8(s.push('\n'))
}

/// The first step towards a goal.
pub open spec fn first_step(goal: GoalView) -> StepView {
    match goal {
        GoalView::Connect => StepView {
            show: Some(StateView::Connecting),
            action: SetupActionView::OpenLink,
        },
        GoalView::Reconnect { reason, .. } => StepView {
            show: Some(StateView::Reconnecting { reason }),
            action: SetupActionView::ReopenModem,
        },
    }
}

/// The setup at its start.
pub open spec fn setup_start(
    goal: GoalView,
    callsign: Seq<char>,
    command: Option<Seq<char>>,
) -> SetupView {
    SetupView {
        goal,
        phase: match goal {
            GoalView::Connect => Phase::OpeningLink,
            GoalView::Reconnect { .. } => Phase::ReopeningModem,
        },
        callsign,
        command,
        text: Seq::<char>::empty(),
    }
}

/// The events that a phase can have.
pub open spec fn expects(phase: Phase, event: SetupEventView) -> bool {
    match phase {
        Phase::AwaitingPrompt | Phase::AwaitingDisclaimer => event is Received || event is Failed,
        Phase::AwaitingConsent => event is Consent,
        Phase::Over => false,
        _ => event is Done || event is Failed,
    }
}

/// The setup has failed: the state shows why. A lost session keeps the error
/// itself; a first connection reports a failed handshake.
pub open spec fn failed(s: SetupView, e: ErrorView) -> (SetupView, StepView) {
    let over = SetupView { phase: Phase::Over, ..s };
    match s.goal {
        GoalView::Connect => {
            let msg = "BPQ handshake failed: "@ + e.text();
            (
                over,
                StepView {
                    show: Some(StateView::Error(msg)),
                    action: SetupActionView::Fail(ErrorView::ConnectionFailed(msg)),
                },
            )
        },
        GoalView::Reconnect { .. } => (
            over,
            StepView {
                show: Some(StateView::Error("Reconnect failed: "@ + e.text())),
                action: SetupActionView::Fail(e),
            },
        ),
    }
}

/// The operator has not agreed: the setup has failed, and the link is closed.
pub open spec fn refused(s: SetupView, e: ErrorView) -> (SetupView, StepView) {
    let (over, step) = failed(s, e);
    (
        over,
        StepView {
            action: match step.action {
                SetupActionView::Fail(told) => SetupActionView::HangUp(told),
                other => other,
            },
            ..step
        },
    )
}

/// The setup goes on to a phase.
pub open spec fn goes_on(
    s: SetupView,
    phase: Phase,
    action: SetupActionView,
) -> (SetupView, StepView) {
    (SetupView { phase, ..s }, StepView { show: None, action })
}

/// The operator has called off the attempt to restore a session.
pub open spec fn called_off(s: SetupView, aborted: bool) -> bool {
    aborted && s.goal is Reconnect
}

/// The setup listens, with nothing heard yet.
pub open spec fn listens(s: SetupView, phase: Phase) -> (SetupView, StepView) {
    goes_on(
        SetupView { text: Seq::<char>::empty(), ..s },
        phase,
        SetupActionView::Receive,
    )
}

/// What follows once the node's disclaimer is there: a first connection asks
/// the operator; a lost session is restored without asking exactly where the
/// operator agreed to the same text before, and otherwise waits for a new
/// consent.
pub open spec fn disclaimer_heard(s: SetupView, aborted: bool) -> (SetupView, StepView) {
    let asked = Some(StateView::AwaitingConsent { disclaimer: s.text });
    match s.goal {
        GoalView::Connect => (
            SetupView { phase: Phase::AwaitingConsent, ..s },
            StepView { show: asked, action: SetupActionView::AskOperator },
        ),
        GoalView::Reconnect { stored, .. } => {
            if aborted {
                failed(s, ErrorView::DisconnectedByOperator)
            } else if stored == Some(s.text) {
                goes_on(s, Phase::SendingAgree, SetupActionView::SendAgree(line_of("AGREE"@)))
            } else {
                (
                    SetupView { phase: Phase::Over, ..s },
                    StepView {
                        show: asked,
                        action: SetupActionView::Fail(ErrorView::NeedsReconsent),
                    },
                )
            }
        },
    }
}

/// What follows when the node was heard.
pub open spec fn listened(
    s: SetupView,
    prompt: Prompt,
    event: EventView,
    aborted: bool,
) -> (SetupView, StepView) {
    match event {
        EventView::Data { data } => match heard(s.text, data) {
            None => failed(
                s,
                ErrorView::ConnectionFailed("Handshake text exceeded maximum size"@),
            ),
            Some(text) => {
                let t = SetupView { text, ..s };
                if !prompt_found(prompt, text) {
                    goes_on(t, s.phase, SetupActionView::Receive)
                } else {
                    match prompt {
                        Prompt::Callsign => goes_on(
                            t,
                            Phase::SendingCallsign,
                            SetupActionView::SendCallsign(line_of(s.callsign)),
                        ),
                        Prompt::Agree => disclaimer_heard(t, aborted),
                    }
                }
            },
        },
        EventView::Disconnected { reason } => failed(
            s,
            ErrorView::ConnectionFailed("Peer disconnected during BPQ handshake: "@ + reason),
        ),
    }
}

/// What follows when something was done.
pub open spec fn carried_out(s: SetupView, aborted: bool) -> (SetupView, StepView) {
    if s.phase == Phase::SendingAgree {
        (
            SetupView { phase: Phase::Over, ..s },
            StepView { show: Some(StateView::Connected), action: SetupActionView::Succeed },
        )
    } else if called_off(s, aborted) {
        failed(s, ErrorView::DisconnectedByOperator)
    } else {
        match s.phase {
            Phase::ReopeningModem => (
                SetupView { phase: Phase::OpeningLink, ..s },
                StepView {
                    show: match s.goal {
                        GoalView::Reconnect { reason, .. } => Some(
                            StateView::Reconnecting { reason },
                        ),
                        GoalView::Connect => None,
                    },
                    action: SetupActionView::OpenLink,
                },
            ),
            Phase::OpeningLink => match s.command {
                Some(c) => goes_on(
                    s,
                    Phase::SendingCommand,
                    SetupActionView::SendCommand(line_of(c)),
                ),
                None => listens(s, Phase::AwaitingPrompt),
            },
            Phase::SendingCommand => listens(s, Phase::AwaitingPrompt),
            _ => listens(s, Phase::AwaitingDisclaimer),
        }
    }
}

/// What the setup does when something happened.
pub open spec fn advanced(s: SetupView, event: SetupEventView, aborted: bool) -> (
    SetupView,
    StepView,
) {
    match event {
        SetupEventView::Failed(e) => {
            if s.goal is Connect && s.phase == Phase::OpeningLink {
                goes_on(s, Phase::Over, SetupActionView::Fail(e))
            } else {
                failed(s, e)
            }
        },
        SetupEventView::Done => carried_out(s, aborted),
        SetupEventView::Received(e) => {
            if s.phase == Phase::AwaitingPrompt {
                listened(s, Prompt::Callsign, e, aborted)
            } else {
                listened(s, Prompt::Agree, e, aborted)
            }
        },
        SetupEventView::Consent(Some(true)) => goes_on(
            s,
            Phase::SendingAgree,
            SetupActionView::SendAgree(line_of("AGREE"@)),
        ),
        SetupEventView::Consent(Some(false)) => refused(
            s,
            ErrorView::ConnectionFailed("Operator declined the logging disclaimer"@),
        ),
        SetupEventView::Consent(None) => refused(
            s,
            ErrorView::ConnectionFailed("Consent timeout: operator did not respond"@),
        ),
    }
}

/// A line on the air.
fn line_bytes(s: &str) -> (r: Vec<u8>)
    ensures
        r@ == line_of(s@),
{
    let mut line = s.to_owned();
    line.push('\n');
    let mut out: Vec<u8> = Vec::new();
    append(&mut out, line.as_str().as_bytes());
    assert(out@ =~= line_of(s@));
    out
}

impl Setup {
    /// Begins a setup.
    pub fn start(goal: Goal, callsign: String, command: Option<String>) -> (r: (Setup, Step))
        ensures
            r.0@ == setup_start(goal@, callsign@, opt_view(command)),
            r.1@ == first_step(goal@),
    {
        let step = match &goal {
            Goal::Connect => Step {
                show: Some(ConnectionState::Connecting),
                action: SetupAction::OpenLink,
            },
            Goal::Reconnect { reason, .. } => Step {
                show: Some(ConnectionState::Reconnecting { reason: reason.clone() }),
                action: SetupAction::ReopenModem,
            },
        };
        let phase = match &goal {
            Goal::Connect => Phase::OpeningLink,
            Goal::Reconnect { .. } => Phase::ReopeningModem,
        };
        (Setup { goal, phase, callsign, command, text: String::new() }, step)
    }

    /// Ends the setup with an error.
    fn fail(&mut self, e: AgwpeError) -> (r: Step)
        ensures
            (final(self)@, r@) == failed(old(self)@, e@),
    {
        self.phase = Phase::Over;
        let words = e.message();
        match &self.goal {
            Goal::Connect => {
                let msg = join2("BPQ handshake failed: ", words.as_str());
                Step {
                    show: Some(ConnectionState::Error(msg.clone())),
                    action: SetupAction::Finish(Err(AgwpeError::ConnectionFailed(msg))),
                }
            },
            Goal::Reconnect { .. } => Step {
                show: Some(ConnectionState::Error(join2("Reconnect failed: ", words.as_str()))),
                action: SetupAction::Finish(Err(e)),
            },
        }
    }

    /// Ends the setup, and the link with it, with an error.
    fn refuse(&mut self, e: AgwpeError) -> (r: Step)
        ensures
            (final(self)@, r@) == refused(old(self)@, e@),
    {
        let step = self.fail(e);
        Step {
            show: step.show,
            action: match step.action {
                SetupAction::Finish(Err(told)) => SetupAction::HangUp(told),
                other => other,
            },
        }
    }

    /// Goes on to a phase.
    fn go(&mut self, phase: Phase, action: SetupAction) -> (r: Step)
        ensures
            (final(self)@, r@) == goes_on(old(self)@, phase, action@),
    {
        self.phase = phase;
        Step { show: None, action }
    }

    /// Listens, with nothing heard yet.
    fn listen(&mut self, phase: Phase) -> (r: Step)
        ensures
            (final(self)@, r@) == listens(old(self)@, phase),
    {
        self.text = String::new();
        self.go(phase, SetupAction::Receive)
    }

    /// The node's disclaimer is there.
    fn take_disclaimer(&mut self, aborted: bool) -> (r: Step)
        ensures
            (final(self)@, r@) == disclaimer_heard(old(self)@, aborted),
    {
        let asked = Some(ConnectionState::AwaitingConsent { disclaimer: self.text.clone() });
        let agreed = match &self.goal {
            Goal::Connect => {
                self.phase = Phase::AwaitingConsent;
                return Step { show: asked, action: SetupAction::AskOperator };
            },
            Goal::Reconnect { stored, .. } => {
                let stored_text: Option<&str> = match stored {
                    Some(s) => Some(s.as_str()),
                    None => None,
                };
                matches_stored_disclaimer(self.text.as_str(), stored_text)
            },
        };
        if aborted {
            self.fail(AgwpeError::DisconnectedByOperator)
        } else if agreed {
            self.go(Phase::SendingAgree, SetupAction::SendAgree(line_bytes("AGREE")))
        } else {
            self.phase = Phase::Over;
            Step { show: asked, action: SetupAction::Finish(Err(AgwpeError::NeedsReconsent)) }
        }
    }

    /// The node was heard.
    fn take_event(&mut self, prompt: Prompt, event: TransportEvent, aborted: bool) -> (r: Step)
        ensures
            (final(self)@, r@) == listened(old(self)@, prompt, event@, aborted),
    {
        match event {
            TransportEvent::Data(data) => match hear(prompt, &mut self.text, &data) {
                Err(e) => self.fail(e),
                Ok(false) => {
                    let phase = self.phase;
                    self.go(phase, SetupAction::Receive)
                },
                Ok(true) => match prompt {
                    Prompt::Callsign => {
                        let line = line_bytes(self.callsign.as_str());
                        self.go(Phase::SendingCallsign, SetupAction::SendCallsign(line))
                    },
                    Prompt::Agree => self.take_disclaimer(aborted),
                },
            },
            TransportEvent::Disconnected { reason } => self.fail(
                AgwpeError::ConnectionFailed(
                    join2("Peer disconnected during BPQ handshake: ", reason.as_str()),
                ),
            ),
        }
    }

    /// Something was done.
    fn take_done(&mut self, aborted: bool) -> (r: Step)
        ensures
            (final(self)@, r@) == carried_out(old(self)@, aborted),
    {
        if self.phase == Phase::SendingAgree {
            self.phase = Phase::Over;
            return Step {
                show: Some(ConnectionState::Connected),
                action: SetupAction::Finish(Ok(())),
            };
        }
        let restoring = match &self.goal {
            Goal::Connect => false,
            Goal::Reconnect { .. } => true,
        };
        if aborted && restoring {
            return self.fail(AgwpeError::DisconnectedByOperator);
        }
        match self.phase {
            Phase::ReopeningModem => {
                self.phase = Phase::OpeningLink;
                Step {
                    show: match &self.goal {
                        Goal::Reconnect { reason, .. } => Some(
                            ConnectionState::Reconnecting { reason: reason.clone() },
                        ),
                        Goal::Connect => None,
                    },
                    action: SetupAction::OpenLink,
                }
            },
            Phase::OpeningLink => {
                let line = match &self.command {
                    Some(c) => Some(line_bytes(c.as_str())),
                    None => None,
                };
                match line {
                    Some(b) => self.go(Phase::SendingCommand, SetupAction::SendCommand(b)),
                    None => self.listen(Phase::AwaitingPrompt),
                }
            },
            Phase::SendingCommand => self.listen(Phase::AwaitingPrompt),
            _ => self.listen(Phase::AwaitingDisclaimer),
        }
    }

    /// Takes what happened and says what is to be done. `aborted` tells
    /// whether the operator has called the attempt off.
    pub fn step(&mut self, event: SetupEvent, aborted: bool) -> (r: Step)
        requires
            expects(old(self).phase, event@),
        ensures
            (final(self)@, r@) == advanced(old(self)@, event@, aborted),
    {
        match event {
            SetupEvent::Failed(e) => {
                let first = match &self.goal {
                    Goal::Connect => true,
                    Goal::Reconnect { .. } => false,
                };
                if first && self.phase == Phase::OpeningLink {
                    self.go(Phase::Over, SetupAction::Finish(Err(e)))
                } else {
                    self.fail(e)
                }
            },
            SetupEvent::Done => self.take_done(aborted),
            SetupEvent::Received(e) => {
                if self.phase == Phase::AwaitingPrompt {
                    self.take_event(Prompt::Callsign, e, aborted)
                } else {
                    self.take_event(Prompt::Agree, e, aborted)
                }
            },
            SetupEvent::Consent(Some(true)) => self.go(
                Phase::SendingAgree,
                SetupAction::SendAgree(line_bytes("AGREE")),
            ),
            SetupEvent::Consent(Some(false)) => self.refuse(
                AgwpeError::ConnectionFailed("Operator declined the logging disclaimer".to_owned()),
            ),
            SetupEvent::Consent(None) => self.refuse(
                AgwpeError::ConnectionFailed("Consent timeout: operator did not respond".to_owned()),
            ),
        }
    }
}

/// The station agrees to a disclaimer only where the operator just did, or
/// where a lost session is restored and the operator agreed to exactly this
/// text before.
pub proof fn agreeing_needs_consent(s: SetupView, event: SetupEventView, aborted: bool)
    requires
        expects(s.phase, event),
    ensures
        advanced(s, event, aborted).1.action is SendAgree ==> {
            ||| s.phase == Phase::AwaitingConsent && event == SetupEventView::Consent(Some(true))
            ||| s.goal matches GoalView::Reconnect { stored, .. } && stored == Some(
                advanced(s, event, aborted).0.text,
            ) && s.phase == Phase::AwaitingDisclaimer && !aborted
        },
{
}

/// The operator is asked about exactly the text that the node sent, and only
/// on a first connection.
pub proof fn operator_sees_what_the_node_said(s: SetupView, event: SetupEventView, aborted: bool)
    requires
        expects(s.phase, event),
    ensures
        advanced(s, event, aborted).1.action is AskOperator ==> {
            &&& s.goal is Connect
            &&& event matches SetupEventView::Received(EventView::Data { data })
            &&& heard(s.text, data) == Some(advanced(s, event, aborted).0.text)
            &&& advanced(s, event, aborted).1.show == Some(
                StateView::AwaitingConsent { disclaimer: advanced(s, event, aborted).0.text },
            )
        },
{
}

/// Where the operator declines, or does not answer in time, the link is closed
/// with that error, and nothing else closes it.
pub proof fn declining_ends_the_link(s: SetupView, event: SetupEventView, aborted: bool)
    requires
        expects(s.phase, event),
        consistent(s),
    ensures
        advanced(s, event, aborted).1.action is HangUp <==> s.phase == Phase::AwaitingConsent
            && event != SetupEventView::Consent(Some(true)),
        advanced(s, event, aborted).1.action is HangUp ==> advanced(s, event, aborted).0.phase
            == Phase::Over && advanced(s, event, aborted).1.show is Some,
{
}

/// A setup whose phase belongs to its goal: only a lost session has its modem
/// reopened, and only a first connection asks the operator.
pub open spec fn consistent(s: SetupView) -> bool {
    match s.goal {
        GoalView::Connect => s.phase != Phase::ReopeningModem,
        GoalView::Reconnect { .. } => s.phase != Phase::AwaitingConsent,
    }
}

/// Once the operator has called off the restoring of a session, no link is
/// opened, no command is sent and nothing is agreed to.
pub proof fn calling_off_stops_a_reconnect(s: SetupView, event: SetupEventView)
    requires
        expects(s.phase, event),
        consistent(s),
        s.goal is Reconnect,
    ensures
        !(advanced(s, event, true).1.action is OpenLink),
        !(advanced(s, event, true).1.action is SendCommand),
        !(advanced(s, event, true).1.action is SendAgree),
{
}

/// A setup begins in a phase that belongs to its goal.
pub proof fn setup_starts_consistent(
    goal: GoalView,
    callsign: Seq<char>,
    command: Option<Seq<char>>,
)
    ensures
        consistent(setup_start(goal, callsign, command)),
{
}

/// The place of a phase in the course of a setup.
pub open spec fn phase_rank(p: Phase) -> int {
    match p {
        Phase::ReopeningModem => 0,
        Phase::OpeningLink => 1,
        Phase::SendingCommand => 2,
        Phase::AwaitingPrompt => 3,
        Phase::SendingCallsign => 4,
        Phase::AwaitingDisclaimer => 5,
        Phase::AwaitingConsent => 6,
        Phase::SendingAgree => 7,
        Phase::Over => 8,
    }
}

/// A setup never goes back: it stays where it is only while it listens, so
/// nothing is sent twice. It succeeds only after agreeing, and then shows a
/// connection.
pub proof fn setup_moves_forward(s: SetupView, event: SetupEventView, aborted: bool)
    requires
        expects(s.phase, event),
        consistent(s),
    ensures
        ({
            let (t, step) = advanced(s, event, aborted);
            &&& consistent(t)
            &&& phase_rank(t.phase) > phase_rank(s.phase) || (t.phase == s.phase
                && step.action is Receive)
            &&& t.goal == s.goal && t.callsign == s.callsign && t.command == s.command
            &&& (step.action is Succeed || step.action is Fail || step.action is HangUp) == (t.phase
                == Phase::Over)
            &&& step.action is Succeed ==> s.phase == Phase::SendingAgree && step.show == Some(
                StateView::Connected,
            )
        }),
{
}

// ---------------------------------------------------------------------------
// The answer to a request
// ---------------------------------------------------------------------------

/// How far the answer to a request has come.
pub enum AnswerView {
    Waiting,
    Complete,
    Failed(ErrorView),
}

/// What is said of bytes that are no answer.
pub open spec fn noise_text(data: Seq<u8>) -> Seq<char> {
    let shown = if data.len() < 256 {
        data
    } else {
        data.take(256)
    };
    "malformed response ("@ + decimal(data.len()) + " bytes with no RESP magic: "@ + debug_text(
        utf8_lossy(shown),
    ) + ")"@
}

/// How far the answer has come with these bytes.
pub open spec fn answer_of(data: Seq<u8>) -> AnswerView {
    if session_dead(data) {
        AnswerView::Failed(
            ErrorView::SessionDied { reason: "remote sent AX.25 disconnect notification"@ },
        )
    } else {
        match header_of(data) {
            HeaderView::Malformed => AnswerView::Failed(
                ErrorView::SessionDied { reason: "malformed response header: InvalidResponse"@ },
            ),
            HeaderView::Incomplete => if !occurs(data, magic()) && data.len() > MAX_NOISE {
                AnswerView::Failed(ErrorView::SessionDied { reason: noise_text(data) })
            } else {
                AnswerView::Waiting
            },
            HeaderView::Complete { len, end, .. } => if data.len() >= end + len {
                AnswerView::Complete
            } else {
                AnswerView::Waiting
            },
        }
    }
}

/// The bytes collected and how far the answer has come, once the modem
/// reported an event.
pub open spec fn collected(data: Seq<u8>, event: EventView, aborted: bool) -> (
    Seq<u8>,
    AnswerView,
) {
    match event {
        EventView::Data { data: more } => {
            if aborted {
                (data, AnswerView::Failed(ErrorView::DisconnectedByOperator))
            } else if data.len() + more.len() > MAX_RESPONSE_SIZE {
                (
                    data,
                    AnswerView::Failed(
                        ErrorView::InvalidFrame(
                            "Response exceeded maximum size of "@ + decimal(
                                MAX_RESPONSE_SIZE as nat,
                            ) + " bytes"@,
                        ),
                    ),
                )
            } else {
                (data + more, answer_of(data + more))
            }
        },
        EventView::Disconnected { reason } => (
            data,
            AnswerView::Failed(ErrorView::SessionDied { reason }),
        ),
    }
}

/// How the waiting ends when the modem fails: after a time-out the session
/// counts as dead.
pub open spec fn receive_failed(e: TransportError, timeout_secs: u64) -> ErrorView {
    match e {
        TransportError::Timeout => ErrorView::SessionDied {
            reason: "no response after "@ + decimal(timeout_secs as nat) + "s"@,
        },
        _ => as_agwpe_error(e),
    }
}

/// The result of collecting, by its view.
pub open spec fn answer_result(r: Result<bool, AgwpeError>) -> AnswerView {
    match r {
        Ok(false) => AnswerView::Waiting,
        Ok(true) => AnswerView::Complete,
        Err(e) => AnswerView::Failed(e@),
    }
}

/// The bytes of an answer as they come in.
pub struct ResponseReader {
    data: Vec<u8>,
}

impl View for ResponseReader {
    type V = Seq<u8>;

    closed spec fn view(&self) -> Seq<u8> {
        self.data@
    }
}

impl ResponseReader {
    /// A reader without bytes.
    pub fn new() -> (r: ResponseReader)
        ensures
            r@ == Seq::<u8>::empty(),
    {
        ResponseReader { data: Vec::new() }
    }

    /// All bytes collected.
    pub fn into_data(self) -> (r: Vec<u8>)
        ensures
            r@ == self@,
    {
        self.data
    }

    /// Tells how far the answer has come with the bytes at hand.
    fn progress(&self) -> (r: Result<bool, AgwpeError>)
        ensures
            answer_result(r) == answer_of(self@),
    {
        if is_session_dead_payload(&self.data) {
            return Err(
                AgwpeError::SessionDied {
                    reason: "remote sent AX.25 disconnect notification".to_owned(),
                },
            );
        }
        match Response::decode_header(&self.data) {
            Err(_) => Err(
                AgwpeError::SessionDied {
                    reason: "malformed response header: InvalidResponse".to_owned(),
                },
            ),
            Ok(None) => {
                if self.data.len() <= MAX_NOISE {
                    return Ok(false);
                }
                let magic_bytes: [u8; 4] = [0x52, 0x45, 0x53, 0x50];
                assert(magic_bytes@ =~= magic());
                match crate::bytes::find_bytes(&self.data, &magic_bytes) {
                    Some(_) => Ok(false),
                    None => {
                        let shown = crate::bytes::copy_range(
                            &self.data,
                            0,
                            if self.data.len() < 256 {
                                self.data.len()
                            } else {
                                256
                            },
                        );
                        assert(shown@ =~= (if self.data@.len() < 256 {
                            self.data@
                        } else {
                            self.data@.take(256)
                        }));
                        let mut m = "malformed response (".to_owned();
                        push_decimal(&mut m, self.data.len() as u64);
                        m.append(" bytes with no RESP magic: ");
                        m.append(to_debug_text(string_from_utf8_lossy(&shown).as_str()).as_str());
                        m.append(")");
                        Err(AgwpeError::SessionDied { reason: m })
                    },
                }
            },
            Ok(Some(h)) => Ok(self.data.len() - h.4 >= h.1 as usize),
        }
    }

    /// Takes what the modem reported and tells whether the answer is
    /// complete.
    pub fn take(&mut self, event: TransportEvent, aborted: bool) -> (r: Result<bool, AgwpeError>)
        ensures
            (final(self)@, answer_result(r)) == collected(old(self)@, event@, aborted),
    {
        match event {
            TransportEvent::Data(more) => {
                if aborted {
                    return Err(AgwpeError::DisconnectedByOperator);
                }
                if self.data.len() > MAX_RESPONSE_SIZE || more.len() > MAX_RESPONSE_SIZE
                    - self.data.len() {
                    let mut m = "Response exceeded maximum size of ".to_owned();
                    push_decimal(&mut m, MAX_RESPONSE_SIZE as u64);
                    m.append(" bytes");
                    return Err(AgwpeError::InvalidFrame(m));
                }
                append(&mut self.data, &more);
                self.progress()
            },
            TransportEvent::Disconnected { reason } => Err(AgwpeError::SessionDied { reason }),
        }
    }

    /// The error with which the waiting ends when the modem fails.
    pub fn receive_error(e: TransportError, timeout_secs: u64) -> (r: AgwpeError)
        ensures
            r@ == receive_failed(e, timeout_secs),
    {
        match e {
            TransportError::Timeout => {
                let mut m = "no response after ".to_owned();
                push_decimal(&mut m, timeout_secs);
                m.append("s");
                AgwpeError::SessionDied { reason: m }
            },
            other => transport_err_to_agwpe(other),
        }
    }
}

// ---------------------------------------------------------------------------
// A request that survives a dead session
// ---------------------------------------------------------------------------

/// How far a request has come.
#[derive(Debug, Clone, Copy, PartialEq, Eq, Structural)]
pub enum RetryPhase {
    /// The request was sent.
    First,
    /// The session is being restored.
    Restoring,
    /// The request was sent once more.
    Second,
    Over,
}

/// What happened.
pub enum RetryEvent {
    /// What sending the request and waiting for the answer came to.
    Attempted(Result<Vec<u8>, AgwpeError>),
    /// What restoring the session came to.
    Restored(Result<(), AgwpeError>),
}

/// What is to be done.
pub enum RetryAction {
    /// Send the request.
    Send,
    /// Restore the session, which died for this reason.
    Restore { reason: String },
    /// The request is over with this result.
    Finish(Result<Vec<u8>, AgwpeError>),
}

/// The events that a phase waits for.
pub open spec fn awaits(phase: RetryPhase, event: RetryEvent) -> bool {
    match phase {
        RetryPhase::First | RetryPhase::Second => event is Attempted,
        RetryPhase::Restoring => event is Restored,
        RetryPhase::Over => false,
    }
}

/// How a request goes on: a session that died under the first attempt is
/// restored, and then the request is sent once more. A session that cannot be
/// restored ends the request, and so does the second attempt, whatever it came
/// to.
pub open spec fn retried(phase: RetryPhase, event: RetryEvent) -> (RetryPhase, RetryAction) {
    match (phase, event) {
        (RetryPhase::First, RetryEvent::Attempted(Err(AgwpeError::SessionDied { reason }))) => (
            RetryPhase::Restoring,
            RetryAction::Restore { reason },
        ),
        (RetryPhase::Restoring, RetryEvent::Restored(Ok(_))) => (
            RetryPhase::Second,
            RetryAction::Send,
        ),
        (_, RetryEvent::Restored(Err(e))) => (RetryPhase::Over, RetryAction::Finish(Err(e))),
        (_, RetryEvent::Attempted(result)) => (RetryPhase::Over, RetryAction::Finish(result)),
        (_, RetryEvent::Restored(Ok(_))) => (phase, RetryAction::Send),
    }
}

/// A request that is sent once more where the session died under it.
pub struct Retry {
    pub phase: RetryPhase,
}

impl Retry {
    /// The request is to be sent.
    pub fn start() -> (r: (Retry, RetryAction))
        ensures
            r.0.phase == RetryPhase::First,
            r.1 is Send,
    {
        (Retry { phase: RetryPhase::First }, RetryAction::Send)
    }

    /// Takes what happened and tells what is to be done.
    pub fn step(&mut self, event: RetryEvent) -> (r: RetryAction)
        requires
            awaits(old(self).phase, event),
        ensures
            (final(self).phase, r) == retried(old(self).phase, event),
    {
        match event {
            RetryEvent::Attempted(Err(AgwpeError::SessionDied { reason })) => {
                if matches!(self.phase, RetryPhase::First) {
                    self.phase = RetryPhase::Restoring;
                    RetryAction::Restore { reason }
                } else {
                    self.phase = RetryPhase::Over;
                    RetryAction::Finish(Err(AgwpeError::SessionDied { reason }))
                }
            },
            RetryEvent::Attempted(result) => {
                self.phase = RetryPhase::Over;
                RetryAction::Finish(result)
            },
            RetryEvent::Restored(Ok(_)) => {
                self.phase = RetryPhase::Second;
                RetryAction::Send
            },
            RetryEvent::Restored(Err(e)) => {
                self.phase = RetryPhase::Over;
                RetryAction::Finish(Err(e))
            },
        }
    }
}

/// The events come as the phases wait for them, from a phase on.
pub open spec fn in_turn(phase: RetryPhase, events: Seq<RetryEvent>) -> bool
    decreases events.len(),
{
    events.len() == 0 || (awaits(phase, events[0]) && in_turn(
        retried(phase, events[0]).0,
        events.drop_first(),
    ))
}

/// How often the events have the request sent, from a phase on.
pub open spec fn sends(phase: RetryPhase, events: Seq<RetryEvent>) -> nat
    decreases events.len(),
{
    if events.len() == 0 {
        0
    } else {
        let (next, action) = retried(phase, events[0]);
        sends(next, events.drop_first()) + (if action is Send {
            1nat
        } else {
            0
        })
    }
}

/// How often the events have the session restored, from a phase on.
pub open spec fn restores(phase: RetryPhase, events: Seq<RetryEvent>) -> nat
    decreases events.len(),
{
    if events.len() == 0 {
        0
    } else {
        let (next, action) = retried(phase, events[0]);
        restores(next, events.drop_first()) + (if action is Restore {
            1nat
        } else {
            0
        })
    }
}

/// How often a request may still be sent, from a phase on.
spec fn sends_left(phase: RetryPhase) -> nat {
    match phase {
        RetryPhase::First | RetryPhase::Restoring => 1,
        RetryPhase::Second | RetryPhase::Over => 0,
    }
}

proof fn lemma_sends(phase: RetryPhase, events: Seq<RetryEvent>)
    requires
        in_turn(phase, events),
    ensures
        sends(phase, events) <= sends_left(phase),
        restores(phase, events) <= (if phase == RetryPhase::First {
            1int
        } else {
            0
        }),
    decreases events.len(),
{
    if events.len() > 0 {
        lemma_sends(retried(phase, events[0]).0, events.drop_first());
    }
}

/// Whatever happens, a request is sent at most twice, the first time included,
/// and the session is restored at most once for it.
pub proof fn requests_are_sent_at_most_twice(events: Seq<RetryEvent>)
    requires
        in_turn(RetryPhase::First, events),
    ensures
        1 + sends(RetryPhase::First, events) <= 2,
        restores(RetryPhase::First, events) <= 1,
{
    lemma_sends(RetryPhase::First, events);
}

/// What a request comes to, by what its first attempt, restoring the session and
/// its second attempt would come to.
pub open spec fn request_result(
    first: Result<Vec<u8>, AgwpeError>,
    restored: Result<(), AgwpeError>,
    second: Result<Vec<u8>, AgwpeError>,
) -> Result<Vec<u8>, AgwpeError> {
    match (first, restored) {
        (Err(AgwpeError::SessionDied { .. }), Ok(_)) => second,
        (Err(AgwpeError::SessionDied { .. }), Err(e)) => Err(e),
        _ => first,
    }
}

/// A request ends with the first attempt's result unless the session died under
/// it. It ends with the error that restoring the session gave, where it gave
/// one, and else with the second attempt's result.
pub proof fn requests_end_with_their_result(
    first: Result<Vec<u8>, AgwpeError>,
    restored: Result<(), AgwpeError>,
    second: Result<Vec<u8>, AgwpeError>,
)
    ensures
        ({
            let (p1, a1) = retried(RetryPhase::First, RetryEvent::Attempted(first));
            let (p2, a2) = retried(p1, RetryEvent::Restored(restored));
            let (p3, a3) = retried(p2, RetryEvent::Attempted(second));
            let over = RetryAction::Finish(request_result(first, restored, second));
            match first {
                Err(AgwpeError::SessionDied { reason }) => {
                    &&& a1 == (RetryAction::Restore { reason })
                    &&& restored is Err ==> a2 == over && p2 == RetryPhase::Over
                    &&& restored is Ok ==> a2 is Send && a3 == over && p3 == RetryPhase::Over
                },
                _ => a1 == over && p1 == RetryPhase::Over,
            }
        }),
{
}

// ---------------------------------------------------------------------------
// Laws of the answer
// ---------------------------------------------------------------------------

/// The first occurrence of a pattern in a text is the same in a longer or a
/// shorter one that agrees up to its end.
proof fn lemma_find_in_prefix(a: Seq<u8>, b: Seq<u8>, pat: Seq<u8>, i: int)
    requires
        a.len() <= b.len(),
        b.take(a.len() as int) == a,
        0 <= i,
        i + pat.len() <= a.len(),
    ensures
        first_at(a, pat, i) == first_at(b, pat, i),
{
    assert forall|j: int| j + pat.len() <= a.len() implies (#[trigger] occurs_at(
        a,
        pat,
        j,
    ) == occurs_at(b, pat, j)) by {
        if 0 <= j {
            assert(a.subrange(j, j + pat.len()) =~= b.subrange(j, j + pat.len()));
        }
    }
    if first_at(a, pat, i) {
        assert(occurs_at(a, pat, i));
        assert forall|j: int| 0 <= j < i implies !#[trigger] occurs_at(
            b,
            pat,
            j,
        ) by {
            assert(!occurs_at(a, pat, j));
        }
    }
    if first_at(b, pat, i) {
        assert(occurs_at(a, pat, i));
        assert forall|j: int| 0 <= j < i implies !#[trigger] occurs_at(
            a,
            pat,
            j,
        ) by {
            assert(!occurs_at(b, pat, j));
        }
    }
}

/// The first line break is the same in a shorter text that still holds it.
proof fn lemma_line_break_in_prefix(a: Seq<u8>, b: Seq<u8>, from: int)
    requires
        a.len() <= b.len(),
        b.take(a.len() as int) == a,
        0 <= from <= a.len(),
    ensures
        line_break(a, from) is Some ==> line_break(
            b,
            from,
        ) == line_break(a, from),
        line_break(b, from) matches Some(e) ==> (e < a.len()
            ==> line_break(a, from) == Some(e)),
        line_break(a, from) matches Some(e) ==> from <= e < a.len(),
        line_break(b, from) matches Some(e) ==> from <= e < b.len(),
    decreases b.len() - from,
{
    if from < a.len() {
        assert(a[from] == b[from]);
        lemma_line_break_in_prefix(a, b, from + 1);
    } else if from < b.len() {
        crate::shared::protocol::lemma_line_break_within(b, from);
    }
}

/// A header that is complete or cannot be read stays so, whatever comes after
/// it.
pub proof fn header_is_settled(a: Seq<u8>, more: Seq<u8>)
    requires
        !(header_of(a) is Incomplete),
    ensures
        header_of(a + more) == header_of(a),
        header_of(a) matches HeaderView::Complete { end, .. } ==> end <= a.len(),
{
    let b = a + more;
    assert(b.take(a.len() as int) =~= a);
    let q = find(a, magic())->0;
    crate::text::lemma_first_exists(a, magic());
    lemma_find_in_prefix(a, b, magic(), q);
    crate::text::lemma_find(b, magic(), q);
    assert(a[q + 4] == b[q + 4] && a[q + 5] == b[q + 5]);
    lemma_line_break_in_prefix(a, b, q + 6);
    if let Some(e) = line_break(a, q + 6) {
        assert(a.subrange(q + 6, e) =~= b.subrange(q + 6, e));
    }
}

/// A carriage return and a line feed end a header alike: what is read stays the
/// same where the one stands for the other.
pub proof fn line_breaks_are_alike(a: Seq<u8>, i: int, other: u8)
    requires
        0 <= i < a.len(),
        is_line_break(a[i]),
        is_line_break(other),
    ensures
        header_of(a.update(i, other)) == header_of(a),
{
    let b = a.update(i, other);
    assert forall|j: int| #[trigger] occurs_at(a, magic(), j) == occurs_at(b, magic(), j) by {
        if 0 <= j && j + 4 <= a.len() {
            let x = a.subrange(j, j + 4);
            let y = b.subrange(j, j + 4);
            if j <= i < j + 4 {
                assert(x[i - j] != magic()[i - j] && y[i - j] != magic()[i - j]);
            } else {
                assert(x =~= y);
            }
        }
    }
    if occurs(a, magic()) {
        crate::text::lemma_first_exists(a, magic());
        let q = find(a, magic())->0;
        assert forall|j: int| 0 <= j < q implies !#[trigger] occurs_at(b, magic(), j) by {
            assert(!occurs_at(a, magic(), j));
        }
        assert(occurs_at(b, magic(), q));
        crate::text::lemma_find(b, magic(), q);
        if a.len() >= q + 6 {
            lemma_line_break_alike(a, b, i, q + 6);
            if let Some(e) = line_break(a, q + 6) {
                assert(a.subrange(q + 6, e) =~= b.subrange(q + 6, e));
            }
        }
    } else {
        assert forall|j: int| !#[trigger] occurs_at(b, magic(), j) by {
            assert(!occurs_at(a, magic(), j));
        }
    }
}

proof fn lemma_line_break_alike(a: Seq<u8>, b: Seq<u8>, i: int, from: int)
    requires
        0 <= i < a.len(),
        b.len() == a.len(),
        forall|k: int| 0 <= k < a.len() && k != i ==> #[trigger] a[k] == b[k],
        is_line_break(a[i]),
        is_line_break(b[i]),
        0 <= from <= a.len(),
    ensures
        line_break(a, from) == line_break(b, from),
        line_break(a, from) matches Some(e) ==> from <= e < a.len() && (from <= i ==> e <= i),
    decreases a.len() - from,
{
    if from < a.len() && from != i {
        assert(a[from] == b[from]);
        lemma_line_break_alike(a, b, i, from + 1);
    }
}

/// Where a header's fields hold a space, and that they hold no asterisk.
proof fn lemma_field_spaces(len: nat, etag: Seq<char>, max_age: int)
    requires
        valid_etag(etag),
    ensures
        ({
            let f = header_fields(len, etag, max_age);
            let d = decimal(len).len() as int;
            &&& d >= 1
            &&& f.len() > d + 1 + etag.len()
            &&& forall|i: int|
                0 <= i < f.len() ==> (#[trigger] f[i] == ' ') == (i == d || i == d + 1 + etag.len())
            &&& forall|i: int| 0 <= i < f.len() ==> (#[trigger] f[i]) != '*'
            &&& forall|i: int| 0 <= i < d ==> '0' <= #[trigger] f[i] <= '9'
        }),
{
    let f = header_fields(len, etag, max_age);
    let ds = decimal(len);
    let d = ds.len() as int;
    let a = decimal_signed(max_age);
    let m = (if max_age < 0 {
        -max_age
    } else {
        max_age
    }) as nat;
    crate::number::lemma_decimal(len);
    crate::number::lemma_decimal(m);
    assert forall|i: int| 0 <= i < a.len() implies (#[trigger] a[i] == '-' || '0' <= a[i]
        <= '9') by {
        if max_age < 0 {
            if i > 0 {
                assert(a[i] == decimal(m)[i - 1]);
                assert(crate::text::is_digit(decimal(m)[i - 1]));
            }
        } else {
            assert(a[i] == decimal(m)[i]);
            assert(crate::text::is_digit(decimal(m)[i]));
        }
    }
    assert forall|i: int| 0 <= i < f.len() implies (#[trigger] f[i] == ' ') == (i == d || i == d + 1
        + etag.len()) && f[i] != '*' && (i < d ==> '0' <= f[i] <= '9') by {
        if i < d {
            assert(f[i] == ds[i]);
            assert(crate::text::is_digit(ds[i]));
        } else if d < i < d + 1 + etag.len() {
            let k = i - d - 1;
            assert(f[i] == etag[k]);
            if etag.len() == 16 {
                assert(crate::shared::codec::is_base64url_char(etag[k]));
            }
        } else if i > d + 1 + etag.len() {
            assert(f[i] == a[i - d - 2 - etag.len()]);
        }
    }
}

/// The bytes of the node's texts for a session that is gone.
proof fn lemma_dead_markers()
    ensures
        encode_utf8("*** DISCONNECTED"@)[0] == 0x2a,
        encode_utf8("*** DISCONNECTED"@).len() == 16,
        ({
            let b = encode_utf8("Returned to Node"@);
            b.len() == 16 && b[8] == 0x20 && b[9] == 0x74 && b[10] == 0x6f && b[11] == 0x20
        }),
{
    reveal_strlit("*** DISCONNECTED");
    reveal_strlit("Returned to Node");
    is_ascii_chars_encode_utf8("*** DISCONNECTED"@);
    is_ascii_chars_encode_utf8("Returned to Node"@);
}

/// Where a response's text holds a space, and that it holds no asterisk.
proof fn lemma_response_chars(status: Status, etag: Seq<char>, max_age: int, payload: Seq<u8>)
    requires
        valid_etag(etag),
    ensures
        ({
            let t = response_text(status, etag, max_age, payload);
            let d = decimal(base64_text(payload, false, true).len()).len() as int;
            &&& d >= 1
            &&& is_ascii_chars(t)
            &&& forall|i: int| 0 <= i < t.len() ==> (#[trigger] t[i]) != '*'
            &&& forall|i: int|
                0 <= i < t.len() ==> (#[trigger] t[i] == ' ') == (i == 5 || i == 6 + d || i == 7 + d
                    + etag.len())
            &&& forall|i: int| 6 <= i < 6 + d ==> '0' <= #[trigger] t[i] <= '9'
        }),
{
    let body = base64_text(payload, false, true);
    let t = response_text(status, etag, max_age, payload);
    let f = header_fields(body.len(), etag, max_age);
    let d = decimal(body.len()).len() as int;
    lemma_field_spaces(body.len(), etag, max_age);
    crate::shared::codec::lemma_base64_alphabet(payload, false, true);
    wire_is_telnet_safe(status, etag, max_age, payload);
    assert forall|i: int| 0 <= i < t.len() implies (#[trigger] t[i]) != '*' && (t[i] == ' ') == (i
        == 5 || i == 6 + d || i == 7 + d + etag.len()) && (6 <= i < 6 + d ==> '0' <= t[i]
        <= '9') by {
        if 6 <= i < 6 + f.len() {
            assert(t[i] == f[i - 6]);
        } else if 7 + f.len() <= i < 7 + f.len() + body.len() {
            assert(t[i] == body[i - 7 - f.len()]);
        }
    }
}

/// No response is ever taken for the node's notice that the session is gone,
/// neither whole nor in part.
pub proof fn response_is_no_disconnect_notice(
    status: Status,
    etag: Seq<char>,
    max_age: int,
    payload: Seq<u8>,
    arrived: int,
)
    requires
        valid_etag(etag),
        0 <= arrived <= response_wire(status, etag, max_age, payload).len(),
    ensures
        !session_dead(response_wire(status, etag, max_age, payload).take(arrived)),
{
    let t = response_text(status, etag, max_age, payload);
    let w = response_wire(status, etag, max_age, payload);
    let part = w.take(arrived);
    let m1 = encode_utf8("*** DISCONNECTED"@);
    let m2 = encode_utf8("Returned to Node"@);
    let d = decimal(base64_text(payload, false, true).len()).len() as int;
    lemma_dead_markers();
    lemma_response_chars(status, etag, max_age, payload);
    is_ascii_chars_encode_utf8(t);
    assert forall|i: int| 0 <= i < t.len() implies #[trigger] w[i] == t[i] as u8 by {
        assert(t[i] == t[i]);
    }
    assert forall|j: int| !#[trigger] occurs_at(part, m1, j) by {
        if occurs_at(part, m1, j) {
            assert(part.subrange(j, j + 16)[0] == m1[0]);
            assert(w[j] == 0x2a);
            assert(t[j] == '*');
        }
    }
    assert forall|j: int| !#[trigger] occurs_at(part, m2, j) by {
        if occurs_at(part, m2, j) {
            let s = part.subrange(j, j + 16);
            assert(s[8] == m2[8] && s[9] == m2[9] && s[10] == m2[10] && s[11] == m2[11]);
            assert(w[j + 8] == 0x20 && w[j + 9] == 0x74 && w[j + 10] == 0x6f && w[j + 11] == 0x20);
            assert(t[j + 8] == ' ');
            assert(t[j + 11] == ' ');
            assert(t[j + 9] == 't');
            if j + 8 == 5 {
                assert(j + 11 == 6 + d || j + 11 == 7 + d + etag.len());
                assert(d == 2);
                assert('0' <= t[6] <= '9');
            }
        }
    }
}

/// A header is known as soon as its bytes are there.
proof fn lemma_header_in_prefix(b: Seq<u8>, n: int)
    requires
        header_of(b) is Complete,
        header_of(b)->end <= n <= b.len(),
    ensures
        header_of(b.take(n)) == header_of(b),
{
    let a = b.take(n);
    let q = find(b, magic())->0;
    crate::text::lemma_first_exists(b, magic());
    crate::shared::protocol::lemma_line_break_within(b, q + 6);
    assert(b.take(a.len() as int) =~= a);
    lemma_line_break_in_prefix(a, b, q + 6);
    lemma_find_in_prefix(a, b, magic(), q);
    crate::text::lemma_find(a, magic(), q);
    let e = line_break(b, q + 6)->0;
    assert(a.subrange(q + 6, e) =~= b.subrange(q + 6, e));
}

/// However a response is cut on its way, it is complete as soon as its payload
/// is there and not before, and never in error.
pub proof fn answer_completes_with_its_payload(
    status: Status,
    etag: Seq<char>,
    max_age: int,
    payload: Seq<u8>,
    arrived: int,
)
    requires
        valid_etag(etag),
        i32::MIN <= max_age <= i32::MAX,
        base64_len(payload.len() as int) <= u32::MAX,
        0 <= arrived <= response_wire(status, etag, max_age, payload).len(),
    ensures
        answer_of(response_wire(status, etag, max_age, payload).take(arrived)) == (if arrived + 1
            >= response_wire(status, etag, max_age, payload).len() {
            AnswerView::Complete
        } else {
            AnswerView::Waiting
        }),
{
    let none = Seq::<u8>::empty();
    let w = response_wire(status, etag, max_age, payload);
    let part = w.take(arrived);
    let len = base64_text(payload, false, true).len();
    let head = header_text(status, len, etag, max_age);
    assert(none + w =~= w);
    assert(!occurs(none, magic())) by {
        assert forall|j: int| !#[trigger] occurs_at(none, magic(), j) by {}
    }
    crate::shared::codec::lemma_base64_len(payload, false);
    response_is_no_disconnect_notice(status, etag, max_age, payload, arrived);
    response_round_trip(none, status, etag, max_age, payload);
    if arrived < head.len() {
        header_waits_for_its_line(none, status, etag, max_age, payload, arrived);
        assert(!occurs(part, magic()) ==> part.len() <= 4) by {
            if part.len() > 4 {
                crate::shared::protocol::lemma_wire_begins(status, etag, max_age, payload);
                assert(part.subrange(0, 4) =~= w.take(4));
                assert(occurs_at(part, magic(), 0));
            }
        }
    } else {
        lemma_header_in_prefix(w, arrived);
    }
}

// ---------------------------------------------------------------------------
// Laws of the whole setup
// ---------------------------------------------------------------------------

/// What goes over the air in a setup is a line: the node's command, the callsign
/// of the station, or the word of consent, each with a line feed behind it.
pub proof fn lines_are_sent_as_they_are(s: SetupView, event: SetupEventView, aborted: bool)
    requires
        expects(s.phase, event),
    ensures
        match advanced(s, event, aborted).1.action {
            SetupActionView::SendCommand(bytes) => s.command matches Some(c) && bytes
                == encode_utf8(c + seq!['\n']),
            SetupActionView::SendCallsign(bytes) => bytes == encode_utf8(s.callsign + seq!['\n']),
            SetupActionView::SendAgree(bytes) => bytes == encode_utf8("AGREE"@ + seq!['\n']),
            _ => true,
        },
{
    assert(s.callsign.push('\n') =~= s.callsign + seq!['\n']);
    assert("AGREE"@.push('\n') =~= "AGREE"@ + seq!['\n']);
    if let Some(c) = s.command {
        assert(c.push('\n') =~= c + seq!['\n']);
    }
}

/// A setup that goes well: the link is opened, the node is told which service is
/// wanted unless there is none to name, the callsign is given where it is asked
/// for, and the operator of a first connection is asked about the disclaimer.
pub proof fn a_first_connection_takes_its_course(
    callsign: Seq<char>,
    command: Option<Seq<char>>,
    asked: Seq<char>,
    disclaimer: Seq<char>,
)
    requires
        occurs(asked, "callsign"@),
        occurs(disclaimer, "AGREE"@) && is_ascii_chars(disclaimer),
        encode_utf8(asked).len() <= 65536,
        encode_utf8(disclaimer).len() <= 65536,
    ensures
        ({
            let said = |text: Seq<char>|
                SetupEventView::Received(EventView::Data { data: encode_utf8(text) });
            let s0 = setup_start(GoalView::Connect, callsign, command);
            let (s1, a1) = advanced(s0, SetupEventView::Done, false);
            let (s2, a2) = match command {
                Some(_) => advanced(s1, SetupEventView::Done, false),
                None => (s1, a1),
            };
            let (s3, a3) = advanced(s2, said(asked), false);
            let (s4, a4) = advanced(s3, SetupEventView::Done, false);
            let (s5, a5) = advanced(s4, said(disclaimer), false);
            let (s6, a6) = advanced(s5, SetupEventView::Consent(Some(true)), false);
            let (s7, a7) = advanced(s6, SetupEventView::Done, false);
            &&& first_step(GoalView::Connect).action is OpenLink
            &&& command matches Some(c) ==> a1.action == SetupActionView::SendCommand(line_of(c))
            &&& a2.action is Receive
            &&& a3.action == SetupActionView::SendCallsign(line_of(callsign))
            &&& a4.action is Receive
            &&& a5.action is AskOperator
            &&& a5.show == Some(StateView::AwaitingConsent { disclaimer })
            &&& a6.action == SetupActionView::SendAgree(line_of("AGREE"@))
            &&& a7.action is Succeed
        }),
{
    lemma_said(asked);
    lemma_said(disclaimer);
    assert(Seq::<char>::empty() + asked =~= asked);
    assert(Seq::<char>::empty() + disclaimer =~= disclaimer);
    lemma_agree_in_capitals(disclaimer);
}

/// A lost session is restored without asking exactly where the node shows the
/// text that the operator agreed to; with any other text it waits for a new
/// consent.
pub proof fn lost_sessions_are_restored_under_the_same_text(
    s: SetupView,
    reason: Seq<char>,
    stored: Option<Seq<char>>,
    disclaimer: Seq<char>,
)
    requires
        s.goal == (GoalView::Reconnect { reason, stored }),
        s.phase == Phase::AwaitingDisclaimer,
        s.text.len() == 0,
        occurs(disclaimer, "AGREE"@) && is_ascii_chars(disclaimer),
        encode_utf8(disclaimer).len() <= 65536,
    ensures
        ({
            let event = SetupEventView::Received(
                EventView::Data { data: encode_utf8(disclaimer) },
            );
            let (_, step) = advanced(s, event, false);
            &&& stored == Some(disclaimer) ==> step.action == SetupActionView::SendAgree(
                line_of("AGREE"@),
            )
            &&& stored != Some(disclaimer) ==> step.action == SetupActionView::Fail(
                ErrorView::NeedsReconsent,
            ) && step.show == Some(StateView::AwaitingConsent { disclaimer })
        }),
{
    lemma_said(disclaimer);
    assert(s.text + disclaimer =~= disclaimer);
    lemma_agree_in_capitals(disclaimer);
}

proof fn lemma_said(text: Seq<char>)
    ensures
        utf8_lossy(encode_utf8(text)) == text,
        encode_utf8(Seq::<char>::empty()).len() == 0,
{
    encode_utf8_valid_utf8(text);
    encode_utf8_decode_utf8(text);
    is_ascii_chars_encode_utf8(Seq::<char>::empty());
}

proof fn lemma_agree_in_capitals(text: Seq<char>)
    requires
        occurs(text, "AGREE"@),
        is_ascii_chars(text),
    ensures
        occurs(upper(text), "AGREE"@),
{
    reveal_strlit("AGREE");
    let i = choose|i: int| occurs_at(text, "AGREE"@, i);
    assert(upper(text) == crate::text::ascii_upper(text));
    assert forall|k: int| 0 <= k < 5 implies #[trigger] upper(text)[i + k] == "AGREE"@[k] by {
        assert(text.subrange(i, i + 5)[k] == "AGREE"@[k]);
    }
    assert(upper(text).subrange(i, i + 5) =~= "AGREE"@);
    assert(occurs_at(upper(text), "AGREE"@, i));
}

/// What the node says in pieces is heard as if it came at once, and until the
/// prompt is there the station listens on.
pub proof fn prompts_may_come_in_pieces(s: SetupView, a: Seq<char>, b: Seq<char>, aborted: bool)
    requires
        s.phase == Phase::AwaitingPrompt || s.phase == Phase::AwaitingDisclaimer,
        !prompt_found(
            if s.phase == Phase::AwaitingPrompt {
                Prompt::Callsign
            } else {
                Prompt::Agree
            },
            s.text + a,
        ),
        encode_utf8(s.text).len() + encode_utf8(a + b).len() <= 65536,
    ensures
        ({
            let said = |text: Seq<char>|
                SetupEventView::Received(EventView::Data { data: encode_utf8(text) });
            let (mid, step) = advanced(s, said(a), aborted);
            &&& step.action is Receive
            &&& advanced(mid, said(b), aborted) == advanced(s, said(a + b), aborted)
        }),
{
    lemma_said(a);
    lemma_said(b);
    lemma_said(a + b);
    crate::bytes::lemma_encode_concat(a, b);
    crate::bytes::lemma_encode_concat(s.text, a);
    assert(s.text + a + b =~= s.text + (a + b));
}

/// Whatever goes wrong in a setup ends it, and the operator is shown why.
pub proof fn failures_end_a_setup(s: SetupView, e: ErrorView, reason: Seq<char>, aborted: bool)
    requires
        s.phase == Phase::AwaitingPrompt || s.phase == Phase::AwaitingDisclaimer,
    ensures
        ({
            let (t, step) = advanced(s, SetupEventView::Failed(e), aborted);
            &&& t.phase == Phase::Over
            &&& step.action is Fail
            &&& step.show matches Some(StateView::Error(_))
            &&& s.goal is Reconnect ==> step.action == SetupActionView::Fail(e)
        }),
        ({
            let (t, step) = advanced(
                s,
                SetupEventView::Received(EventView::Disconnected { reason }),
                aborted,
            );
            &&& t.phase == Phase::Over
            &&& step.action is Fail
            &&& step.show matches Some(StateView::Error(_))
        }),
{
}

/// While an answer is awaited, bytes are collected in their order, and nothing
/// else. A notice of a lost session in them, a disconnect, or the operator ends
/// the waiting.
pub proof fn answers_are_collected_in_order(
    data: Seq<u8>,
    more: Seq<u8>,
    reason: Seq<char>,
    aborted: bool,
)
    requires
        data.len() + more.len() <= 10485760,
    ensures
        ({
            let (got, answer) = collected(data, EventView::Data { data: more }, aborted);
            &&& !aborted ==> got == data + more
            &&& aborted ==> answer == AnswerView::Failed(ErrorView::DisconnectedByOperator)
            &&& !aborted && (occurs(data + more, encode_utf8("*** DISCONNECTED"@)) || occurs(
                data + more,
                encode_utf8("Returned to Node"@),
            )) ==> answer is Failed && answer->Failed_0 is SessionDied
            &&& answer is Complete ==> (match header_of(data + more) {
                HeaderView::Complete { len, end, .. } => got.len() >= end + len,
                _ => false,
            })
        }),
        collected(data, EventView::Disconnected { reason }, aborted).1 == AnswerView::Failed(
            ErrorView::SessionDied { reason },
        ),
{
    reveal_strlit("*** DISCONNECTED");
    reveal_strlit("Returned to Node");
    is_ascii_chars_encode_utf8("*** DISCONNECTED"@);
    is_ascii_chars_encode_utf8("Returned to Node"@);
}

/// Silence counts as a lost session, which may be restored; any other failure of
/// the modem does not.
pub proof fn silence_counts_as_a_lost_session(e: TransportError, timeout_secs: u64)
    ensures
        e is Timeout ==> receive_failed(e, timeout_secs) == (ErrorView::SessionDied {
            reason: "no response after "@ + decimal(timeout_secs as nat) + "s"@,
        }),
        !(e is Timeout) ==> receive_failed(e, timeout_secs) == as_agwpe_error(e),
{
}

/// Bytes that are no answer are told of with their number, and of a long row
/// with how it begins.
pub proof fn noise_is_told_of(data: Seq<u8>)
    ensures
        data.len() <= 256 ==> noise_text(data) == "malformed response ("@ + decimal(data.len())
            + " bytes with no RESP magic: "@ + debug_text(utf8_lossy(data)) + ")"@,
        data.len() > 256 ==> noise_text(data) == "malformed response ("@ + decimal(data.len())
            + " bytes with no RESP magic: "@ + debug_text(utf8_lossy(data.subrange(0, 256))) + ")"@,
{
    if data.len() >= 256 {
        assert(data.take(256) =~= data.subrange(0, 256));
        if data.len() == 256 {
            assert(data.take(256) =~= data);
        }
    }
}

/// The node asks for the callsign by that word, or shows what is to be agreed to
/// at once; it asks for consent by the word for it in any case of its letters.
/// A text with neither is no prompt.
pub proof fn prompts_are_known_by_their_words(front: Seq<char>, back: Seq<char>, text: Seq<char>)
    requires
        vstd::utf8::is_ascii_chars(text),
    ensures
        prompt_found(Prompt::Callsign, front + "callsign"@ + back),
        prompt_found(Prompt::Callsign, front + "AGREE"@ + back),
        !occurs(text, "callsign"@) && !occurs(text, "AGREE"@) ==> !prompt_found(
            Prompt::Callsign,
            text,
        ),
        prompt_found(Prompt::Agree, text) <==> occurs(crate::text::ascii_upper(text), "AGREE"@),
{
    crate::text::lemma_occurs_within(front, "callsign"@, back);
    crate::text::lemma_occurs_within(front, "AGREE"@, back);
}

/// A handshake is listened to for 64 KiB, an answer for 10 MiB, and bytes that
/// are no answer for 32 KiB.
pub proof fn listening_has_these_limits(text: Seq<char>, data: Seq<u8>)
    ensures
        heard(text, data) == (if encode_utf8(text).len() + encode_utf8(utf8_lossy(data)).len()
            <= 64 * 1024 {
            Some(text + utf8_lossy(data))
        } else {
            None
        }),
        MAX_RESPONSE_SIZE == 10 * 1024 * 1024,
        MAX_NOISE == 32 * 1024,
{
}

} // verus!
