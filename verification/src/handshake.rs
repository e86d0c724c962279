//! What the client and the server say to each other until a station is in.

use vstd::prelude::*;
use vstd::utf8::*;
use crate::bytes::utf8_lossy;
use crate::client::state::StateView;
use crate::client::transport::agwpe::EventView;
use crate::client::transport::session::{
    advanced, line_of, Phase, SetupActionView, SetupEventView, SetupView,
};
use crate::server::login::{
    callsign_prompt, consent_prompt, login_step, LoginStepView, LoginView,
};
use crate::server::session::{base_call, callsign_shape, is_allowed};
use crate::text::{ascii_upper, lemma_trim_push, occurs, occurs_at, starts_with, trim, upper};

verus! {

/// What the server says comes over the air as it is.
pub open spec fn over_the_air(text: Seq<char>) -> SetupEventView {
    SetupEventView::Received(EventView::Data { data: encode_utf8(text) })
}

/// Text that is encoded is heard as it was.
proof fn lemma_heard(text: Seq<char>)
    ensures
        utf8_lossy(encode_utf8(text)) == text,
{
    encode_utf8_valid_utf8(text);
    encode_utf8_decode_utf8(text);
}

/// The client answers the server's first prompt with its callsign. The server
/// takes that line and states the disclaimer, where the callsign is one that it
/// takes.
pub proof fn the_callsign_is_asked_for_and_given(setup: SetupView, allowed: Seq<Seq<char>>)
    requires
        setup.phase == Phase::AwaitingPrompt,
        setup.text == Seq::<char>::empty(),
        callsign_shape(base_call(trim(setup.callsign))) || is_allowed(
            base_call(trim(setup.callsign)),
            allowed,
        ),
    ensures
        advanced(setup, over_the_air(callsign_prompt()), false).0.phase == Phase::SendingCallsign,
        advanced(setup, over_the_air(callsign_prompt()), false).1.action
            == SetupActionView::SendCallsign(line_of(setup.callsign)),
        login_step(LoginView::AwaitCallsign, Some(setup.callsign.push('\n')), allowed)
            == (LoginStepView::Ask {
            next: LoginView::AwaitConsent { callsign: upper(base_call(trim(setup.callsign))) },
            say: consent_prompt(),
        }),
{
    let prompt = callsign_prompt();
    lemma_heard(prompt);
    reveal_strlit("Enter your callsign: ");
    reveal_strlit("callsign");
    assert(setup.text + prompt =~= prompt);
    assert(prompt.subrange(11, 19) =~= "callsign"@);
    assert(occurs_at(prompt, "callsign"@, 11));
    assert(occurs(prompt, "callsign"@));
    lemma_sizes();
    lemma_trim_push(setup.callsign, '\n');
}

/// The prompts are short.
proof fn lemma_sizes()
    ensures
        encode_utf8(Seq::<char>::empty()).len() + encode_utf8(callsign_prompt()).len() <= 65536,
        encode_utf8(Seq::<char>::empty()).len() + encode_utf8(consent_prompt()).len() <= 65536,
{
    reveal_strlit("Enter your callsign: ");
    reveal_strlit("All activity is logged including your callsign.\nType AGREE to proceed: ");
    is_ascii_chars_encode_utf8(callsign_prompt());
    is_ascii_chars_encode_utf8(consent_prompt());
    is_ascii_chars_encode_utf8(Seq::<char>::empty());
}

/// The client shows the operator of a first connection exactly the server's
/// disclaimer. Once the operator agrees, it says so, and the server lets the
/// station in, unless its callsign is the very word.
pub proof fn the_disclaimer_is_shown_and_agreed_to(
    setup: SetupView,
    callsign: Seq<char>,
    allowed: Seq<Seq<char>>,
)
    requires
        setup.goal is Connect,
        setup.phase == Phase::AwaitingDisclaimer,
        setup.text == Seq::<char>::empty(),
        callsign != "AGREE"@,
    ensures
        ({
            let (asking, asked) = advanced(setup, over_the_air(consent_prompt()), false);
            let (agreeing, agreed) = advanced(asking, SetupEventView::Consent(Some(true)), false);
            &&& asked.action is AskOperator
            &&& asked.show == Some(StateView::AwaitingConsent { disclaimer: consent_prompt() })
            &&& agreed.action == SetupActionView::SendAgree(line_of("AGREE"@))
            &&& advanced(agreeing, SetupEventView::Done, false).1.action is Succeed
        }),
        login_step(
            LoginView::AwaitConsent { callsign },
            Some("AGREE"@.push('\n')),
            allowed,
        ) == (LoginStepView::Admit { callsign }),
{
    let prompt = consent_prompt();
    lemma_heard(prompt);
    lemma_sizes();
    assert(setup.text + prompt =~= prompt);
    reveal_strlit("All activity is logged including your callsign.\nType AGREE to proceed: ");
    reveal_strlit("AGREE");
    reveal_strlit("***");
    assert(upper(prompt) == ascii_upper(prompt));
    assert(upper(prompt).subrange(53, 58) =~= "AGREE"@);
    assert(occurs_at(upper(prompt), "AGREE"@, 53));
    assert(occurs(upper(prompt), "AGREE"@));
    let word = "AGREE"@;
    lemma_trim_push(word, '\n');
    assert(trim(word) == word);
    assert(upper(word) =~= word);
    assert(word[0] == 'A' && "***"@[0] == '*');
    assert(!starts_with(word, "***"@));
}

} // verus!
