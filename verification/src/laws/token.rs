//! Tokens: where one comes from, when it counts, and when there is none.
use vstd::prelude::*;

use crate::text::trimmed;
use crate::token::{
    follows, github_token, handled, judged, next_action, outcome, reply_error, required_token, Action,
    ActionView, Origin, Reply, TokenError, TokenErrorView, TokenEvent, TokenRules,
};

verus! {

/// GitHub finds a token invalid with one status alone; with any other the token counts. Where GitHub cannot be
/// asked, that is told.
pub proof fn law_reply(status: u16, message: String)
    ensures
        reply_error(Reply::Status(status)) == if status == 401 {
            Some(TokenErrorView::InvalidToken)
        } else {
            None
        },
        reply_error(Reply::NoConnection) == Some(TokenErrorView::FailedToConnect),
        reply_error(Reply::Failed(message)) == Some(TokenErrorView::RequestMiddleware(message@)),
{
}

/// A token that is passed is asked about, and no other is looked for; without one the store is looked into, and
/// what it holds is asked about.
pub proof fn law_start(rules: TokenRules, token: String)
    ensures
        next_action(rules, TokenEvent::Started(Some(token))) == ActionView::Validate(
            token@,
            Origin::Passed,
        ),
        next_action(rules, TokenEvent::Started(None)) == ActionView::LookUp,
        next_action(rules, TokenEvent::LookedUp(Some(token))) == ActionView::Validate(
            token@,
            Origin::Stored,
        ),
{
}

/// Where there is no token, a prompt is shown exactly where one is needed and somebody can answer it.
pub proof fn law_prompt(rules: TokenRules)
    ensures
        next_action(rules, TokenEvent::LookedUp(None)) == if rules.required && !rules.ci {
            ActionView::Prompt
        } else {
            ActionView::GiveNone
        },
{
}

/// A token that GitHub accepts is given, wherever it comes from and whatever the rules are. One that could not be
/// asked about fails with the reason.
pub proof fn law_accepted_token(
    rules: TokenRules,
    token: String,
    origin: Origin,
    status: u16,
    message: String,
)
    ensures
        status != 401 ==> next_action(rules, TokenEvent::Asked(token, origin, Reply::Status(status)))
            == ActionView::Give(token@),
        next_action(rules, TokenEvent::Asked(token, origin, Reply::NoConnection)) == ActionView::Fail(
            TokenErrorView::FailedToConnect,
        ),
        next_action(rules, TokenEvent::Asked(token, origin, Reply::Failed(message))) == ActionView::Fail(
            TokenErrorView::RequestMiddleware(message@),
        ),
{
}

/// A token that was passed and is invalid fails. One that was stored gives way to a prompt where a token is
/// needed and somebody can answer; where nobody can, it fails; where none is needed, there is none.
pub proof fn law_refused_token(rules: TokenRules, token: String)
    ensures
        next_action(rules, TokenEvent::Asked(token, Origin::Passed, Reply::Status(401)))
            == ActionView::Fail(TokenErrorView::InvalidToken),
        next_action(rules, TokenEvent::Asked(token, Origin::Stored, Reply::Status(401)))
            == if !rules.required {
            ActionView::GiveNone
        } else if rules.ci {
            ActionView::Fail(TokenErrorView::InvalidToken)
        } else {
            ActionView::Prompt
        },
{
}

/// A token from the prompt is stored and given; a prompt that fails fails the run, with its message.
pub proof fn law_prompted(rules: TokenRules, token: String, message: String)
    ensures
        next_action(rules, TokenEvent::Prompted(Ok(token))) == ActionView::StoreAndGive(token@),
        next_action(rules, TokenEvent::Prompted(Err(message))) == ActionView::Fail(
            TokenErrorView::Inquire(message@),
        ),
{
}

/// A run ends with the token that is given, with none, or with the error; a run that needs a token and gets none
/// fails. Where something is still to be done, there is no outcome.
pub proof fn law_outcome(token: Seq<char>, origin: Origin, error: TokenErrorView)
    ensures
        outcome(ActionView::Give(token)) == Some(Ok::<_, TokenErrorView>(Some(token))),
        outcome(ActionView::StoreAndGive(token)) == Some(Ok::<_, TokenErrorView>(Some(token))),
        outcome(ActionView::GiveNone) == Some(Ok::<Option<Seq<char>>, TokenErrorView>(None)),
        outcome(ActionView::Fail(error)) == Some(Err::<Option<Seq<char>>, _>(error)),
        outcome(ActionView::LookUp) is None,
        outcome(ActionView::Prompt) is None,
        outcome(ActionView::Validate(token, origin)) is None,
        handled(ActionView::Give(token)) == Some(Ok::<_, TokenErrorView>(token)),
        handled(ActionView::StoreAndGive(token)) == Some(Ok::<_, TokenErrorView>(token)),
        handled(ActionView::GiveNone) == Some(Err::<Seq<char>, _>(TokenErrorView::NoTokenInCI)),
        handled(ActionView::Fail(error)) == Some(Err::<Seq<char>, _>(error)),
        handled(ActionView::LookUp) is None,
        handled(ActionView::Prompt) is None,
        handled(ActionView::Validate(token, origin)) is None,
        required_token(Some(token)) == Ok::<_, TokenErrorView>(token),
        required_token(None) == Err::<Seq<char>, _>(TokenErrorView::NoTokenInCI),
{
}

/// A token is the one that it was, where GitHub does not find it invalid.
pub proof fn law_judged(token: Seq<char>, reply: Reply)
    ensures
        match judged(token, reply) {
            Ok(kept) => kept == token && (reply matches Reply::Status(status) && status != 401),
            Err(error) => match reply {
                Reply::Status(status) => status == 401 && error == TokenErrorView::InvalidToken,
                Reply::NoConnection => error == TokenErrorView::FailedToConnect,
                Reply::Failed(message) => error == TokenErrorView::RequestMiddleware(message@),
            },
        },
{
}

/// The token of the environment counts before the one that is passed, as it is; one that is passed counts, as it
/// is, where it is more than white space.
pub proof fn law_github_token(environment: Option<Seq<char>>, passed: Option<Seq<char>>)
    ensures
        environment is Some ==> github_token(environment, passed) == environment,
        environment is None && (passed matches Some(token) && trimmed(token).len() > 0) ==> github_token(
            environment,
            passed,
        ) == passed,
        environment is None && (passed matches Some(token) ==> trimmed(token).len() == 0) ==> github_token(
            environment,
            passed,
        ) is None,
{
}

/// What follows an action tells what came of it: of the same token, from the same place.
pub proof fn law_follows(
    token: String,
    other: String,
    origin: Origin,
    from: Origin,
    reply: Reply,
    found: Option<String>,
    given: Result<String, String>,
)
    ensures
        follows(ActionView::Validate(token@, origin), TokenEvent::Asked(other, from, reply)) <==> other@
            == token@ && from == origin,
        follows(ActionView::LookUp, TokenEvent::LookedUp(found)),
        follows(ActionView::Prompt, TokenEvent::Prompted(given)),
        !follows(ActionView::LookUp, TokenEvent::Started(found)),
        !follows(ActionView::LookUp, TokenEvent::Prompted(given)),
        !follows(ActionView::Prompt, TokenEvent::LookedUp(found)),
        !follows(ActionView::GiveNone, TokenEvent::LookedUp(found)),
        !follows(ActionView::Give(token@), TokenEvent::Prompted(given)),
{
}

/// An action says what it does, with the token or the error that it has.
pub proof fn law_action_view(action: Action)
    ensures
        match (action, action@) {
            (Action::LookUp, ActionView::LookUp) => true,
            (Action::Validate(token, origin), ActionView::Validate(text, from)) => text == token@ && from
                == origin,
            (Action::Prompt, ActionView::Prompt) => true,
            (Action::StoreAndGive(token), ActionView::StoreAndGive(text)) => text == token@,
            (Action::Give(token), ActionView::Give(text)) => text == token@,
            (Action::GiveNone, ActionView::GiveNone) => true,
            (Action::Fail(error), ActionView::Fail(view)) => view == error@,
            _ => false,
        },
{
}

/// An error says what is wrong, with the message that it has.
pub proof fn law_token_error_view(error: TokenError)
    ensures
        match (error, error@) {
            (TokenError::NoTokenInCI, TokenErrorView::NoTokenInCI) => true,
            (TokenError::InvalidToken, TokenErrorView::InvalidToken) => true,
            (TokenError::FailedToConnect, TokenErrorView::FailedToConnect) => true,
            (TokenError::Keyring(message), TokenErrorView::Keyring(text)) => text == message@,
            (TokenError::Request(message), TokenErrorView::Request(text)) => text == message@,
            (TokenError::RequestMiddleware(message), TokenErrorView::RequestMiddleware(text)) => text
                == message@,
            (TokenError::Inquire(message), TokenErrorView::Inquire(text)) => text == message@,
            _ => false,
        },
{
}

} // verus!
