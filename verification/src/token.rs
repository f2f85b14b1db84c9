//! Where a GitHub token comes from.
use vstd::prelude::*;
use vstd::string::*;

use crate::text::{opt_text, trim, trimmed};

verus! {

/// Why there is no token.
#[derive(Debug)]
pub enum TokenError {
    NoTokenInCI,
    InvalidToken,
    FailedToConnect,
    /// The credential store failed, with this message.
    Keyring(String),
    /// No client could be made for the request, with this message.
    Request(String),
    /// The request failed, with this message.
    RequestMiddleware(String),
    /// The prompt failed, with this message.
    Inquire(String),
}

/// What a [`TokenError`] says.
pub enum TokenErrorView {
    NoTokenInCI,
    InvalidToken,
    FailedToConnect,
    Keyring(Seq<char>),
    Request(Seq<char>),
    RequestMiddleware(Seq<char>),
    Inquire(Seq<char>),
}

impl View for TokenError {
    type V = TokenErrorView;

    open spec fn view(&self) -> TokenErrorView {
        match self {
            TokenError::NoTokenInCI => TokenErrorView::NoTokenInCI,
            TokenError::InvalidToken => TokenErrorView::InvalidToken,
            TokenError::FailedToConnect => TokenErrorView::FailedToConnect,
            TokenError::Keyring(message) => TokenErrorView::Keyring(message@),
            TokenError::Request(message) => TokenErrorView::Request(message@),
            TokenError::RequestMiddleware(message) => TokenErrorView::RequestMiddleware(message@),
            TokenError::Inquire(message) => TokenErrorView::Inquire(message@),
        }
    }
}

impl TokenError {
    /// The error as a user reads it.
    pub fn message(&self) -> (r: String)
        ensures
            r@ == match self@ {
                TokenErrorView::NoTokenInCI => "No token was provided or stored. Provide one with the `GITHUB_TOKEN` environment variable or `--token`."@,
                TokenErrorView::InvalidToken => "GitHub token is invalid."@,
                TokenErrorView::FailedToConnect => "Failed to connect to GitHub. Please check your internet connection."@,
                TokenErrorView::Keyring(message) => message,
                TokenErrorView::Request(message) => message,
                TokenErrorView::RequestMiddleware(message) => message,
                TokenErrorView::Inquire(message) => message,
            },
    {
        match self {
            TokenError::NoTokenInCI => "No token was provided or stored. Provide one with the `GITHUB_TOKEN` environment variable or `--token`.".to_owned(),
            TokenError::InvalidToken => "GitHub token is invalid.".to_owned(),
            TokenError::FailedToConnect => "Failed to connect to GitHub. Please check your internet connection.".to_owned(),
            TokenError::Keyring(message) => message.clone(),
            TokenError::Request(message) => message.clone(),
            TokenError::RequestMiddleware(message) => message.clone(),
            TokenError::Inquire(message) => message.clone(),
        }
    }
}

/// What came of asking GitHub with a token.
#[derive(Debug)]
pub enum Reply {
    /// The status of the response.
    Status(u16),
    /// There was no connection.
    NoConnection,
    /// The request failed otherwise, with this message.
    Failed(String),
}

/// What is wrong with a token, by what came of asking GitHub with it.
pub open spec fn reply_error(reply: Reply) -> Option<TokenErrorView> {
    match reply {
        Reply::Status(status) => if status == 401 {
            Some(TokenErrorView::InvalidToken)
        } else {
            None
        },
        Reply::NoConnection => Some(TokenErrorView::FailedToConnect),
        Reply::Failed(message) => Some(TokenErrorView::RequestMiddleware(message@)),
    }
}

/// Whether a token is valid. Only a response that says so makes it invalid.
pub fn validate(reply: Reply) -> (r: Result<(), TokenError>)
    ensures
        match reply_error(reply) {
            None => r is Ok,
            Some(fault) => r matches Err(error) && error@ == fault,
        },
{
    match reply {
        Reply::Status(status) => if status == 401 {
            Err(TokenError::InvalidToken)
        } else {
            Ok(())
        },
        Reply::NoConnection => Err(TokenError::FailedToConnect),
        Reply::Failed(message) => Err(TokenError::RequestMiddleware(message)),
    }
}

/// How a token may be got.
#[derive(Clone, Copy, Debug, Eq, PartialEq, Structural)]
pub struct TokenRules {
    /// Whether there has to be a token.
    pub required: bool,
    /// Whether nobody is there to answer a prompt.
    pub ci: bool,
}

/// Where a token came from.
#[derive(Clone, Copy, Debug, Eq, PartialEq, Structural)]
pub enum Origin {
    /// It was passed.
    Passed,
    /// It was in the credential store.
    Stored,
}

/// What is done next to get a token.
#[derive(Debug)]
pub enum Action {
    /// Look into the credential store.
    LookUp,
    /// Ask GitHub with a token.
    Validate(String, Origin),
    /// Prompt for a token.
    Prompt,
    /// Put a token into the credential store, if it can be, and give it.
    StoreAndGive(String),
    /// Give a token.
    Give(String),
    /// Give none.
    GiveNone,
    /// Fail.
    Fail(TokenError),
}

/// What an [`Action`] says.
pub enum ActionView {
    LookUp,
    Validate(Seq<char>, Origin),
    Prompt,
    StoreAndGive(Seq<char>),
    Give(Seq<char>),
    GiveNone,
    Fail(TokenErrorView),
}

impl View for Action {
    type V = ActionView;

    open spec fn view(&self) -> ActionView {
        match self {
            Action::LookUp => ActionView::LookUp,
            Action::Validate(token, origin) => ActionView::Validate(token@, *origin),
            Action::Prompt => ActionView::Prompt,
            Action::StoreAndGive(token) => ActionView::StoreAndGive(token@),
            Action::Give(token) => ActionView::Give(token@),
            Action::GiveNone => ActionView::GiveNone,
            Action::Fail(error) => ActionView::Fail(error@),
        }
    }
}

/// What has come of what was done.
#[derive(Debug)]
pub enum TokenEvent {
    /// A token was passed, or none.
    Started(Option<String>),
    /// The credential store held a token, or none, or could not be used.
    LookedUp(Option<String>),
    /// GitHub was asked with a token.
    Asked(String, Origin, Reply),
    /// A token that GitHub accepts was given at the prompt, or the prompt failed.
    Prompted(Result<String, String>),
}

/// What is done where there is no token that can be used: a prompt, where one is needed and can be
/// answered.
pub open spec fn without_token(rules: TokenRules) -> ActionView {
    if !rules.required || rules.ci {
        ActionView::GiveNone
    } else {
        ActionView::Prompt
    }
}

/// What is done next. A token that is passed has to be valid. One that is stored may give way to a
/// prompt; where nobody could answer it, an invalid one fails a run that needs a token.
pub open spec fn next_action(rules: TokenRules, event: TokenEvent) -> ActionView {
    match event {
        TokenEvent::Started(Some(token)) => ActionView::Validate(token@, Origin::Passed),
        TokenEvent::Started(None) => ActionView::LookUp,
        TokenEvent::LookedUp(Some(token)) => ActionView::Validate(token@, Origin::Stored),
        TokenEvent::LookedUp(None) => without_token(rules),
        TokenEvent::Asked(token, origin, reply) => match reply_error(reply) {
            None => ActionView::Give(token@),
            Some(TokenErrorView::InvalidToken) => if origin == Origin::Passed {
                ActionView::Fail(TokenErrorView::InvalidToken)
            } else if rules.ci {
                if rules.required {
                    ActionView::Fail(TokenErrorView::InvalidToken)
                } else {
                    ActionView::GiveNone
                }
            } else {
                without_token(rules)
            },
            Some(error) => ActionView::Fail(error),
        },
        TokenEvent::Prompted(Ok(token)) => ActionView::StoreAndGive(token@),
        TokenEvent::Prompted(Err(message)) => ActionView::Fail(TokenErrorView::Inquire(message@)),
    }
}

fn act_without_token(rules: TokenRules) -> (r: Action)
    ensures
        r@ == without_token(rules),
{
    if !rules.required || rules.ci {
        Action::GiveNone
    } else {
        Action::Prompt
    }
}

/// What is done next to get a token.
pub fn resolve(rules: TokenRules, event: TokenEvent) -> (r: Action)
    ensures
        r@ == next_action(rules, event),
{
    match event {
        TokenEvent::Started(Some(token)) => Action::Validate(token, Origin::Passed),
        TokenEvent::Started(None) => Action::LookUp,
        TokenEvent::LookedUp(Some(token)) => Action::Validate(token, Origin::Stored),
        TokenEvent::LookedUp(None) => act_without_token(rules),
        TokenEvent::Asked(token, origin, reply) => match validate(reply) {
            Ok(()) => Action::Give(token),
            Err(TokenError::InvalidToken) => match origin {
                Origin::Passed => Action::Fail(TokenError::InvalidToken),
                Origin::Stored => if rules.ci {
                    if rules.required {
                        Action::Fail(TokenError::InvalidToken)
                    } else {
                        Action::GiveNone
                    }
                } else {
                    act_without_token(rules)
                },
            },
            Err(error) => Action::Fail(error),
        },
        TokenEvent::Prompted(Ok(token)) => Action::StoreAndGive(token),
        TokenEvent::Prompted(Err(message)) => Action::Fail(TokenError::Inquire(message)),
    }
}

/// The token that a run needs, or the error where it got none.
pub open spec fn required_token(token: Option<Seq<char>>) -> Result<Seq<char>, TokenErrorView> {
    match token {
        Some(token) => Ok(token),
        None => Err(TokenErrorView::NoTokenInCI),
    }
}

/// The token that a run needs, or the error where it got none.
pub fn require_token(token: Option<String>) -> (r: Result<String, TokenError>)
    ensures
        required_token(opt_text(token)) == match r {
            Ok(token) => Ok::<Seq<char>, TokenErrorView>(token@),
            Err(error) => Err(error@),
        },
{
    match token {
        Some(token) => Ok(token),
        None => Err(TokenError::NoTokenInCI),
    }
}

/// Nobody is prompted in CI, or for a token that is not required.
pub proof fn law_no_needless_prompt(rules: TokenRules, event: TokenEvent)
    ensures
        next_action(rules, event) is Prompt ==> rules.required && !rules.ci,
{
}

/// A token that is passed is used or the run fails: the credential store is not looked into, nobody
/// is prompted, and no other token is given.
pub proof fn law_passed_token(rules: TokenRules, token: String, reply: Reply)
    ensures
        next_action(rules, TokenEvent::Started(Some(token))) == ActionView::Validate(
            token@,
            Origin::Passed,
        ),
        ({
            let action = next_action(rules, TokenEvent::Asked(token, Origin::Passed, reply));
            if reply_error(reply) is None {
                action == ActionView::Give(token@)
            } else {
                action == ActionView::Fail(reply_error(reply).unwrap())
            }
        }),
{
}

/// A run that does not need a token never fails for want of one: without a token, or with a stored one
/// that is invalid, it goes on with none.
pub proof fn law_optional_token(rules: TokenRules, token: String, reply: Reply)
    requires
        !rules.required,
        reply_error(reply) == Some(TokenErrorView::InvalidToken),
    ensures
        next_action(rules, TokenEvent::LookedUp(None)) == ActionView::GiveNone,
        next_action(rules, TokenEvent::Asked(token, Origin::Stored, reply)) == ActionView::GiveNone,
{
}

/// The token for GitHub: that of the environment, or else the one that is passed, where it is more
/// than white space.
pub open spec fn github_token(environment: Option<Seq<char>>, passed: Option<Seq<char>>) -> Option<
    Seq<char>,
> {
    match environment {
        Some(token) => Some(token),
        None => match passed {
            Some(token) if trimmed(token).len() > 0 => Some(token),
            _ => None,
        },
    }
}

/// A token for GitHub.
#[derive(Debug)]
pub struct GitHubToken {
    pub token: String,
}

/// The token for GitHub, or the message that there is none.
pub fn resolve_github_token(environment: Option<&str>, token: Option<&str>) -> (r: Result<
    GitHubToken,
    String,
>)
    ensures
        match github_token(
            match environment {
                Some(token) => Some(token@),
                None => None,
            },
            match token {
                Some(token) => Some(token@),
                None => None,
            },
        ) {
            Some(found) => r matches Ok(token) && token.token@ == found,
            None => r matches Err(message) && message@
                == "No GitHub token provided. Set GITHUB_TOKEN or pass token."@,
        },
{
    if let Some(token) = environment {
        return Ok(GitHubToken { token: token.to_owned() });
    }
    if let Some(token) = token {
        if trim(token).as_str().unicode_len() > 0 {
            return Ok(GitHubToken { token: token.to_owned() });
        }
    }
    Err("No GitHub token provided. Set GITHUB_TOKEN or pass token.".to_owned())
}

/// How far a run has come when something happened.
pub open spec fn stage(event: TokenEvent) -> nat {
    match event {
        TokenEvent::Started(_) => 0,
        TokenEvent::LookedUp(_) => 1,
        TokenEvent::Asked(..) => 2,
        TokenEvent::Prompted(_) => 3,
    }
}

/// Whether an event tells what came of an action.
pub open spec fn follows(action: ActionView, event: TokenEvent) -> bool {
    match action {
        ActionView::LookUp => event is LookedUp,
        ActionView::Validate(token, origin) => event matches TokenEvent::Asked(asked, from, _)
            && asked@ == token && from == origin,
        ActionView::Prompt => event is Prompted,
        _ => false,
    }
}

/// A run comes to an end: what follows an action is always farther on, and a prompt is the last
/// that is asked.
pub proof fn law_run_ends(rules: TokenRules, event: TokenEvent, next: TokenEvent)
    requires
        follows(next_action(rules, event), next),
    ensures
        stage(event) < stage(next),
        stage(next) <= 3,
{
}

/// Only a token that GitHub accepts is given: one that it was asked with, or one from a prompt.
pub proof fn law_given_token(rules: TokenRules, event: TokenEvent, token: Seq<char>)
    ensures
        next_action(rules, event) == ActionView::Give(token) ==> match event {
            TokenEvent::Asked(asked, _, reply) => asked@ == token && reply_error(reply) is None,
            _ => false,
        },
        next_action(rules, event) == ActionView::StoreAndGive(token) ==> match event {
            TokenEvent::Prompted(Ok(prompted)) => prompted@ == token,
            _ => false,
        },
{
}

/// What a run that ends with an action has got: a token, none, or an error. There is nothing yet
/// where the run goes on.
pub open spec fn outcome(action: ActionView) -> Option<Result<Option<Seq<char>>, TokenErrorView>> {
    match action {
        ActionView::StoreAndGive(token) => Some(Ok(Some(token))),
        ActionView::Give(token) => Some(Ok(Some(token))),
        ActionView::GiveNone => Some(Ok(None)),
        ActionView::Fail(error) => Some(Err(error)),
        _ => None,
    }
}

/// What a run that needs a token gives, when it ends with an action.
pub open spec fn handled(action: ActionView) -> Option<Result<Seq<char>, TokenErrorView>> {
    match outcome(action) {
        Some(Ok(token)) => Some(required_token(token)),
        Some(Err(error)) => Some(Err(error)),
        None => None,
    }
}

/// A token that GitHub was asked with, or what is wrong with it.
pub open spec fn judged(token: Seq<char>, reply: Reply) -> Result<Seq<char>, TokenErrorView> {
    match reply_error(reply) {
        None => Ok(token),
        Some(error) => Err(error),
    }
}

/// Whether events are those of a run, from its start on: each tells what came of the action before
/// it.
pub open spec fn is_run(rules: TokenRules, events: Seq<TokenEvent>) -> bool {
    &&& events.len() > 0
    &&& events[0] is Started
    &&& forall|i: int|
        0 < i < events.len() ==> follows(
            next_action(rules, events[i - 1]),
            #[trigger] events[i],
        )
}

/// A run in CI that needs a token fails without one, and with a stored one that is invalid.
pub proof fn law_token_in_ci(rules: TokenRules, token: String, reply: Reply)
    requires
        rules.required,
        rules.ci,
        reply_error(reply) == Some(TokenErrorView::InvalidToken),
    ensures
        handled(next_action(rules, TokenEvent::LookedUp(None))) == Some(
            Err::<Seq<char>, TokenErrorView>(TokenErrorView::NoTokenInCI),
        ),
        handled(next_action(rules, TokenEvent::Asked(token, Origin::Stored, reply))) == Some(
            Err::<Seq<char>, TokenErrorView>(TokenErrorView::InvalidToken),
        ),
{
}

proof fn lemma_stages(rules: TokenRules, events: Seq<TokenEvent>, i: int)
    requires
        is_run(rules, events),
        0 <= i < events.len(),
    ensures
        i <= stage(events[i]) <= 3,
    decreases i,
{
    if i > 0 {
        lemma_stages(rules, events, i - 1);
        law_run_ends(rules, events[i - 1], events[i]);
    }
}

/// How a run that needs a token ends. A token that is passed is given where GitHub accepts it, and
/// fails the run otherwise. Whatever token is given, GitHub accepts it, and outside CI a token is never
/// found to be missing. In CI nobody is prompted: without a token the run fails, and with a stored one
/// GitHub's answer decides.
pub proof fn law_handle(rules: TokenRules, events: Seq<TokenEvent>)
    requires
        rules.required,
        is_run(rules, events),
        handled(next_action(rules, events.last())) is Some,
    ensures
        ({
            let end = handled(next_action(rules, events.last())).unwrap();
            let count = events.len();
            &&& count <= 4
            &&& (end matches Ok(token) ==> match events.last() {
                TokenEvent::Asked(asked, _, reply) => asked@ == token && reply_error(reply) is None,
                TokenEvent::Prompted(Ok(prompted)) => prompted@ == token,
                _ => false,
            })
            &&& end == Err::<Seq<char>, TokenErrorView>(TokenErrorView::NoTokenInCI) ==> rules.ci
            &&& (events[0] matches TokenEvent::Started(Some(token)) ==> count == 2
                && match events[1] {
                TokenEvent::Asked(_, _, reply) => end == judged(token@, reply),
                _ => false,
            })
            &&& (rules.ci && events[0] == TokenEvent::Started(None) ==> match events[1] {
                TokenEvent::LookedUp(None) => count == 2 && end == Err::<Seq<char>, TokenErrorView>(
                    TokenErrorView::NoTokenInCI,
                ),
                TokenEvent::LookedUp(Some(stored)) => count == 3 && match events[2] {
                    TokenEvent::Asked(_, _, reply) => end == judged(stored@, reply),
                    _ => false,
                },
                _ => false,
            })
        }),
        rules.ci ==> forall|i: int| 0 <= i < events.len() ==> !(#[trigger] events[i] is Prompted),
{
    lemma_run(rules, events);
}

/// How a run that can do without a token ends. Nobody is prompted. A token that is passed is given
/// where GitHub accepts it, and fails the run otherwise. Else a stored one is given where GitHub accepts
/// it, and none where there is none or it is invalid; only a failure to ask GitHub fails the run.
pub proof fn law_handle_optional(rules: TokenRules, events: Seq<TokenEvent>)
    requires
        !rules.required,
        is_run(rules, events),
        outcome(next_action(rules, events.last())) is Some,
    ensures
        ({
            let end = outcome(next_action(rules, events.last())).unwrap();
            match events[0] {
                TokenEvent::Started(Some(token)) => match events[1] {
                    TokenEvent::Asked(_, _, reply) => events.len() == 2 && end == match judged(
                        token@,
                        reply,
                    ) {
                        Ok(token) => Ok::<Option<Seq<char>>, TokenErrorView>(Some(token)),
                        Err(error) => Err(error),
                    },
                    _ => false,
                },
                _ => match events[1] {
                    TokenEvent::LookedUp(None) => events.len() == 2 && end == Ok::<
                        Option<Seq<char>>,
                        TokenErrorView,
                    >(None),
                    TokenEvent::LookedUp(Some(stored)) => events.len() == 3 && match events[2] {
                        TokenEvent::Asked(_, _, reply) => end == match judged(stored@, reply) {
                            Ok(token) => Ok::<Option<Seq<char>>, TokenErrorView>(Some(token)),
                            Err(TokenErrorView::InvalidToken) => Ok(None),
                            Err(error) => Err(error),
                        },
                        _ => false,
                    },
                    _ => false,
                },
            }
        }),
        forall|i: int| 0 <= i < events.len() ==> !(#[trigger] events[i] is Prompted),
{
    lemma_run(rules, events);
}

proof fn lemma_run(rules: TokenRules, events: Seq<TokenEvent>)
    requires
        is_run(rules, events),
        outcome(next_action(rules, events.last())) is Some,
    ensures
        2 <= events.len() <= 4,
        forall|i: int|
            0 <= i < events.len() - 1 ==> outcome(next_action(rules, #[trigger] events[i])) is None,
        follows(next_action(rules, events[0]), events[1]),
        events.len() > 2 ==> follows(next_action(rules, events[1]), events[2]),
        events.len() > 3 ==> follows(next_action(rules, events[2]), events[3]),
{
    lemma_stages(rules, events, events.len() - 1);
    assert forall|i: int| 0 <= i < events.len() - 1 implies outcome(
        next_action(rules, #[trigger] events[i]),
    ) is None by {
        assert(follows(next_action(rules, events[i + 1 - 1]), events[i + 1]));
    }
}

} // verus!
