//! Which GitHub token is used.
use anthelion::token::{
    require_token, resolve, resolve_github_token, validate, Action, Origin, Reply, TokenError,
    TokenEvent, TokenRules,
};

const INTERACTIVE: TokenRules = TokenRules { required: true, ci: false };
const CI: TokenRules = TokenRules { required: true, ci: true };
const OPTIONAL: TokenRules = TokenRules { required: false, ci: false };
const OPTIONAL_IN_CI: TokenRules = TokenRules { required: false, ci: true };

fn asked(origin: Origin, reply: Reply) -> TokenEvent {
    TokenEvent::Asked("t".to_owned(), origin, reply)
}

fn unauthorized(origin: Origin) -> TokenEvent {
    asked(origin, Reply::Status(401))
}

#[test]
fn a_passed_token_is_validated_at_once() {
    for rules in vec![INTERACTIVE, CI, OPTIONAL, OPTIONAL_IN_CI] {
        match resolve(rules, TokenEvent::Started(Some("t".to_owned()))) {
            Action::Validate(token, origin) => {
                assert_eq!(token, "t");
                assert_eq!(origin, Origin::Passed);
            }
            action => panic!("{action:?}"),
        }
        assert!(matches!(resolve(rules, TokenEvent::Started(None)), Action::LookUp));
        assert!(matches!(
            resolve(rules, unauthorized(Origin::Passed)),
            Action::Fail(TokenError::InvalidToken)
        ));
    }
}

#[test]
fn a_stored_token_is_validated() {
    match resolve(CI, TokenEvent::LookedUp(Some("s".to_owned()))) {
        Action::Validate(token, origin) => {
            assert_eq!(token, "s");
            assert_eq!(origin, Origin::Stored);
        }
        action => panic!("{action:?}"),
    }
}

#[test]
fn an_accepted_token_is_given() {
    for origin in vec![Origin::Passed, Origin::Stored] {
        for status in vec![200, 403, 500] {
            match resolve(OPTIONAL_IN_CI, asked(origin, Reply::Status(status))) {
                Action::Give(token) => assert_eq!(token, "t"),
                action => panic!("{action:?}"),
            }
        }
    }
}

#[test]
fn a_stored_token_that_is_refused() {
    assert!(matches!(resolve(INTERACTIVE, unauthorized(Origin::Stored)), Action::Prompt));
    assert!(matches!(
        resolve(CI, unauthorized(Origin::Stored)),
        Action::Fail(TokenError::InvalidToken)
    ));
    assert!(matches!(resolve(OPTIONAL, unauthorized(Origin::Stored)), Action::GiveNone));
    assert!(matches!(resolve(OPTIONAL_IN_CI, unauthorized(Origin::Stored)), Action::GiveNone));
}

#[test]
fn no_token_at_all() {
    assert!(matches!(resolve(INTERACTIVE, TokenEvent::LookedUp(None)), Action::Prompt));
    assert!(matches!(resolve(CI, TokenEvent::LookedUp(None)), Action::GiveNone));
    assert!(matches!(resolve(OPTIONAL, TokenEvent::LookedUp(None)), Action::GiveNone));
    assert!(matches!(resolve(OPTIONAL_IN_CI, TokenEvent::LookedUp(None)), Action::GiveNone));
    assert!(matches!(require_token(None), Err(TokenError::NoTokenInCI)));
    assert_eq!(require_token(Some("t".to_owned())).unwrap(), "t");
}

#[test]
fn a_run_in_ci_ends_without_a_prompt() {
    let ci = TokenRules { required: true, ci: true };
    let handle = |stored: Option<&str>, status: u16| -> Result<String, TokenError> {
        let mut event = TokenEvent::Started(None);
        loop {
            event = match resolve(ci, event) {
                Action::LookUp => TokenEvent::LookedUp(stored.map(str::to_owned)),
                Action::Validate(token, origin) => {
                    TokenEvent::Asked(token, origin, Reply::Status(status))
                }
                Action::Prompt => panic!("nobody can answer"),
                Action::StoreAndGive(token) => return require_token(Some(token)),
                Action::Give(token) => return require_token(Some(token)),
                Action::GiveNone => return require_token(None),
                Action::Fail(error) => return Err(error),
            };
        }
    };
    assert_eq!(handle(Some("t"), 200).unwrap(), "t");
    assert!(matches!(handle(Some("t"), 401), Err(TokenError::InvalidToken)));
    assert!(matches!(handle(None, 200), Err(TokenError::NoTokenInCI)));
}

#[test]
fn faults_of_the_request_are_told() {
    for rules in vec![INTERACTIVE, OPTIONAL_IN_CI] {
        for origin in vec![Origin::Passed, Origin::Stored] {
            assert!(matches!(
                resolve(rules, asked(origin, Reply::NoConnection)),
                Action::Fail(TokenError::FailedToConnect)
            ));
            match resolve(rules, asked(origin, Reply::Failed("why".to_owned()))) {
                Action::Fail(TokenError::RequestMiddleware(message)) => assert_eq!(message, "why"),
                action => panic!("{action:?}"),
            }
        }
    }
}

#[test]
fn what_is_prompted_for_is_stored() {
    match resolve(INTERACTIVE, TokenEvent::Prompted(Ok("p".to_owned()))) {
        Action::StoreAndGive(token) => assert_eq!(token, "p"),
        action => panic!("{action:?}"),
    }
    match resolve(INTERACTIVE, TokenEvent::Prompted(Err("cancelled".to_owned()))) {
        Action::Fail(TokenError::Inquire(message)) => assert_eq!(message, "cancelled"),
        action => panic!("{action:?}"),
    }
}

#[test]
fn only_one_status_refuses_a_token() {
    assert!(validate(Reply::Status(200)).is_ok());
    assert!(validate(Reply::Status(404)).is_ok());
    assert!(matches!(validate(Reply::Status(401)), Err(TokenError::InvalidToken)));
    assert!(matches!(validate(Reply::NoConnection), Err(TokenError::FailedToConnect)));
}

#[test]
fn errors_have_their_messages() {
    assert_eq!(
        TokenError::NoTokenInCI.message(),
        "No token was provided or stored. Provide one with the `GITHUB_TOKEN` environment variable or `--token`."
    );
    assert_eq!(TokenError::InvalidToken.message(), "GitHub token is invalid.");
    assert_eq!(
        TokenError::FailedToConnect.message(),
        "Failed to connect to GitHub. Please check your internet connection."
    );
    assert_eq!(TokenError::Keyring("k".to_owned()).message(), "k");
    assert_eq!(TokenError::Request("r".to_owned()).message(), "r");
    assert_eq!(TokenError::RequestMiddleware("m".to_owned()).message(), "m");
    assert_eq!(TokenError::Inquire("i".to_owned()).message(), "i");
}

#[test]
fn the_environment_comes_first() {
    let token = |environment, passed| resolve_github_token(environment, passed).map(|t| t.token);
    assert_eq!(token(Some("e"), Some("p")), Ok("e".to_owned()));
    assert_eq!(token(None, Some(" p ")), Ok(" p ".to_owned()));
    let missing = Err("No GitHub token provided. Set GITHUB_TOKEN or pass token.".to_owned());
    assert_eq!(token(None, Some(" \t")), missing);
    assert_eq!(token(None, None), missing);
}
