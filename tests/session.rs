use rizzle::{Action, Error, Failure, Phase, Protocol, Reply, UserInfo};

fn info() -> UserInfo {
    UserInfo { sid: String::from("sid"), arl: String::from("arl"), user_agent: String::from("agent") }
}

fn ready() -> Protocol {
    let mut p = Protocol::new(info());
    p.initialized(Some((String::from("api"), String::from("lic"))), Reply::Results).unwrap();
    p
}

/// Drives one call against a transport that answers every call with `reply`
/// and every refresh with `token`; returns the number of sends and the final action.
fn drive(p: &mut Protocol, reply: Reply, token: Option<&str>) -> (usize, Action) {
    let mut sends = 0;
    let mut action = p.call();
    loop {
        match action {
            Action::Send => {
                sends += 1;
                assert!(sends <= 2, "a third send was issued");
                action = p.replied(reply);
            }
            Action::Refresh => action = p.refreshed(token.map(String::from)),
            other => return (sends, other),
        }
    }
}

#[test]
fn refresh_once_then_authentication_error() {
    let mut p = ready();
    let (sends, action) = drive(&mut p, Reply::InvalidToken, Some("fresh"));
    assert_eq!(sends, 2);
    assert_eq!(action, Action::Fail(Failure::Authentication));
    assert_eq!(p.current_phase(), Phase::Rejected);
    assert_eq!(p.credentials_ref().api_token, "fresh");
}

#[test]
fn refresh_once_when_refresh_is_also_stale() {
    let mut p = ready();
    let (sends, action) = drive(&mut p, Reply::InvalidToken, None);
    assert_eq!(sends, 2);
    assert_eq!(action, Action::Fail(Failure::Authentication));
    assert_eq!(p.current_phase(), Phase::Rejected);
    assert_eq!(p.credentials_ref().api_token, "api");
}

#[test]
fn results_are_delivered_after_one_send() {
    let mut p = ready();
    assert_eq!(drive(&mut p, Reply::Results, Some("fresh")), (1, Action::Deliver));
    assert_eq!(p.current_phase(), Phase::Ready);
}

#[test]
fn replay_succeeds_after_refresh() {
    let mut p = ready();
    assert_eq!(p.call(), Action::Send);
    assert_eq!(p.replied(Reply::InvalidToken), Action::Refresh);
    assert_eq!(p.current_phase(), Phase::Refreshing);
    assert_eq!(p.refreshed(Some(String::from("new"))), Action::Send);
    assert_eq!(p.current_phase(), Phase::Calling { replayed: true });
    assert_eq!(p.replied(Reply::Results), Action::Deliver);
    let creds = p.close();
    assert_eq!(creds.api_token, "new");
    assert_eq!(creds.license_token, "lic");
    assert_eq!(creds.sid, "sid");
}

#[test]
fn failed_refresh_still_replays_once() {
    let mut p = ready();
    p.call();
    assert_eq!(p.replied(Reply::InvalidToken), Action::Refresh);
    assert_eq!(p.refreshed(None), Action::Send);
    assert_eq!(p.current_phase(), Phase::Calling { replayed: true });
    assert_eq!(p.credentials_ref().api_token, "api");
    assert_eq!(p.replied(Reply::Results), Action::Deliver);
    assert_eq!(p.current_phase(), Phase::Ready);
}

#[test]
fn other_replies() {
    let mut p = ready();
    p.call();
    assert_eq!(p.replied(Reply::Malformed), Action::Fail(Failure::Schema));
    p.call();
    assert_eq!(p.replied(Reply::TransportFailed), Action::Fail(Failure::Transport));
    p.call();
    assert_eq!(p.replied(Reply::Denied), Action::Fail(Failure::Authentication));
    assert_eq!(p.current_phase(), Phase::Rejected);
}

#[test]
fn initialization_outcomes() {
    let p = ready();
    assert_eq!(p.current_phase(), Phase::Ready);
    assert_eq!(p.credentials_ref().license_token, "lic");

    let mut denied = Protocol::new(info());
    assert_eq!(denied.current_phase(), Phase::New);
    assert_eq!(denied.initialized(None, Reply::Denied), Err(Failure::Authentication));
    assert_eq!(denied.current_phase(), Phase::Rejected);

    let mut malformed = Protocol::new(info());
    assert_eq!(malformed.initialized(None, Reply::Malformed), Err(Failure::Schema));

    let mut offline = Protocol::new(info());
    assert_eq!(offline.initialized(None, Reply::TransportFailed), Err(Failure::Transport));
}

#[test]
fn error_names() {
    assert_eq!(Error::InvalidCredentials.kind_name(), "InvalidCredentials");
    assert_eq!(Error::UnknownInvalidResponse.kind_name(), "UnknownInvalidResponse");
    assert_eq!(Error::InvalidResponse(String::from("x")).kind_name(), "InvalidResponse");
    let io = std::io::Error::new(std::io::ErrorKind::Other, "down");
    assert_eq!(Error::from(io).kind_name(), "IoError");
}
