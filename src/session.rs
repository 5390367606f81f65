//! The session protocol: initialization, calls, and the single token refresh.
//!
//! The protocol decides; the caller performs. Each method takes what the
//! transport made of the last request and returns what to do next.
use vstd::prelude::*;

use crate::model::UserInfo;

verus! {

/// The credentials and tokens a session holds.
#[derive(Clone, Debug, Default)]
pub struct Credentials {
    pub sid: String,
    pub arl: String,
    pub user_agent: String,
    pub api_token: String,
    pub license_token: String,
}

/// Where a session stands.
#[derive(Clone, Copy, Debug, PartialEq, Eq, Structural)]
pub enum Phase {
    /// Only the raw credentials are known; the initialization call is next.
    New,
    /// Tokens are known; calls may be made.
    Ready,
    /// A call was sent; `replayed` tells whether it is the replay after a refresh.
    Calling { replayed: bool },
    /// A call met a stale token; the token-refresh call was sent.
    Refreshing,
    /// The service refused the credentials; nothing more can be done.
    Rejected,
}

/// What the transport made of a response.
#[derive(Clone, Copy, Debug, PartialEq, Eq, Structural)]
pub enum Reply {
    /// A well-formed response with results.
    Results,
    /// The response carried the invalid-or-expired-token marker.
    InvalidToken,
    /// The response lacked the fields the call expects.
    Malformed,
    /// The service refused the credentials.
    Denied,
    /// The transport failed before a response came.
    TransportFailed,
}

/// Why a call or the initialization failed.
#[derive(Clone, Copy, Debug, PartialEq, Eq, Structural)]
pub enum Failure {
    /// The credentials or the tokens were rejected.
    Authentication,
    /// The response lacked what was expected of it.
    Schema,
    /// The transport failed.
    Transport,
}

/// What the caller is to do next.
#[derive(Clone, Copy, Debug, PartialEq, Eq, Structural)]
pub enum Action {
    /// Send the call, carrying the current tokens.
    Send,
    /// Send the token-refresh call.
    Refresh,
    /// Hand the response's results to the caller.
    Deliver,
    /// Report the failure to the caller.
    Fail(Failure),
}

/// The next phase and action after a reply to a call.
pub open spec fn reply_step(replayed: bool, reply: Reply) -> (Phase, Action) {
    match reply {
        Reply::Results => (Phase::Ready, Action::Deliver),
        Reply::InvalidToken => if replayed {
            (Phase::Rejected, Action::Fail(Failure::Authentication))
        } else {
            (Phase::Refreshing, Action::Refresh)
        },
        Reply::Malformed => (Phase::Ready, Action::Fail(Failure::Schema)),
        Reply::Denied => (Phase::Rejected, Action::Fail(Failure::Authentication)),
        Reply::TransportFailed => (Phase::Ready, Action::Fail(Failure::Transport)),
    }
}

/// The next phase and action after the token-refresh call: the call is
/// replayed once, whether or not the refresh yielded a token.
pub open spec fn refresh_step() -> (Phase, Action) {
    (Phase::Calling { replayed: true }, Action::Send)
}

/// The state of one session.
pub struct Protocol {
    credentials: Credentials,
    phase: Phase,
    sends: u8,
}

impl Protocol {
    pub closed spec fn phase(&self) -> Phase {
        self.phase
    }

    /// How many times the current call was sent.
    pub closed spec fn sends(&self) -> nat {
        self.sends as nat
    }

    pub closed spec fn credentials(&self) -> Credentials {
        self.credentials
    }

    /// A call is sent at most twice: once, and once more after a refresh.
    pub open spec fn wf(&self) -> bool {
        &&& self.sends() <= 2
        &&& (self.phase() matches Phase::Calling { replayed } ==> self.sends() == if replayed {
            2nat
        } else {
            1nat
        })
        &&& (self.phase() is Refreshing ==> self.sends() == 1)
    }

    /// A session that holds only the raw credentials.
    pub fn new(info: UserInfo) -> (r: Protocol)
        ensures
            r.wf(),
            r.phase() == Phase::New,
            r.credentials().sid@ == info.sid@,
            r.credentials().arl@ == info.arl@,
            r.credentials().user_agent@ == info.user_agent@,
            r.credentials().api_token@.len() == 0,
            r.credentials().license_token@.len() == 0,
    {
        Protocol {
            credentials: Credentials {
                sid: info.sid,
                arl: info.arl,
                user_agent: info.user_agent,
                api_token: String::new(),
                license_token: String::new(),
            },
            phase: Phase::New,
            sends: 0,
        }
    }

    pub fn current_phase(&self) -> (r: Phase)
        ensures
            r == self.phase(),
    {
        self.phase
    }

    /// The credentials and tokens every request carries.
    pub fn credentials_ref(&self) -> (r: &Credentials)
        ensures
            *r == self.credentials(),
    {
        &self.credentials
    }

    /// Takes the outcome of the initialization call: the access and license
    /// tokens it granted, or the reply that came instead.
    pub fn initialized(&mut self, granted: Option<(String, String)>, reply: Reply) -> (r: Result<
        (),
        Failure,
    >)
        requires
            old(self).wf(),
            old(self).phase() == Phase::New,
        ensures
            final(self).wf(),
            final(self).credentials().sid == old(self).credentials().sid,
            final(self).credentials().arl == old(self).credentials().arl,
            match granted {
                Some(t) => {
                    &&& r is Ok
                    &&& final(self).phase() == Phase::Ready
                    &&& final(self).credentials().api_token@ == t.0@
                    &&& final(self).credentials().license_token@ == t.1@
                },
                None => {
                    &&& final(self).phase() == Phase::Rejected
                    &&& r == Err::<(), Failure>(if reply is Malformed {
                        Failure::Schema
                    } else if reply is TransportFailed {
                        Failure::Transport
                    } else {
                        Failure::Authentication
                    })
                },
            },
    {
        match granted {
            Some(t) => {
                self.credentials.api_token = t.0;
                self.credentials.license_token = t.1;
                self.phase = Phase::Ready;
                Ok(())
            },
            None => {
                self.phase = Phase::Rejected;
                match reply {
                    Reply::Malformed => Err(Failure::Schema),
                    Reply::TransportFailed => Err(Failure::Transport),
                    _ => Err(Failure::Authentication),
                }
            },
        }
    }

    /// Starts a call: it is to be sent with the current tokens.
    pub fn call(&mut self) -> (r: Action)
        requires
            old(self).wf(),
            old(self).phase() == Phase::Ready,
        ensures
            final(self).wf(),
            r == Action::Send,
            final(self).phase() == (Phase::Calling { replayed: false }),
            final(self).sends() == 1,
            final(self).credentials() == old(self).credentials(),
    {
        self.phase = Phase::Calling { replayed: false };
        self.sends = 1;
        Action::Send
    }

    /// Takes the reply to the call that was sent.
    pub fn replied(&mut self, reply: Reply) -> (r: Action)
        requires
            old(self).wf(),
            old(self).phase() is Calling,
        ensures
            final(self).wf(),
            (final(self).phase(), r) == reply_step(old(self).phase()->replayed, reply),
            final(self).sends() == old(self).sends(),
            final(self).credentials() == old(self).credentials(),
    {
        let replayed = match self.phase {
            Phase::Calling { replayed } => replayed,
            _ => false,
        };
        let (phase, action) = match reply {
            Reply::Results => (Phase::Ready, Action::Deliver),
            Reply::InvalidToken => if replayed {
                (Phase::Rejected, Action::Fail(Failure::Authentication))
            } else {
                (Phase::Refreshing, Action::Refresh)
            },
            Reply::Malformed => (Phase::Ready, Action::Fail(Failure::Schema)),
            Reply::Denied => (Phase::Rejected, Action::Fail(Failure::Authentication)),
            Reply::TransportFailed => (Phase::Ready, Action::Fail(Failure::Transport)),
        };
        self.phase = phase;
        action
    }

    /// Takes the outcome of the token-refresh call: the new access token, if
    /// one came. The call is then replayed once, with the newest token.
    pub fn refreshed(&mut self, token: Option<String>) -> (r: Action)
        requires
            old(self).wf(),
            old(self).phase() == Phase::Refreshing,
        ensures
            final(self).wf(),
            (final(self).phase(), r) == refresh_step(),
            final(self).sends() == old(self).sends() + 1,
            token matches Some(t) ==> final(self).credentials().api_token@ == t@,
            token is None ==> final(self).credentials() == old(self).credentials(),
            final(self).credentials().sid == old(self).credentials().sid,
            final(self).credentials().arl == old(self).credentials().arl,
            final(self).credentials().user_agent == old(self).credentials().user_agent,
            final(self).credentials().license_token == old(self).credentials().license_token,
    {
        match token {
            Some(t) => {
                self.credentials.api_token = t;
            },
            None => {},
        }
        self.phase = Phase::Calling { replayed: true };
        self.sends = self.sends + 1;
        Action::Send
    }

    /// Ends the session, handing back the credentials with the latest tokens.
    pub fn close(self) -> (r: Credentials)
        ensures
            r == self.credentials(),
    {
        self.credentials
    }
}

/// One call driven against a service that answers every request, the
/// token-refresh call included, with the invalid-token marker, for at most
/// `steps` replies: the number of sends of the call, the phase it leaves, and
/// the failure reported, if one was.
pub open spec fn run_against_stale(phase: Phase, sends: nat, steps: nat) -> (nat, Phase, Option<Action>)
    decreases steps,
{
    if steps == 0 {
        (sends, phase, None)
    } else {
        match phase {
            Phase::Calling { replayed } => {
                let (next, action) = reply_step(replayed, Reply::InvalidToken);
                if action is Fail {
                    (sends, next, Some(action))
                } else {
                    run_against_stale(next, sends, (steps - 1) as nat)
                }
            },
            Phase::Refreshing => {
                let (next, action) = refresh_step();
                run_against_stale(
                    next,
                    if action is Send {
                        sends + 1
                    } else {
                        sends
                    },
                    (steps - 1) as nat,
                )
            },
            _ => (sends, phase, None),
        }
    }
}

/// Against a service that marks every response as carrying a stale token, a
/// call is sent exactly twice (the original and one replay after one refresh)
/// and then fails with an authentication error that ends the session, however
/// many more replies the caller would wait for: no third send is made.
pub proof fn lemma_refresh_once(steps: nat)
    requires
        steps >= 3,
    ensures
        run_against_stale(Phase::Calling { replayed: false }, 1, steps) == (
            2nat,
            Phase::Rejected,
            Some(Action::Fail(Failure::Authentication)),
        ),
{
    reveal_with_fuel(run_against_stale, 4);
}

} // verus!
