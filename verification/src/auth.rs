//! How a client authenticates before it works.
use vstd::prelude::*;

verus! {

/// Why a server did not let a client in.
#[derive(Debug, Clone, Copy, PartialEq, Eq, Structural)]
pub enum AuthRejection {
    /// The user was answered with this status.
    User(u16),
    /// The server wants a password, but there is none.
    PassRequired,
    /// The password was answered with this status.
    Pass(u16),
}

/// What a client does next to authenticate.
#[derive(Debug, Clone, Copy, PartialEq, Eq, Structural)]
pub enum AuthStep {
    SendUser,
    SendPass,
    Done,
    Rejected(AuthRejection),
}

/// The server accepts the client.
pub const AUTH_ACCEPTED: u16 = 281;

/// The server wants a password.
pub const AUTH_CONTINUE: u16 = 381;

/// The first step. Without a user nothing is sent, not even a password.
pub fn start_authentication(has_user: bool) -> (step: AuthStep)
    ensures
        step == (if has_user {
            AuthStep::SendUser
        } else {
            AuthStep::Done
        }),
{
    if has_user {
        AuthStep::SendUser
    } else {
        AuthStep::Done
    }
}

/// The step after the user was answered.
pub open spec fn after_user(status: u16, has_pass: bool) -> AuthStep {
    if status == AUTH_ACCEPTED {
        AuthStep::Done
    } else if status != AUTH_CONTINUE {
        AuthStep::Rejected(AuthRejection::User(status))
    } else if has_pass {
        AuthStep::SendPass
    } else {
        AuthStep::Rejected(AuthRejection::PassRequired)
    }
}

pub fn authentication_after_user(status: u16, has_pass: bool) -> (step: AuthStep)
    ensures
        step == after_user(status, has_pass),
{
    if status == AUTH_ACCEPTED {
        AuthStep::Done
    } else if status != AUTH_CONTINUE {
        AuthStep::Rejected(AuthRejection::User(status))
    } else if has_pass {
        AuthStep::SendPass
    } else {
        AuthStep::Rejected(AuthRejection::PassRequired)
    }
}

/// The step after the password was answered.
pub open spec fn after_pass(status: u16) -> AuthStep {
    if status == AUTH_ACCEPTED {
        AuthStep::Done
    } else {
        AuthStep::Rejected(AuthRejection::Pass(status))
    }
}

pub fn authentication_after_pass(status: u16) -> (step: AuthStep)
    ensures
        step == after_pass(status),
{
    if status == AUTH_ACCEPTED {
        AuthStep::Done
    } else {
        AuthStep::Rejected(AuthRejection::Pass(status))
    }
}

/// A password is sent only where the server asks for one.
pub proof fn law_pass_is_sent_on_request_only(status: u16, has_pass: bool)
    ensures
        after_user(status, has_pass) == AuthStep::SendPass <==> status == AUTH_CONTINUE && has_pass,
{
}

/// A client is let in exactly where the server says so, and is told with the status why it is not:
/// at the user by any answer but a request for the password, and at the password by any answer.
pub proof fn law_authentication_goes_by_the_status(status: u16, has_pass: bool)
    ensures
        after_user(status, has_pass) == AuthStep::Done <==> status == 281,
        after_pass(status) == AuthStep::Done <==> status == 281,
        status != 281 && status != 381 ==> after_user(status, has_pass) == AuthStep::Rejected(
            AuthRejection::User(status),
        ),
        after_user(381, true) == AuthStep::SendPass,
        after_user(381, false) == AuthStep::Rejected(AuthRejection::PassRequired),
        status != 281 ==> after_pass(status) == AuthStep::Rejected(AuthRejection::Pass(status)),
{
}

} // verus!
