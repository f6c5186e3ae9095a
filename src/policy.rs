//! The decisions of a room's policy server check.
//!
//! The check runs in two steps around one federation request: which server, if
//! any, to ask; and what its answer means. Whatever goes wrong on the way to the
//! server lets the event through.
use vstd::prelude::*;
use crate::event::text_eq;

verus! {

/// The room's policy state content: the server to ask, where one is named.
#[derive(Clone, Debug)]
pub struct RoomPolicy {
    pub via: Option<String>,
}

/// What came back from asking the policy server.
#[derive(Clone, Debug)]
pub enum PolicyResponse {
    /// The request failed: the server could not be reached or did not answer
    /// as the protocol asks.
    Unreachable,
    /// The server's recommendation for the event.
    Recommendation(String),
}

/// Why an event is refused.
#[derive(PartialEq, Eq, Structural, Debug, Clone, Copy)]
pub enum PolicyError {
    /// The policy server marked the event as spam.
    Forbidden,
    /// The room's policy state names a server that is no valid server name.
    InvalidServerName,
}

/// Whether a text is a valid server name: a host, and a port where there is one.
pub uninterp spec fn valid_server_name(s: Seq<char>) -> bool;

/// Relies on ruma's `ServerName::parse`: accepts exactly the valid server
/// names, never the empty text, and keeps the text as it is.
#[verifier::external_body]
fn parse_server_name(s: &str) -> (r: Option<String>)
    ensures
        r is Some <==> valid_server_name(s@),
        r matches Some(n) ==> n@ == s@,
        s@.len() == 0 ==> r is None,
{
    ruma::ServerName::parse(s).ok().map(|n| n.as_str().to_owned())
}

/// The recommendation that marks an event as spam.
pub open spec fn spam() -> Seq<char> {
    "spam"@
}

/// The server to ask about an event, given the room's policy state (`None`
/// where the room has none, or it could not be read): `None` where there is
/// nobody to ask, and the event is then allowed without a request; an error
/// where the state names no valid server.
pub fn policy_server(policy: Option<RoomPolicy>) -> (r: Result<Option<String>, PolicyError>)
    ensures
        policy is None ==> r == Ok::<Option<String>, PolicyError>(None),
        policy matches Some(p) ==> match p.via {
            Some(v) => if valid_server_name(v@) {
                r matches Ok(Some(s)) && s@ == v@
            } else {
                r == Err::<Option<String>, PolicyError>(PolicyError::InvalidServerName)
            },
            None => r == Ok::<Option<String>, PolicyError>(None),
        },
{
    match policy {
        Some(p) => match p.via {
            Some(v) => match parse_server_name(v.as_str()) {
                Some(name) => Ok(Some(name)),
                None => Err(PolicyError::InvalidServerName),
            },
            None => Ok(None),
        },
        None => Ok(None),
    }
}

/// Whether the policy server's answer lets the event through: it does but for
/// a recommendation of spam.
pub fn policyserv_check(response: &PolicyResponse) -> (r: Result<(), PolicyError>)
    ensures
        r == (if response matches PolicyResponse::Recommendation(s) && s@ == spam() {
            Err::<(), PolicyError>(PolicyError::Forbidden)
        } else {
            Ok::<(), PolicyError>(())
        }),
{
    match response {
        PolicyResponse::Unreachable => Ok(()),
        PolicyResponse::Recommendation(s) => {
            if text_eq(s.as_str(), "spam") {
                Err(PolicyError::Forbidden)
            } else {
                Ok(())
            }
        },
    }
}

} // verus!
