use vstd::prelude::*;

verus! {

/// Where to ask whether a connection may join a channel.
#[derive(Clone, Debug)]
pub struct AuthConfig {
    pub url: String,
}

impl AuthConfig {
    /// A copy of this configuration.
    pub fn duplicate(&self) -> (r: AuthConfig)
        ensures
            r == *self,
    {
        AuthConfig { url: self.url.clone() }
    }
}

/// The operation that an authorization request asks about.
#[derive(Clone, Copy, Debug, PartialEq, Eq, Structural)]
pub enum Operation {
    Join,
}

/// The body of an authorization request.
#[derive(Clone, Debug)]
pub struct AuthPayload {
    pub operation: Operation,
    pub channel: String,
    pub conn_id: String,
}

/// The HTTP status with which the authorization service grants a request.
pub open spec fn grants(status: u16) -> bool {
    status == 200
}

/// Whether an authorization response with this HTTP status grants the
/// request: only `200 OK` does.
pub fn status_grants(status: u16) -> (r: bool)
    ensures
        r == grants(status),
        r <==> status == 200,
{
    status == 200
}

/// An authorization response grants the request exactly when its status is
/// `200 OK`: every other status, a server error among them, refuses it.
pub proof fn law_only_ok_grants(status: u16)
    ensures
        grants(status) <==> status == 200,
        status >= 300 ==> !grants(status),
{
}

/// The authorization request for `conn_id` joining `channel`.
pub fn join_payload(channel: String, conn_id: String) -> (p: AuthPayload)
    ensures
        p.operation == Operation::Join,
        p.channel == channel,
        p.conn_id == conn_id,
{
    AuthPayload { operation: Operation::Join, channel, conn_id }
}

} // verus!
