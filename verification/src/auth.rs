//! The authenticated identity a connection carries. Credential hashing
//! and token issuance/validation belong to the authentication
//! collaborator outside this library; the session logic only consumes
//! the identity the token proved.

use vstd::prelude::*;

verus! {

/// The claims a validated bearer token carries: the account id, its
/// nickname, and the token's expiry (seconds since the Unix epoch).
pub struct Payload {
    pub id: u32,
    pub nickname: String,
    pub exp: usize,
}

impl Payload {
    /// The session this identity opens: authenticated, not yet
    /// handshaken.
    pub fn into_session(self) -> (r: crate::session::Session)
        ensures
            r.sender_id == self.id,
            r.sender_nickname@ == self.nickname@,
            r.state is Handshaking,
    {
        crate::session::Session::new(self.id, self.nickname)
    }
}

} // verus!
