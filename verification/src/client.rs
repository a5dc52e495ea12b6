//! A thin holder for a remote-protocol client and the plain response shapes
//! the surrounding application reads. The transport itself — requests,
//! subscriptions, timers — is outside work and lives with the caller.

use vstd::prelude::*;

verus! {

/// Wraps whatever client object the caller's transport provides.
pub struct ElectrumClient<T> {
    pub client: T,
}

impl<T> ElectrumClient<T> {
    pub fn new(client: T) -> (r: Self)
        ensures
            r.client == client,
    {
        ElectrumClient { client }
    }
}

/// The server-version handshake's answer.
pub struct ServerVersionResponse {
    pub server_software_version: String,
    /// The protocol version that will be used.
    pub protocol_version: String,
}

/// One block-header notification.
pub struct BlockHeaders {
    pub height: i64,
    pub hex: String,
}

} // verus!
