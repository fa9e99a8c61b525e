//! The server's settings and the requests of websocket clients.

use vstd::prelude::*;

verus! {

/// The server's settings.
pub struct Config {
    pub grpc_port: u16,
}

/// The port the server listens on when none is set.
pub const DEFAULT_GRPC_PORT: u16 = 50051;

/// A request of a websocket client.
#[derive(Debug, Clone, Copy, PartialEq, Eq, Structural)]
pub enum WebsocketRequest {
    Subscribe,
    Unsubscribe,
}

} // verus!
