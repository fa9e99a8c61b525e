//! The command-line client: its arguments, which stream they ask for, and
//! the messages of its failures.

use vstd::prelude::*;

verus! {

/// The arguments of the command-line client.
pub struct Config {
    pub pair_name: Option<String>,
    pub exchange_ident: Option<Vec<String>>,
    pub server_addr: String,
}

pub const DEFAULT_SERVER_ADDR: &'static str = "http://[::1]:50051";

/// The stream that the client asks the server for.
pub enum StreamRequest {
    /// The fixed stream: ETH/BTC over Binance and Bitstamp.
    Default,
    /// A currency pair, by name, over the exchanges named.
    Custom { name: String, exchange_idents: Vec<String> },
}

/// Why the command-line client stops.
pub enum MainError {
    /// A currency pair was given without exchanges, or the other way round.
    InconsistentArgs,
    /// The server at this address could not be reached.
    ServerConnectError(String),
    /// The stream could not be opened; the server's status, as text.
    StreamError(String),
}

pub const MSG_INCONSISTENT_ARGS: &'static str = "If specifying either currency_pair or market(s), both must be specified";

impl MainError {
    /// The line printed before the client exits with failure.
    pub fn report_message(&self) -> (s: String)
        ensures
            s@ == match self {
                MainError::InconsistentArgs => MSG_INCONSISTENT_ARGS@,
                MainError::ServerConnectError(addr) => "Could not connect to server at "@ + addr@,
                MainError::StreamError(status) => "Problem connecting to gRPC stream: "@ + status@,
            },
    {
        match self {
            MainError::InconsistentArgs => String::from_str(MSG_INCONSISTENT_ARGS),
            MainError::ServerConnectError(addr) => {
                let mut s = String::from_str("Could not connect to server at ");
                s.append(addr.as_str());
                s
            },
            MainError::StreamError(status) => {
                let mut s = String::from_str("Problem connecting to gRPC stream: ");
                s.append(status.as_str());
                s
            },
        }
    }
}

/// The stream the arguments ask for: the default one when neither a pair
/// nor exchanges are given, a custom one when both are, and an error when
/// only one of them is.
pub fn select_request(pair_name: Option<String>, exchange_ident: Option<Vec<String>>) -> (r: Result<StreamRequest, MainError>)
    ensures
        match (exchange_ident, pair_name) {
            (Some(es), Some(p)) => r matches Ok(StreamRequest::Custom { name, exchange_idents }) && name == p
                && exchange_idents == es,
            (None, None) => r matches Ok(StreamRequest::Default),
            _ => r matches Err(MainError::InconsistentArgs),
        },
{
    match (exchange_ident, pair_name) {
        (Some(exchange_idents), Some(name)) => Ok(StreamRequest::Custom { name, exchange_idents }),
        (None, None) => Ok(StreamRequest::Default),
        _ => Err(MainError::InconsistentArgs),
    }
}

} // verus!
