//! Order-book aggregation across exchanges: the verified core of the
//! aggregator server, the exchange message handling and the two clients.

pub mod common;
pub mod text;
pub mod decimal;
pub mod orderbook;
pub mod command;
pub mod fxmap;
pub mod aggregator;
pub mod exchanges;
pub mod ui_state;
pub mod events;
pub mod grpc_client;
pub mod grpc_server;
pub mod config;
