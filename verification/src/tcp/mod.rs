//! Response streams over TCP.
pub mod control;
pub mod instance;
pub mod options;
pub mod receive;
pub mod resolve;
pub mod send;
pub mod server;
pub mod setup;
pub mod stream;
pub mod table;
pub mod tracking;
