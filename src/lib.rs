//! Client side of the QAP1 protocol: request framing, response decoding,
//! handshake and address checks, and the per-connection state machine.
pub mod laws;
pub mod request;
pub mod response;
pub mod session;
pub mod value;
pub mod wire;
