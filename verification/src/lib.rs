//! Verified core of a Modbus slave simulator: the domain model, the
//! register/word encoding, the request engine, the wire formats (PDU, RTU
//! frames, MBAP headers) and the pure parts of the server around them.

pub mod behavior;
pub mod encoding;
pub mod text;
pub mod model;
pub mod engine;
pub mod pdu;
pub mod rtu;
pub mod world;
pub mod dispatch;
pub mod tcp;
pub mod laws;
pub mod varmeco;
pub mod http;
pub mod semantics;
pub mod supervisor;
pub mod settings;
