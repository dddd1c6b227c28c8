//! A local log-relay bridge: the verified core of a loopback HTTP service
//! that accepts JSON log records and republishes them, canonically encoded,
//! on a process-local event bus.
//!
//! The library holds the logic worth stating exactly: the wire format of a
//! log record (a JSON object with four required text fields), its canonical
//! encoding, and the decision each request leads to. The surrounding HTTP
//! transport and the event bus itself live outside the library.

pub mod encode;
pub mod event;
pub mod parse;
pub mod relay;
pub mod roundtrip;
