//! A verified engine for tunneling TCP byte streams over an established
//! duplex transport: identity verification, binary request-header codec,
//! per-frame symmetric encryption and integrity, frame reassembly over
//! arbitrary chunk boundaries, and the bidirectional relay state machine.

pub mod assembler;
pub mod auth;
pub mod checksum;
pub mod cipher;
pub mod digest;
pub mod errors;
pub mod header;
pub mod pipeline;
pub mod primitives;
pub mod relay;
