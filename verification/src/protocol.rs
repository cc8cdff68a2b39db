//! The wire protocol: VarInts, framing and the packets of a status ping.

pub mod varint;
pub mod io;
pub mod forge;
pub mod packet;
pub mod json;
pub mod ping;
