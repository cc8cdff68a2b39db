//! Client side of the Minecraft "Server List Ping": packet codecs, VarInt
//! framing, Forge mod-list unpacking, host/port handling and ping statistics,
//! each function stated and proved against a mathematical model. What
//! `serde_json` makes of the status text is not modelled: its results are
//! named, as functions of the text and of the keys followed.

pub mod error;
pub mod protocol;
pub mod dns;
pub mod stats;
