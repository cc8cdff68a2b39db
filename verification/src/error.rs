use vstd::prelude::*;

verus! {

/// The broad class of a failure, in the sense of `std::io::ErrorKind`.
#[derive(Clone, Copy, Debug, PartialEq, Eq)]
pub enum ErrorKind {
    /// The bytes or text received do not follow the protocol.
    InvalidData,
    /// An argument given by the caller (a host, a port) is malformed.
    InvalidInput,
    /// The input ended before a value was complete.
    UnexpectedEof,
    /// A buffer of the announced size could not be reserved.
    OutOfMemory,
}

/// The packet whose length was wrong: both carry one `u64`.
#[derive(Clone, Copy, Debug, PartialEq, Eq)]
pub enum U64Packet {
    Ping,
    Pong,
}

/// Every failure that the library reports.
#[derive(Debug, PartialEq, Eq)]
pub enum PingError {
    /// A packet with no byte at all, so no packet id.
    EmptyPacket,
    /// The first byte of the packet is not the id that was expected.
    InvalidPacketId,
    /// A ping or pong packet that is not exactly nine bytes long.
    InvalidPacketLength(U64Packet),
    /// The handshake's next state is none of 1, 2 and 3.
    InvalidHandshakeState(i32),
    /// Five VarInt bytes in a row all had their continuation bit set.
    VarintTooLong,
    /// The input ended in the middle of a value.
    UnexpectedEof,
    /// A string's bytes are not valid UTF-8.
    InvalidUtf8,
    /// Forge's packed data has fewer than two UTF-16 units.
    ForgeDataTooShort,
    /// The buffer for Forge's unpacked data could not be reserved.
    OutOfMemory,
    /// The pong did not echo the code that the ping carried.
    InvalidPongCode,
    /// The status text is not JSON; the message is the parser's own.
    InvalidJson(String),
    /// The status text ends before its JSON document does; the message is
    /// the parser's own.
    TruncatedJson(String),
    /// A host and port that cannot be told apart.
    InvalidSocketAddress,
    /// A port that is not a decimal number below 65536.
    InvalidPort,
}

impl PingError {
    /// The class of this failure.
    pub open spec fn spec_kind(&self) -> ErrorKind {
        match self {
            PingError::UnexpectedEof => ErrorKind::UnexpectedEof,
            PingError::TruncatedJson(_) => ErrorKind::UnexpectedEof,
            PingError::OutOfMemory => ErrorKind::OutOfMemory,
            PingError::InvalidSocketAddress => ErrorKind::InvalidInput,
            PingError::InvalidPort => ErrorKind::InvalidInput,
            _ => ErrorKind::InvalidData,
        }
    }

    /// The class of this failure.
    pub fn kind(&self) -> (k: ErrorKind)
        ensures
            k == self.spec_kind(),
    {
        match self {
            PingError::UnexpectedEof => ErrorKind::UnexpectedEof,
            PingError::TruncatedJson(_) => ErrorKind::UnexpectedEof,
            PingError::OutOfMemory => ErrorKind::OutOfMemory,
            PingError::InvalidSocketAddress => ErrorKind::InvalidInput,
            PingError::InvalidPort => ErrorKind::InvalidInput,
            _ => ErrorKind::InvalidData,
        }
    }
}

} // verus!
