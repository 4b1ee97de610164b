use vstd::prelude::*;

verus! {

/// Errors returned from SMA speedwire protocol processing.
#[derive(Clone, Copy, Debug, PartialEq, Eq, Structural)]
pub enum Error {
    /// The provided buffer is too small.
    BufferTooSmall { size: usize, expected: usize },
    /// The provided buffer contained unexpected trailing bytes and
    /// was not completely deserialized.
    BufferNotConsumed { trailing: usize },
    /// The processed packet starts with an invalid SMA FOURCC value.
    InvalidFourCC { fourcc: u32 },
    /// The packet header length is incorrect.
    InvalidStartTagLen { len: u16 },
    /// The start tag value in the common packet header is invalid.
    InvalidStartTag { tag: u16 },
    /// The group value in the common packet header is invalid.
    InvalidGroup { group: u32 },
    /// The protocol version as indicated in the common packet header
    /// is unsupported.
    UnsupportedVersion { version: u16 },
    /// The sub-protocol type as indicated in the common packet header
    /// is unsupported.
    UnsupportedProtocol { protocol: u16 },
    /// The padding bytes are not all zero.
    InvalidPadding { padding: u32 },
    /// The OBIS ID encountered is unsupported.
    UnsupportedObisId { id: u32 },
    /// The wordcount field in the inverter sub-protocol header data length
    /// is invalid.
    InvalidWordcount { wordcount: u8 },
    /// The class field of this message has an unsupported value.
    UnsupportedCommandClass { class: u8 },
    /// The opcode of this message has an unsupported value.
    UnsupportedOpcode { opcode: u32 },
    /// The payload of a packet exceeds the maximum supported length.
    PayloadTooLarge { len: usize },
}

/// A specialized Result type for SMA speedwire operations.
pub type Result<T> = core::result::Result<T, Error>;

} // verus!
