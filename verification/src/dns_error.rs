//! The ways in which building or parsing a message can fail.

use vstd::prelude::*;

verus! {

/// What a setter or the parser reports instead of a value.
#[derive(Debug, Clone, Copy, PartialEq, Eq)]
pub enum DnsError {
    /// The reserved Z bits of the flags were not zero; holds the three bits.
    InvalidZFlag(i32),
    /// The opcode of the flags was above 2; holds the opcode.
    InvalidOpcodeFlag(i32),
    /// The response code of the flags was above 5; holds the code.
    InvalidRcodeFlag(i32),
    /// The query type is not a recognised record type; holds the type.
    InvalidQType(u16),
    /// The query class is reserved or unassigned; holds the class.
    InvalidQClass(u16),
    /// The transport failed; holds the code that the caller of the transport chose.
    UdpSocketError(u16),
    /// A label is longer than 63 octets, or an encoded name longer than 255.
    NameTooLong,
    /// The octets to parse end too early, or hold a name that cannot be read.
    MalformedMessage,
}

} // verus!
