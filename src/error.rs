use vstd::prelude::*;

verus! {

/// The ways in which encoding or decoding can fail.
#[derive(Debug, Clone, Copy, PartialEq, Eq, Structural)]
pub enum CodecError {
    /// A type, class, opcode or rcode value outside its closed enumeration.
    UnknownCode,
    /// The buffer ends before a field that it must hold.
    TruncatedInput,
    /// A name label longer than 63 bytes.
    LabelTooLong,
    /// A record whose `rdlength` disagrees with the length of its `rdata`.
    InvariantViolation,
}

} // verus!
