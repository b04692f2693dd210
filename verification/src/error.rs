use vstd::prelude::*;

verus! {

/// Why decoding a message failed.
#[derive(Debug, Clone, Copy, PartialEq, Eq, Structural)]
pub enum DnsPacketParseError {
    /// A byte was needed at `index`, but the buffer holds only `length` bytes.
    OutOfBounds { index: usize, length: usize },
    /// A name ran through more compression pointers than a well-formed
    /// message ever chains.
    JumpLimitExceeded,
}

} // verus!
