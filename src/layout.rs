use vstd::prelude::*;

verus! {

/// Number of field elements in one trace row.
pub const BIN_OP_ROW_SIZE: usize = 42;

/// Offset of the one-hot opcode flags (ten slots).
pub const FLAGS_START: usize = 1;

/// Number of opcode flag slots.
pub const NUM_FLAGS: usize = 10;

/// Offset of the eight little-endian bytes of the left operand.
pub const LEFT_ARG: usize = 11;

/// Offset of the eight little-endian bytes of the right operand.
pub const RIGHT_ARG: usize = 19;

/// Offset of the eight little-endian bytes of the result.
pub const RESULT: usize = 27;

/// Offset of the carry bits of limbs 0..7.
pub const CARRY_START: usize = 35;

/// Number of carry bits: the carry out of the top limb is discarded.
pub const CARRY: usize = 7;

/// Offset, in the header row, of the 32 public digest bytes.
pub const DIGEST_START: usize = 10;

/// Number of public values bound into the header row.
pub const DIGEST_LEN: usize = 32;

} // verus!
