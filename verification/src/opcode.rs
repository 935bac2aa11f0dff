//! Opcode tags with a fixed meaning.

use vstd::prelude::*;

verus! {

/// The tag of an instruction that could not be decoded.
pub const BOCHSCPU_OPCODE_ERROR: u32 = 0;

/// The tag of an instruction that a hook put into the stream.
pub const BOCHSCPU_OPCODE_INSERTED: u32 = 1;

} // verus!
