//! The three reserved bytes of the wire format.

use vstd::prelude::*;

verus! {

/// Marks an absent value; a null field is this byte followed by [`VALUE_TERM_BYTE`].
pub const NULL_BYTE: u8 = 0xFE;

/// Ends every row.
pub const ROW_TERM_BYTE: u8 = 0xFD;

/// Ends every field.
pub const VALUE_TERM_BYTE: u8 = 0xFF;

} // verus!
