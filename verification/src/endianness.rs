use vstd::prelude::*;

verus! {

/// The order in which the bytes of a multi-byte value are laid out.
#[derive(Debug, PartialEq, Eq, Clone, Copy, Hash, Structural)]
pub enum Endianness {
    Big,
    Little,
}

/// The bit order of a bitfield.
pub enum BitfieldBitOrder {
    /// The bits of the first field are placed at the most significant end.
    MsbFirst,
    /// The bits of the first field are placed at the least significant end.
    LsbFirst,
}

} // verus!
