//! Recognition of whole-block shapes that could be lowered by hand. No shape is recognized yet,
//! so every block goes through the per-instruction lowering.

use vstd::prelude::*;

verus! {

/// A recognized shape.
#[derive(Clone, Copy, PartialEq, Eq, Structural, Debug)]
pub enum Pattern {
    /// Multiplication of a register by a constant.
    MulByConst { rd: u8, rs: u8, imm: u32 },
}

/// Looks for a known shape in a Thumb block. There is none yet.
pub fn try_match_thumb(_opcodes: &[u16]) -> (r: Option<Pattern>)
    ensures
        r is None,
{
    None
}

/// Looks for a known shape in an ARM block. There is none yet.
pub fn try_match_arm(_opcodes: &[u32]) -> (r: Option<Pattern>)
    ensures
        r is None,
{
    None
}

} // verus!
