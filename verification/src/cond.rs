//! ARM condition codes.

use vstd::prelude::*;
use crate::bits::{C_MASK, N_MASK, V_MASK, Z_MASK, flag_c, flag_n, flag_v, flag_z};

verus! {

/// The condition field of an ARM instruction.
#[derive(Clone, Copy, PartialEq, Eq, Structural, Debug)]
pub enum ArmCond {
    Eq,
    Ne,
    Hs,
    Lo,
    Mi,
    Pl,
    Vs,
    Vc,
    Hi,
    Ls,
    Ge,
    Lt,
    Gt,
    Le,
    Al,
    Invalid,
}

impl ArmCond {
    /// The condition that a four-bit field names.
    pub open spec fn named(bits: u32) -> ArmCond {
        if bits == 0 {
            ArmCond::Eq
        } else if bits == 1 {
            ArmCond::Ne
        } else if bits == 2 {
            ArmCond::Hs
        } else if bits == 3 {
            ArmCond::Lo
        } else if bits == 4 {
            ArmCond::Mi
        } else if bits == 5 {
            ArmCond::Pl
        } else if bits == 6 {
            ArmCond::Vs
        } else if bits == 7 {
            ArmCond::Vc
        } else if bits == 8 {
            ArmCond::Hi
        } else if bits == 9 {
            ArmCond::Ls
        } else if bits == 10 {
            ArmCond::Ge
        } else if bits == 11 {
            ArmCond::Lt
        } else if bits == 12 {
            ArmCond::Gt
        } else if bits == 13 {
            ArmCond::Le
        } else if bits == 14 {
            ArmCond::Al
        } else {
            ArmCond::Invalid
        }
    }

    /// Whether the condition holds for a status word. The reserved encoding never holds.
    pub open spec fn passes(self, cpsr: u32) -> bool {
        match self {
            ArmCond::Eq => flag_z(cpsr),
            ArmCond::Ne => !flag_z(cpsr),
            ArmCond::Hs => flag_c(cpsr),
            ArmCond::Lo => !flag_c(cpsr),
            ArmCond::Mi => flag_n(cpsr),
            ArmCond::Pl => !flag_n(cpsr),
            ArmCond::Vs => flag_v(cpsr),
            ArmCond::Vc => !flag_v(cpsr),
            ArmCond::Hi => flag_c(cpsr) && !flag_z(cpsr),
            ArmCond::Ls => !flag_c(cpsr) || flag_z(cpsr),
            ArmCond::Ge => flag_n(cpsr) == flag_v(cpsr),
            ArmCond::Lt => flag_n(cpsr) != flag_v(cpsr),
            ArmCond::Gt => !flag_z(cpsr) && flag_n(cpsr) == flag_v(cpsr),
            ArmCond::Le => flag_z(cpsr) || flag_n(cpsr) != flag_v(cpsr),
            ArmCond::Al => true,
            ArmCond::Invalid => false,
        }
    }

    /// Decodes a condition field; `0xf` is the reserved encoding.
    pub fn from_bits(bits: u32) -> (r: ArmCond)
        ensures
            r == ArmCond::named(bits),
    {
        match bits {
            0 => ArmCond::Eq,
            1 => ArmCond::Ne,
            2 => ArmCond::Hs,
            3 => ArmCond::Lo,
            4 => ArmCond::Mi,
            5 => ArmCond::Pl,
            6 => ArmCond::Vs,
            7 => ArmCond::Vc,
            8 => ArmCond::Hi,
            9 => ArmCond::Ls,
            10 => ArmCond::Ge,
            11 => ArmCond::Lt,
            12 => ArmCond::Gt,
            13 => ArmCond::Le,
            14 => ArmCond::Al,
            _ => ArmCond::Invalid,
        }
    }

    /// Evaluates the condition.
    pub fn check(self, cpsr: u32) -> (r: bool)
        ensures
            r == self.passes(cpsr),
    {
        let n: bool = cpsr & N_MASK != 0;
        let z: bool = cpsr & Z_MASK != 0;
        let c: bool = cpsr & C_MASK != 0;
        let v: bool = cpsr & V_MASK != 0;
        match self {
            ArmCond::Eq => z,
            ArmCond::Ne => !z,
            ArmCond::Hs => c,
            ArmCond::Lo => !c,
            ArmCond::Mi => n,
            ArmCond::Pl => !n,
            ArmCond::Vs => v,
            ArmCond::Vc => !v,
            ArmCond::Hi => c && !z,
            ArmCond::Ls => !c || z,
            ArmCond::Ge => n == v,
            ArmCond::Lt => n != v,
            ArmCond::Gt => !z && n == v,
            ArmCond::Le => z || n != v,
            ArmCond::Al => true,
            ArmCond::Invalid => false,
        }
    }
}

} // verus!
