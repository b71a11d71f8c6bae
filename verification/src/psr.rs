//! The program status register, the execution state and the processor modes.

use vstd::prelude::*;
use crate::bits::{C_MASK, N_MASK, V_MASK, Z_MASK, flag_c, flag_n, flag_v, flag_z, with_nzcv};


verus! {

/// The two instruction sets.
#[derive(Clone, Copy, PartialEq, Eq, Structural, Debug)]
pub enum CpuState {
    ARM,
    THUMB,
}

/// The processor modes.
#[derive(Clone, Copy, PartialEq, Eq, Structural, Debug)]
pub enum CpuMode {
    User,
    Fiq,
    Irq,
    Supervisor,
    Abort,
    Undefined,
    System,
}

impl CpuMode {
    /// The five mode bits of a status register.
    pub open spec fn number(self) -> u32 {
        match self {
            CpuMode::User => 0b10000,
            CpuMode::Fiq => 0b10001,
            CpuMode::Irq => 0b10010,
            CpuMode::Supervisor => 0b10011,
            CpuMode::Abort => 0b10111,
            CpuMode::Undefined => 0b11011,
            CpuMode::System => 0b11111,
        }
    }

    /// The register bank of a mode. System and User share bank 0.
    pub open spec fn bank(self) -> usize {
        match self {
            CpuMode::User | CpuMode::System => 0,
            CpuMode::Fiq => 1,
            CpuMode::Irq => 2,
            CpuMode::Supervisor => 3,
            CpuMode::Abort => 4,
            CpuMode::Undefined => 5,
        }
    }

    /// The mode bits of this mode.
    pub fn bits(self) -> (r: u32)
        ensures
            r == self.number(),
            r < 32,
    {
        match self {
            CpuMode::User => 0b10000,
            CpuMode::Fiq => 0b10001,
            CpuMode::Irq => 0b10010,
            CpuMode::Supervisor => 0b10011,
            CpuMode::Abort => 0b10111,
            CpuMode::Undefined => 0b11011,
            CpuMode::System => 0b11111,
        }
    }

    /// The index of this mode's register bank.
    pub fn bank_index(self) -> (r: usize)
        ensures
            r == self.bank(),
            r < 6,
    {
        match self {
            CpuMode::User | CpuMode::System => 0,
            CpuMode::Fiq => 1,
            CpuMode::Irq => 2,
            CpuMode::Supervisor => 3,
            CpuMode::Abort => 4,
            CpuMode::Undefined => 5,
        }
    }
}

/// A program status register.
#[derive(Clone, Copy, PartialEq, Eq, Structural, Debug)]
pub struct RegPSR {
    pub raw: u32,
}

impl Default for RegPSR {
    fn default() -> (r: Self)
        ensures
            r.raw == 0,
    {
        RegPSR { raw: 0 }
    }
}

impl RegPSR {
    /// A status register with the reserved bits 8 to 27 cleared.
    pub open spec fn of(u: u32) -> RegPSR {
        RegPSR { raw: u & 0xf000_00ff }
    }

    /// The mode that the low five bits name, if they name one.
    pub open spec fn mode_of(self) -> Option<CpuMode> {
        let m = self.raw & 0x1f;
        if m == 0b10000 {
            Some(CpuMode::User)
        } else if m == 0b10001 {
            Some(CpuMode::Fiq)
        } else if m == 0b10010 {
            Some(CpuMode::Irq)
        } else if m == 0b10011 {
            Some(CpuMode::Supervisor)
        } else if m == 0b10111 {
            Some(CpuMode::Abort)
        } else if m == 0b11011 {
            Some(CpuMode::Undefined)
        } else if m == 0b11111 {
            Some(CpuMode::System)
        } else {
            None
        }
    }

    /// The execution state that bit 5 selects.
    pub open spec fn state_of(self) -> CpuState {
        if self.raw & 0x20 != 0 {
            CpuState::THUMB
        } else {
            CpuState::ARM
        }
    }

    pub open spec fn with_state(self, s: CpuState) -> RegPSR {
        RegPSR {
            raw: if s == CpuState::THUMB {
                self.raw | 0x20
            } else {
                self.raw & !0x20u32
            },
        }
    }

    pub open spec fn with_mode(self, m: CpuMode) -> RegPSR {
        RegPSR { raw: (self.raw & !0x1fu32) | m.number() }
    }

    pub open spec fn with_irq_disabled(self, d: bool) -> RegPSR {
        RegPSR {
            raw: if d {
                self.raw | 0x80
            } else {
                self.raw & !0x80u32
            },
        }
    }

    pub open spec fn with_fiq_disabled(self, d: bool) -> RegPSR {
        RegPSR {
            raw: if d {
                self.raw | 0x40
            } else {
                self.raw & !0x40u32
            },
        }
    }

    pub open spec fn with_flags(self, n: bool, z: bool, c: bool, v: bool) -> RegPSR {
        RegPSR { raw: with_nzcv(self.raw, n, z, c, v) }
    }

    /// This register with only the carry flag replaced.
    pub open spec fn with_carry(self, c: bool) -> RegPSR {
        self.with_flags(flag_n(self.raw), flag_z(self.raw), c, flag_v(self.raw))
    }

    pub fn new(u: u32) -> (r: RegPSR)
        ensures
            r == RegPSR::of(u),
    {
        RegPSR { raw: u & 0xf000_00ff }
    }

    pub fn get(&self) -> (r: u32)
        ensures
            r == self.raw,
    {
        self.raw
    }

    pub fn state(&self) -> (r: CpuState)
        ensures
            r == self.state_of(),
    {
        if self.raw & 0x20 != 0 {
            CpuState::THUMB
        } else {
            CpuState::ARM
        }
    }

    pub fn set_state(&mut self, s: CpuState)
        ensures
            *final(self) == old(self).with_state(s),
    {
        match s {
            CpuState::THUMB => {
                self.raw = self.raw | 0x20;
            },
            CpuState::ARM => {
                self.raw = self.raw & !0x20u32;
            },
        }
    }

    /// The current mode; `None` where the mode bits name none.
    pub fn mode(&self) -> (r: Option<CpuMode>)
        ensures
            r == self.mode_of(),
    {
        let m: u32 = self.raw & 0x1f;
        if m == 0b10000 {
            Some(CpuMode::User)
        } else if m == 0b10001 {
            Some(CpuMode::Fiq)
        } else if m == 0b10010 {
            Some(CpuMode::Irq)
        } else if m == 0b10011 {
            Some(CpuMode::Supervisor)
        } else if m == 0b10111 {
            Some(CpuMode::Abort)
        } else if m == 0b11011 {
            Some(CpuMode::Undefined)
        } else if m == 0b11111 {
            Some(CpuMode::System)
        } else {
            None
        }
    }

    pub fn set_mode(&mut self, m: CpuMode)
        ensures
            *final(self) == old(self).with_mode(m),
    {
        self.raw = (self.raw & !0x1fu32) | m.bits();
    }

    pub fn set_irq_disabled(&mut self, d: bool)
        ensures
            *final(self) == old(self).with_irq_disabled(d),
    {
        if d {
            self.raw = self.raw | 0x80;
        } else {
            self.raw = self.raw & !0x80u32;
        }
    }

    pub fn set_fiq_disabled(&mut self, d: bool)
        ensures
            *final(self) == old(self).with_fiq_disabled(d),
    {
        if d {
            self.raw = self.raw | 0x40;
        } else {
            self.raw = self.raw & !0x40u32;
        }
    }

    #[allow(non_snake_case)]
    pub fn N(&self) -> (r: bool)
        ensures
            r == flag_n(self.raw),
    {
        self.raw & N_MASK != 0
    }

    #[allow(non_snake_case)]
    pub fn Z(&self) -> (r: bool)
        ensures
            r == flag_z(self.raw),
    {
        self.raw & Z_MASK != 0
    }

    #[allow(non_snake_case)]
    pub fn C(&self) -> (r: bool)
        ensures
            r == flag_c(self.raw),
    {
        self.raw & C_MASK != 0
    }

    #[allow(non_snake_case)]
    pub fn V(&self) -> (r: bool)
        ensures
            r == flag_v(self.raw),
    {
        self.raw & V_MASK != 0
    }

    /// Replaces the four condition flags.
    pub fn set_flags(&mut self, n: bool, z: bool, c: bool, v: bool)
        ensures
            *final(self) == old(self).with_flags(n, z, c, v),
    {
        let nb: u32 = if n { N_MASK } else { 0 };
        let zb: u32 = if z { Z_MASK } else { 0 };
        let cb: u32 = if c { C_MASK } else { 0 };
        let vb: u32 = if v { V_MASK } else { 0 };
        self.raw = (self.raw & 0x0fff_ffff) | nb | zb | cb | vb;
    }

    /// Replaces the carry flag.
    #[allow(non_snake_case)]
    pub fn set_C(&mut self, c: bool)
        ensures
            *final(self) == old(self).with_carry(c),
    {
        self.set_flags(self.N(), self.Z(), c, self.V());
    }
}

} // verus!
