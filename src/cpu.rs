use vstd::prelude::*;

verus! {

/// Processor privilege mode.
#[derive(Clone, Copy, Debug, PartialEq, Eq, Structural)]
pub enum CpuMode {
    User,
    Supervisor,
    Machine,
}

impl CpuMode {
    /// The architectural encoding of the mode.
    pub open spec fn spec_value(self) -> u64 {
        match self {
            CpuMode::User => 0,
            CpuMode::Supervisor => 1,
            CpuMode::Machine => 3,
        }
    }

    pub fn value(self) -> (r: u64)
        ensures
            r == self.spec_value(),
    {
        match self {
            CpuMode::User => 0,
            CpuMode::Supervisor => 1,
            CpuMode::Machine => 3,
        }
    }
}

/// General-purpose registers, by their ABI names.
#[derive(Clone, Copy, Debug, PartialEq, Eq, Structural)]
pub enum Registers {
    Zero,
    Ra,
    Sp,
    Gp,
    Tp,
    T0,
    T1,
    T2,
    S0,
    S1,
    A0,
    A1,
    A2,
    A3,
    A4,
    A5,
    A6,
    A7,
    S2,
    S3,
    S4,
    S5,
    S6,
    S7,
    S8,
    S9,
    S10,
    S11,
    T3,
    T4,
    T5,
    T6,
}

impl Registers {
    /// The register's number.
    pub open spec fn spec_index(self) -> usize {
        match self {
            Registers::Zero => 0,
            Registers::Ra => 1,
            Registers::Sp => 2,
            Registers::Gp => 3,
            Registers::Tp => 4,
            Registers::T0 => 5,
            Registers::T1 => 6,
            Registers::T2 => 7,
            Registers::S0 => 8,
            Registers::S1 => 9,
            Registers::A0 => 10,
            Registers::A1 => 11,
            Registers::A2 => 12,
            Registers::A3 => 13,
            Registers::A4 => 14,
            Registers::A5 => 15,
            Registers::A6 => 16,
            Registers::A7 => 17,
            Registers::S2 => 18,
            Registers::S3 => 19,
            Registers::S4 => 20,
            Registers::S5 => 21,
            Registers::S6 => 22,
            Registers::S7 => 23,
            Registers::S8 => 24,
            Registers::S9 => 25,
            Registers::S10 => 26,
            Registers::S11 => 27,
            Registers::T3 => 28,
            Registers::T4 => 29,
            Registers::T5 => 30,
            Registers::T6 => 31,
        }
    }

    pub fn index(self) -> (r: usize)
        ensures
            r == self.spec_index(),
            r < 32,
    {
        match self {
            Registers::Zero => 0,
            Registers::Ra => 1,
            Registers::Sp => 2,
            Registers::Gp => 3,
            Registers::Tp => 4,
            Registers::T0 => 5,
            Registers::T1 => 6,
            Registers::T2 => 7,
            Registers::S0 => 8,
            Registers::S1 => 9,
            Registers::A0 => 10,
            Registers::A1 => 11,
            Registers::A2 => 12,
            Registers::A3 => 13,
            Registers::A4 => 14,
            Registers::A5 => 15,
            Registers::A6 => 16,
            Registers::A7 => 17,
            Registers::S2 => 18,
            Registers::S3 => 19,
            Registers::S4 => 20,
            Registers::S5 => 21,
            Registers::S6 => 22,
            Registers::S7 => 23,
            Registers::S8 => 24,
            Registers::S9 => 25,
            Registers::S10 => 26,
            Registers::S11 => 27,
            Registers::T3 => 28,
            Registers::T4 => 29,
            Registers::T5 => 30,
            Registers::T6 => 31,
        }
    }
}

/// Floating-point registers, by their ABI names.
#[derive(Clone, Copy, Debug, PartialEq, Eq, Structural)]
pub enum FRegisters {
    Ft0,
    Ft1,
    Ft2,
    Ft3,
    Ft4,
    Ft5,
    Ft6,
    Ft7,
    Fs0,
    Fs1,
    Fa0,
    Fa1,
    Fa2,
    Fa3,
    Fa4,
    Fa5,
    Fa6,
    Fa7,
    Fs2,
    Fs3,
    Fs4,
    Fs5,
    Fs6,
    Fs7,
    Fs8,
    Fs9,
    Fs10,
    Fs11,
    Ft8,
    Ft9,
    Ft10,
    Ft11,
}

impl FRegisters {
    /// The register's number.
    pub open spec fn spec_index(self) -> usize {
        match self {
            FRegisters::Ft0 => 0,
            FRegisters::Ft1 => 1,
            FRegisters::Ft2 => 2,
            FRegisters::Ft3 => 3,
            FRegisters::Ft4 => 4,
            FRegisters::Ft5 => 5,
            FRegisters::Ft6 => 6,
            FRegisters::Ft7 => 7,
            FRegisters::Fs0 => 8,
            FRegisters::Fs1 => 9,
            FRegisters::Fa0 => 10,
            FRegisters::Fa1 => 11,
            FRegisters::Fa2 => 12,
            FRegisters::Fa3 => 13,
            FRegisters::Fa4 => 14,
            FRegisters::Fa5 => 15,
            FRegisters::Fa6 => 16,
            FRegisters::Fa7 => 17,
            FRegisters::Fs2 => 18,
            FRegisters::Fs3 => 19,
            FRegisters::Fs4 => 20,
            FRegisters::Fs5 => 21,
            FRegisters::Fs6 => 22,
            FRegisters::Fs7 => 23,
            FRegisters::Fs8 => 24,
            FRegisters::Fs9 => 25,
            FRegisters::Fs10 => 26,
            FRegisters::Fs11 => 27,
            FRegisters::Ft8 => 28,
            FRegisters::Ft9 => 29,
            FRegisters::Ft10 => 30,
            FRegisters::Ft11 => 31,
        }
    }

    pub fn index(self) -> (r: usize)
        ensures
            r == self.spec_index(),
            r < 32,
    {
        match self {
            FRegisters::Ft0 => 0,
            FRegisters::Ft1 => 1,
            FRegisters::Ft2 => 2,
            FRegisters::Ft3 => 3,
            FRegisters::Ft4 => 4,
            FRegisters::Ft5 => 5,
            FRegisters::Ft6 => 6,
            FRegisters::Ft7 => 7,
            FRegisters::Fs0 => 8,
            FRegisters::Fs1 => 9,
            FRegisters::Fa0 => 10,
            FRegisters::Fa1 => 11,
            FRegisters::Fa2 => 12,
            FRegisters::Fa3 => 13,
            FRegisters::Fa4 => 14,
            FRegisters::Fa5 => 15,
            FRegisters::Fa6 => 16,
            FRegisters::Fa7 => 17,
            FRegisters::Fs2 => 18,
            FRegisters::Fs3 => 19,
            FRegisters::Fs4 => 20,
            FRegisters::Fs5 => 21,
            FRegisters::Fs6 => 22,
            FRegisters::Fs7 => 23,
            FRegisters::Fs8 => 24,
            FRegisters::Fs9 => 25,
            FRegisters::Fs10 => 26,
            FRegisters::Fs11 => 27,
            FRegisters::Ft8 => 28,
            FRegisters::Ft9 => 29,
            FRegisters::Ft10 => 30,
            FRegisters::Ft11 => 31,
        }
    }
}

/// Timer ticks per second.
pub const FREQ: u64 = 10_000_000;

/// Length of one time slice, in timer ticks.
pub const CONTEXT_SWITCH_TIME: u64 = FREQ / 500;

/// Register snapshot of a hart, shared with the trap entry code. Field order
/// is the order the entry code stores them in: general registers,
/// floating-point registers, then satp, pc, hartid, qm, pid and mode, eight
/// bytes each.
#[derive(Clone, Copy, Debug)]
pub struct TrapFrame {
    /// General registers.
    pub regs: [u64; 32],
    /// Floating-point registers.
    pub fregs: [u64; 32],
    /// Translation-control value.
    pub satp: u64,
    /// Saved program counter.
    pub pc: u64,
    /// Hardware thread id.
    pub hartid: u64,
    /// Scratch word of the trap entry code.
    pub qm: u64,
    /// Process id.
    pub pid: u64,
    /// Privilege mode the trap came from.
    pub mode: u64,
}

/// The value that general register `i` reads as: register 0 is always zero.
pub open spec fn reg_value(f: TrapFrame, i: int) -> u64 {
    if i == 0 {
        0
    } else {
        f.regs@[i]
    }
}

impl TrapFrame {
    /// A frame with every register zero.
    pub fn new() -> (r: TrapFrame)
        ensures
            forall|i: int| 0 <= i < 32 ==> r.regs@[i] == 0 && r.fregs@[i] == 0,
            r.satp == 0,
            r.pc == 0,
            r.hartid == 0,
            r.qm == 1,
            r.pid == 0,
            r.mode == 0,
    {
        TrapFrame {
            regs: [0; 32],
            fregs: [0; 32],
            satp: 0,
            pc: 0,
            hartid: 0,
            qm: 1,
            pid: 0,
            mode: 0,
        }
    }

    /// Value of general register `r`.
    pub fn reg(&self, r: Registers) -> (v: u64)
        ensures
            v == reg_value(*self, r.spec_index() as int),
    {
        let i = r.index();
        if i == 0 {
            0
        } else {
            self.regs[i]
        }
    }

    /// Store `v` in general register `r`; a store to register 0 is dropped.
    pub fn set_reg(&mut self, r: Registers, v: u64)
        ensures
            r.spec_index() == 0 ==> *final(self) == *old(self),
            r.spec_index() != 0 ==> final(self).regs@ == old(self).regs@.update(r.spec_index() as int, v),
            final(self).fregs == old(self).fregs,
            final(self).satp == old(self).satp,
            final(self).pc == old(self).pc,
            final(self).hartid == old(self).hartid,
            final(self).qm == old(self).qm,
            final(self).pid == old(self).pid,
            final(self).mode == old(self).mode,
    {
        let i = r.index();
        if i != 0 {
            self.regs[i] = v;
        }
    }

    /// Whether address translation is on: the mode field of satp is nonzero.
    pub fn translation_on(&self) -> (r: bool)
        ensures
            r == (self.satp >> 60u64 != 0),
    {
        self.satp >> 60u64 != 0
    }
}

/// Memory management unit address-translation mode, as stored in the top
/// four bits of the translation-control (satp) register.
#[derive(Clone, Copy, Debug, PartialEq, Eq, Structural)]
pub enum SatpMode {
    Off,
    Sv39,
    Sv48,
}

impl SatpMode {
    /// The architectural encoding of the mode.
    pub open spec fn spec_value(self) -> u64 {
        match self {
            SatpMode::Off => 0,
            SatpMode::Sv39 => 8,
            SatpMode::Sv48 => 9,
        }
    }

    pub fn value(self) -> (r: u64)
        ensures
            r == self.spec_value(),
    {
        match self {
            SatpMode::Off => 0,
            SatpMode::Sv39 => 8,
            SatpMode::Sv48 => 9,
        }
    }
}

/// The translation-control word for `mode`, address-space id `asid` and a
/// root table at physical address `addr`.
pub open spec fn satp_of(mode: u64, asid: u64, addr: u64) -> u64 {
    (mode << 60u64) | ((asid & 0xffff) << 44u64) | ((addr >> 12u64) & 0xff_ffff_ffff)
}

/// Build the Supervisor Address Translation and Protection register value.
pub fn build_satp(mode: SatpMode, asid: u64, addr: u64) -> (r: u64)
    ensures
        r == satp_of(mode.spec_value(), asid, addr),
        r >> 60u64 == mode.spec_value(),
        (r >> 44u64) & 0xffff == asid & 0xffff,
        r & 0xfff_ffff_ffff == (addr >> 12u64) & 0xff_ffff_ffff,
{
    let m = mode.value();
    proof {
        lemma_satp_fields(m, asid, addr);
    }
    (m << 60u64) | ((asid & 0xffff) << 44u64) | ((addr >> 12u64) & 0xff_ffff_ffff)
}

/// The three fields of a translation-control word read back as packed.
pub proof fn lemma_satp_fields(m: u64, asid: u64, addr: u64)
    requires
        m < 16,
    ensures
        satp_of(m, asid, addr) >> 60u64 == m,
        (satp_of(m, asid, addr) >> 44u64) & 0xffff == asid & 0xffff,
        satp_of(m, asid, addr) & 0xfff_ffff_ffff == (addr >> 12u64) & 0xff_ffff_ffff,
{
    assert(((m << 60u64) | ((asid & 0xffff) << 44u64) | ((addr >> 12u64) & 0xff_ffff_ffff)) >> 60u64 == m) by (bit_vector)
        requires m < 16;
    assert((((m << 60u64) | ((asid & 0xffff) << 44u64) | ((addr >> 12u64) & 0xff_ffff_ffff)) >> 44u64) & 0xffff == asid & 0xffff) by (bit_vector)
        requires m < 16;
    assert(((m << 60u64) | ((asid & 0xffff) << 44u64) | ((addr >> 12u64) & 0xff_ffff_ffff)) & 0xfff_ffff_ffff == (addr >> 12u64) & 0xff_ffff_ffff) by (bit_vector)
        requires m < 16;
}

} // verus!
