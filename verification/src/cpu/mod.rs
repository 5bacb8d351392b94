//! ARM7TDMI CPU core: the register file (including per-mode banked
//! registers), CPSR/SPSR handling, exception entry, pipeline bookkeeping and
//! the barrel shifter. Instruction decode/execute lives in [`arm`] (32-bit
//! set) and [`thumb`] (16-bit set).
//!
//! The 3-stage pipeline is modeled as a two-slot fetch queue: `pipeline[0]`
//! is the instruction about to execute, `pipeline[1]` the one being decoded,
//! and `regs[15]` points at the current fetch address. PC therefore reads as
//! instruction address + 8 (ARM) / + 4 (Thumb).

pub mod arm;
pub mod thumb;

use crate::memory::{half_read, word_read, Bus, BusModel};
use crate::timing::Width;
use vstd::prelude::*;

verus! {

pub const FLAG_N: u32 = 0x8000_0000;
pub const FLAG_Z: u32 = 0x4000_0000;
pub const FLAG_C: u32 = 0x2000_0000;
pub const FLAG_V: u32 = 0x1000_0000;
pub const FLAG_I: u32 = 0x80;
pub const FLAG_F: u32 = 0x40;
pub const FLAG_T: u32 = 0x20;
pub const MODE_MASK: u32 = 0x1F;

pub const VEC_RESET: u32 = 0x00;
pub const VEC_UNDEFINED: u32 = 0x04;
pub const VEC_SWI: u32 = 0x08;
pub const VEC_IRQ: u32 = 0x18;
pub const VEC_FIQ: u32 = 0x1C;

/// ARM7TDMI processor modes (CPSR bits 4:0). System mode shares the User
/// register bank but is privileged; the GBA BIOS hands control to games in it.
#[derive(Debug, Clone, Copy, PartialEq, Eq, Structural)]
pub enum Mode {
    User,
    Fiq,
    Irq,
    Supervisor,
    Abort,
    Undefined,
    System,
}

/// The CPSR mode pattern of a mode.
pub open spec fn mode_bits(m: Mode) -> u32 {
    match m {
        Mode::User => 0x10,
        Mode::Fiq => 0x11,
        Mode::Irq => 0x12,
        Mode::Supervisor => 0x13,
        Mode::Abort => 0x17,
        Mode::Undefined => 0x1B,
        Mode::System => 0x1F,
    }
}

/// The mode named by bits 4:0 of `bits`, if the pattern is a valid one.
pub open spec fn mode_from_bits(bits: u32) -> Option<Mode> {
    let b = bits & 0x1F;
    if b == 0x10 {
        Some(Mode::User)
    } else if b == 0x11 {
        Some(Mode::Fiq)
    } else if b == 0x12 {
        Some(Mode::Irq)
    } else if b == 0x13 {
        Some(Mode::Supervisor)
    } else if b == 0x17 {
        Some(Mode::Abort)
    } else if b == 0x1B {
        Some(Mode::Undefined)
    } else if b == 0x1F {
        Some(Mode::System)
    } else {
        None
    }
}

/// Whether the mode bits of a CPSR value name a mode.
pub open spec fn mode_valid(cpsr: u32) -> bool {
    mode_from_bits(cpsr) is Some
}

/// The mode a CPSR value selects (System for an invalid pattern).
pub open spec fn mode_of(cpsr: u32) -> Mode {
    match mode_from_bits(cpsr) {
        Some(m) => m,
        None => Mode::System,
    }
}

/// Which SPSR slot a mode owns (User and System have none).
pub open spec fn spsr_slot(m: Mode) -> Option<int> {
    match m {
        Mode::Fiq => Some(0),
        Mode::Irq => Some(1),
        Mode::Supervisor => Some(2),
        Mode::Abort => Some(3),
        Mode::Undefined => Some(4),
        _ => None,
    }
}

impl Mode {
    pub fn bits(self) -> (r: u32)
        ensures
            r == mode_bits(self),
    {
        match self {
            Mode::User => 0x10,
            Mode::Fiq => 0x11,
            Mode::Irq => 0x12,
            Mode::Supervisor => 0x13,
            Mode::Abort => 0x17,
            Mode::Undefined => 0x1B,
            Mode::System => 0x1F,
        }
    }

    pub fn from_bits(bits: u32) -> (r: Option<Mode>)
        ensures
            r == mode_from_bits(bits),
    {
        let b = bits & MODE_MASK;
        if b == 0x10 {
            Some(Mode::User)
        } else if b == 0x11 {
            Some(Mode::Fiq)
        } else if b == 0x12 {
            Some(Mode::Irq)
        } else if b == 0x13 {
            Some(Mode::Supervisor)
        } else if b == 0x17 {
            Some(Mode::Abort)
        } else if b == 0x1B {
            Some(Mode::Undefined)
        } else if b == 0x1F {
            Some(Mode::System)
        } else {
            None
        }
    }

    fn spsr_index(self) -> (r: Option<usize>)
        ensures
            match r {
                Some(i) => spsr_slot(self) == Some(i as int) && i < 5,
                None => spsr_slot(self) is None,
            },
    {
        match self {
            Mode::Fiq => Some(0),
            Mode::Irq => Some(1),
            Mode::Supervisor => Some(2),
            Mode::Abort => Some(3),
            Mode::Undefined => Some(4),
            Mode::User | Mode::System => None,
        }
    }

    fn is_privileged(self) -> (r: bool)
        ensures
            r == (self != Mode::User),
    {
        match self {
            Mode::User => false,
            _ => true,
        }
    }
}

/// Decoding the pattern of a mode gives the mode back.
pub proof fn lemma_mode_bits_roundtrip(m: Mode)
    ensures
        mode_from_bits(mode_bits(m)) == Some(m),
        mode_of(mode_bits(m)) == m,
{
    assert(0x10u32 & 0x1F == 0x10 && 0x11u32 & 0x1F == 0x11 && 0x12u32 & 0x1F == 0x12
        && 0x13u32 & 0x1F == 0x13 && 0x17u32 & 0x1F == 0x17 && 0x1Bu32 & 0x1F == 0x1B
        && 0x1Fu32 & 0x1F == 0x1F) by (bit_vector);
}

/// ARM7TDMI CPU state.
pub struct Cpu {
    /// Active register view for the current mode. `regs[15]` is the fetch
    /// address (see the pipeline notes in the module docs).
    regs: [u32; 16],
    cpsr: u32,
    /// SPSRs for FIQ, IRQ, Supervisor, Abort, Undefined (see `spsr_slot`).
    spsr: [u32; 5],
    /// User/System bank: r8–r14 (r8–r12 shared with all non-FIQ modes).
    bank_usr: [u32; 7],
    /// FIQ bank: r8–r14.
    bank_fiq: [u32; 7],
    bank_irq: [u32; 2],
    bank_svc: [u32; 2],
    bank_abt: [u32; 2],
    bank_und: [u32; 2],
    /// Two-slot fetch queue: `[0]` executes next, `[1]` is in decode.
    pipeline: [u32; 2],
    /// Set when the executing instruction wrote PC (pipeline was flushed).
    branched: bool,
    /// CPU is halted (Halt SWI / HALTCNT), waiting for an interrupt.
    halted: bool,
    cycles: u64,
}

/// The abstract state of the CPU.
pub ghost struct CpuView {
    pub regs: Seq<u32>,
    pub cpsr: u32,
    pub spsr: Seq<u32>,
    pub bank_usr: Seq<u32>,
    pub bank_fiq: Seq<u32>,
    pub bank_irq: Seq<u32>,
    pub bank_svc: Seq<u32>,
    pub bank_abt: Seq<u32>,
    pub bank_und: Seq<u32>,
    pub pipeline: Seq<u32>,
    pub branched: bool,
    pub halted: bool,
    pub cycles: u64,
}

/// All the register sequences have their hardware lengths.
pub open spec fn cpu_shape(v: CpuView) -> bool {
    &&& v.regs.len() == 16
    &&& v.spsr.len() == 5
    &&& v.bank_usr.len() == 7
    &&& v.bank_fiq.len() == 7
    &&& v.bank_irq.len() == 2
    &&& v.bank_svc.len() == 2
    &&& v.bank_abt.len() == 2
    &&& v.bank_und.len() == 2
    &&& v.pipeline.len() == 2
}

impl View for Cpu {
    type V = CpuView;

    closed spec fn view(&self) -> CpuView {
        CpuView {
            regs: self.regs@,
            cpsr: self.cpsr,
            spsr: self.spsr@,
            bank_usr: self.bank_usr@,
            bank_fiq: self.bank_fiq@,
            bank_irq: self.bank_irq@,
            bank_svc: self.bank_svc@,
            bank_abt: self.bank_abt@,
            bank_und: self.bank_und@,
            pipeline: self.pipeline@,
            branched: self.branched,
            halted: self.halted,
            cycles: self.cycles,
        }
    }
}

// ---- the register-banking model ----

/// The r13/r14 bank an exception mode (not User/System/FIQ) owns.
pub open spec fn sp_lr_bank(v: CpuView, m: Mode) -> Seq<u32> {
    match m {
        Mode::Irq => v.bank_irq,
        Mode::Supervisor => v.bank_svc,
        Mode::Abort => v.bank_abt,
        Mode::Undefined => v.bank_und,
        _ => v.bank_usr.subrange(5, 7),
    }
}

/// Store the live r8–r14 of mode `from` into its bank(s).
pub open spec fn save_bank(v: CpuView, from: Mode) -> CpuView {
    if from == Mode::Fiq {
        CpuView { bank_fiq: v.regs.subrange(8, 15), ..v }
    } else {
        let usr_low = v.regs.subrange(8, 13);
        let sp_lr = v.regs.subrange(13, 15);
        match from {
            Mode::Irq => CpuView {
                bank_usr: usr_low + v.bank_usr.subrange(5, 7),
                bank_irq: sp_lr,
                ..v
            },
            Mode::Supervisor => CpuView {
                bank_usr: usr_low + v.bank_usr.subrange(5, 7),
                bank_svc: sp_lr,
                ..v
            },
            Mode::Abort => CpuView {
                bank_usr: usr_low + v.bank_usr.subrange(5, 7),
                bank_abt: sp_lr,
                ..v
            },
            Mode::Undefined => CpuView {
                bank_usr: usr_low + v.bank_usr.subrange(5, 7),
                bank_und: sp_lr,
                ..v
            },
            _ => CpuView { bank_usr: usr_low + sp_lr, ..v },
        }
    }
}

/// Make the banked r8–r14 of mode `to` live.
pub open spec fn load_bank(v: CpuView, to: Mode) -> CpuView {
    if to == Mode::Fiq {
        CpuView { regs: v.regs.subrange(0, 8) + v.bank_fiq + v.regs.subrange(15, 16), ..v }
    } else {
        CpuView {
            regs: v.regs.subrange(0, 8) + v.bank_usr.subrange(0, 5) + sp_lr_bank(v, to)
                + v.regs.subrange(15, 16),
            ..v
        }
    }
}

/// Swap the live r8–r14 view when changing modes.
pub open spec fn bank_switch(v: CpuView, from: Mode, to: Mode) -> CpuView {
    if from == to {
        v
    } else {
        load_bank(save_bank(v, from), to)
    }
}

/// A full CPSR write: re-banks on a mode change; an invalid mode pattern
/// keeps the old mode bits.
pub open spec fn spec_set_cpsr(v: CpuView, value: u32) -> CpuView {
    match mode_from_bits(value) {
        Some(m) => CpuView { cpsr: value, ..bank_switch(v, mode_of(v.cpsr), m) },
        None => CpuView { cpsr: (value & !0x1Fu32) | (v.cpsr & 0x1F), ..v },
    }
}

/// The SPSR the current mode sees (the CPSR in User/System).
pub open spec fn spec_spsr(v: CpuView) -> u32 {
    match spsr_slot(mode_of(v.cpsr)) {
        Some(i) => v.spsr[i],
        None => v.cpsr,
    }
}

/// Write the current mode's SPSR (ignored in User/System).
pub open spec fn spec_set_spsr(v: CpuView, value: u32) -> CpuView {
    match spsr_slot(mode_of(v.cpsr)) {
        Some(i) => CpuView { spsr: v.spsr.update(i, value), ..v },
        None => v,
    }
}

/// Set or clear CPSR bit(s).
pub open spec fn spec_set_flag(v: CpuView, flag: u32, on: bool) -> CpuView {
    CpuView { cpsr: if on { v.cpsr | flag } else { v.cpsr & !flag }, ..v }
}

/// Set N and Z from a result.
pub open spec fn spec_set_nz(v: CpuView, value: u32) -> CpuView {
    spec_set_flag(spec_set_flag(v, FLAG_N, value & 0x8000_0000 != 0), FLAG_Z, value == 0)
}

/// Write a register of the current view.
pub open spec fn spec_set_reg(v: CpuView, i: int, value: u32) -> CpuView {
    CpuView { regs: v.regs.update(i, value), ..v }
}

/// Whether the CPU is in Thumb state.
pub open spec fn thumb_state(cpsr: u32) -> bool {
    cpsr & FLAG_T != 0
}

/// The architectural effect of a branch to `target`: PC (fetch address) is
/// the aligned target plus two instruction widths and the pipeline is
/// refilled (`pipe` holds the two fetched opcodes).
pub open spec fn spec_branch(v: CpuView, target: u32, pipe: Seq<u32>) -> CpuView {
    let pc = if thumb_state(v.cpsr) {
        ((target & !1u32) as int + 4) % 0x1_0000_0000
    } else {
        ((target & !3u32) as int + 8) % 0x1_0000_0000
    };
    CpuView { regs: v.regs.update(15, pc as u32), pipeline: pipe, branched: true, ..v }
}

/// The CPSR an exception into `mode` through `vector` installs.
pub open spec fn exception_cpsr(old_cpsr: u32, vector: u32, mode: Mode) -> u32 {
    let base = (old_cpsr & !(0x1Fu32 | FLAG_T)) | mode_bits(mode) | FLAG_I;
    if mode == Mode::Fiq || vector == VEC_RESET {
        base | FLAG_F
    } else {
        base
    }
}

/// The register state right after exception entry, before the jump to the
/// vector: new mode banked in, old CPSR saved in its SPSR, LR set.
pub open spec fn spec_exception_entry(v: CpuView, vector: u32, mode: Mode, lr: u32) -> CpuView {
    let w = spec_set_spsr(spec_set_cpsr(v, exception_cpsr(v.cpsr, vector, mode)), v.cpsr);
    spec_set_reg(w, 14, lr)
}

/// The CPSR's mode bits stay valid however the CPSR is written: the reset
/// state names a mode; writing any value keeps one (an invalid pattern
/// leaves the old mode bits); setting or clearing flag bits above the mode
/// field keeps it; and exception entry installs the exception's mode.
pub proof fn lemma_mode_stays_valid(
    v: CpuView,
    value: u32,
    flag: u32,
    on: bool,
    vector: u32,
    mode: Mode,
    lr: u32,
)
    ensures
        mode_valid(cpu_initial().cpsr),
        mode_valid(v.cpsr) ==> mode_valid(spec_set_cpsr(v, value).cpsr),
        mode_valid(v.cpsr) && flag & 0x1F == 0 ==> mode_valid(spec_set_flag(v, flag, on).cpsr),
        mode_valid(spec_exception_entry(v, vector, mode, lr).cpsr),
{
    let c = v.cpsr;
    assert(((value & !0x1Fu32) | (c & 0x1F)) & 0x1F == c & 0x1F && (flag & 0x1F == 0 ==> ((c
        | flag) & 0x1F == c & 0x1F && (c & !flag) & 0x1F == c & 0x1F)) && (0xD3u32 & 0x1F)
        == 0x13 && 0x10u32 & 0x1F == 0x10 && 0x11u32 & 0x1F == 0x11 && 0x12u32 & 0x1F == 0x12
        && 0x13u32 & 0x1F == 0x13 && 0x17u32 & 0x1F == 0x17 && 0x1Bu32 & 0x1F == 0x1B && 0x1Fu32
        & 0x1F == 0x1F) by (bit_vector);
    crate::bits::lemma_bit_identities();
    let e = exception_cpsr(c, vector, mode);
    assert(((c & !(0x1Fu32 | FLAG_T)) | mode_bits(mode) | FLAG_I) & 0x1F == mode_bits(mode) & 0x1F);
    assert((((c & !(0x1Fu32 | FLAG_T)) | mode_bits(mode) | FLAG_I) | FLAG_F) & 0x1F == mode_bits(mode)
        & 0x1F);
    assert(mode_valid(e));
}

/// [`lemma_mode_stays_valid`] for every CPSR write at once.
pub proof fn lemma_mode_writes_valid()
    ensures
        forall|v: CpuView, value: u32|
            mode_valid(v.cpsr) ==> #[trigger] mode_valid(spec_set_cpsr(v, value).cpsr),
        forall|v: CpuView, flag: u32, on: bool|
            mode_valid(v.cpsr) && flag & 0x1F == 0 ==> #[trigger] mode_valid(
                spec_set_flag(v, flag, on).cpsr,
            ),
        forall|v: CpuView, vector: u32, mode: Mode, lr: u32|
            mode_valid(v.cpsr) ==> #[trigger] mode_valid(
                spec_exception_entry(v, vector, mode, lr).cpsr,
            ),
        FLAG_N & 0x1F == 0 && FLAG_Z & 0x1F == 0 && FLAG_C & 0x1F == 0 && FLAG_V & 0x1F == 0
            && FLAG_I & 0x1F == 0 && FLAG_F & 0x1F == 0 && FLAG_T & 0x1F == 0,
{
    assert forall|v: CpuView, value: u32| mode_valid(v.cpsr) implies #[trigger] mode_valid(
        spec_set_cpsr(v, value).cpsr,
    ) by {
        lemma_mode_stays_valid(v, value, 0, true, 0, Mode::User, 0);
    }
    assert forall|v: CpuView, flag: u32, on: bool|
        mode_valid(v.cpsr) && flag & 0x1F == 0 implies #[trigger] mode_valid(
        spec_set_flag(v, flag, on).cpsr,
    ) by {
        lemma_mode_stays_valid(v, 0, flag, on, 0, Mode::User, 0);
    }
    assert forall|v: CpuView, vector: u32, mode: Mode, lr: u32| mode_valid(v.cpsr) implies #[trigger] mode_valid(
        spec_exception_entry(v, vector, mode, lr).cpsr,
    ) by {
        lemma_mode_stays_valid(v, 0, 0, true, vector, mode, lr);
    }
    assert(0x8000_0000u32 & 0x1F == 0 && 0x4000_0000u32 & 0x1F == 0 && 0x2000_0000u32 & 0x1F == 0
        && 0x1000_0000u32 & 0x1F == 0 && 0x80u32 & 0x1F == 0 && 0x40u32 & 0x1F == 0 && 0x20u32
        & 0x1F == 0) by (bit_vector);
}

/// The return address a SWI saves in LR: the instruction after the SWI.
pub open spec fn swi_lr(v: CpuView) -> u32 {
    if thumb_state(v.cpsr) {
        ((v.regs[15] - 2) % 0x1_0000_0000) as u32
    } else {
        ((v.regs[15] - 4) % 0x1_0000_0000) as u32
    }
}

/// What SWI `number` does to the CPU: with a BIOS image present, entry into
/// its Supervisor-mode vector; without one, the emulated routine's register
/// effect. (Which of the two applies is the bus's choice.)
pub open spec fn swi_taken(v: CpuView, number: u8, w: CpuView) -> bool {
    ||| w == spec_branch(
        spec_exception_entry(v, VEC_SWI, Mode::Supervisor, swi_lr(v)),
        VEC_SWI,
        w.pipeline,
    )
    ||| crate::bios::swi_cpu_effect(v, number, w)
}

/// The LR an interrupt saves: the handler's `SUBS PC, LR, #4` resumes the
/// instruction that had not executed yet.
pub open spec fn spec_interrupt_lr(v: CpuView) -> u32 {
    if thumb_state(v.cpsr) {
        v.regs[15]
    } else {
        ((v.regs[15] - 4) % 0x1_0000_0000) as u32
    }
}

/// The instruction path of a step: the executing opcode leaves the pipeline
/// and `fetched`, read from the fetch address (taking the bus from `b0` to
/// `b1`), enters it; the instruction runs (in ARM state only if its
/// condition passes), giving `x` and taking the bus to `b2`; PC advances by
/// one instruction unless it branched; then the bus's `c` waitstate cycles
/// are taken and counted (bus `b3`), and a HALTCNT request `halt` taken
/// from the bus (bus `b4`) halts the CPU.
pub open spec fn step_executed<B: Bus>(
    v: CpuView,
    b0: B,
    b1: B,
    fetched: u32,
    x: CpuView,
    b2: B,
    c: u64,
    b3: B,
    halt: bool,
    w: CpuView,
    b4: B,
) -> bool {
    let pre = CpuView {
        pipeline: v.pipeline.update(0, v.pipeline[1]).update(1, fetched),
        branched: false,
        ..v
    };
    let op = v.pipeline[0];
    let width: int = if thumb_state(v.cpsr) { 2 } else { 4 };
    let y = if x.branched {
        x
    } else {
        spec_set_reg(x, 15, ((x.regs[15] + width) % 0x1_0000_0000) as u32)
    };
    let z = spec_add_cycles(y, c);
    &&& c < 0x1_0000_0000
    &&& if thumb_state(v.cpsr) {
        half_read(b0, v.regs[15] & !1u32, fetched, b1)
    } else {
        word_read(b0, v.regs[15] & !3u32, fetched, b1)
    }
    &&& if thumb_state(v.cpsr) {
        &&& fetched < 0x1_0000
        &&& thumb::thumb_executed(pre, (op as u16) as u32, x)
        &&& thumb::thumb_bus(pre, b1, (op as u16) as u32, x, b2)
    } else if cond_passed(v.cpsr, op >> 28) {
        arm::arm_executed(pre, op, x) && arm::arm_bus(pre, b1, op, x, b2)
    } else {
        x == pre && b2 == b1
    }
    &&& b2.cycles_taken(c as u32, b3)
    &&& b3.halt_taken(halt, b4)
    &&& w == (CpuView { halted: halt || z.halted, ..z })
}

/// What one [`Cpu::step`] does from CPU state `v` and bus `b0`, leaving
/// `w` and bus `b1`: with an unmasked interrupt pending on the bus's line it
/// takes the IRQ (waking from halt), refilling from the vector and counting
/// the bus's waitstate cycles; otherwise, halted, it idles one cycle and
/// leaves the bus alone; otherwise it fetches and executes the next
/// instruction.
pub open spec fn step_taken<B: Bus>(v: CpuView, b0: B, w: CpuView, b1: B) -> bool {
    if v.cpsr & FLAG_I == 0 && b0.interrupt_line() {
        exists|c: u64, mid: B|
            #![trigger refilled(b0, VEC_IRQ, thumb_state(w.cpsr), w.pipeline, mid), mid.cycles_taken(c as u32, b1)]
            c < 0x1_0000_0000 && refilled(b0, VEC_IRQ, thumb_state(w.cpsr), w.pipeline, mid)
                && mid.cycles_taken(c as u32, b1) && w == spec_add_cycles(
                spec_branch(
                    spec_exception_entry(
                        CpuView { halted: false, ..v },
                        VEC_IRQ,
                        Mode::Irq,
                        spec_interrupt_lr(v),
                    ),
                    VEC_IRQ,
                    w.pipeline,
                ),
                c,
            )
    } else if v.halted {
        w == spec_add_cycles(v, 1) && b1 == b0
    } else {
        exists|bf: B, fetched: u32, x: CpuView, bx: B, c: u64, bc: B, halt: bool|
            #[trigger] step_executed(v, b0, bf, fetched, x, bx, c, bc, halt, w, b1)
    }
}

/// A pipeline refill at `target`: the two instructions from the aligned
/// target on, read in order (halfwords in Thumb state, words in ARM state),
/// taking the bus from `b0` to `b1`.
pub open spec fn refilled<B: BusModel>(b0: B, target: u32, thumb: bool, pipe: Seq<u32>, b1: B) -> bool {
    &&& pipe.len() == 2
    &&& exists|mid: B|
        #![trigger half_read(b0, target & !1u32, pipe[0], mid)]
        #![trigger word_read(b0, target & !3u32, pipe[0], mid)]
        if thumb {
            half_read(b0, target & !1u32, pipe[0], mid) && half_read(
                mid,
                (((target & !1u32) + 2) % 0x1_0000_0000) as u32,
                pipe[1],
                b1,
            )
        } else {
            word_read(b0, target & !3u32, pipe[0], mid) && word_read(
                mid,
                (((target & !3u32) + 4) % 0x1_0000_0000) as u32,
                pipe[1],
                b1,
            )
        }
}

/// The address a branch refilled from, read back from the PC it left:
/// two instructions behind it (halfwords in Thumb state, words in ARM).
pub open spec fn refill_base(w: CpuView) -> u32 {
    if thumb_state(w.cpsr) {
        ((w.regs[15] - 4) % 0x1_0000_0000) as u32
    } else {
        ((w.regs[15] - 8) % 0x1_0000_0000) as u32
    }
}

/// The bus after a branch that left the CPU as `w`: the pipeline refilled
/// from where the new PC points back to.
pub open spec fn branch_refilled<B: BusModel>(b0: B, w: CpuView, b1: B) -> bool {
    refilled(b0, refill_base(w), thumb_state(w.cpsr), w.pipeline, b1)
}

/// SWI `number` against the bus: with a BIOS image present, entry into its
/// Supervisor-mode vector, refilled from the bus; without one, the emulated
/// routine's effect on the CPU and on memory (SoftReset's, which depend on
/// each other, together).
pub open spec fn swi_done<B: Bus>(v: CpuView, b0: B, number: u8, w: CpuView, b1: B) -> bool {
    if b0.bios_loaded() {
        &&& w == spec_branch(
            spec_exception_entry(v, VEC_SWI, Mode::Supervisor, swi_lr(v)),
            VEC_SWI,
            w.pipeline,
        )
        &&& refilled(b0, VEC_SWI, thumb_state(w.cpsr), w.pipeline, b1)
    } else {
        &&& crate::bios::swi_cpu_effect(v, number, w)
        &&& crate::bios::swi_bus_effect(b0, v.regs, number, b1)
        &&& number == 0 ==> crate::bios::soft_reset_done(v, b0, w, b1)
    }
}

/// Whether condition code `cond` passes under the flags of `cpsr`.
pub open spec fn cond_passed(cpsr: u32, cond: u32) -> bool {
    let n = cpsr & FLAG_N != 0;
    let z = cpsr & FLAG_Z != 0;
    let c = cpsr & FLAG_C != 0;
    let v = cpsr & FLAG_V != 0;
    let k = cond & 0xF;
    if k == 0x0 {
        z
    } else if k == 0x1 {
        !z
    } else if k == 0x2 {
        c
    } else if k == 0x3 {
        !c
    } else if k == 0x4 {
        n
    } else if k == 0x5 {
        !n
    } else if k == 0x6 {
        v
    } else if k == 0x7 {
        !v
    } else if k == 0x8 {
        c && !z
    } else if k == 0x9 {
        !c || z
    } else if k == 0xA {
        n == v
    } else if k == 0xB {
        n != v
    } else if k == 0xC {
        !z && n == v
    } else if k == 0xD {
        z || n != v
    } else {
        k == 0xE
    }
}

/// Condition codes: each odd code passes exactly when the even code before
/// it fails (NE/EQ, CC/CS, PL/MI, VC/VS, LS/HI, LT/GE, LE/GT); EQ tests Z,
/// CS tests C, MI tests N, VS tests V; HI is "carry and not zero"; GE is
/// "N equals V"; GT is GE without Z; AL always passes and the NV pattern
/// never does. Only the low four bits of the code count.
pub proof fn lemma_condition_codes(cpsr: u32, cond: u32)
    ensures
        cond < 14 && cond % 2 == 0 ==> cond_passed(cpsr, (cond + 1) as u32) == !cond_passed(cpsr, cond),
        cond_passed(cpsr, 0) == (cpsr & FLAG_Z != 0),
        cond_passed(cpsr, 2) == (cpsr & FLAG_C != 0),
        cond_passed(cpsr, 4) == (cpsr & FLAG_N != 0),
        cond_passed(cpsr, 6) == (cpsr & FLAG_V != 0),
        cond_passed(cpsr, 8) == (cpsr & FLAG_C != 0 && cpsr & FLAG_Z == 0),
        cond_passed(cpsr, 10) == ((cpsr & FLAG_N != 0) == (cpsr & FLAG_V != 0)),
        cond_passed(cpsr, 12) == (cond_passed(cpsr, 10) && cpsr & FLAG_Z == 0),
        cond_passed(cpsr, 14),
        !cond_passed(cpsr, 15),
        cond_passed(cpsr, cond) == cond_passed(cpsr, cond & 0xF),
{
    crate::bits::lemma_bit_identities();
    assert((cond & 0xF) & 0xF == cond & 0xF);
    assert(forall|k: u32| k < 16 ==> #[trigger] (k & 0xF) == k);
}

/// Shifter laws, for shift amounts 1 to 31: LSL clears the low bits it
/// shifts in and LSR undoes it up to the bits shifted out (and the other
/// way round); ASR equals LSR on a non-negative value and inverts LSR of
/// the inverse on a negative one; ROR by `a` is undone by ROR by `32 - a`
/// and moves the low bits to the top; every shift leaves in the carry the
/// last bit it shifted out.
pub proof fn lemma_shifter_laws(v: u32, a: u32, c: bool)
    requires
        1 <= a <= 31,
    ensures
        spec_lsl(v, a, c).0 & (((1u32 << a) - 1) as u32) == 0,
        spec_lsr(spec_lsl(v, a, c).0, a, c).0 == v & (0xFFFF_FFFFu32 >> a),
        spec_lsl(spec_lsr(v, a, c).0, a, c).0 == v & !(((1u32 << a) - 1) as u32),
        spec_lsr(v, a, c).0 <= 0xFFFF_FFFFu32 >> a,
        v >> 31u32 == 0 ==> spec_asr(v, a, c).0 == spec_lsr(v, a, c).0,
        v >> 31u32 == 1 ==> spec_asr(v, a, c).0 == !spec_lsr(!v, a, c).0,
        rotr(rotr(v, a), (32 - a) as u32) == v,
        rotr(v, a) >> ((32 - a) as u32) == v & (((1u32 << a) - 1) as u32),
        spec_lsl(v, a, c).1 == (v & (1u32 << ((32 - a) as u32)) != 0),
        spec_lsr(v, a, c).1 == (v & (1u32 << ((a - 1) as u32)) != 0),
        spec_asr(v, a, c).1 == spec_lsr(v, a, c).1,
        spec_lsl(v, 0, c) == (v, c) && spec_lsr(v, 0, c) == (v, c),
        spec_lsl(v, 32, c) == (0u32, v & 1 != 0),
        spec_lsr(v, 32, c) == (0u32, v >> 31u32 != 0),
{
    let ia = (32 - a) as u32;
    let ja = (a - 1) as u32;
    let mask = ((1u32 << a) - 1) as u32;
    let r = (v >> a) | (v << ia);
    assert({
        &&& (v << a) & mask == 0
        &&& (v << a) >> a == v & (0xFFFF_FFFFu32 >> a)
        &&& (v >> a) << a == v & !mask
        &&& (v >> a) <= 0xFFFF_FFFFu32 >> a
        &&& (v >> 31u32 == 1 ==> (v >> a) | !(0xFFFF_FFFFu32 >> a) == !((!v) >> a))
        &&& (r >> ia) | (r << a) == v
        &&& r >> ia == v & mask
        &&& (((v >> ia) & 1 != 0) == (v & (1u32 << ia) != 0))
        &&& (((v >> ja) & 1 != 0) == (v & (1u32 << ja) != 0))
        &&& (!v) >> 31u32 == 0 || v >> 31u32 == 0
    }) by (bit_vector)
        requires
            1 <= a <= 31,
            ia == 32 - a,
            ja == a - 1,
            mask == ((1u32 << a) - 1) as u32,
            r == (v >> a) | (v << ia),
    ;
    assert(a % 32 == a && ia % 32 == ia && (32 - ia) as u32 == a);
    assert(rotr(v, a) == r);
    assert(rotr(r, ia) == (r >> ia) | (r << a));
}

/// The value a register has as User mode sees it.
pub open spec fn spec_reg_user(v: CpuView, i: int) -> u32 {
    let m = mode_of(v.cpsr);
    if 8 <= i <= 12 && m == Mode::Fiq {
        v.bank_usr[i - 8]
    } else if (i == 13 || i == 14) && m != Mode::User && m != Mode::System {
        v.bank_usr[i - 8]
    } else {
        v.regs[i]
    }
}

/// Write a register as User mode sees it.
pub open spec fn spec_set_reg_user(v: CpuView, i: int, value: u32) -> CpuView {
    let m = mode_of(v.cpsr);
    if (8 <= i <= 12 && m == Mode::Fiq) || ((i == 13 || i == 14) && m != Mode::User && m
        != Mode::System) {
        CpuView { bank_usr: v.bank_usr.update(i - 8, value), ..v }
    } else {
        spec_set_reg(v, i, value)
    }
}

/// Cycle counter advanced by `n` (wrapping at 2^64).
pub open spec fn spec_add_cycles(v: CpuView, n: u64) -> CpuView {
    CpuView { cycles: ((v.cycles + n) % 0x1_0000_0000_0000_0000) as u64, ..v }
}

/// The power-on register state.
pub open spec fn cpu_initial() -> CpuView {
    CpuView {
        regs: Seq::new(16, |i: int| 0u32),
        cpsr: 0xD3,
        spsr: Seq::new(5, |i: int| 0u32),
        bank_usr: Seq::new(7, |i: int| 0u32),
        bank_fiq: Seq::new(7, |i: int| 0u32),
        bank_irq: Seq::new(2, |i: int| 0u32),
        bank_svc: Seq::new(2, |i: int| 0u32),
        bank_abt: Seq::new(2, |i: int| 0u32),
        bank_und: Seq::new(2, |i: int| 0u32),
        pipeline: Seq::new(2, |i: int| 0u32),
        branched: false,
        halted: false,
        cycles: 0,
    }
}

impl Cpu {
    /// Create a CPU in the post-reset state. The pipeline is empty; call
    /// [`Cpu::reset`], [`Cpu::skip_bios`] or [`Cpu::jump`] with a bus before
    /// stepping.
    pub fn new() -> (r: Cpu)
        ensures
            mode_valid(r@.cpsr),
            r@ == cpu_initial(),
    {
        proof {
            lemma_mode_stays_valid(cpu_initial(), 0, 0, true, 0, Mode::User, 0);
        }
        let r = Cpu {
            regs: [0u32; 16],
            cpsr: 0x13 | FLAG_I | FLAG_F,
            spsr: [0u32; 5],
            bank_usr: [0u32; 7],
            bank_fiq: [0u32; 7],
            bank_irq: [0u32; 2],
            bank_svc: [0u32; 2],
            bank_abt: [0u32; 2],
            bank_und: [0u32; 2],
            pipeline: [0u32; 2],
            branched: false,
            halted: false,
            cycles: 0,
        };
        assert(0x13u32 | 0x80 | 0x40 == 0xD3) by {
            crate::bits::lemma_bit_facts();
        }
        proof {
            let c = cpu_initial();
            assert(r.regs@ =~= c.regs);
            assert(r.spsr@ =~= c.spsr);
            assert(r.bank_usr@ =~= c.bank_usr);
            assert(r.bank_fiq@ =~= c.bank_fiq);
            assert(r.bank_irq@ =~= c.bank_irq);
            assert(r.bank_svc@ =~= c.bank_svc);
            assert(r.bank_abt@ =~= c.bank_abt);
            assert(r.bank_und@ =~= c.bank_und);
            assert(r.pipeline@ =~= c.pipeline);
        }
        r
    }

    /// The register sequences always have their hardware lengths.
    pub proof fn lemma_shape(&self)
        ensures
            cpu_shape(self@),
    {
    }

    /// Hardware reset: Supervisor mode, IRQ/FIQ disabled, ARM state, PC at the
    /// reset vector.
    pub fn reset<B: Bus>(&mut self, bus: &mut B)
        requires
            old(bus).bus_inv(),
        ensures
            mode_valid(old(self)@.cpsr) ==> mode_valid(final(self)@.cpsr),
            final(bus).bus_inv(),
            final(self)@ == spec_branch(
                spec_set_cpsr(old(self)@, 0xD3),
                VEC_RESET,
                final(self)@.pipeline,
            ),
            final(self)@.pipeline.len() == 2,
            refilled(*old(bus), VEC_RESET, thumb_state(final(self)@.cpsr), final(self)@.pipeline, *final(bus)),
    {
        proof {
            lemma_mode_writes_valid();
        }
        assert(0x13u32 | 0x80 | 0x40 == 0xD3) by {
            crate::bits::lemma_bit_facts();
        }
        self.set_cpsr(0x13 | FLAG_I | FLAG_F);
        self.branch_to(bus, VEC_RESET);
    }

    /// Enter the state the BIOS leaves the CPU in when it jumps to a
    /// cartridge: System mode, IRQs enabled, stacks set up, PC at ROM start.
    /// Lets ROMs run without a real BIOS image.
    pub fn skip_bios<B: Bus>(&mut self, bus: &mut B)
        requires
            old(bus).bus_inv(),
        ensures
            mode_valid(old(self)@.cpsr) ==> mode_valid(final(self)@.cpsr),
            final(bus).bus_inv(),
            ({
                let s = spec_set_cpsr(old(self)@, 0x1F);
                let t = CpuView {
                    regs: s.regs.update(13, 0x0300_7F00).update(14, 0x0800_0000),
                    bank_irq: seq![0x0300_7FA0u32, 0],
                    bank_svc: seq![0x0300_7FE0u32, 0],
                    ..s
                };
                final(self)@ == spec_branch(t, 0x0800_0000, final(self)@.pipeline)
            }),
            final(self)@.pipeline.len() == 2,
            refilled(
                *old(bus),
                0x0800_0000,
                thumb_state(final(self)@.cpsr),
                final(self)@.pipeline,
                *final(bus),
            ),
    {
        proof {
            lemma_mode_writes_valid();
        }
        self.set_cpsr(0x1F);
        self.regs[13] = 0x0300_7F00;
        self.regs[14] = 0x0800_0000;
        self.bank_irq = [0x0300_7FA0, 0];
        self.bank_svc = [0x0300_7FE0, 0];
        proof {
            assert(self.bank_irq@ =~= seq![0x0300_7FA0u32, 0]);
            assert(self.bank_svc@ =~= seq![0x0300_7FE0u32, 0]);
        }
        self.branch_to(bus, 0x0800_0000);
    }

    /// Execute one instruction (or service an interrupt, or idle while
    /// halted); returns the cycles it took. Memory-access cycles come from the
    /// bus's waitstate model; internal (I-)cycles are added by the instruction
    /// handlers.
    #[verifier::spinoff_prover]
    #[verifier::rlimit(50)]
    pub fn step<B: Bus>(&mut self, bus: &mut B) -> (r: u64)
        requires
            old(bus).bus_inv(),
        ensures
            final(bus).bus_inv(),
            r as int == (final(self)@.cycles - old(self)@.cycles) % 0x1_0000_0000_0000_0000,
            // Halted with no unmasked interrupt pending: nothing runs but one
            // idle cycle.
            old(self)@.halted && !(old(self)@.cpsr & FLAG_I == 0 && old(bus).interrupt_line())
                ==> final(self)@ == spec_add_cycles(old(self)@, 1) && r == 1,
            step_taken(old(self)@, *old(bus), final(self)@, *final(bus)),
            // Whatever runs, the CPSR's mode bits stay valid.
            mode_valid(old(self)@.cpsr) ==> mode_valid(final(self)@.cpsr),
    {
        proof {
            lemma_mode_writes_valid();
        }
        let start = self.cycles;
        let ghost v = self@;
        let ghost b0 = *bus;

        // An unmasked pending interrupt is serviced before the next fetch, and
        // wakes the CPU from halt.
        if self.cpsr & FLAG_I == 0 && bus.irq_pending() {
            self.halted = false;
            self.irq(bus);
            let ghost mid = *bus;
            let c = bus.take_access_cycles();
            self.add_cycles(c as u64);
            assert((c as u64) as u32 == c);
            assert(refilled(b0, VEC_IRQ, thumb_state(self@.cpsr), self@.pipeline, mid)
                && mid.cycles_taken((c as u64) as u32, *bus));
            assert(self@ == spec_add_cycles(
                spec_branch(
                    spec_exception_entry(
                        CpuView { halted: false, ..v },
                        VEC_IRQ,
                        Mode::Irq,
                        spec_interrupt_lr(v),
                    ),
                    VEC_IRQ,
                    self@.pipeline,
                ),
                c as u64,
            ));
            return self.cycles.wrapping_sub(start);
        }
        // Halted: nothing runs until an interrupt arrives. Account one cycle of
        // idle time so callers scheduling against `cycles()` still advance.
        if self.halted {
            self.add_cycles(1);
            return self.cycles.wrapping_sub(start);
        }
        self.branched = false;
        let ghost mut fetched_g: u32 = 0;
        let ghost mut x: CpuView = self@;
        let ghost mut b1: B = *bus;
        let ghost mut b2: B = *bus;
        if self.is_thumb() {
            let op = self.pipeline[0] as u16;
            self.pipeline[0] = self.pipeline[1];
            let fetched = bus.read16(self.regs[15] & !1u32);
            self.pipeline[1] = fetched as u32;
            proof {
                fetched_g = fetched as u32;
                b1 = *bus;
            }
            thumb::execute(self, bus, op);
            proof {
                x = self@;
                b2 = *bus;
            }
            if !self.branched {
                self.regs[15] = self.regs[15].wrapping_add(2);
            }
        } else {
            let op = self.pipeline[0];
            self.pipeline[0] = self.pipeline[1];
            let fetched = bus.read32(self.regs[15] & !3u32);
            self.pipeline[1] = fetched;
            proof {
                fetched_g = fetched;
                b1 = *bus;
            }
            if self.check_cond(op >> 28) {
                arm::execute(self, bus, op);
            }
            proof {
                x = self@;
                b2 = *bus;
            }
            if !self.branched {
                self.regs[15] = self.regs[15].wrapping_add(4);
            }
        }
        // Drain the waitstate cycles from this instruction's fetch, pipeline
        // refill and data accesses.
        let c = bus.take_access_cycles();
        let ghost b3 = *bus;
        self.add_cycles(c as u64);
        // A HALTCNT write during this instruction (LLE path) halts the CPU.
        let halt = bus.take_halt_request();
        if halt {
            self.halted = true;
        }
        assert((c as u64) as u32 == c);
        assert(step_executed(v, b0, b1, fetched_g, x, b2, c as u64, b3, halt, self@, *bus));
        self.cycles.wrapping_sub(start)
    }

    /// Whether the CPU is currently halted (waiting for an interrupt).
    pub fn is_halted(&self) -> (r: bool)
        ensures
            r == self@.halted,
    {
        self.halted
    }

    /// Request halt (used by the HLE Halt/IntrWait SWIs).
    pub fn request_halt(&mut self)
        ensures
            mode_valid(old(self)@.cpsr) ==> mode_valid(final(self)@.cpsr),
            final(self)@ == (CpuView { halted: true, ..old(self)@ }),
    {
        proof {
            lemma_mode_writes_valid();
        }
        self.halted = true;
    }

    /// Dispatch a `SWI`: run the real BIOS (LLE) if one is loaded, otherwise
    /// emulate the routine in software (HLE).
    pub fn do_swi<B: Bus>(&mut self, bus: &mut B, number: u8)
        requires
            old(bus).bus_inv(),
        ensures
            mode_valid(old(self)@.cpsr) ==> mode_valid(final(self)@.cpsr),
            final(bus).bus_inv(),
            swi_taken(old(self)@, number, final(self)@),
            // With a BIOS image: the Supervisor-mode SWI vector, refilled
            // from the bus.
            old(bus).bios_loaded() ==> final(self)@ == spec_branch(
                spec_exception_entry(old(self)@, VEC_SWI, Mode::Supervisor, swi_lr(old(self)@)),
                VEC_SWI,
                final(self)@.pipeline,
            ) && refilled(
                *old(bus),
                VEC_SWI,
                thumb_state(final(self)@.cpsr),
                final(self)@.pipeline,
                *final(bus),
            ),
            // Without one: the emulated routine.
            !old(bus).bios_loaded() ==> crate::bios::swi_cpu_effect(
                old(self)@,
                number,
                final(self)@,
            ) && crate::bios::swi_bus_effect(*old(bus), old(self)@.regs, number, *final(bus)),
            swi_done(old(self)@, *old(bus), number, final(self)@, *final(bus)),
    {
        proof {
            lemma_mode_writes_valid();
        }
        if bus.has_bios() {
            let lr = if self.is_thumb() {
                self.regs[15].wrapping_sub(2)
            } else {
                self.regs[15].wrapping_sub(4)
            };
            self.enter_exception(bus, VEC_SWI, Mode::Supervisor, lr);
        } else {
            crate::bios::hle_swi(self, bus, number);
        }
    }

    /// Reset into System mode / ARM state and branch to `target` (used by the
    /// HLE SoftReset SWI).
    pub fn reset_to<B: Bus>(&mut self, bus: &mut B, target: u32)
        requires
            old(bus).bus_inv(),
        ensures
            mode_valid(old(self)@.cpsr) ==> mode_valid(final(self)@.cpsr),
            final(bus).bus_inv(),
            final(self)@ == spec_branch(
                spec_set_cpsr(CpuView { halted: false, ..old(self)@ }, 0x1F),
                target,
                final(self)@.pipeline,
            ),
            final(self)@.pipeline.len() == 2,
            refilled(*old(bus), target, thumb_state(final(self)@.cpsr), final(self)@.pipeline, *final(bus)),
    {
        proof {
            lemma_mode_writes_valid();
        }
        self.halted = false;
        self.set_cpsr(0x1F);
        self.branch_to(bus, target);
    }

    /// Return address an interrupt saves in LR: the handler's
    /// `SUBS PC, LR, #4` resumes the not-yet-executed instruction.
    fn interrupt_lr(&self) -> (r: u32)
        ensures
            r == if thumb_state(self@.cpsr) {
                self@.regs[15]
            } else {
                ((self@.regs[15] - 4) % 0x1_0000_0000) as u32
            },
    {
        if self.is_thumb() {
            self.regs[15]
        } else {
            self.regs[15].wrapping_sub(4)
        }
    }

    /// Signal a normal interrupt. Taken unless the I flag masks it.
    pub fn irq<B: Bus>(&mut self, bus: &mut B)
        requires
            old(bus).bus_inv(),
        ensures
            mode_valid(old(self)@.cpsr) ==> mode_valid(final(self)@.cpsr),
            final(bus).bus_inv(),
            old(self)@.cpsr & FLAG_I != 0 ==> final(self)@ == old(self)@ && *final(bus) == *old(bus),
            old(self)@.cpsr & FLAG_I == 0 ==> refilled(
                *old(bus),
                VEC_IRQ,
                thumb_state(final(self)@.cpsr),
                final(self)@.pipeline,
                *final(bus),
            ),
            old(self)@.cpsr & FLAG_I == 0 ==> final(self)@ == spec_branch(
                spec_exception_entry(
                    old(self)@,
                    VEC_IRQ,
                    Mode::Irq,
                    if thumb_state(old(self)@.cpsr) {
                        old(self)@.regs[15]
                    } else {
                        ((old(self)@.regs[15] - 4) % 0x1_0000_0000) as u32
                    },
                ),
                VEC_IRQ,
                final(self)@.pipeline,
            ),
            final(self)@.pipeline.len() == 2,
    {
        proof {
            lemma_mode_writes_valid();
        }
        if self.cpsr & FLAG_I != 0 {
            return;
        }
        let lr = self.interrupt_lr();
        self.enter_exception(bus, VEC_IRQ, Mode::Irq, lr);
    }

    /// Signal a fast interrupt. Taken unless the F flag masks it.
    pub fn fiq<B: Bus>(&mut self, bus: &mut B)
        requires
            old(bus).bus_inv(),
        ensures
            mode_valid(old(self)@.cpsr) ==> mode_valid(final(self)@.cpsr),
            final(bus).bus_inv(),
            old(self)@.cpsr & FLAG_F != 0 ==> final(self)@ == old(self)@ && *final(bus) == *old(bus),
            old(self)@.cpsr & FLAG_F == 0 ==> refilled(
                *old(bus),
                VEC_FIQ,
                thumb_state(final(self)@.cpsr),
                final(self)@.pipeline,
                *final(bus),
            ),
            old(self)@.cpsr & FLAG_F == 0 ==> final(self)@ == spec_branch(
                spec_exception_entry(
                    old(self)@,
                    VEC_FIQ,
                    Mode::Fiq,
                    if thumb_state(old(self)@.cpsr) {
                        old(self)@.regs[15]
                    } else {
                        ((old(self)@.regs[15] - 4) % 0x1_0000_0000) as u32
                    },
                ),
                VEC_FIQ,
                final(self)@.pipeline,
            ),
            final(self)@.pipeline.len() == 2,
    {
        proof {
            lemma_mode_writes_valid();
        }
        if self.cpsr & FLAG_F != 0 {
            return;
        }
        let lr = self.interrupt_lr();
        self.enter_exception(bus, VEC_FIQ, Mode::Fiq, lr);
    }

    /// General-purpose register read (current mode's view). `reg(15)` returns
    /// the raw pipeline-relative value; use [`Cpu::pc`] for the address of the
    /// next instruction to execute.
    pub fn reg(&self, index: usize) -> (r: u32)
        ensures
            r == self@.regs[(index & 0xF) as int],
            index < 16 ==> r == self@.regs[index as int],
    {
        assert(index & 0xF < 16) by {
            crate::bits::lemma_bit_facts();
        }
        assert(index < 16 ==> index & 0xF == index) by {
            crate::bits::lemma_bit_facts();
        }
        self.regs[index & 0xF]
    }

    pub fn set_reg(&mut self, index: usize, value: u32)
        ensures
            mode_valid(old(self)@.cpsr) ==> mode_valid(final(self)@.cpsr),
            final(self)@ == spec_set_reg(old(self)@, (index & 0xF) as int, value),
            index < 16 ==> final(self)@ == spec_set_reg(old(self)@, index as int, value),
    {
        proof {
            lemma_mode_writes_valid();
        }
        assert(index & 0xF < 16) by {
            crate::bits::lemma_bit_facts();
        }
        assert(index < 16 ==> index & 0xF == index) by {
            crate::bits::lemma_bit_facts();
        }
        self.regs[index & 0xF] = value;
    }

    /// Address of the next instruction that will execute.
    pub fn pc(&self) -> (r: u32)
        ensures
            r == ((self@.regs[15] - if thumb_state(self@.cpsr) { 4int } else { 8int })
                % 0x1_0000_0000) as u32,
    {
        self.regs[15].wrapping_sub(if self.is_thumb() { 4 } else { 8 })
    }

    /// Branch to `target` and refill the pipeline (respects the current
    /// ARM/Thumb state).
    pub fn jump<B: Bus>(&mut self, bus: &mut B, target: u32)
        requires
            old(bus).bus_inv(),
        ensures
            mode_valid(old(self)@.cpsr) ==> mode_valid(final(self)@.cpsr),
            final(bus).bus_inv(),
            final(self)@ == spec_branch(old(self)@, target, final(self)@.pipeline),
            final(self)@.pipeline.len() == 2,
            refilled(
                *old(bus),
                target,
                thumb_state(old(self)@.cpsr),
                final(self)@.pipeline,
                *final(bus),
            ),
    {
        proof {
            lemma_mode_writes_valid();
        }
        self.branch_to(bus, target);
    }

    pub fn cpsr(&self) -> (r: u32)
        ensures
            r == self@.cpsr,
    {
        self.cpsr
    }

    /// Full CPSR write, including mode changes (registers are re-banked) and
    /// the T bit. Instruction-level restrictions (e.g. MSR ignoring T, User
    /// mode only touching flags) are enforced by the instruction handlers.
    pub fn set_cpsr(&mut self, value: u32)
        ensures
            mode_valid(old(self)@.cpsr) ==> mode_valid(final(self)@.cpsr),
            final(self)@ == spec_set_cpsr(old(self)@, value),
    {
        proof {
            lemma_mode_writes_valid();
        }
        let old_mode = self.mode();
        match Mode::from_bits(value) {
            Some(new_mode) => {
                self.switch_bank(old_mode, new_mode);
                self.cpsr = value;
            },
            // An invalid mode pattern is architecturally unpredictable; keep
            // the old mode bits rather than corrupting bank state.
            None => {
                self.cpsr = (value & !MODE_MASK) | (self.cpsr & MODE_MASK);
            },
        }
        proof {
            assert(self@ == spec_set_cpsr(old(self)@, value));
            lemma_mode_stays_valid(old(self)@, value, 0, true, 0, Mode::User, 0);
        }
    }

    /// Current mode's SPSR. In User/System (which have none) this returns the
    /// CPSR, mirroring the common ARM7 reading of the unpredictable case.
    pub fn spsr(&self) -> (r: u32)
        ensures
            r == spec_spsr(self@),
    {
        match self.mode().spsr_index() {
            Some(i) => self.spsr[i],
            None => self.cpsr,
        }
    }

    pub fn set_spsr(&mut self, value: u32)
        ensures
            mode_valid(old(self)@.cpsr) ==> mode_valid(final(self)@.cpsr),
            final(self)@ == spec_set_spsr(old(self)@, value),
    {
        proof {
            lemma_mode_writes_valid();
        }
        match self.mode().spsr_index() {
            Some(i) => {
                self.spsr[i] = value;
            },
            None => {},
        }
    }

    pub fn mode(&self) -> (r: Mode)
        ensures
            r == mode_of(self@.cpsr),
    {
        match Mode::from_bits(self.cpsr) {
            Some(m) => m,
            None => Mode::System,
        }
    }

    pub fn is_thumb(&self) -> (r: bool)
        ensures
            r == thumb_state(self@.cpsr),
    {
        self.cpsr & FLAG_T != 0
    }

    pub fn flag_n(&self) -> (r: bool)
        ensures
            r == (self@.cpsr & FLAG_N != 0),
    {
        self.cpsr & FLAG_N != 0
    }

    pub fn flag_z(&self) -> (r: bool)
        ensures
            r == (self@.cpsr & FLAG_Z != 0),
    {
        self.cpsr & FLAG_Z != 0
    }

    pub fn flag_c(&self) -> (r: bool)
        ensures
            r == (self@.cpsr & FLAG_C != 0),
    {
        self.cpsr & FLAG_C != 0
    }

    pub fn flag_v(&self) -> (r: bool)
        ensures
            r == (self@.cpsr & FLAG_V != 0),
    {
        self.cpsr & FLAG_V != 0
    }

    /// Total cycles executed since power-on.
    pub fn cycles(&self) -> (r: u64)
        ensures
            r == self@.cycles,
    {
        self.cycles
    }

    // ---- internals shared by arm.rs / thumb.rs ----

    pub(crate) fn set_flag(&mut self, flag: u32, on: bool)
        ensures
            final(self)@ == spec_set_flag(old(self)@, flag, on),
    {
        if on {
            self.cpsr = self.cpsr | flag;
        } else {
            self.cpsr = self.cpsr & !flag;
        }
    }

    pub fn set_nz(&mut self, value: u32)
        ensures
            mode_valid(old(self)@.cpsr) ==> mode_valid(final(self)@.cpsr),
            final(self)@ == spec_set_nz(old(self)@, value),
    {
        proof {
            lemma_mode_writes_valid();
        }
        self.set_flag(FLAG_N, value & 0x8000_0000 != 0);
        self.set_flag(FLAG_Z, value == 0);
    }

    pub fn add_cycles(&mut self, n: u64)
        ensures
            mode_valid(old(self)@.cpsr) ==> mode_valid(final(self)@.cpsr),
            final(self)@ == spec_add_cycles(old(self)@, n),
    {
        proof {
            lemma_mode_writes_valid();
        }
        self.cycles = self.cycles.wrapping_add(n);
    }

    pub fn check_cond(&self, cond: u32) -> (r: bool)
        ensures
            r == cond_passed(self@.cpsr, cond),
    {
        let n = self.flag_n();
        let z = self.flag_z();
        let c = self.flag_c();
        let v = self.flag_v();
        let k = cond & 0xF;
        if k == 0x0 {
            z
        } else if k == 0x1 {
            !z
        } else if k == 0x2 {
            c
        } else if k == 0x3 {
            !c
        } else if k == 0x4 {
            n
        } else if k == 0x5 {
            !n
        } else if k == 0x6 {
            v
        } else if k == 0x7 {
            !v
        } else if k == 0x8 {
            c && !z
        } else if k == 0x9 {
            !c || z
        } else if k == 0xA {
            n == v
        } else if k == 0xB {
            n != v
        } else if k == 0xC {
            !z && n == v
        } else if k == 0xD {
            z || n != v
        } else {
            // 0xF is reserved on ARMv4; treat as never-execute.
            k == 0xE
        }
    }

    /// Write PC and refill the pipeline according to the current T bit.
    pub fn branch_to<B: Bus>(&mut self, bus: &mut B, target: u32)
        requires
            old(bus).bus_inv(),
        ensures
            mode_valid(old(self)@.cpsr) ==> mode_valid(final(self)@.cpsr),
            final(bus).bus_inv(),
            final(self)@ == spec_branch(old(self)@, target, final(self)@.pipeline),
            final(self)@.pipeline.len() == 2,
            refilled(
                *old(bus),
                target,
                thumb_state(old(self)@.cpsr),
                final(self)@.pipeline,
                *final(bus),
            ),
            branch_refilled(*old(bus), final(self)@, *final(bus)),
    {
        proof {
            lemma_mode_writes_valid();
        }
        let ghost b0 = *bus;
        proof {
            crate::bits::lemma_alignment();
        }
        if self.is_thumb() {
            let t = target & !1u32;
            let a = bus.read16(t);
            let ghost mid = *bus;
            let b = bus.read16(t.wrapping_add(2));
            self.pipeline = [a as u32, b as u32];
            self.regs[15] = t.wrapping_add(4);
            assert(half_read(b0, target & !1u32, self.pipeline@[0], mid));
            assert(half_read(mid, (((target & !1u32) + 2) % 0x1_0000_0000) as u32, self.pipeline@[1], *bus));
            assert((((t as int + 4) % 0x1_0000_0000 - 4) % 0x1_0000_0000) == t as int);
            assert(t & !1u32 == target & !1u32);
        } else {
            let t = target & !3u32;
            let a = bus.read32(t);
            let ghost mid = *bus;
            let b = bus.read32(t.wrapping_add(4));
            self.pipeline = [a, b];
            self.regs[15] = t.wrapping_add(8);
            assert(word_read(b0, target & !3u32, self.pipeline@[0], mid));
            assert(word_read(mid, (((target & !3u32) + 4) % 0x1_0000_0000) as u32, self.pipeline@[1], *bus));
            assert((((t as int + 8) % 0x1_0000_0000 - 8) % 0x1_0000_0000) == t as int);
            assert(t & !3u32 == target & !3u32);
        }
        self.branched = true;
    }

    /// Enter an exception: bank-switch, save CPSR into the new mode's SPSR,
    /// set LR, mask IRQs (and FIQs where applicable), force ARM state, and
    /// jump to the vector.
    pub fn enter_exception<B: Bus>(&mut self, bus: &mut B, vector: u32, mode: Mode, lr: u32)
        requires
            old(bus).bus_inv(),
        ensures
            mode_valid(old(self)@.cpsr) ==> mode_valid(final(self)@.cpsr),
            final(bus).bus_inv(),
            final(self)@ == spec_branch(
                spec_exception_entry(old(self)@, vector, mode, lr),
                vector,
                final(self)@.pipeline,
            ),
            final(self)@.pipeline.len() == 2,
            refilled(*old(bus), vector, thumb_state(final(self)@.cpsr), final(self)@.pipeline, *final(bus)),
            branch_refilled(*old(bus), final(self)@, *final(bus)),
    {
        proof {
            lemma_mode_writes_valid();
        }
        let old_cpsr = self.cpsr;
        let mut new_cpsr = (old_cpsr & !(MODE_MASK | FLAG_T)) | mode.bits() | FLAG_I;
        let is_fiq = match mode {
            Mode::Fiq => true,
            _ => false,
        };
        if is_fiq || vector == VEC_RESET {
            new_cpsr = new_cpsr | FLAG_F;
        }
        self.set_cpsr(new_cpsr);
        self.set_spsr(old_cpsr);
        self.regs[14] = lr;
        self.branch_to(bus, vector);
    }

    /// Read a register as User mode sees it (for LDM/STM with the S bit).
    pub fn reg_user(&self, index: usize) -> (r: u32)
        requires
            index < 16,
        ensures
            r == spec_reg_user(self@, index as int),
    {
        let m = self.mode();
        let fiq = match m {
            Mode::Fiq => true,
            _ => false,
        };
        let user_like = match m {
            Mode::User | Mode::System => true,
            _ => false,
        };
        if 8 <= index && index <= 12 && fiq {
            self.bank_usr[index - 8]
        } else if (index == 13 || index == 14) && !user_like {
            self.bank_usr[index - 8]
        } else {
            self.regs[index]
        }
    }

    pub fn set_reg_user(&mut self, index: usize, value: u32)
        requires
            index < 16,
        ensures
            mode_valid(old(self)@.cpsr) ==> mode_valid(final(self)@.cpsr),
            final(self)@ == spec_set_reg_user(old(self)@, index as int, value),
    {
        proof {
            lemma_mode_writes_valid();
        }
        let m = self.mode();
        let fiq = match m {
            Mode::Fiq => true,
            _ => false,
        };
        let user_like = match m {
            Mode::User | Mode::System => true,
            _ => false,
        };
        if (8 <= index && index <= 12 && fiq) || ((index == 13 || index == 14) && !user_like) {
            self.bank_usr[index - 8] = value;
        } else {
            self.regs[index] = value;
        }
    }

    /// Swap the active r8–r14 view when changing modes. User and System share
    /// a bank; FIQ banks r8–r14, every other exception mode banks r13–r14.
    /// Store the live r8–r14 of `from` into its bank(s).
    fn save_bank(&mut self, from: Mode)
        ensures
            final(self)@ == save_bank(old(self)@, from),
    {
        let ghost v0 = self@;
        match from {
            Mode::Fiq => {
                self.bank_fiq = [
                    self.regs[8],
                    self.regs[9],
                    self.regs[10],
                    self.regs[11],
                    self.regs[12],
                    self.regs[13],
                    self.regs[14],
                ];
                proof {
                    assert(self@.bank_fiq =~= save_bank(v0, from).bank_fiq);
                }
            },
            _ => {
                self.bank_usr[0] = self.regs[8];
                self.bank_usr[1] = self.regs[9];
                self.bank_usr[2] = self.regs[10];
                self.bank_usr[3] = self.regs[11];
                self.bank_usr[4] = self.regs[12];
                let sp = self.regs[13];
                let lr = self.regs[14];
                match from {
                    Mode::Irq => {
                        self.bank_irq = [sp, lr];
                        proof {
                            assert(self@.bank_irq =~= save_bank(v0, from).bank_irq);
                        }
                    },
                    Mode::Supervisor => {
                        self.bank_svc = [sp, lr];
                        proof {
                            assert(self@.bank_svc =~= save_bank(v0, from).bank_svc);
                        }
                    },
                    Mode::Abort => {
                        self.bank_abt = [sp, lr];
                        proof {
                            assert(self@.bank_abt =~= save_bank(v0, from).bank_abt);
                        }
                    },
                    Mode::Undefined => {
                        self.bank_und = [sp, lr];
                        proof {
                            assert(self@.bank_und =~= save_bank(v0, from).bank_und);
                        }
                    },
                    _ => {
                        self.bank_usr[5] = sp;
                        self.bank_usr[6] = lr;
                    },
                }
                proof {
                    assert(self@.bank_usr =~= save_bank(v0, from).bank_usr);
                }
            },
        }
    }

    /// Make the banked r8–r14 of `to` live.
    fn load_bank(&mut self, to: Mode)
        ensures
            final(self)@ == load_bank(old(self)@, to),
    {
        let ghost v0 = self@;
        match to {
            Mode::Fiq => {
                self.regs[8] = self.bank_fiq[0];
                self.regs[9] = self.bank_fiq[1];
                self.regs[10] = self.bank_fiq[2];
                self.regs[11] = self.bank_fiq[3];
                self.regs[12] = self.bank_fiq[4];
                self.regs[13] = self.bank_fiq[5];
                self.regs[14] = self.bank_fiq[6];
            },
            _ => {
                self.regs[8] = self.bank_usr[0];
                self.regs[9] = self.bank_usr[1];
                self.regs[10] = self.bank_usr[2];
                self.regs[11] = self.bank_usr[3];
                self.regs[12] = self.bank_usr[4];
                let sp_lr: [u32; 2] = match to {
                    Mode::Irq => self.bank_irq,
                    Mode::Supervisor => self.bank_svc,
                    Mode::Abort => self.bank_abt,
                    Mode::Undefined => self.bank_und,
                    _ => [self.bank_usr[5], self.bank_usr[6]],
                };
                proof {
                    assert(sp_lr@ =~= sp_lr_bank(v0, to));
                }
                self.regs[13] = sp_lr[0];
                self.regs[14] = sp_lr[1];
            },
        }
        proof {
            assert(self@.regs =~= load_bank(v0, to).regs);
        }
    }

    /// Swap the active r8–r14 view when changing modes. User and System share
    /// a bank; FIQ banks r8–r14, every other exception mode banks r13–r14.
    fn switch_bank(&mut self, from: Mode, to: Mode)
        ensures
            final(self)@ == bank_switch(old(self)@, from, to),
    {
        if from == to {
            return;
        }
        self.save_bank(from);
        self.load_bank(to);
    }
}

impl Default for Cpu {
    fn default() -> (r: Cpu)
        ensures
            r@ == cpu_initial(),
    {
        Cpu::new()
    }
}

// ---- laws of the register-banking model ----

/// Switching to another mode and back gives every register its old value:
/// each mode's banked registers survive the other mode's use of theirs.
pub proof fn lemma_bank_switch_roundtrip(v: CpuView, a: Mode, b: Mode)
    requires
        cpu_shape(v),
    ensures
        bank_switch(bank_switch(v, a, b), b, a).regs == v.regs,
{
    if a != b {
        let w = bank_switch(v, a, b);
        let u = bank_switch(w, b, a);
        assert(u.regs =~= v.regs);
    }
}

/// A CPSR write whose mode field is no valid mode keeps the current mode and
/// leaves the register file and banks as they were.
pub proof fn lemma_invalid_mode_write_keeps_mode(v: CpuView, value: u32)
    requires
        mode_from_bits(value) is None,
    ensures
        mode_of(spec_set_cpsr(v, value).cpsr) == mode_of(v.cpsr),
        spec_set_cpsr(v, value) == (CpuView { cpsr: spec_set_cpsr(v, value).cpsr, ..v }),
{
    let c = v.cpsr;
    assert((((value & !0x1Fu32) | (c & 0x1F)) & 0x1F) == c & 0x1F) by (bit_vector);
}

/// A mode change never touches r0–r7 or r15 (only r8–r14 are banked).
pub proof fn lemma_bank_switch_keeps_unbanked(v: CpuView, a: Mode, b: Mode, i: int)
    requires
        cpu_shape(v),
        0 <= i < 8 || i == 15,
    ensures
        bank_switch(v, a, b).regs[i] == v.regs[i],
        bank_switch(v, a, b).regs.len() == 16,
{
}

/// Returning from an exception (restoring CPSR from the SPSR the entry
/// saved, as `MOVS PC, LR` / `SUBS PC, LR, #4` do) gives back the
/// interrupted mode's CPSR and its r0–r14, provided the interrupted mode was
/// a valid mode other than the exception mode.
pub proof fn lemma_exception_return_restores(v: CpuView, vector: u32, mode: Mode, lr: u32)
    requires
        cpu_shape(v),
        mode_from_bits(v.cpsr) is Some,
        mode_of(v.cpsr) != mode,
        spsr_slot(mode) is Some,
    ensures
        ({
            let e = spec_exception_entry(v, vector, mode, lr);
            let back = spec_set_cpsr(e, spec_spsr(e));
            &&& mode_of(e.cpsr) == mode
            &&& spec_spsr(e) == v.cpsr
            &&& back.cpsr == v.cpsr
            &&& back.regs.subrange(0, 15) == v.regs.subrange(0, 15)
        }),
{
    let nc = exception_cpsr(v.cpsr, vector, mode);
    lemma_mode_bits_roundtrip(mode);
    let c = v.cpsr;
    let mb = mode_bits(mode);
    assert(((c & !(0x1Fu32 | 0x20)) | mb | 0x80) & 0x1F == mb & 0x1F) by {
        crate::bits::lemma_bit_facts();
    }
    assert((((c & !(0x1Fu32 | 0x20)) | mb | 0x80) | 0x40) & 0x1F == mb & 0x1F) by {
        crate::bits::lemma_bit_facts();
    }
    assert(mode_from_bits(nc) == mode_from_bits(mb));
    let s = spec_set_cpsr(v, nc);
    assert(mode_of(s.cpsr) == mode);
    let e = spec_exception_entry(v, vector, mode, lr);
    let back = spec_set_cpsr(e, spec_spsr(e));
    assert(back.regs.subrange(0, 15) =~= v.regs.subrange(0, 15));
}

// ---- barrel shifter & ALU helpers (shared by ARM and Thumb) ----
//
// Each shift returns `(result, carry_out)`. An amount of zero means "no
// shift, carry unchanged" — callers that need the special ARM immediate
// encodings (LSR #0 = LSR #32, ASR #0 = ASR #32, ROR #0 = RRX) resolve them
// before calling.

/// Logical shift left with carry out.
pub open spec fn spec_lsl(value: u32, amount: u32, carry_in: bool) -> (u32, bool) {
    if amount == 0 {
        (value, carry_in)
    } else if amount < 32 {
        (value << amount, (value >> (32 - amount) as u32) & 1 != 0)
    } else if amount == 32 {
        (0, value & 1 != 0)
    } else {
        (0, false)
    }
}

/// Logical shift right with carry out.
pub open spec fn spec_lsr(value: u32, amount: u32, carry_in: bool) -> (u32, bool) {
    if amount == 0 {
        (value, carry_in)
    } else if amount < 32 {
        (value >> amount, (value >> (amount - 1) as u32) & 1 != 0)
    } else if amount == 32 {
        (0, value >> 31 != 0)
    } else {
        (0, false)
    }
}

/// Arithmetic shift right with carry out: vacated bits copy the sign bit.
pub open spec fn spec_asr(value: u32, amount: u32, carry_in: bool) -> (u32, bool) {
    let sign = value >> 31 != 0;
    if amount == 0 {
        (value, carry_in)
    } else if amount < 32 {
        (
            if sign { (value >> amount) | !(0xFFFF_FFFFu32 >> amount) } else { value >> amount },
            (value >> (amount - 1) as u32) & 1 != 0,
        )
    } else {
        (if sign { 0xFFFF_FFFF } else { 0 }, sign)
    }
}

/// Rotate right by `n` (taken modulo 32).
pub open spec fn rotr(value: u32, n: u32) -> u32 {
    let k = n % 32;
    if k == 0 { value } else { (value >> k) | (value << (32 - k) as u32) }
}

/// Rotate right with carry out (bit 31 of the result).
pub open spec fn spec_ror(value: u32, amount: u32, carry_in: bool) -> (u32, bool) {
    if amount == 0 {
        (value, carry_in)
    } else {
        let r = rotr(value, amount);
        (r, r >> 31 != 0)
    }
}

/// Rotate-right-extended: 33-bit rotate through carry, by one.
pub open spec fn spec_rrx(value: u32, carry_in: bool) -> (u32, bool) {
    ((if carry_in { 0x8000_0000u32 } else { 0 }) | (value >> 1), value & 1 != 0)
}

/// `a + b + carry` as the ALU computes it: the 32-bit sum, the carry out of
/// bit 31, and signed overflow.
pub open spec fn spec_add_with_carry(a: u32, b: u32, carry: u32) -> (u32, bool, bool) {
    let sum = a + b + carry;
    let result = (sum % 0x1_0000_0000) as u32;
    (result, sum > 0xFFFF_FFFF, (a ^ result) & (b ^ result) & 0x8000_0000 != 0)
}

pub fn lsl(value: u32, amount: u32, carry_in: bool) -> (r: (u32, bool))
    ensures
        r == spec_lsl(value, amount, carry_in),
{
    if amount == 0 {
        (value, carry_in)
    } else if amount < 32 {
        (value << amount, (value >> (32 - amount)) & 1 != 0)
    } else if amount == 32 {
        (0, value & 1 != 0)
    } else {
        (0, false)
    }
}

pub fn lsr(value: u32, amount: u32, carry_in: bool) -> (r: (u32, bool))
    ensures
        r == spec_lsr(value, amount, carry_in),
{
    if amount == 0 {
        (value, carry_in)
    } else if amount < 32 {
        (value >> amount, (value >> (amount - 1)) & 1 != 0)
    } else if amount == 32 {
        (0, value >> 31 != 0)
    } else {
        (0, false)
    }
}

pub fn asr(value: u32, amount: u32, carry_in: bool) -> (r: (u32, bool))
    ensures
        r == spec_asr(value, amount, carry_in),
{
    let sign = value >> 31 != 0;
    if amount == 0 {
        (value, carry_in)
    } else if amount < 32 {
        let shifted = if sign {
            (value >> amount) | !(0xFFFF_FFFFu32 >> amount)
        } else {
            value >> amount
        };
        (shifted, (value >> (amount - 1)) & 1 != 0)
    } else {
        (if sign { 0xFFFF_FFFF } else { 0 }, sign)
    }
}

/// Exec form of [`rotr`].
pub fn rotate_right(value: u32, n: u32) -> (r: u32)
    ensures
        r == rotr(value, n),
{
    let k = n % 32;
    if k == 0 {
        value
    } else {
        (value >> k) | (value << (32 - k))
    }
}

pub fn ror(value: u32, amount: u32, carry_in: bool) -> (r: (u32, bool))
    ensures
        r == spec_ror(value, amount, carry_in),
{
    if amount == 0 {
        (value, carry_in)
    } else {
        let r = rotate_right(value, amount);
        (r, r >> 31 != 0)
    }
}

pub fn rrx(value: u32, carry_in: bool) -> (r: (u32, bool))
    ensures
        r == spec_rrx(value, carry_in),
{
    ((if carry_in { 0x8000_0000u32 } else { 0 }) | (value >> 1), value & 1 != 0)
}

/// `a + b + carry`, returning `(result, carry_out, overflow)`.
/// Subtraction is `add_with_carry(a, !b, 1)`; subtract-with-borrow passes the
/// C flag as carry, matching the ARM definition exactly.
pub fn add_with_carry(a: u32, b: u32, carry: u32) -> (r: (u32, bool, bool))
    ensures
        r == spec_add_with_carry(a, b, carry),
{
    let sum: u64 = a as u64 + b as u64 + carry as u64;
    let result = (sum & 0xFFFF_FFFF) as u32;
    assert(sum & 0xFFFF_FFFF == sum % 0x1_0000_0000) by {
        crate::bits::lemma_bit_facts();
    }
    (result, sum > 0xFFFF_FFFF, (a ^ result) & (b ^ result) & 0x8000_0000 != 0)
}

/// Subtraction through the adder: `a - b` is `a + !b + 1`; its carry out is
/// "no borrow" (set exactly when `a >= b`) and the result is `a - b` modulo
/// 2^32.
pub proof fn lemma_subtract_carry_is_not_borrow(a: u32, b: u32)
    ensures
        spec_add_with_carry(a, !b, 1).0 == ((a - b) % 0x1_0000_0000) as u32,
        spec_add_with_carry(a, !b, 1).1 == (a >= b),
{
    assert(!b == 0xFFFF_FFFF - b) by {
        crate::bits::lemma_bit_facts();
    }
}

/// The overflow flag is signed overflow: set exactly when the true sum of
/// the operands read as two's-complement integers leaves the 32-bit range.
pub proof fn lemma_overflow_is_signed_overflow(a: u32, b: u32)
    ensures
        spec_add_with_carry(a, b, 0).2 == ({
            let sa: int = if a >= 0x8000_0000 { a - 0x1_0000_0000 } else { a as int };
            let sb: int = if b >= 0x8000_0000 { b - 0x1_0000_0000 } else { b as int };
            sa + sb < -0x8000_0000 || sa + sb > 0x7FFF_FFFF
        }),
{
    let r = spec_add_with_carry(a, b, 0).0;
    let sum = a + b;
    if sum > 0xFFFF_FFFF {
        assert(r == sum - 0x1_0000_0000);
    }
    assert(r == a.wrapping_add(b));
    assert(((a ^ a.wrapping_add(b)) & (b ^ a.wrapping_add(b)) & 0x8000_0000 != 0) == (
        (a >= 0x8000_0000 && b >= 0x8000_0000 && a.wrapping_add(b) < 0x8000_0000) || (a
            < 0x8000_0000 && b < 0x8000_0000 && a.wrapping_add(b) >= 0x8000_0000)
    )) by (bit_vector);
}

/// A word load from `addr` that returned `r`: the aligned word read from
/// the bus, rotated so the addressed byte lands in bits 7:0.
pub open spec fn word_loaded<B: BusModel>(b0: B, addr: u32, r: u32, b1: B) -> bool {
    exists|w: u32|
        #[trigger] word_read(b0, addr, w, b1) && r == rotr(w, (8 * (addr & 3)) as u32)
}

/// A halfword load from `addr` that returned `r`: the aligned halfword
/// read from the bus, rotated right by 8 at an odd address.
pub open spec fn half_loaded<B: BusModel>(b0: B, addr: u32, r: u32, b1: B) -> bool {
    exists|h: u32|
        h < 0x1_0000 && #[trigger] half_read(b0, addr, h, b1) && r == rotr(
            h,
            (8 * (addr & 1)) as u32,
        )
}

/// A signed halfword load from `addr` that returned `r`: the halfword read
/// from the bus, sign-extended; at an odd address the byte there,
/// sign-extended.
pub open spec fn signed_half_loaded<B: BusModel>(b0: B, addr: u32, r: u32, b1: B) -> bool {
    if addr & 1 != 0 {
        exists|b: u32|
            b < 0x100 && #[trigger] b0.read_did(addr, Width::Byte, b, b1) && r == sext8(b as u8)
    } else {
        exists|h: u32|
            h < 0x1_0000 && #[trigger] half_read(b0, addr, h, b1) && r == sext16(h as u16)
    }
}

/// Word load with the ARM7 misalignment behavior: the aligned word rotated so
/// the addressed byte lands in bits 7:0.
pub fn load32_rotated<B: Bus>(bus: &mut B, addr: u32) -> (r: u32)
    requires
        old(bus).bus_inv(),
    ensures
        final(bus).bus_inv(),
        word_loaded(*old(bus), addr, r, *final(bus)),
{
    assert(addr & 3 < 4) by {
        crate::bits::lemma_bit_facts();
    }
    let ghost b0 = *bus;
    let w = bus.read32(addr & !3u32);
    assert(word_read(b0, addr, w, *bus)) by {
        crate::bits::lemma_alignment();
        assert((addr & !3u32) & !3u32 == addr & !3u32);
    }
    rotate_right(w, 8 * (addr & 3))
}

/// Halfword load with the ARM7 misalignment behavior (LDRH at an odd address
/// returns the aligned halfword rotated right by 8).
pub fn load16_rotated<B: Bus>(bus: &mut B, addr: u32) -> (r: u32)
    requires
        old(bus).bus_inv(),
    ensures
        final(bus).bus_inv(),
        half_loaded(*old(bus), addr, r, *final(bus)),
{
    assert(addr & 1 < 2) by {
        crate::bits::lemma_bit_facts();
    }
    let ghost b0 = *bus;
    let h = bus.read16(addr & !1u32);
    assert(half_read(b0, addr, h as u32, *bus)) by {
        crate::bits::lemma_alignment();
        assert((addr & !1u32) & !1u32 == addr & !1u32);
    }
    rotate_right(h as u32, 8 * (addr & 1))
}

/// Sign extension of a byte / halfword to 32 bits.
pub open spec fn sext8(b: u8) -> u32 {
    if b >= 0x80 { (b as u32) | 0xFFFF_FF00 } else { b as u32 }
}

pub open spec fn sext16(h: u16) -> u32 {
    if h >= 0x8000 { (h as u32) | 0xFFFF_0000 } else { h as u32 }
}

pub fn sign_extend8(b: u8) -> (r: u32)
    ensures
        r == sext8(b),
{
    if b >= 0x80 {
        (b as u32) | 0xFFFF_FF00
    } else {
        b as u32
    }
}

pub fn sign_extend16(h: u16) -> (r: u32)
    ensures
        r == sext16(h),
{
    if h >= 0x8000 {
        (h as u32) | 0xFFFF_0000
    } else {
        h as u32
    }
}

/// Signed halfword load; at an odd address the ARM7 degrades to a signed
/// *byte* load (LDRSH quirk).
pub fn load16_signed<B: Bus>(bus: &mut B, addr: u32) -> (r: u32)
    requires
        old(bus).bus_inv(),
    ensures
        final(bus).bus_inv(),
        signed_half_loaded(*old(bus), addr, r, *final(bus)),
{
    if addr & 1 != 0 {
        let b = bus.read8(addr);
        assert((b as u32) as u8 == b);
        sign_extend8(b)
    } else {
        let h = bus.read16(addr);
        assert(addr & !1u32 == addr) by {
            crate::bits::lemma_alignment();
        }
        assert((h as u32) as u16 == h);
        sign_extend16(h)
    }
}

/// Approximate multiplier array cycles (Booth early-termination on the
/// multiplier operand).
pub open spec fn spec_multiplier_cycles(rs: u32) -> u64 {
    if rs & 0xFFFF_FF00 == 0 || rs & 0xFFFF_FF00 == 0xFFFF_FF00 {
        1
    } else if rs & 0xFFFF_0000 == 0 || rs & 0xFFFF_0000 == 0xFFFF_0000 {
        2
    } else if rs & 0xFF00_0000 == 0 || rs & 0xFF00_0000 == 0xFF00_0000 {
        3
    } else {
        4
    }
}

pub fn multiplier_cycles(rs: u32) -> (r: u64)
    ensures
        r == spec_multiplier_cycles(rs),
{
    if rs & 0xFFFF_FF00 == 0 || rs & 0xFFFF_FF00 == 0xFFFF_FF00 {
        1
    } else if rs & 0xFFFF_0000 == 0 || rs & 0xFFFF_0000 == 0xFFFF_0000 {
        2
    } else if rs & 0xFF00_0000 == 0 || rs & 0xFF00_0000 == 0xFF00_0000 {
        3
    } else {
        4
    }
}

} // verus!
