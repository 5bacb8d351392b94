//! ARM (32-bit) instruction set decode & execute.
//!
//! Decoding is a mask/match cascade ordered so that the specific bit patterns
//! (BX, PSR transfers, multiplies, SWP, halfword transfers) are recognized
//! before the broad data-processing class that would otherwise swallow them.
//! ARM7-specific edge cases are implemented: misaligned load rotation,
//! `STR PC` storing PC+12, LDM/STM base-in-list and empty-register-list
//! behavior, and user-bank transfers via the S bit.

use super::{
    add_with_carry, asr, load16_rotated, load16_signed, load32_rotated, lsl, lsr,
    multiplier_cycles, ror, rotate_right, rotr, rrx, sext16, sext8, sign_extend8, spec_add_cycles,
    spec_add_with_carry, spec_asr, spec_branch, spec_exception_entry, spec_lsl, spec_lsr,
    spec_multiplier_cycles, spec_ror, spec_rrx, spec_set_cpsr, spec_set_flag, spec_set_nz,
    spec_set_reg, spec_set_reg_user, spec_set_spsr, spec_spsr, swi_taken, mode_of, refilled,
    spec_reg_user, thumb_state, branch_refilled, swi_done, mode_valid, lemma_mode_writes_valid, word_loaded, half_loaded, signed_half_loaded, Cpu, CpuView,
    Mode,
    FLAG_C, FLAG_N, FLAG_T, FLAG_V, FLAG_Z, VEC_UNDEFINED,
};
use crate::bios::addr_plus;
use crate::memory::{half_read, half_written, word_read, word_written, Bus, BusModel};
use crate::timing::Width;
use vstd::prelude::*;

verus! {

/// The instruction classes of the ARMv4T encoding space.
#[derive(Clone, Copy, PartialEq, Eq, Structural)]
pub enum ArmClass {
    BranchExchange,
    Mrs,
    MsrRegister,
    MsrImmediate,
    Multiply,
    MultiplyLong,
    Swap,
    HalfwordTransfer,
    DataProcessing,
    Undefined,
    SingleTransfer,
    BlockTransfer,
    Branch,
    SoftwareInterrupt,
}

/// The class an opcode decodes to (specific patterns first).
pub open spec fn arm_class(op: u32) -> ArmClass {
    if op & 0x0FFF_FFF0 == 0x012F_FF10 {
        ArmClass::BranchExchange
    } else if op & 0x0FBF_0FFF == 0x010F_0000 {
        ArmClass::Mrs
    } else if op & 0x0FB0_FFF0 == 0x0120_F000 {
        ArmClass::MsrRegister
    } else if op & 0x0FB0_F000 == 0x0320_F000 {
        ArmClass::MsrImmediate
    } else if op & 0x0FC0_00F0 == 0x0000_0090 {
        ArmClass::Multiply
    } else if op & 0x0F80_00F0 == 0x0080_0090 {
        ArmClass::MultiplyLong
    } else if op & 0x0FB0_0FF0 == 0x0100_0090 {
        ArmClass::Swap
    } else if op & 0x0E00_0090 == 0x0000_0090 {
        ArmClass::HalfwordTransfer
    } else if op & 0x0C00_0000 == 0 {
        ArmClass::DataProcessing
    } else if op & 0x0E00_0010 == 0x0600_0010 {
        // Register-offset load/store with bit 4 set: the canonical ARMv4
        // undefined-instruction encoding.
        ArmClass::Undefined
    } else if op & 0x0C00_0000 == 0x0400_0000 {
        ArmClass::SingleTransfer
    } else if op & 0x0E00_0000 == 0x0800_0000 {
        ArmClass::BlockTransfer
    } else if op & 0x0E00_0000 == 0x0A00_0000 {
        ArmClass::Branch
    } else if op & 0x0F00_0000 == 0x0F00_0000 {
        ArmClass::SoftwareInterrupt
    } else {
        // Coprocessor instructions: the GBA has none, so they trap.
        ArmClass::Undefined
    }
}

/// Classify an opcode.
pub fn decode(op: u32) -> (r: ArmClass)
    ensures
        r == arm_class(op),
{
    if op & 0x0FFF_FFF0 == 0x012F_FF10 {
        ArmClass::BranchExchange
    } else if op & 0x0FBF_0FFF == 0x010F_0000 {
        ArmClass::Mrs
    } else if op & 0x0FB0_FFF0 == 0x0120_F000 {
        ArmClass::MsrRegister
    } else if op & 0x0FB0_F000 == 0x0320_F000 {
        ArmClass::MsrImmediate
    } else if op & 0x0FC0_00F0 == 0x0000_0090 {
        ArmClass::Multiply
    } else if op & 0x0F80_00F0 == 0x0080_0090 {
        ArmClass::MultiplyLong
    } else if op & 0x0FB0_0FF0 == 0x0100_0090 {
        ArmClass::Swap
    } else if op & 0x0E00_0090 == 0x0000_0090 {
        ArmClass::HalfwordTransfer
    } else if op & 0x0C00_0000 == 0 {
        ArmClass::DataProcessing
    } else if op & 0x0E00_0010 == 0x0600_0010 {
        ArmClass::Undefined
    } else if op & 0x0C00_0000 == 0x0400_0000 {
        ArmClass::SingleTransfer
    } else if op & 0x0E00_0000 == 0x0800_0000 {
        ArmClass::BlockTransfer
    } else if op & 0x0E00_0000 == 0x0A00_0000 {
        ArmClass::Branch
    } else if op & 0x0F00_0000 == 0x0F00_0000 {
        ArmClass::SoftwareInterrupt
    } else {
        ArmClass::Undefined
    }
}

/// A 4-bit register field of an opcode.
pub open spec fn rfield(op: u32, shift: u32) -> int {
    ((op >> shift) & 0xF) as int
}

fn reg_field(op: u32, shift: u32) -> (r: usize)
    requires
        shift < 32,
    ensures
        r == rfield(op, shift),
        r < 16,
{
    assert((op >> shift) & 0xF < 16) by {
        crate::bits::lemma_bit_facts();
    }
    ((op >> shift) & 0xF) as usize
}

/// What one ARM instruction whose condition passed does to the CPU, by
/// class; `arm_bus` ties the values loaded to the bus.
pub open spec fn arm_executed(v: CpuView, op: u32, w: CpuView) -> bool {
    match arm_class(op) {
        ArmClass::BranchExchange => w == bx_effect(v, op, w.pipeline),
        ArmClass::Mrs => w == mrs_effect(v, op),
        ArmClass::MsrRegister => w == msr_effect(v, op, false),
        ArmClass::MsrImmediate => w == msr_effect(v, op, true),
        ArmClass::Multiply => w == multiply_effect(v, op),
        ArmClass::MultiplyLong => w == multiply_long_effect(v, op),
        ArmClass::Swap => swap_done(v, op, w),
        ArmClass::HalfwordTransfer => halfword_done(v, op, w),
        ArmClass::DataProcessing => w == dp_effect(v, op, w.pipeline),
        ArmClass::Undefined => w == undefined_effect(v, w.pipeline),
        ArmClass::SingleTransfer => single_done(v, op, w),
        ArmClass::BlockTransfer => block_done(v, op, w),
        ArmClass::Branch => w == branch_effect(v, op, w.pipeline),
        ArmClass::SoftwareInterrupt => swi_taken(v, ((op >> 16) & 0xFF) as u8, w),
    }
}

/// What one ARM instruction whose condition passed does to the bus, by
/// class: loads and stores as their handlers state; branches, exceptions
/// and PC writes refill the pipeline; SWI as `swi_done`; the others leave
/// it alone.
pub open spec fn arm_bus<B: Bus>(v: CpuView, b0: B, op: u32, w: CpuView, b1: B) -> bool {
    match arm_class(op) {
        ArmClass::BranchExchange => branch_refilled(b0, w, b1),
        ArmClass::Swap => swap_mem(v, b0, op, w, b1),
        ArmClass::HalfwordTransfer => halfword_mem(v, b0, op, w, b1),
        ArmClass::DataProcessing => if dp_branches(v, op) {
            branch_refilled(b0, w, b1)
        } else {
            b1 == b0
        },
        ArmClass::Undefined => branch_refilled(b0, w, b1),
        ArmClass::SingleTransfer => single_mem(v, b0, op, w, b1),
        ArmClass::BlockTransfer => block_mem(v, b0, op, w, b1),
        ArmClass::Branch => branch_refilled(b0, w, b1),
        ArmClass::SoftwareInterrupt => swi_done(v, b0, ((op >> 16) & 0xFF) as u8, w, b1),
        _ => b1 == b0,
    }
}

/// Execute one ARM instruction (its condition already checked).
pub fn execute<B: Bus>(cpu: &mut Cpu, bus: &mut B, op: u32)
    requires
        old(bus).bus_inv(),
    ensures
        final(bus).bus_inv(),
        arm_executed(old(cpu)@, op, final(cpu)@),
        arm_bus(old(cpu)@, *old(bus), op, final(cpu)@, *final(bus)),
        mode_valid(old(cpu)@.cpsr) ==> mode_valid(final(cpu)@.cpsr),
{
    proof {
        lemma_mode_writes_valid();
    }
    match decode(op) {
        ArmClass::BranchExchange => branch_exchange(cpu, bus, op),
        ArmClass::Mrs => mrs(cpu, op),
        ArmClass::MsrRegister => msr(cpu, op, false),
        ArmClass::MsrImmediate => msr(cpu, op, true),
        ArmClass::Multiply => multiply(cpu, op),
        ArmClass::MultiplyLong => multiply_long(cpu, op),
        ArmClass::Swap => swap(cpu, bus, op),
        ArmClass::HalfwordTransfer => halfword_transfer(cpu, bus, op),
        ArmClass::DataProcessing => data_processing(cpu, bus, op),
        ArmClass::Undefined => undefined(cpu, bus),
        ArmClass::SingleTransfer => single_transfer(cpu, bus, op),
        ArmClass::BlockTransfer => block_transfer(cpu, bus, op),
        ArmClass::Branch => branch(cpu, bus, op),
        ArmClass::SoftwareInterrupt => software_interrupt(cpu, bus, op),
    }
}

// ---------------------------------------------------------------- branches

/// The signed 24-bit word offset of B/BL, in bytes.
pub open spec fn branch_offset(op: u32) -> u32 {
    let imm = op & 0x00FF_FFFF;
    if imm & 0x0080_0000 != 0 { (imm << 2) | 0xFC00_0000 } else { imm << 2 }
}

/// B/BL: BL first saves the address of the next instruction in LR.
pub open spec fn branch_effect(v: CpuView, op: u32, pipe: Seq<u32>) -> CpuView {
    let linked = if op & 0x0100_0000 != 0 {
        spec_set_reg(v, 14, ((v.regs[15] - 4) % 0x1_0000_0000) as u32)
    } else {
        v
    };
    spec_branch(linked, ((v.regs[15] + branch_offset(op)) % 0x1_0000_0000) as u32, pipe)
}

#[verifier::spinoff_prover]
#[verifier::rlimit(40)]
fn branch(cpu: &mut Cpu, bus: &mut impl Bus, op: u32)
    requires
        old(bus).bus_inv(),
    ensures
        final(bus).bus_inv(),
        final(cpu)@ == branch_effect(old(cpu)@, op, final(cpu)@.pipeline),
        branch_refilled(*old(bus), final(cpu)@, *final(bus)),
{
    let imm = op & 0x00FF_FFFF;
    let offset = if imm & 0x0080_0000 != 0 {
        (imm << 2) | 0xFC00_0000
    } else {
        imm << 2
    };
    let pc = cpu.reg(15);
    if op & 0x0100_0000 != 0 {
        // BL: LR = address of the next instruction (PC visible as +8, so -4).
        cpu.set_reg(14, pc.wrapping_sub(4));
    }
    cpu.branch_to(bus, pc.wrapping_add(offset));
}

/// BX: bit 0 of the target selects the instruction set.
pub open spec fn bx_effect(v: CpuView, op: u32, pipe: Seq<u32>) -> CpuView {
    let target = v.regs[rfield(op, 0)];
    spec_branch(spec_set_flag(v, FLAG_T, target & 1 != 0), target, pipe)
}

fn branch_exchange(cpu: &mut Cpu, bus: &mut impl Bus, op: u32)
    requires
        old(bus).bus_inv(),
    ensures
        final(bus).bus_inv(),
        final(cpu)@ == bx_effect(old(cpu)@, op, final(cpu)@.pipeline),
        branch_refilled(*old(bus), final(cpu)@, *final(bus)),
{
    let value = cpu.reg(reg_field(op, 0));
    cpu.set_flag(FLAG_T, value & 1 != 0);
    cpu.branch_to(bus, value);
}

fn software_interrupt(cpu: &mut Cpu, bus: &mut impl Bus, op: u32)
    requires
        old(bus).bus_inv(),
    ensures
        final(bus).bus_inv(),
        swi_taken(old(cpu)@, ((op >> 16) & 0xFF) as u8, final(cpu)@),
        swi_done(old(cpu)@, *old(bus), ((op >> 16) & 0xFF) as u8, final(cpu)@, *final(bus)),
{
    // The BIOS reads the SWI number from bits 23:16 of the ARM encoding.
    let number = ((op >> 16) & 0xFF) as u8;
    cpu.do_swi(bus, number);
}

/// The undefined-instruction trap.
pub open spec fn undefined_effect(v: CpuView, pipe: Seq<u32>) -> CpuView {
    spec_branch(
        spec_exception_entry(
            v,
            VEC_UNDEFINED,
            Mode::Undefined,
            ((v.regs[15] - 4) % 0x1_0000_0000) as u32,
        ),
        VEC_UNDEFINED,
        pipe,
    )
}

fn undefined(cpu: &mut Cpu, bus: &mut impl Bus)
    requires
        old(bus).bus_inv(),
    ensures
        final(bus).bus_inv(),
        final(cpu)@ == undefined_effect(old(cpu)@, final(cpu)@.pipeline),
        branch_refilled(*old(bus), final(cpu)@, *final(bus)),
{
    let lr = cpu.reg(15).wrapping_sub(4);
    cpu.enter_exception(bus, VEC_UNDEFINED, Mode::Undefined, lr);
}


// ------------------------------------------------------------ data processing

/// The immediate-amount shifter of data-processing and load/store operands,
/// with the special encodings LSR #0 = LSR #32, ASR #0 = ASR #32, ROR #0 = RRX.
pub open spec fn imm_shift(ty: u32, value: u32, amount: u32, carry: bool) -> (u32, bool) {
    if ty == 0 {
        spec_lsl(value, amount, carry)
    } else if ty == 1 {
        spec_lsr(value, if amount == 0 { 32 } else { amount }, carry)
    } else if ty == 2 {
        spec_asr(value, if amount == 0 { 32 } else { amount }, carry)
    } else if amount == 0 {
        spec_rrx(value, carry)
    } else {
        spec_ror(value, amount, carry)
    }
}

/// The register-amount shifter (amount taken from the low byte of Rs).
pub open spec fn reg_shift(ty: u32, value: u32, amount: u32, carry: bool) -> (u32, bool) {
    if ty == 0 {
        spec_lsl(value, amount, carry)
    } else if ty == 1 {
        spec_lsr(value, amount, carry)
    } else if ty == 2 {
        spec_asr(value, amount, carry)
    } else {
        spec_ror(value, amount, carry)
    }
}

fn shift_by_immediate(ty: u32, value: u32, amount: u32, carry: bool) -> (r: (u32, bool))
    ensures
        r == imm_shift(ty, value, amount, carry),
{
    if ty == 0 {
        lsl(value, amount, carry)
    } else if ty == 1 {
        lsr(value, if amount == 0 { 32 } else { amount }, carry)
    } else if ty == 2 {
        asr(value, if amount == 0 { 32 } else { amount }, carry)
    } else if amount == 0 {
        rrx(value, carry)
    } else {
        ror(value, amount, carry)
    }
}

fn shift_by_register(ty: u32, value: u32, amount: u32, carry: bool) -> (r: (u32, bool))
    ensures
        r == reg_shift(ty, value, amount, carry),
{
    if ty == 0 {
        lsl(value, amount, carry)
    } else if ty == 1 {
        lsr(value, amount, carry)
    } else if ty == 2 {
        asr(value, amount, carry)
    } else {
        ror(value, amount, carry)
    }
}

/// With a register-specified shift the PC prefetches one further step, so
/// R15 reads as instruction address + 12 instead of + 8.
pub open spec fn dp_read(v: CpuView, i: int, by_register: bool) -> u32 {
    if i == 15 && by_register {
        ((v.regs[15] + 4) % 0x1_0000_0000) as u32
    } else {
        v.regs[i]
    }
}

/// Operand 2 (with the shifter carry) and the Rn value of a data-processing
/// instruction.
pub open spec fn dp_operand(v: CpuView, op: u32) -> (u32, bool, u32) {
    let carry_in = v.cpsr & FLAG_C != 0;
    let rn = rfield(op, 16);
    if op & 0x0200_0000 != 0 {
        // Immediate: 8-bit value rotated right by twice the rotate field.
        let rotate = (((op >> 8) & 0xF) * 2) as u32;
        let value = rotr(op & 0xFF, rotate);
        (value, if rotate == 0 { carry_in } else { value >> 31 != 0 }, v.regs[rn])
    } else {
        let by_register = op & 0x10 != 0;
        let rm_val = dp_read(v, rfield(op, 0), by_register);
        let rn_val = dp_read(v, rn, by_register);
        let ty = (op >> 5) & 3;
        let r = if by_register {
            reg_shift(ty, rm_val, v.regs[rfield(op, 8)] & 0xFF, carry_in)
        } else {
            imm_shift(ty, rm_val, (op >> 7) & 0x1F, carry_in)
        };
        (r.0, r.1, rn_val)
    }
}

/// The ALU: `(result, carry, overflow, writes_rd)` of data-processing
/// opcode `opcode` on Rn value `a` and operand 2 `b`.
pub open spec fn spec_alu(opcode: u32, a: u32, b: u32, shifter_carry: bool, carry_in: bool, v_in: bool) -> (u32, bool, bool, bool) {
    let cb: u32 = if carry_in { 1 } else { 0 };
    if opcode == 0x0 {
        (a & b, shifter_carry, v_in, true)
    } else if opcode == 0x1 {
        (a ^ b, shifter_carry, v_in, true)
    } else if opcode == 0x2 {
        let r = spec_add_with_carry(a, !b, 1); (r.0, r.1, r.2, true)
    } else if opcode == 0x3 {
        let r = spec_add_with_carry(b, !a, 1); (r.0, r.1, r.2, true)
    } else if opcode == 0x4 {
        let r = spec_add_with_carry(a, b, 0); (r.0, r.1, r.2, true)
    } else if opcode == 0x5 {
        let r = spec_add_with_carry(a, b, cb); (r.0, r.1, r.2, true)
    } else if opcode == 0x6 {
        let r = spec_add_with_carry(a, !b, cb); (r.0, r.1, r.2, true)
    } else if opcode == 0x7 {
        let r = spec_add_with_carry(b, !a, cb); (r.0, r.1, r.2, true)
    } else if opcode == 0x8 {
        (a & b, shifter_carry, v_in, false)
    } else if opcode == 0x9 {
        (a ^ b, shifter_carry, v_in, false)
    } else if opcode == 0xA {
        let r = spec_add_with_carry(a, !b, 1); (r.0, r.1, r.2, false)
    } else if opcode == 0xB {
        let r = spec_add_with_carry(a, b, 0); (r.0, r.1, r.2, false)
    } else if opcode == 0xC {
        (a | b, shifter_carry, v_in, true)
    } else if opcode == 0xD {
        (b, shifter_carry, v_in, true)
    } else if opcode == 0xE {
        (a & !b, shifter_carry, v_in, true)
    } else {
        (!b, shifter_carry, v_in, true)
    }
}

/// What each data-processing opcode computes from Rn (`a`) and operand 2
/// (`b`), in plain arithmetic: the logical ones bit by bit (BIC clears in
/// Rn the bits set in operand 2; MVN inverts operand 2), the arithmetic
/// ones modulo 2^32 (SBC/RSC borrow one unless the carry is set; a
/// subtraction's carry means no borrow); the test opcodes 8–11 write no
/// result.
pub proof fn lemma_alu_results(a: u32, b: u32, sc: bool, ci: bool, vi: bool)
    ensures
        spec_alu(0x0, a, b, sc, ci, vi).0 == a & b,
        spec_alu(0x1, a, b, sc, ci, vi).0 == a ^ b,
        spec_alu(0x2, a, b, sc, ci, vi).0 == (a - b) % 0x1_0000_0000,
        spec_alu(0x2, a, b, sc, ci, vi).1 == (a >= b),
        spec_alu(0x3, a, b, sc, ci, vi).0 == (b - a) % 0x1_0000_0000,
        spec_alu(0x4, a, b, sc, ci, vi).0 == (a + b) % 0x1_0000_0000,
        spec_alu(0x4, a, b, sc, ci, vi).1 == (a + b > 0xFFFF_FFFF),
        spec_alu(0x5, a, b, sc, ci, vi).0 == (a + b + (if ci { 1int } else { 0 })) % 0x1_0000_0000,
        spec_alu(0x6, a, b, sc, ci, vi).0 == (a - b - (if ci { 0int } else { 1 })) % 0x1_0000_0000,
        spec_alu(0x7, a, b, sc, ci, vi).0 == (b - a - (if ci { 0int } else { 1 })) % 0x1_0000_0000,
        spec_alu(0xA, a, b, sc, ci, vi).1 == (a >= b),
        spec_alu(0xC, a, b, sc, ci, vi).0 == a | b,
        spec_alu(0xD, a, b, sc, ci, vi).0 == b,
        spec_alu(0xE, a, b, sc, ci, vi).0 == a & !b,
        spec_alu(0xE, a, b, sc, ci, vi).0 & b == 0,
        spec_alu(0xE, a, b, sc, ci, vi).0 | (a & b) == a,
        spec_alu(0xF, a, b, sc, ci, vi).0 == !b,
        forall|op: u32| 8 <= op <= 11 ==> !(#[trigger] spec_alu(op, a, b, sc, ci, vi)).3,
        forall|op: u32|
            op < 16 && !(8 <= op <= 11) ==> (#[trigger] spec_alu(op, a, b, sc, ci, vi)).3,
{
    let m: int = 0x1_0000_0000;
    assert(!b == 0xFFFF_FFFF - b && !a == 0xFFFF_FFFF - a) by {
        crate::bits::lemma_bit_facts();
    }
    assert((a & !b) & b == 0 && (a & !b) | (a & b) == a) by {
        crate::bits::lemma_bit_identities();
    }
    vstd::arithmetic::div_mod::lemma_mod_add_multiples_vanish(a - b, m);
    vstd::arithmetic::div_mod::lemma_mod_add_multiples_vanish(b - a, m);
    vstd::arithmetic::div_mod::lemma_mod_add_multiples_vanish(a - b - 1, m);
    vstd::arithmetic::div_mod::lemma_mod_add_multiples_vanish(b - a - 1, m);
    assert(a + (0xFFFF_FFFF - b) + 1 == (a - b) + m);
    assert(b + (0xFFFF_FFFF - a) + 1 == (b - a) + m);
    assert(a + (0xFFFF_FFFF - b) + 0 == (a - b - 1) + m);
    assert(b + (0xFFFF_FFFF - a) + 0 == (b - a - 1) + m);
    if a >= b {
        vstd::arithmetic::div_mod::lemma_small_mod((a - b) as nat, m as nat);
    }
}

fn alu(opcode: u32, a: u32, b: u32, shifter_carry: bool, carry_in: bool, v_in: bool) -> (r: (u32, bool, bool, bool))
    ensures
        r == spec_alu(opcode, a, b, shifter_carry, carry_in, v_in),
{
    let cb: u32 = if carry_in { 1 } else { 0 };
    if opcode == 0x0 {
        (a & b, shifter_carry, v_in, true)
    } else if opcode == 0x1 {
        (a ^ b, shifter_carry, v_in, true)
    } else if opcode == 0x2 {
        let (r, c, v) = add_with_carry(a, !b, 1);
        (r, c, v, true)
    } else if opcode == 0x3 {
        let (r, c, v) = add_with_carry(b, !a, 1);
        (r, c, v, true)
    } else if opcode == 0x4 {
        let (r, c, v) = add_with_carry(a, b, 0);
        (r, c, v, true)
    } else if opcode == 0x5 {
        let (r, c, v) = add_with_carry(a, b, cb);
        (r, c, v, true)
    } else if opcode == 0x6 {
        let (r, c, v) = add_with_carry(a, !b, cb);
        (r, c, v, true)
    } else if opcode == 0x7 {
        let (r, c, v) = add_with_carry(b, !a, cb);
        (r, c, v, true)
    } else if opcode == 0x8 {
        (a & b, shifter_carry, v_in, false)
    } else if opcode == 0x9 {
        (a ^ b, shifter_carry, v_in, false)
    } else if opcode == 0xA {
        let (r, c, v) = add_with_carry(a, !b, 1);
        (r, c, v, false)
    } else if opcode == 0xB {
        let (r, c, v) = add_with_carry(a, b, 0);
        (r, c, v, false)
    } else if opcode == 0xC {
        (a | b, shifter_carry, v_in, true)
    } else if opcode == 0xD {
        (b, shifter_carry, v_in, true)
    } else if opcode == 0xE {
        (a & !b, shifter_carry, v_in, true)
    } else {
        (!b, shifter_carry, v_in, true)
    }
}

fn operand2(cpu: &Cpu, op: u32) -> (r: (u32, bool, u32))
    ensures
        r == dp_operand(cpu@, op),
{
    let carry_in = cpu.flag_c();
    let rn = reg_field(op, 16);
    if op & 0x0200_0000 != 0 {
        assert((op >> 8) & 0xF <= 15) by {
            crate::bits::lemma_bit_facts();
        }
        let rotate = ((op >> 8) & 0xF) * 2;
        let value = rotate_right(op & 0xFF, rotate);
        let carry = if rotate == 0 { carry_in } else { value >> 31 != 0 };
        (value, carry, cpu.reg(rn))
    } else {
        let by_register = op & 0x10 != 0;
        let rm = reg_field(op, 0);
        let rm_raw = cpu.reg(rm);
        let rn_raw = cpu.reg(rn);
        let rm_val = if rm == 15 && by_register { rm_raw.wrapping_add(4) } else { rm_raw };
        let rn_val = if rn == 15 && by_register { rn_raw.wrapping_add(4) } else { rn_raw };
        let ty = (op >> 5) & 3;
        let (value, carry) = if by_register {
            let amount = cpu.reg(reg_field(op, 8)) & 0xFF;
            shift_by_register(ty, rm_val, amount, carry_in)
        } else {
            shift_by_immediate(ty, rm_val, (op >> 7) & 0x1F, carry_in)
        };
        (value, carry, rn_val)
    }
}

/// The complete register effect of a data-processing instruction; `pipe`
/// is the refilled pipeline when it writes PC.
pub open spec fn dp_effect(v: CpuView, op: u32, pipe: Seq<u32>) -> CpuView {
    let opcode = (op >> 21) & 0xF;
    let set_flags = op & 0x0010_0000 != 0;
    let rd = rfield(op, 12);
    if !set_flags && 8 <= opcode <= 11 {
        // TST/TEQ/CMP/CMN without S are the PSR-transfer encodings; anything
        // reaching here in that shape is unpredictable and ignored.
        v
    } else {
        let v1 = if op & 0x0200_0000 == 0 && op & 0x10 != 0 { spec_add_cycles(v, 1) } else { v };
        let o = dp_operand(v, op);
        let r = spec_alu(opcode, o.2, o.0, o.1, v.cpsr & FLAG_C != 0, v.cpsr & FLAG_V != 0);
        let v2 = if set_flags {
            if rd == 15 {
                // <op>S with Rd = PC: exception return, CPSR from SPSR.
                spec_set_cpsr(v1, spec_spsr(v1))
            } else {
                spec_set_nz(spec_set_flag(spec_set_flag(v1, FLAG_C, r.1), FLAG_V, r.2), r.0)
            }
        } else {
            v1
        };
        if r.3 {
            if rd == 15 {
                spec_branch(v2, r.0, pipe)
            } else {
                spec_set_reg(v2, rd, r.0)
            }
        } else {
            v2
        }
    }
}

/// Whether a data-processing instruction writes its result to PC (and so
/// branches).
pub open spec fn dp_branches(v: CpuView, op: u32) -> bool {
    let opcode = (op >> 21) & 0xF;
    let o = dp_operand(v, op);
    let r = spec_alu(opcode, o.2, o.0, o.1, v.cpsr & FLAG_C != 0, v.cpsr & FLAG_V != 0);
    &&& !(op & 0x0010_0000 == 0 && 8 <= opcode <= 11)
    &&& r.3
    &&& rfield(op, 12) == 15
}

/// BIC: for Rd other than PC, the instruction leaves in Rd the value of Rn
/// with every bit that is set in operand 2 cleared (for an immediate
/// operand, the 8-bit constant rotated right by twice the rotate field),
/// and no other general register changes.
pub proof fn lemma_bic_clears_operand_bits(v: CpuView, op: u32, pipe: Seq<u32>)
    requires
        v.regs.len() == 16,
        (op >> 21) & 0xF == 0xE,
        rfield(op, 12) != 15,
    ensures
        ({
            let rd = rfield(op, 12);
            let w = dp_effect(v, op, pipe);
            let o = dp_operand(v, op);
            &&& w.regs[rd] == o.2 & !o.0
            &&& w.regs[rd] & o.0 == 0
            &&& forall|i: int| 0 <= i < 16 && i != rd ==> #[trigger] w.regs[i] == v.regs[i]
            &&& op & 0x0200_0000 != 0 && rfield(op, 16) != 15 ==> w.regs[rd] == v.regs[rfield(
                op,
                16,
            )] & !rotr(op & 0xFF, (((op >> 8) & 0xF) * 2) as u32)
        }),
{
    let o = dp_operand(v, op);
    let rd = rfield(op, 12);
    lemma_alu_results(o.2, o.0, o.1, v.cpsr & FLAG_C != 0, v.cpsr & FLAG_V != 0);
    assert(0 <= rd < 16 && rfield(op, 16) < 16) by {
        crate::bits::lemma_bit_facts();
    }
    let r = spec_alu(0xE, o.2, o.0, o.1, v.cpsr & FLAG_C != 0, v.cpsr & FLAG_V != 0);
    assert(r.3 && r.0 == o.2 & !o.0);
    assert(dp_effect(v, op, pipe).regs == v.regs.update(rd, r.0));
}

/// Flags of a data-processing instruction with the S bit and Rd other than
/// PC: N is set exactly when the result is negative (bit 31), Z exactly when
/// it is zero, C and V are those of the operation (for the logical opcodes
/// C is the shifter's carry-out and V is left as it was), and the rest of
/// CPSR is unchanged.
pub proof fn lemma_dp_flags(v: CpuView, op: u32, pipe: Seq<u32>)
    requires
        v.regs.len() == 16,
        op & 0x0010_0000 != 0,
        rfield(op, 12) != 15,
    ensures
        ({
            let opcode = (op >> 21) & 0xF;
            let o = dp_operand(v, op);
            let r = spec_alu(opcode, o.2, o.0, o.1, v.cpsr & FLAG_C != 0, v.cpsr & FLAG_V != 0);
            let w = dp_effect(v, op, pipe);
            &&& (w.cpsr & FLAG_N != 0) == (r.0 >= 0x8000_0000)
            &&& (w.cpsr & FLAG_Z != 0) == (r.0 == 0)
            &&& (w.cpsr & FLAG_C != 0) == r.1
            &&& (w.cpsr & FLAG_V != 0) == r.2
            &&& w.cpsr & 0x0FFF_FFFF == v.cpsr & 0x0FFF_FFFF
            &&& (opcode == 0 || opcode == 1 || opcode == 8 || opcode == 9 || opcode >= 0xC) ==> r.1
                == o.1 && r.2 == (v.cpsr & FLAG_V != 0)
        }),
{
    crate::bits::lemma_bit_identities();
    crate::bits::lemma_bit_facts();
    let opcode = (op >> 21) & 0xF;
    let o = dp_operand(v, op);
    let r = spec_alu(opcode, o.2, o.0, o.1, v.cpsr & FLAG_C != 0, v.cpsr & FLAG_V != 0);
    let v1 = if op & 0x0200_0000 == 0 && op & 0x10 != 0 { spec_add_cycles(v, 1) } else { v };
    assert(v1.cpsr == v.cpsr);
    let a = spec_set_flag(v1, FLAG_C, r.1);
    let b = spec_set_flag(a, FLAG_V, r.2);
    let c = spec_set_flag(b, FLAG_N, r.0 & 0x8000_0000 != 0);
    let d = spec_set_flag(c, FLAG_Z, r.0 == 0);
    assert(opcode <= 0xF);
    assert(dp_effect(v, op, pipe).cpsr == d.cpsr);
}

fn data_processing<B: Bus>(cpu: &mut Cpu, bus: &mut B, op: u32)
    requires
        old(bus).bus_inv(),
    ensures
        final(bus).bus_inv(),
        final(cpu)@ == dp_effect(old(cpu)@, op, final(cpu)@.pipeline),
        if dp_branches(old(cpu)@, op) {
            branch_refilled(*old(bus), final(cpu)@, *final(bus))
        } else {
            *final(bus) == *old(bus)
        },
{
    let opcode = (op >> 21) & 0xF;
    let set_flags = op & 0x0010_0000 != 0;
    if !set_flags && 8 <= opcode && opcode <= 11 {
        return;
    }
    let rd = reg_field(op, 12);
    let (operand, shifter_carry, rn_val) = operand2(cpu, op);
    if op & 0x0200_0000 == 0 && op & 0x10 != 0 {
        cpu.add_cycles(1);  // internal cycle for the register shift
    }
    let (result, carry, overflow, write_result) = alu(
        opcode,
        rn_val,
        operand,
        shifter_carry,
        cpu.flag_c(),
        cpu.flag_v(),
    );
    if set_flags {
        if rd == 15 {
            let spsr = cpu.spsr();
            cpu.set_cpsr(spsr);
        } else {
            cpu.set_flag(FLAG_C, carry);
            cpu.set_flag(FLAG_V, overflow);
            cpu.set_nz(result);
        }
    }
    if write_result {
        if rd == 15 {
            // branch_to honors the (possibly just-restored) T bit.
            cpu.branch_to(bus, result);
        } else {
            cpu.set_reg(rd, result);
        }
    }
}

// --------------------------------------------------------- PSR transfers

/// MRS: Rd gets the CPSR or the current SPSR.
pub open spec fn mrs_effect(v: CpuView, op: u32) -> CpuView {
    spec_set_reg(v, rfield(op, 12), if op & 0x0040_0000 != 0 { spec_spsr(v) } else { v.cpsr })
}

fn mrs(cpu: &mut Cpu, op: u32)
    ensures
        final(cpu)@ == mrs_effect(old(cpu)@, op),
{
    let rd = reg_field(op, 12);
    let value = if op & 0x0040_0000 != 0 {
        cpu.spsr()
    } else {
        cpu.cpsr()
    };
    cpu.set_reg(rd, value);
}

/// The PSR byte lanes an MSR writes (field mask bits 16–19).
pub open spec fn msr_mask(op: u32) -> u32 {
    (if op & 0x1_0000 != 0 { 0xFFu32 } else { 0 }) | (if op & 0x2_0000 != 0 { 0xFF00u32 } else { 0 })
        | (if op & 0x4_0000 != 0 { 0xFF_0000u32 } else { 0 }) | (if op & 0x8_0000 != 0 {
        0xFF00_0000u32
    } else {
        0
    })
}

/// The register effect of MSR.
pub open spec fn msr_effect(v: CpuView, op: u32, immediate: bool) -> CpuView {
    let value = if immediate {
        rotr(op & 0xFF, (((op >> 8) & 0xF) * 2) as u32)
    } else {
        v.regs[rfield(op, 0)]
    };
    let mask = msr_mask(op);
    if op & 0x0040_0000 != 0 {
        // SPSR write; ignored in User/System, which have no SPSR.
        spec_set_spsr(v, (spec_spsr(v) & !mask) | (value & mask))
    } else {
        // User mode may only touch the flag field; MSR never flips T.
        let m = if mode_of(v.cpsr) == Mode::User { mask & 0xF000_0000 } else { mask };
        let new = (v.cpsr & !m) | (value & m);
        spec_set_cpsr(v, (new & !FLAG_T) | (v.cpsr & FLAG_T))
    }
}

/// MSR never changes the instruction set: whatever it writes, the CPSR's T
/// bit keeps its value.
pub proof fn lemma_msr_keeps_thumb_bit(v: CpuView, op: u32, immediate: bool)
    ensures
        msr_effect(v, op, immediate).cpsr & FLAG_T == v.cpsr & FLAG_T,
{
    if op & 0x0040_0000 == 0 {
        let value = if immediate {
            rotr(op & 0xFF, (((op >> 8) & 0xF) * 2) as u32)
        } else {
            v.regs[rfield(op, 0)]
        };
        let mask = msr_mask(op);
        let m = if mode_of(v.cpsr) == Mode::User { mask & 0xF000_0000 } else { mask };
        let new = (v.cpsr & !m) | (value & m);
        let c = v.cpsr;
        let w = (new & !0x20u32) | (c & 0x20);
        assert(w & 0x20 == c & 0x20 && (((w & !0x1Fu32) | (c & 0x1F)) & 0x20) == c & 0x20)
            by (bit_vector)
            requires
                w == (new & !0x20u32) | (c & 0x20),
        ;
    }
}

fn msr(cpu: &mut Cpu, op: u32, immediate: bool)
    ensures
        final(cpu)@ == msr_effect(old(cpu)@, op, immediate),
{
    assert((op >> 8) & 0xF <= 15) by {
        crate::bits::lemma_bit_facts();
    }
    let value = if immediate {
        rotate_right(op & 0xFF, ((op >> 8) & 0xF) * 2)
    } else {
        cpu.reg(reg_field(op, 0))
    };
    let mask = (if op & 0x1_0000 != 0 { 0xFFu32 } else { 0 }) | (if op & 0x2_0000 != 0 {
        0xFF00u32
    } else {
        0
    }) | (if op & 0x4_0000 != 0 { 0xFF_0000u32 } else { 0 }) | (if op & 0x8_0000 != 0 {
        0xFF00_0000u32
    } else {
        0
    });
    if op & 0x0040_0000 != 0 {
        let new = (cpu.spsr() & !mask) | (value & mask);
        cpu.set_spsr(new);
    } else {
        let m = if cpu.mode().is_privileged() { mask } else { mask & 0xF000_0000 };
        let current = cpu.cpsr();
        let new = (current & !m) | (value & m);
        cpu.set_cpsr((new & !FLAG_T) | (current & FLAG_T));
    }
}

// ---------------------------------------------------------------- multiply

/// MUL/MLA: the result and the register effect.
pub open spec fn multiply_effect(v: CpuView, op: u32) -> CpuView {
    let rs_val = v.regs[rfield(op, 8)];
    let product = ((v.regs[rfield(op, 0)] * rs_val) % 0x1_0000_0000) as u32;
    let accumulate = op & 0x0020_0000 != 0;
    let result = if accumulate {
        ((product + v.regs[rfield(op, 12)]) % 0x1_0000_0000) as u32
    } else {
        product
    };
    let v1 = if accumulate { spec_add_cycles(v, 1) } else { v };
    let v2 = spec_set_reg(spec_add_cycles(v1, spec_multiplier_cycles(rs_val)), rfield(op, 16), result);
    // MULS: N and Z are set; C is meaningless on ARM7 and left unchanged.
    if op & 0x0010_0000 != 0 { spec_set_nz(v2, result) } else { v2 }
}

/// MUL and MLA: Rd becomes the product of Rm and Rs, plus Rn for MLA,
/// modulo 2^32; no other general register changes.
pub proof fn lemma_multiply_result(v: CpuView, op: u32)
    requires
        v.regs.len() == 16,
    ensures
        ({
            let rd = rfield(op, 16);
            let rm = v.regs[rfield(op, 0)];
            let rs = v.regs[rfield(op, 8)];
            let w = multiply_effect(v, op);
            &&& op & 0x0020_0000 == 0 ==> w.regs[rd] == (rm * rs) % 0x1_0000_0000
            &&& op & 0x0020_0000 != 0 ==> w.regs[rd] == (rm * rs + v.regs[rfield(op, 12)])
                % 0x1_0000_0000
            &&& forall|i: int| 0 <= i < 16 && i != rd ==> #[trigger] w.regs[i] == v.regs[i]
        }),
{
    let m: int = 0x1_0000_0000;
    let p = v.regs[rfield(op, 0)] * v.regs[rfield(op, 8)];
    assert(rfield(op, 16) < 16) by {
        crate::bits::lemma_bit_facts();
    }
    vstd::arithmetic::div_mod::lemma_add_mod_noop(p, v.regs[rfield(op, 12)] as int, m);
    vstd::arithmetic::div_mod::lemma_small_mod(v.regs[rfield(op, 12)] as nat, m as nat);
    vstd::arithmetic::div_mod::lemma_mod_bound(p, m);
    vstd::arithmetic::div_mod::lemma_mod_bound(p % m + v.regs[rfield(op, 12)], m);
}

fn multiply(cpu: &mut Cpu, op: u32)
    ensures
        final(cpu)@ == multiply_effect(old(cpu)@, op),
{
    let rd = reg_field(op, 16);
    let rn = reg_field(op, 12);
    let rs = reg_field(op, 8);
    let rm = reg_field(op, 0);
    let rs_val = cpu.reg(rs);
    let mut result = cpu.reg(rm).wrapping_mul(rs_val);
    if op & 0x0020_0000 != 0 {
        result = result.wrapping_add(cpu.reg(rn));  // MLA
        cpu.add_cycles(1);
    }
    cpu.add_cycles(multiplier_cycles(rs_val));
    cpu.set_reg(rd, result);
    if op & 0x0010_0000 != 0 {
        cpu.set_nz(result);
    }
}

/// A register read as a two's-complement integer.
pub open spec fn signed32(x: u32) -> int {
    if x >= 0x8000_0000 { x - 0x1_0000_0000 } else { x as int }
}

/// The 64-bit product of UMULL/SMULL (modulo 2^64).
pub open spec fn long_product(a: u32, b: u32, signed: bool) -> int {
    if signed {
        (signed32(a) * signed32(b)) % 0x1_0000_0000_0000_0000
    } else {
        a * b
    }
}

/// Long multiplies: the unsigned product of two registers is exact (it
/// always fits in 64 bits); the signed one is the product of the operands
/// read as two's-complement numbers, modulo 2^64; and both have the same
/// low word, the 32-bit product MUL gives.
pub proof fn lemma_long_product(a: u32, b: u32)
    ensures
        long_product(a, b, false) == a * b,
        0 <= long_product(a, b, false) < 0x1_0000_0000_0000_0000,
        long_product(a, b, true) == ({
            let sa: int = if a >= 0x8000_0000 { a - 0x1_0000_0000 } else { a as int };
            let sb: int = if b >= 0x8000_0000 { b - 0x1_0000_0000 } else { b as int };
            (sa * sb) % 0x1_0000_0000_0000_0000
        }),
        long_product(a, b, true) % 0x1_0000_0000 == (a * b) % 0x1_0000_0000,
        long_product(a, b, false) % 0x1_0000_0000 == (a * b) % 0x1_0000_0000,
{
    let m: int = 0x1_0000_0000;
    let sa = signed32(a);
    let sb = signed32(b);
    let ka: int = if a >= 0x8000_0000 { 1 } else { 0 };
    let kb: int = if b >= 0x8000_0000 { 1 } else { 0 };
    assert(0 <= a * b <= 0xFFFF_FFFF * 0xFFFF_FFFF) by (nonlinear_arith);
    assert(sa == a - m * ka && sb == b - m * kb);
    let k: int = ka * kb * m - ka * b - kb * a;
    assert(sa * sb == m * k + a * b) by (nonlinear_arith)
        requires
            sa == a - m * ka,
            sb == b - m * kb,
            k == ka * kb * m - ka * b - kb * a,
    ;
    vstd::arithmetic::div_mod::lemma_mod_mod(sa * sb, m, m);
    assert(m * m == 0x1_0000_0000_0000_0000);
    vstd::arithmetic::div_mod::lemma_mod_multiples_vanish(k, a * b, m);
}

/// UMULL/SMULL/UMLAL/SMLAL: the 64-bit result RdHi:RdLo.
pub open spec fn long_result(v: CpuView, op: u32) -> int {
    let p = long_product(v.regs[rfield(op, 0)], v.regs[rfield(op, 8)], op & 0x0040_0000 != 0);
    if op & 0x0020_0000 != 0 {
        (p + v.regs[rfield(op, 16)] * 0x1_0000_0000 + v.regs[rfield(op, 12)])
            % 0x1_0000_0000_0000_0000
    } else {
        p
    }
}

pub open spec fn multiply_long_effect(v: CpuView, op: u32) -> CpuView {
    let result = long_result(v, op);
    let b = v.regs[rfield(op, 8)];
    let v1 = if op & 0x0020_0000 != 0 { spec_add_cycles(v, 1) } else { v };
    let v2 = spec_add_cycles(v1, (spec_multiplier_cycles(b) + 1) as u64);
    let v3 = spec_set_reg(
        spec_set_reg(v2, rfield(op, 12), (result % 0x1_0000_0000) as u32),
        rfield(op, 16),
        (result / 0x1_0000_0000) as u32,
    );
    if op & 0x0010_0000 != 0 {
        spec_set_flag(
            spec_set_flag(v3, FLAG_N, result >= 0x8000_0000_0000_0000),
            FLAG_Z,
            result == 0,
        )
    } else {
        v3
    }
}

/// Exact 64-bit product of two registers, signed or unsigned.
fn product64(a: u32, b: u32, signed: bool) -> (r: u64)
    ensures
        r == long_product(a, b, signed),
{
    if signed {
        let neg_a = a >= 0x8000_0000;
        let neg_b = b >= 0x8000_0000;
        let mag_a: u64 = if neg_a { 0x1_0000_0000u64 - a as u64 } else { a as u64 };
        let mag_b: u64 = if neg_b { 0x1_0000_0000u64 - b as u64 } else { b as u64 };
        assert(mag_a * mag_b <= 0x4000_0000_0000_0000) by (nonlinear_arith)
            requires
                mag_a <= 0x8000_0000,
                mag_b <= 0x8000_0000,
        ;
        let mag = mag_a * mag_b;
        proof {
            let sa = signed32(a);
            let sb = signed32(b);
            if neg_a == neg_b {
                assert(sa * sb == mag_a * mag_b) by (nonlinear_arith)
                    requires
                        (sa == mag_a as int && sb == mag_b as int) || (sa == -(mag_a as int)
                            && sb == -(mag_b as int)),
                ;
            } else {
                assert(sa * sb == -(mag_a * mag_b)) by (nonlinear_arith)
                    requires
                        (sa == mag_a as int && sb == -(mag_b as int)) || (sa == -(mag_a as int)
                            && sb == mag_b as int),
                ;
            }
        }
        if neg_a != neg_b && mag != 0 {
            0u64.wrapping_sub(mag)
        } else {
            mag
        }
    } else {
        assert(a as u64 * b as u64 <= 0xFFFF_FFFE_0000_0001) by (nonlinear_arith)
            requires
                a <= 0xFFFF_FFFF,
                b <= 0xFFFF_FFFF,
        ;
        a as u64 * b as u64
    }
}

fn multiply_long(cpu: &mut Cpu, op: u32)
    ensures
        final(cpu)@ == multiply_long_effect(old(cpu)@, op),
{
    let rd_hi = reg_field(op, 16);
    let rd_lo = reg_field(op, 12);
    let rs = reg_field(op, 8);
    let rm = reg_field(op, 0);
    let a = cpu.reg(rm);
    let b = cpu.reg(rs);
    let mut result = product64(a, b, op & 0x0040_0000 != 0);
    if op & 0x0020_0000 != 0 {
        // UMLAL/SMLAL: accumulate onto RdHi:RdLo.
        let acc = ((cpu.reg(rd_hi) as u64) << 32) | (cpu.reg(rd_lo) as u64);
        let hi = cpu.reg(rd_hi);
        let lo = cpu.reg(rd_lo);
        assert(((hi as u64) << 32) | (lo as u64) == hi as u64 * 0x1_0000_0000 + lo as u64)
            by (bit_vector);
        result = result.wrapping_add(acc);
        cpu.add_cycles(1);
    }
    cpu.add_cycles(multiplier_cycles(b) + 1);
    let lo_word = (result & 0xFFFF_FFFF) as u32;
    let hi_word = (result >> 32) as u32;
    assert(result & 0xFFFF_FFFF == result % 0x1_0000_0000) by {
        crate::bits::lemma_bit_facts();
    }
    assert(result >> 32 == result / 0x1_0000_0000) by {
        crate::bits::lemma_bit_facts();
    }
    cpu.set_reg(rd_lo, lo_word);
    cpu.set_reg(rd_hi, hi_word);
    if op & 0x0010_0000 != 0 {
        cpu.set_flag(FLAG_N, result >> 63 != 0);
        cpu.set_flag(FLAG_Z, result == 0);
        assert((result >> 63 != 0) == (result >= 0x8000_0000_0000_0000)) by {
            crate::bits::lemma_bit_facts();
        }
    }
}

// ------------------------------------------------------------ loads/stores

/// A register written by a load: PC loads branch (refilling the pipeline
/// with `pipe`), any other register simply takes the value.
pub open spec fn load_into(v: CpuView, rd: int, value: u32, pipe: Seq<u32>) -> CpuView {
    if rd == 15 {
        spec_branch(v, value, pipe)
    } else {
        spec_set_reg(v, rd, value)
    }
}

/// `(transfer address, offset address, writes back)` of a single or
/// halfword transfer with base value `base` and unsigned offset `offset`.
pub open spec fn xfer_addresses(base: u32, offset: u32, op: u32) -> (u32, u32, bool) {
    let pre_index = op & 0x0100_0000 != 0;
    let up = op & 0x0080_0000 != 0;
    let offset_addr = if up {
        ((base + offset) % 0x1_0000_0000) as u32
    } else {
        ((base - offset) % 0x1_0000_0000) as u32
    };
    // Post-indexed transfers always write back.
    (if pre_index { offset_addr } else { base }, offset_addr, !pre_index || op & 0x0020_0000 != 0)
}

/// Base-register writeback (never to PC).
pub open spec fn writeback(v: CpuView, rn: int, addr: u32, enabled: bool) -> CpuView {
    if enabled && rn != 15 {
        spec_set_reg(v, rn, addr)
    } else {
        v
    }
}

fn addresses(base: u32, offset: u32, op: u32) -> (r: (u32, u32, bool))
    ensures
        r == xfer_addresses(base, offset, op),
{
    let pre_index = op & 0x0100_0000 != 0;
    let offset_addr = if op & 0x0080_0000 != 0 {
        base.wrapping_add(offset)
    } else {
        base.wrapping_sub(offset)
    };
    (if pre_index { offset_addr } else { base }, offset_addr, !pre_index || op & 0x0020_0000 != 0)
}

/// The offset of LDR/STR: a 12-bit immediate or an immediate-shifted Rm.
pub open spec fn single_offset(v: CpuView, op: u32) -> u32 {
    if op & 0x0200_0000 != 0 {
        imm_shift((op >> 5) & 3, v.regs[rfield(op, 0)], (op >> 7) & 0x1F, v.cpsr & FLAG_C != 0).0
    } else {
        op & 0xFFF
    }
}

/// SWP/SWPB, register side: Rd receives a value (below 0x100 for SWPB)
/// after one internal cycle; `swap_mem` ties the value to the bus.
pub open spec fn swap_done(v: CpuView, op: u32, w: CpuView) -> bool {
    exists|value: u32|
        (op & 0x0040_0000 != 0 ==> value < 0x100) && w == #[trigger] spec_set_reg(
            spec_add_cycles(v, 1),
            rfield(op, 12),
            value,
        )
}

/// A byte or word load from `addr` that returned `value`: with the B bit
/// of `op`, the byte read there; else the rotated aligned word.
pub open spec fn single_loaded<B: BusModel>(b0: B, addr: u32, op: u32, value: u32, b1: B) -> bool {
    if op & 0x0040_0000 != 0 {
        value < 0x100 && b0.read_did(addr, Width::Byte, value, b1)
    } else {
        word_loaded(b0, addr, value, b1)
    }
}

/// The value a store of register `rd` writes: PC + 12 for r15.
pub open spec fn store_value(v: CpuView, rd: int) -> u32 {
    if rd == 15 {
        ((v.regs[15] + 4) % 0x1_0000_0000) as u32
    } else {
        v.regs[rd]
    }
}

/// SWP/SWPB against the bus: the old value is read at Rn (a byte, or the
/// rotated word), then Rm is written there (its low byte, or the aligned
/// word), and Rd takes the value read.
pub open spec fn swap_mem<B: BusModel>(v: CpuView, b0: B, op: u32, w: CpuView, b1: B) -> bool {
    let addr = v.regs[rfield(op, 16)];
    let store = v.regs[rfield(op, 0)];
    let byte = op & 0x0040_0000 != 0;
    exists|value: u32, mid: B|
        #[trigger] single_loaded(b0, addr, op, value, mid) && w == spec_set_reg(
            spec_add_cycles(v, 1),
            rfield(op, 12),
            value,
        ) && if byte {
            mid.write_did(addr, Width::Byte, store & 0xFF, b1)
        } else {
            word_written(mid, addr & !3u32, store, b1)
        }
}

fn swap<B: Bus>(cpu: &mut Cpu, bus: &mut B, op: u32)
    requires
        old(bus).bus_inv(),
    ensures
        final(bus).bus_inv(),
        swap_done(old(cpu)@, op, final(cpu)@),
        swap_mem(old(cpu)@, *old(bus), op, final(cpu)@, *final(bus)),
{
    let rn = reg_field(op, 16);
    let rd = reg_field(op, 12);
    let rm = reg_field(op, 0);
    let addr = cpu.reg(rn);
    let store = cpu.reg(rm);
    // Read-before-write makes Rd == Rm == Rn behave like hardware.
    let ghost b0 = *bus;
    let ghost mut mid = *bus;
    let old_value = if op & 0x0040_0000 != 0 {
        let b = bus.read8(addr);  // SWPB
        proof {
            mid = *bus;
        }
        bus.write8(addr, (store & 0xFF) as u8);
        assert(((store & 0xFF) as u8) as u32 == store & 0xFF) by {
        crate::bits::lemma_alignment();
    }
        b as u32
    } else {
        let w = load32_rotated(bus, addr);  // SWP
        proof {
            mid = *bus;
        }
        bus.write32(addr & !3u32, store);
        assert((addr & !3u32) & !3u32 == addr & !3u32) by {
        crate::bits::lemma_alignment();
    }
        w
    };
    cpu.add_cycles(1);
    cpu.set_reg(rd, old_value);
    assert(single_loaded(b0, addr, op, old_value, mid));
}

/// LDR/STR(B), register side: the base is written back as addressed; a
/// load then puts a value (below 0x100 for LDRB) into Rd after one
/// internal cycle. `single_mem` ties the value to the bus.
pub open spec fn single_done(v: CpuView, op: u32, w: CpuView) -> bool {
    let a = xfer_addresses(v.regs[rfield(op, 16)], single_offset(v, op), op);
    let wb = writeback(v, rfield(op, 16), a.1, a.2);
    if op & 0x0010_0000 != 0 {
        exists|value: u32|
            (op & 0x0040_0000 != 0 ==> value < 0x100) && w == #[trigger] load_into(
                spec_add_cycles(wb, 1),
                rfield(op, 12),
                value,
                w.pipeline,
            )
    } else {
        w == wb
    }
}

/// A load's register side against the bus: `value` was loaded (taking the
/// bus to `mid`); a load into r15 then refills the pipeline from it.
pub open spec fn load_landed<B: BusModel>(
    v: CpuView,
    wb: CpuView,
    rd: int,
    value: u32,
    mid: B,
    w: CpuView,
    b1: B,
) -> bool {
    &&& w == load_into(spec_add_cycles(wb, 1), rd, value, w.pipeline)
    &&& if rd == 15 {
        refilled(mid, value, thumb_state(v.cpsr), w.pipeline, b1)
    } else {
        b1 == mid
    }
}

/// LDR/STR(B) against the bus. A load reads its value at the transfer
/// address (the byte for LDRB, the rotated aligned word for LDR), and only
/// a load into r15 touches the bus again, to refill; a store writes Rd
/// (PC + 12 for r15) there, as its low byte or as an aligned word.
pub open spec fn single_mem<B: BusModel>(v: CpuView, b0: B, op: u32, w: CpuView, b1: B) -> bool {
    let a = xfer_addresses(v.regs[rfield(op, 16)], single_offset(v, op), op);
    let wb = writeback(v, rfield(op, 16), a.1, a.2);
    let rd = rfield(op, 12);
    let value = store_value(v, rd);
    if op & 0x0010_0000 != 0 {
        exists|loaded: u32, mid: B|
            #[trigger] single_loaded(b0, a.0, op, loaded, mid) && load_landed(
                v,
                wb,
                rd,
                loaded,
                mid,
                w,
                b1,
            )
    } else if op & 0x0040_0000 != 0 {
        b0.write_did(a.0, Width::Byte, value & 0xFF, b1)
    } else {
        word_written(b0, a.0 & !3u32, value, b1)
    }
}

fn single_transfer<B: Bus>(cpu: &mut Cpu, bus: &mut B, op: u32)
    requires
        old(bus).bus_inv(),
    ensures
        final(bus).bus_inv(),
        single_done(old(cpu)@, op, final(cpu)@),
        single_mem(old(cpu)@, *old(bus), op, final(cpu)@, *final(bus)),
{
    let byte = op & 0x0040_0000 != 0;
    let load = op & 0x0010_0000 != 0;
    let rn = reg_field(op, 16);
    let rd = reg_field(op, 12);
    let offset = if op & 0x0200_0000 != 0 {
        // Shifted register offset (immediate shift amounts only).
        let rm_val = cpu.reg(reg_field(op, 0));
        let (value, _) = shift_by_immediate((op >> 5) & 3, rm_val, (op >> 7) & 0x1F, cpu.flag_c());
        value
    } else {
        op & 0xFFF
    };
    let base = cpu.reg(rn);
    let (addr, offset_addr, do_writeback) = addresses(base, offset, op);
    let ghost v0 = cpu@;
    assert(offset == single_offset(v0, op));
    assert(base == v0.regs[rfield(op, 16)]);
    let ghost b0 = *bus;
    if load {
        let value = if byte {
            bus.read8(addr) as u32
        } else {
            load32_rotated(bus, addr)
        };
        let ghost mid = *bus;
        assert(single_loaded(b0, addr, op, value, mid));
        // Writeback happens first; a load into the base register wins.
        if do_writeback && rn != 15 {
            cpu.set_reg(rn, offset_addr);
        }
        cpu.add_cycles(1);
        let ghost before = cpu@;
        if rd == 15 {
            cpu.branch_to(bus, value);
        } else {
            cpu.set_reg(rd, value);
        }
        proof {
            let wb = writeback(v0, rfield(op, 16), offset_addr, do_writeback);
            assert(before == spec_add_cycles(wb, 1));
            assert(cpu@ == load_into(before, rd as int, value, cpu@.pipeline));
            assert(byte ==> value < 0x100);
        }
    } else {
        // STR of PC stores instruction address + 12 (prefetch quirk).
        let value = if rd == 15 {
            cpu.reg(15).wrapping_add(4)
        } else {
            cpu.reg(rd)
        };
        if byte {
            bus.write8(addr, (value & 0xFF) as u8);
            assert(((value & 0xFF) as u8) as u32 == value & 0xFF) by {
        crate::bits::lemma_alignment();
    }
        } else {
            bus.write32(addr & !3u32, value);
            assert((addr & !3u32) & !3u32 == addr & !3u32) by {
        crate::bits::lemma_alignment();
    }
        }
        let ghost before = cpu@;
        if do_writeback && rn != 15 {
            cpu.set_reg(rn, offset_addr);
        }
        proof {
            assert(before == v0);
            assert(cpu@ == writeback(before, rn as int, offset_addr, do_writeback));
            assert(cpu@ == writeback(v0, rfield(op, 16), offset_addr, do_writeback));
        }
    }
}

/// The offset of a halfword transfer: split 8-bit immediate or Rm.
pub open spec fn halfword_offset(v: CpuView, op: u32) -> u32 {
    if op & 0x0040_0000 != 0 {
        ((op >> 4) & 0xF0) | (op & 0xF)
    } else {
        v.regs[rfield(op, 0)]
    }
}

/// LDRH/STRH/LDRSB/LDRSH: as a single transfer, with LDRSB loading a
/// sign-extended byte; SH = 0 is a leftover multiply pattern and is ignored.
pub open spec fn halfword_done(v: CpuView, op: u32, w: CpuView) -> bool {
    let a = xfer_addresses(v.regs[rfield(op, 16)], halfword_offset(v, op), op);
    let wb = writeback(v, rfield(op, 16), a.1, a.2);
    let sh = (op >> 5) & 3;
    if sh == 0 {
        w == v
    } else if op & 0x0010_0000 != 0 {
        exists|value: u32|
            (sh == 2 ==> exists|b: u8| value == #[trigger] sext8(b)) && w == #[trigger] load_into(
                spec_add_cycles(wb, 1),
                rfield(op, 12),
                value,
                w.pipeline,
            )
    } else {
        w == wb
    }
}

/// A halfword-class load from `addr` that returned `value`, by the SH
/// field of `op`: LDRH the rotated halfword, LDRSB the sign-extended byte,
/// LDRSH the sign-extended halfword (a signed byte at an odd address).
pub open spec fn halfword_loaded<B: BusModel>(b0: B, addr: u32, op: u32, value: u32, b1: B) -> bool {
    let sh = (op >> 5) & 3;
    if sh == 1 {
        half_loaded(b0, addr, value, b1)
    } else if sh == 2 {
        exists|b: u32|
            b < 0x100 && #[trigger] b0.read_did(addr, Width::Byte, b, b1) && value == sext8(b as u8)
    } else {
        signed_half_loaded(b0, addr, value, b1)
    }
}

/// LDRH/STRH/LDRSB/LDRSH against the bus: a load as for LDR with its own
/// widths; STRH writes the low half of Rd (PC + 12 for r15) as an aligned
/// halfword; SH = 0, and the SH = 2/3 stores, leave the bus alone.
pub open spec fn halfword_mem<B: BusModel>(v: CpuView, b0: B, op: u32, w: CpuView, b1: B) -> bool {
    let a = xfer_addresses(v.regs[rfield(op, 16)], halfword_offset(v, op), op);
    let wb = writeback(v, rfield(op, 16), a.1, a.2);
    let rd = rfield(op, 12);
    let sh = (op >> 5) & 3;
    if sh == 0 {
        b1 == b0
    } else if op & 0x0010_0000 != 0 {
        exists|loaded: u32, mid: B|
            #[trigger] halfword_loaded(b0, a.0, op, loaded, mid) && load_landed(
                v,
                wb,
                rd,
                loaded,
                mid,
                w,
                b1,
            )
    } else if sh == 1 {
        half_written(b0, a.0 & !1u32, (store_value(v, rd) & 0xFFFF) as u16, b1)
    } else {
        b1 == b0
    }
}

fn halfword_transfer<B: Bus>(cpu: &mut Cpu, bus: &mut B, op: u32)
    requires
        old(bus).bus_inv(),
    ensures
        final(bus).bus_inv(),
        halfword_done(old(cpu)@, op, final(cpu)@),
        halfword_mem(old(cpu)@, *old(bus), op, final(cpu)@, *final(bus)),
{
    let load = op & 0x0010_0000 != 0;
    let rn = reg_field(op, 16);
    let rd = reg_field(op, 12);
    let sh = (op >> 5) & 3;
    if sh == 0 {
        return;
    }
    let offset = if op & 0x0040_0000 != 0 {
        ((op >> 4) & 0xF0) | (op & 0xF)
    } else {
        cpu.reg(reg_field(op, 0))
    };
    let base = cpu.reg(rn);
    let (addr, offset_addr, do_writeback) = addresses(base, offset, op);
    let ghost v0 = cpu@;
    assert(offset == halfword_offset(v0, op));
    assert(base == v0.regs[rfield(op, 16)]);
    let ghost b0 = *bus;
    if load {
        let ghost mut witness: u8 = 0;
        let value = if sh == 1 {
            load16_rotated(bus, addr)  // LDRH
        } else if sh == 2 {
            let b = bus.read8(addr);  // LDRSB
            proof {
                witness = b;
            }
            sign_extend8(b)
        } else {
            load16_signed(bus, addr)  // LDRSH
        };
        let ghost mid = *bus;
        proof {
            if sh == 2 {
                assert((witness as u32) as u8 == witness);
            }
        }
        assert(halfword_loaded(b0, addr, op, value, mid));
        if do_writeback && rn != 15 {
            cpu.set_reg(rn, offset_addr);
        }
        cpu.add_cycles(1);
        let ghost before = cpu@;
        if rd == 15 {
            cpu.branch_to(bus, value);
        } else {
            cpu.set_reg(rd, value);
        }
        proof {
            let wb = writeback(v0, rfield(op, 16), offset_addr, do_writeback);
            assert(before == spec_add_cycles(wb, 1));
            assert(cpu@ == load_into(before, rd as int, value, cpu@.pipeline));
            if sh == 2 {
                assert(value == sext8(witness));
            }
        }
    } else {
        if sh == 1 {
            // STRH; SH = 2/3 stores are ARMv5 doubleword ops, ignored on ARM7.
            let value = if rd == 15 {
                cpu.reg(15).wrapping_add(4)
            } else {
                cpu.reg(rd)
            };
            bus.write16(addr & !1u32, (value & 0xFFFF) as u16);
            assert((addr & !1u32) & !1u32 == addr & !1u32) by {
        crate::bits::lemma_alignment();
    }
        }
        let ghost before = cpu@;
        if do_writeback && rn != 15 {
            cpu.set_reg(rn, offset_addr);
        }
        proof {
            assert(before == v0);
            assert(cpu@ == writeback(v0, rfield(op, 16), offset_addr, do_writeback));
        }
    }
}

// ---------------------------------------------------------- block transfers

/// Number of set bits among the low `n` bits of `x`.
pub open spec fn bit_count(x: u32, n: nat) -> nat
    decreases n,
{
    if n == 0 {
        0
    } else {
        bit_count(x, (n - 1) as nat) + (if (x >> (n - 1) as u32) & 1 != 0 { 1nat } else { 0nat })
    }
}

/// Population count of a 16-bit register list.
pub fn count_bits16(list: u32) -> (r: u32)
    ensures
        r == bit_count(list, 16),
        r <= 16,
{
    let mut count: u32 = 0;
    let mut i: u32 = 0;
    while i < 16
        invariant
            i <= 16,
            count == bit_count(list, i as nat),
            count <= i,
        decreases 16 - i,
    {
        if (list >> i) & 1 != 0 {
            count = count + 1;
        }
        i = i + 1;
    }
    count
}

/// The base written back by LDM/STM: moved by 4 bytes per register (0x40
/// for the empty-list quirk) in the transfer direction.
pub open spec fn block_new_base(base: u32, op: u32) -> u32 {
    let list = op & 0xFFFF;
    let count: int = if list == 0 { 16 } else { bit_count(list, 16) as int };
    if op & 0x0080_0000 != 0 {
        ((base + 4 * count) % 0x1_0000_0000) as u32
    } else {
        ((base - 4 * count) % 0x1_0000_0000) as u32
    }
}

/// LDM/STM. STM only reads registers: all that changes is the base. An LDM
/// with a plain register list (no PC, no S bit) keeps the registers outside
/// the list; the base takes the written-back address unless it was itself
/// loaded.
pub open spec fn block_done(v: CpuView, op: u32, w: CpuView) -> bool {
    let rn = rfield(op, 16);
    let wb = op & 0x0020_0000 != 0;
    let new_base = block_new_base(v.regs[rn], op);
    if op & 0x0010_0000 == 0 {
        w == writeback(v, rn, new_base, wb)
    } else {
        op & 0x0040_0000 == 0 && op & 0x8000 == 0 && op & 0xFFFF != 0 ==> {
            &&& w.cpsr == v.cpsr
            &&& w.regs.len() == 16
            &&& w.regs[15] == v.regs[15]
            &&& forall|i: int|
                0 <= i < 15 && (op >> i as u32) & 1 == 0 && !(wb && i == rn) ==> (
                #[trigger] w.regs[i]) == v.regs[i]
            &&& (wb && rn != 15 && (op >> rn as u32) & 1 == 0) ==> w.regs[rn] == new_base
        }
    }
}

/// The registers a block transfer moves (an empty list moves r15 alone).
pub open spec fn block_list(op: u32) -> u32 {
    if op & 0xFFFF == 0 {
        0x8000
    } else {
        op & 0xFFFF
    }
}

/// The lowest address a block transfer touches: transfers always run from
/// the lowest address upward; the decrementing modes just start lower.
pub open spec fn block_start(base: u32, op: u32) -> u32 {
    let count: int = if op & 0xFFFF == 0 { 16 } else { bit_count(op & 0xFFFF, 16) as int };
    let pre = op & 0x0100_0000 != 0;
    let up = op & 0x0080_0000 != 0;
    if !pre && up {
        base
    } else if pre && up {
        addr_plus(base, 4)
    } else if !pre && !up {
        addr_plus(base, 4 - 4 * count)
    } else {
        addr_plus(base, -4 * count)
    }
}

/// Where register `i` of the list goes: one word per listed register below
/// it, from the start address.
pub open spec fn block_slot(base: u32, op: u32, i: nat) -> u32 {
    addr_plus(block_start(base, op), 4 * bit_count(block_list(op), i) as int) & !3u32
}

/// The word STM stores for listed register `i`: PC + 12 for r15; for the
/// base register with writeback, the old base when it is the first one
/// stored and the written-back base otherwise; else the register (as User
/// mode sees it, with the S bit).
pub open spec fn stm_value(v: CpuView, op: u32, i: nat) -> u32 {
    let rn = rfield(op, 16);
    if i == 15 {
        ((v.regs[15] + 4) % 0x1_0000_0000) as u32
    } else if i == rn && op & 0x0020_0000 != 0 && bit_count(block_list(op), i) != 0 {
        block_new_base(v.regs[rn], op)
    } else if op & 0x0040_0000 != 0 {
        spec_reg_user(v, i as int)
    } else {
        v.regs[i as int]
    }
}

/// The bus after STM has stored the listed registers below `k`, in order.
pub open spec fn stm_stored<B: BusModel>(b0: B, v: CpuView, op: u32, k: nat, b1: B) -> bool
    decreases k,
{
    if k == 0 {
        b1 == b0
    } else {
        let i = (k - 1) as nat;
        if (block_list(op) >> i as u32) & 1 == 0 {
            stm_stored(b0, v, op, i, b1)
        } else {
            exists|mid: B|
                stm_stored(b0, v, op, i, mid) && #[trigger] word_written(
                    mid,
                    block_slot(v.regs[rfield(op, 16)], op, i),
                    stm_value(v, op, i),
                    b1,
                )
        }
    }
}

/// The bus after LDM has read the listed registers below `k`, in order,
/// register `i` reading `vals[i]` from its slot.
pub open spec fn ldm_read<B: BusModel>(
    b0: B,
    base: u32,
    op: u32,
    vals: Seq<u32>,
    k: nat,
    b1: B,
) -> bool
    decreases k,
{
    if k == 0 {
        b1 == b0
    } else {
        let i = (k - 1) as nat;
        if (block_list(op) >> i as u32) & 1 == 0 {
            ldm_read(b0, base, op, vals, i, b1)
        } else {
            exists|mid: B|
                ldm_read(b0, base, op, vals, i, mid) && #[trigger] word_read(
                    mid,
                    block_slot(base, op, i),
                    vals[i as int],
                    b1,
                )
        }
    }
}

/// The registers after LDM has loaded the listed ones below `k` (never r15)
/// with `vals` (into the User-mode bank when `user`).
pub open spec fn ldm_regs(v: CpuView, op: u32, vals: Seq<u32>, user: bool, k: nat) -> CpuView
    decreases k,
{
    if k == 0 {
        v
    } else {
        let i = (k - 1) as nat;
        let u = ldm_regs(v, op, vals, user, i);
        if i < 15 && (block_list(op) >> i as u32) & 1 != 0 {
            if user {
                spec_set_reg_user(u, i as int, vals[i as int])
            } else {
                spec_set_reg(u, i as int, vals[i as int])
            }
        } else {
            u
        }
    }
}

/// LDM/STM against the bus. STM stores every listed register in order and
/// only writes back the base. LDM writes back the base first, then loads
/// the listed registers from the words read (the User bank with the S bit
/// and no r15); loading r15 (with the S bit, after restoring CPSR from
/// SPSR) branches there, refilling from the bus; one internal cycle.
pub open spec fn block_mem<B: BusModel>(v: CpuView, b0: B, op: u32, w: CpuView, b1: B) -> bool {
    let rn = rfield(op, 16);
    let base = v.regs[rn];
    let list = block_list(op);
    let wb = op & 0x0020_0000 != 0;
    let s_bit = op & 0x0040_0000 != 0;
    let pc = (list >> 15u32) & 1 != 0;
    if op & 0x0010_0000 == 0 {
        stm_stored(b0, v, op, 16, b1) && w == writeback(v, rn, block_new_base(base, op), wb)
    } else {
        exists|vals: Seq<u32>, mid: B|
            #![trigger ldm_read(b0, base, op, vals, 15, mid)]
            vals.len() == 16 && ldm_read(b0, base, op, vals, 15, mid) && {
                let u = ldm_regs(
                    writeback(v, rn, block_new_base(base, op), wb),
                    op,
                    vals,
                    s_bit && !pc,
                    15,
                );
                if pc {
                    exists|mid2: B|
                        #[trigger] word_read(mid, block_slot(base, op, 15), vals[15], mid2)
                            && refilled(
                            mid2,
                            vals[15],
                            thumb_state((if s_bit { spec_set_cpsr(u, spec_spsr(u)) } else { u }).cpsr),
                            w.pipeline,
                            b1,
                        ) && w == spec_add_cycles(
                            spec_branch(
                                if s_bit { spec_set_cpsr(u, spec_spsr(u)) } else { u },
                                vals[15],
                                w.pipeline,
                            ),
                            1,
                        )
                } else {
                    b1 == mid && w == spec_add_cycles(u, 1)
                }
            }
    }
}

proof fn lemma_ldm_regs_prefix(
    v: CpuView,
    op: u32,
    vals: Seq<u32>,
    vals2: Seq<u32>,
    user: bool,
    k: nat,
)
    requires
        forall|j: int| 0 <= j < k ==> vals[j] == vals2[j],
    ensures
        ldm_regs(v, op, vals, user, k) == ldm_regs(v, op, vals2, user, k),
    decreases k,
{
    if k > 0 {
        lemma_ldm_regs_prefix(v, op, vals, vals2, user, (k - 1) as nat);
    }
}

proof fn lemma_ldm_read_prefix<B: BusModel>(
    b0: B,
    base: u32,
    op: u32,
    vals: Seq<u32>,
    vals2: Seq<u32>,
    k: nat,
    b1: B,
)
    requires
        forall|j: int| 0 <= j < k ==> vals[j] == vals2[j],
        ldm_read(b0, base, op, vals, k, b1),
    ensures
        ldm_read(b0, base, op, vals2, k, b1),
    decreases k,
{
    if k > 0 {
        let i = (k - 1) as nat;
        if (block_list(op) >> i as u32) & 1 == 0 {
            lemma_ldm_read_prefix(b0, base, op, vals, vals2, i, b1);
        } else {
            let mid: B = choose|mid: B|
                ldm_read(b0, base, op, vals, i, mid) && #[trigger] word_read(
                    mid,
                    block_slot(base, op, i),
                    vals[i as int],
                    b1,
                );
            lemma_ldm_read_prefix(b0, base, op, vals, vals2, i, mid);
            assert(word_read(mid, block_slot(base, op, i), vals2[i as int], b1));
        }
    }
}


/// STM's stores: every listed register, lowest first, one word each from
/// `start` upward.
fn stm_words<B: Bus>(cpu: &Cpu, bus: &mut B, op: u32, list: u32, start: u32, new_base: u32)
    requires
        old(bus).bus_inv(),
        list == block_list(op),
        start == block_start(cpu@.regs[rfield(op, 16)], op),
        new_base == block_new_base(cpu@.regs[rfield(op, 16)], op),
        cpu@.regs.len() == 16,
    ensures
        final(bus).bus_inv(),
        stm_stored(*old(bus), cpu@, op, 16, *final(bus)),
{
    let rn = reg_field(op, 16);
    let writeback = op & 0x0020_0000 != 0;
    let user_bank = op & 0x0040_0000 != 0;
    let ghost b0 = *bus;
    let mut stored = false;
    let mut addr = start;
    let mut i: usize = 0;
    while i < 16
        invariant
            bus.bus_inv(),
            i <= 16,
            cpu@.regs.len() == 16,
            list == block_list(op),
            start == block_start(cpu@.regs[rfield(op, 16)], op),
            rn as int == rfield(op, 16),
            new_base == block_new_base(cpu@.regs[rfield(op, 16)], op),
            writeback == (op & 0x0020_0000 != 0),
            user_bank == (op & 0x0040_0000 != 0),
            addr == addr_plus(start, 4 * bit_count(list, i as nat) as int),
            stored == (bit_count(list, i as nat) != 0),
            stm_stored(b0, cpu@, op, i as nat, *bus),
        decreases 16 - i,
    {
        let ghost before = *bus;
        if (list >> (i as u32)) & 1 != 0 {
            let value = if i == 15 {
                cpu.reg(15).wrapping_add(4)  // PC stores as +12
            } else if i == rn && writeback && stored {
                // Base in list: only the first-stored register sees the
                // old base; later positions store the written-back value.
                new_base
            } else if user_bank {
                cpu.reg_user(i)
            } else {
                cpu.reg(i)
            };
            bus.write32(addr & !3u32, value);
            proof {
                assert(addr & !3u32 == block_slot(cpu@.regs[rfield(op, 16)], op, i as nat));
                assert(value == stm_value(cpu@, op, i as nat));
                let k1 = (i + 1) as nat;
                assert(((k1 - 1) as nat) == i as nat);
                assert(stm_stored(b0, cpu@, op, i as nat, before) && word_written(
                    before,
                    block_slot(cpu@.regs[rfield(op, 16)], op, i as nat),
                    stm_value(cpu@, op, i as nat),
                    *bus,
                ));
            }
            addr = addr.wrapping_add(4);
            stored = true;
        }
        proof {
            let k1 = (i + 1) as nat;
            assert(((k1 - 1) as nat) == i as nat);
            assert(bit_count(list, k1) == bit_count(list, i as nat) + (if (list >> i as u32) & 1
                != 0 {
                1nat
            } else {
                0nat
            }));
        }
        i = i + 1;
    }
}

/// LDM's loads into r0–r14: every listed one, lowest first, one word each
/// from `start` upward (into the User bank when `user_bank`). Returns the
/// address after them and the words read.
fn ldm_words<B: Bus>(
    cpu: &mut Cpu,
    bus: &mut B,
    op: u32,
    list: u32,
    base: u32,
    start: u32,
    user_bank: bool,
) -> (r: (u32, Ghost<Seq<u32>>))
    requires
        old(bus).bus_inv(),
        list == block_list(op),
        start == block_start(base, op),
        old(cpu)@.regs.len() == 16,
    ensures
        final(bus).bus_inv(),
        r.1@.len() == 16,
        r.0 == addr_plus(start, 4 * bit_count(list, 15) as int),
        ldm_read(*old(bus), base, op, r.1@, 15, *final(bus)),
        final(cpu)@ == ldm_regs(old(cpu)@, op, r.1@, user_bank, 15),
{
    let ghost b0 = *bus;
    let ghost v1 = cpu@;
    let ghost mut vals: Seq<u32> = Seq::new(16, |j: int| 0u32);
    let mut addr = start;
    let mut i: usize = 0;
    while i < 15
        invariant
            bus.bus_inv(),
            i <= 15,
            list == block_list(op),
            start == block_start(base, op),
            addr == addr_plus(start, 4 * bit_count(list, i as nat) as int),
            vals.len() == 16,
            v1.regs.len() == 16,
            cpu@ == ldm_regs(v1, op, vals, user_bank, i as nat),
            ldm_read(b0, base, op, vals, i as nat, *bus),
        decreases 15 - i,
    {
        let ghost before = *bus;
        proof {
            lemma_ldm_regs_len(v1, op, vals, user_bank, i as nat);
        }
        if (list >> (i as u32)) & 1 != 0 {
            let value = bus.read32(addr & !3u32);
            proof {
                let old_vals = vals;
                vals = vals.update(i as int, value);
                lemma_ldm_regs_prefix(v1, op, old_vals, vals, user_bank, i as nat);
                lemma_ldm_read_prefix(b0, base, op, old_vals, vals, i as nat, before);
                assert(addr & !3u32 == block_slot(base, op, i as nat));
            }
            if user_bank {
                cpu.set_reg_user(i, value);
            } else {
                cpu.set_reg(i, value);
            }
            proof {
                let k1 = (i + 1) as nat;
                assert(((k1 - 1) as nat) == i as nat);
                assert(ldm_read(b0, base, op, vals, i as nat, before) && word_read(
                    before,
                    block_slot(base, op, i as nat),
                    vals[i as int],
                    *bus,
                ));
            }
            addr = addr.wrapping_add(4);
        }
        proof {
            let k1 = (i + 1) as nat;
            assert(((k1 - 1) as nat) == i as nat);
            assert(bit_count(list, k1) == bit_count(list, i as nat) + (if (list >> i as u32) & 1
                != 0 {
                1nat
            } else {
                0nat
            }));
        }
        i = i + 1;
    }
    (addr, Ghost(vals))
}

proof fn lemma_ldm_plain(v: CpuView, op: u32, vals: Seq<u32>, user: bool)
    requires
        v.regs.len() == 16,
    ensures
        ldm_regs(v, op, vals, user, 15).cpsr == v.cpsr,
        ldm_regs(v, op, vals, user, 15).regs.len() == 16,
        ldm_regs(v, op, vals, user, 15).regs[15] == v.regs[15],
        !user ==> forall|j: int|
            0 <= j < 15 && (block_list(op) >> j as u32) & 1 == 0 ==> #[trigger] ldm_regs(
                v,
                op,
                vals,
                user,
                15,
            ).regs[j] == v.regs[j],
{
    lemma_ldm_plain_k(v, op, vals, user, 15);
}

proof fn lemma_ldm_plain_k(v: CpuView, op: u32, vals: Seq<u32>, user: bool, k: nat)
    requires
        v.regs.len() == 16,
        k <= 15,
    ensures
        ldm_regs(v, op, vals, user, k).cpsr == v.cpsr,
        ldm_regs(v, op, vals, user, k).regs.len() == 16,
        ldm_regs(v, op, vals, user, k).regs[15] == v.regs[15],
        !user ==> forall|j: int|
            0 <= j < 15 && ((block_list(op) >> j as u32) & 1 == 0 || j >= k) ==> #[trigger] ldm_regs(
                v,
                op,
                vals,
                user,
                k,
            ).regs[j] == v.regs[j],
    decreases k,
{
    if k > 0 {
        lemma_ldm_plain_k(v, op, vals, user, (k - 1) as nat);
    }
}

proof fn lemma_ldm_regs_len(v: CpuView, op: u32, vals: Seq<u32>, user: bool, k: nat)
    requires
        v.regs.len() == 16,
    ensures
        ldm_regs(v, op, vals, user, k).regs.len() == 16,
    decreases k,
{
    if k > 0 {
        lemma_ldm_regs_len(v, op, vals, user, (k - 1) as nat);
    }
}

#[verifier::spinoff_prover]
#[verifier::rlimit(100)]
pub(crate) fn block_transfer<B: Bus>(cpu: &mut Cpu, bus: &mut B, op: u32)
    requires
        old(bus).bus_inv(),
    ensures
        final(bus).bus_inv(),
        block_done(old(cpu)@, op, final(cpu)@),
        block_mem(old(cpu)@, *old(bus), op, final(cpu)@, *final(bus)),
        mode_valid(old(cpu)@.cpsr) ==> mode_valid(final(cpu)@.cpsr),
{
    proof {
        lemma_mode_writes_valid();
    }
    let pre_index = op & 0x0100_0000 != 0;
    let up = op & 0x0080_0000 != 0;
    let s_bit = op & 0x0040_0000 != 0;
    let writeback = op & 0x0020_0000 != 0;
    let load = op & 0x0010_0000 != 0;
    let rn = reg_field(op, 16);
    let mut list = op & 0xFFFF;
    let base = cpu.reg(rn);
    // ARM7 empty-list quirk: transfers R15 alone, but steps the base by 0x40
    // (as if all 16 registers were transferred).
    let empty = list == 0;
    if empty {
        list = 0x8000;
    }
    let count = if empty { 16 } else { count_bits16(list) };
    let size = 4 * count;
    // Transfers always run from the lowest address upward; decrement modes
    // just start lower.
    let start = if !pre_index && up {
        base  // IA
    } else if pre_index && up {
        base.wrapping_add(4)  // IB
    } else if !pre_index && !up {
        base.wrapping_sub(size).wrapping_add(4)  // DA
    } else {
        base.wrapping_sub(size)  // DB
    };
    let new_base = if up {
        base.wrapping_add(size)
    } else {
        base.wrapping_sub(size)
    };
    // S bit: user-bank transfer, except LDM with R15 in the list where it
    // means "also restore CPSR from SPSR".
    let user_bank = s_bit && !(load && list & 0x8000 != 0);
    let ghost v0 = cpu@;
    let ghost b0 = *bus;
    proof {
        lemma_size_matches(base, op, count, empty);
        assert(list == block_list(op));
        assert(start == block_start(base, op));
        assert(base == v0.regs[rfield(op, 16)]);
        assert(list & 0x8000 == 0 ==> (list >> 15u32) & 1 == 0) by {
            crate::bits::lemma_bit_facts();
        }
        assert(list & 0x8000 != 0 ==> (list >> 15u32) & 1 != 0) by {
            crate::bits::lemma_bit_facts();
        }
    }
    if load {
        // Writeback first; a load into the base register wins.
        if writeback && rn != 15 {
            cpu.set_reg(rn, new_base);
        }
        let ghost v1 = cpu@;
        let (addr, vals) = ldm_words(cpu, bus, op, list, base, start, user_bank);
        let ghost mid = *bus;
        let ghost u = cpu@;
        if list & 0x8000 != 0 {
            let value = bus.read32(addr & !3u32);
            let ghost mid2 = *bus;
            proof {
                assert(addr & !3u32 == block_slot(base, op, 15));
            }
            if s_bit {
                let spsr = cpu.spsr();
                cpu.set_cpsr(spsr);
            }
            cpu.branch_to(bus, value);
            proof {
                let vals2 = vals@.update(15, value);
                lemma_ldm_regs_prefix(v1, op, vals@, vals2, user_bank, 15);
                lemma_ldm_read_prefix(b0, base, op, vals@, vals2, 15, mid);
                assert(word_read(mid, block_slot(base, op, 15), vals2[15], mid2));
            }
            cpu.add_cycles(1);
            proof {
                let vals2 = vals@.update(15, value);
                assert(vals2.len() == 16 && ldm_read(b0, base, op, vals2, 15, mid));
            }
        } else {
            cpu.add_cycles(1);
            proof {
                assert(vals@.len() == 16 && ldm_read(b0, base, op, vals@, 15, mid));
            }
        }
        proof {
            assert(op & 0xFFFF != 0 && op & 0x8000 == 0 ==> (op & 0xFFFF) & 0x8000 == 0)
                by (bit_vector);
            assert(forall|j: u32| j < 16 ==> ((op & 0xFFFF) >> j) & 1 == (op >> j) & 1)
                by (bit_vector);
            assert(count == bit_count(op & 0xFFFF, 16) || empty);
            lemma_ldm_plain(v1, op, vals@, user_bank);
        }
    } else {
        stm_words(cpu, bus, op, list, start, new_base);
        if writeback && rn != 15 {
            cpu.set_reg(rn, new_base);
        }
    }
}

proof fn lemma_size_matches(base: u32, op: u32, count: u32, empty: bool)
    requires
        empty == (op & 0xFFFF == 0),
        count == (if empty { 16 } else { bit_count(op & 0xFFFF, 16) }),
    ensures
        (if op & 0x0080_0000 != 0 {
            ((base + 4 * count) % 0x1_0000_0000) as u32
        } else {
            ((base - 4 * count) % 0x1_0000_0000) as u32
        }) == block_new_base(base, op),
{
}

} // verus!
