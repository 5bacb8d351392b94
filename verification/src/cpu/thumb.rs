//! Thumb (16-bit) instruction set decode & execute.
//!
//! Covers all 19 ARMv4T Thumb formats. Flag behavior, the barrel shifter and
//! misaligned-load quirks are shared with the ARM module via the CPU core, so
//! the two instruction sets cannot drift apart on ALU semantics.
//!
//! ARMv4T notes honored here: `POP {PC}` and `MOV/ADD PC` do *not*
//! interwork (bit 0 is ignored, the CPU stays in Thumb) — only BX switches
//! state; BL is the two-halfword pair; the v5 BLX prefix decodes as
//! undefined.

use super::arm::{block_done, block_mem, block_transfer, branch_offset, signed32};
use super::{
    add_with_carry, asr, load16_rotated, load16_signed, load32_rotated, lsl, lsr,
    multiplier_cycles, ror, sext8, sign_extend8, spec_add_cycles, spec_add_with_carry, spec_asr,
    spec_branch, spec_exception_entry, spec_lsl, spec_lsr, spec_multiplier_cycles, spec_ror,
    spec_set_flag, spec_set_nz, spec_set_reg, swi_taken, cond_passed, refilled, branch_refilled, swi_done, thumb_state, Cpu,
    CpuView, Mode, FLAG_C, FLAG_T, mode_valid, lemma_mode_writes_valid, word_loaded, half_loaded, signed_half_loaded,
    FLAG_V, VEC_UNDEFINED,
};
use crate::memory::{half_written, word_read, word_written, Bus, BusModel};
use crate::timing::Width;
use vstd::prelude::*;

verus! {

/// The 19 Thumb instruction formats (plus the undefined encodings).
#[derive(Clone, Copy, PartialEq, Eq, Structural)]
pub enum ThumbFormat {
    ShiftImmediate,
    AddSubtract,
    ImmediateOp,
    AluOp,
    HiRegisterOp,
    LoadPcRelative,
    LoadStoreRegister,
    LoadStoreSignExtended,
    LoadStoreWordByte,
    LoadStoreHalfword,
    LoadStoreSpRelative,
    LoadAddress,
    AdjustSp,
    PushPop,
    MultipleLoadStore,
    ConditionalBranch,
    SoftwareInterrupt,
    UnconditionalBranch,
    LongBranchLink,
    Undefined,
}

/// The format an opcode decodes to.
pub open spec fn thumb_format(op: u32) -> ThumbFormat {
    let top = op >> 12;
    if top == 0 || top == 1 {
        if op & 0x1800 == 0x1800 { ThumbFormat::AddSubtract } else { ThumbFormat::ShiftImmediate }
    } else if top == 2 || top == 3 {
        ThumbFormat::ImmediateOp
    } else if top == 4 {
        if op & 0x0800 != 0 {
            ThumbFormat::LoadPcRelative
        } else if op & 0x0400 != 0 {
            ThumbFormat::HiRegisterOp
        } else {
            ThumbFormat::AluOp
        }
    } else if top == 5 {
        if op & 0x0200 == 0 {
            ThumbFormat::LoadStoreRegister
        } else {
            ThumbFormat::LoadStoreSignExtended
        }
    } else if top == 6 || top == 7 {
        ThumbFormat::LoadStoreWordByte
    } else if top == 8 {
        ThumbFormat::LoadStoreHalfword
    } else if top == 9 {
        ThumbFormat::LoadStoreSpRelative
    } else if top == 0xA {
        ThumbFormat::LoadAddress
    } else if top == 0xB {
        if op & 0x0F00 == 0 {
            ThumbFormat::AdjustSp
        } else if op & 0x0600 == 0x0400 {
            ThumbFormat::PushPop
        } else {
            ThumbFormat::Undefined
        }
    } else if top == 0xC {
        ThumbFormat::MultipleLoadStore
    } else if top == 0xD {
        let cond = (op >> 8) & 0xF;
        if cond == 0xF {
            ThumbFormat::SoftwareInterrupt
        } else if cond == 0xE {
            ThumbFormat::Undefined
        } else {
            ThumbFormat::ConditionalBranch
        }
    } else if top == 0xE {
        // The BLX suffix (bit 11 set) is ARMv5 only.
        if op & 0x0800 == 0 { ThumbFormat::UnconditionalBranch } else { ThumbFormat::Undefined }
    } else {
        ThumbFormat::LongBranchLink
    }
}

/// Classify an opcode.
pub fn decode(op: u32) -> (r: ThumbFormat)
    ensures
        r == thumb_format(op),
{
    let top = op >> 12;
    if top == 0 || top == 1 {
        if op & 0x1800 == 0x1800 {
            ThumbFormat::AddSubtract
        } else {
            ThumbFormat::ShiftImmediate
        }
    } else if top == 2 || top == 3 {
        ThumbFormat::ImmediateOp
    } else if top == 4 {
        if op & 0x0800 != 0 {
            ThumbFormat::LoadPcRelative
        } else if op & 0x0400 != 0 {
            ThumbFormat::HiRegisterOp
        } else {
            ThumbFormat::AluOp
        }
    } else if top == 5 {
        if op & 0x0200 == 0 {
            ThumbFormat::LoadStoreRegister
        } else {
            ThumbFormat::LoadStoreSignExtended
        }
    } else if top == 6 || top == 7 {
        ThumbFormat::LoadStoreWordByte
    } else if top == 8 {
        ThumbFormat::LoadStoreHalfword
    } else if top == 9 {
        ThumbFormat::LoadStoreSpRelative
    } else if top == 0xA {
        ThumbFormat::LoadAddress
    } else if top == 0xB {
        if op & 0x0F00 == 0 {
            ThumbFormat::AdjustSp
        } else if op & 0x0600 == 0x0400 {
            ThumbFormat::PushPop
        } else {
            ThumbFormat::Undefined
        }
    } else if top == 0xC {
        ThumbFormat::MultipleLoadStore
    } else if top == 0xD {
        let cond = (op >> 8) & 0xF;
        if cond == 0xF {
            ThumbFormat::SoftwareInterrupt
        } else if cond == 0xE {
            ThumbFormat::Undefined
        } else {
            ThumbFormat::ConditionalBranch
        }
    } else if top == 0xE {
        if op & 0x0800 == 0 {
            ThumbFormat::UnconditionalBranch
        } else {
            ThumbFormat::Undefined
        }
    } else {
        ThumbFormat::LongBranchLink
    }
}

/// What one Thumb instruction does to the CPU, by format; `thumb_bus` ties
/// the values loaded to the bus.
pub open spec fn thumb_executed(v: CpuView, op: u32, w: CpuView) -> bool {
    match thumb_format(op) {
        ThumbFormat::ShiftImmediate => w == shift_immediate_effect(v, op),
        ThumbFormat::AddSubtract => w == add_subtract_effect(v, op),
        ThumbFormat::ImmediateOp => w == immediate_op_effect(v, op),
        ThumbFormat::AluOp => w == alu_op_effect(v, op),
        ThumbFormat::HiRegisterOp => w == hi_register_effect(v, op, w.pipeline),
        ThumbFormat::LoadPcRelative => load_pc_relative_done(v, op, w),
        ThumbFormat::LoadStoreRegister => load_store_register_done(v, op, w),
        ThumbFormat::LoadStoreSignExtended => load_store_sign_extended_done(v, op, w),
        ThumbFormat::LoadStoreWordByte => load_store_word_byte_done(v, op, w),
        ThumbFormat::LoadStoreHalfword => load_store_halfword_done(v, op, w),
        ThumbFormat::LoadStoreSpRelative => load_store_sp_relative_done(v, op, w),
        ThumbFormat::LoadAddress => w == load_address_effect(v, op),
        ThumbFormat::AdjustSp => w == adjust_sp_effect(v, op),
        ThumbFormat::PushPop => push_pop_done(v, op, w),
        ThumbFormat::MultipleLoadStore => multiple_load_store_done(v, op, w),
        ThumbFormat::ConditionalBranch => conditional_branch_done(v, op, (op >> 8) & 0xF, w),
        ThumbFormat::SoftwareInterrupt => swi_taken(v, (op & 0xFF) as u8, w),
        ThumbFormat::UnconditionalBranch => w == unconditional_branch_effect(v, op, w.pipeline),
        ThumbFormat::LongBranchLink => w == long_branch_link_effect(v, op, w.pipeline),
        ThumbFormat::Undefined => w == undefined_effect(v, w.pipeline),
    }
}

/// What one Thumb instruction does to the bus, by format: loads and stores
/// as their handlers state; branches, exceptions and PC writes refill the
/// pipeline; SWI as `swi_done`; the register-only formats leave it alone.
pub open spec fn thumb_bus<B: Bus>(v: CpuView, b0: B, op: u32, w: CpuView, b1: B) -> bool {
    match thumb_format(op) {
        ThumbFormat::HiRegisterOp => if hi_register_branches(op) {
            branch_refilled(b0, w, b1)
        } else {
            b1 == b0
        },
        ThumbFormat::LoadPcRelative => load_pc_relative_mem(v, b0, op, w, b1),
        ThumbFormat::LoadStoreRegister => load_store_register_mem(v, b0, op, w, b1),
        ThumbFormat::LoadStoreSignExtended => load_store_sign_extended_mem(v, b0, op, w, b1),
        ThumbFormat::LoadStoreWordByte => load_store_word_byte_mem(v, b0, op, w, b1),
        ThumbFormat::LoadStoreHalfword => load_store_halfword_mem(v, b0, op, w, b1),
        ThumbFormat::LoadStoreSpRelative => load_store_sp_relative_mem(v, b0, op, w, b1),
        ThumbFormat::PushPop => push_pop_mem(v, b0, op, w, b1),
        ThumbFormat::MultipleLoadStore => multiple_load_store_mem(v, b0, op, w, b1),
        ThumbFormat::ConditionalBranch => if cond_passed(v.cpsr, (op >> 8) & 0xF) {
            branch_refilled(b0, w, b1)
        } else {
            b1 == b0
        },
        ThumbFormat::SoftwareInterrupt => swi_done(v, b0, (op & 0xFF) as u8, w, b1),
        ThumbFormat::UnconditionalBranch => branch_refilled(b0, w, b1),
        ThumbFormat::LongBranchLink => if op & 0x800 != 0 {
            branch_refilled(b0, w, b1)
        } else {
            b1 == b0
        },
        ThumbFormat::Undefined => branch_refilled(b0, w, b1),
        _ => b1 == b0,
    }
}

/// Execute one Thumb instruction.
pub fn execute<B: Bus>(cpu: &mut Cpu, bus: &mut B, op: u16)
    requires
        old(bus).bus_inv(),
    ensures
        final(bus).bus_inv(),
        thumb_executed(old(cpu)@, op as u32, final(cpu)@),
        thumb_bus(old(cpu)@, *old(bus), op as u32, final(cpu)@, *final(bus)),
        mode_valid(old(cpu)@.cpsr) ==> mode_valid(final(cpu)@.cpsr),
{
    proof {
        lemma_mode_writes_valid();
    }
    let op = op as u32;
    match decode(op) {
        ThumbFormat::ShiftImmediate => shift_immediate(cpu, op),
        ThumbFormat::AddSubtract => add_subtract(cpu, op),
        ThumbFormat::ImmediateOp => immediate_op(cpu, op),
        ThumbFormat::AluOp => alu_op(cpu, op),
        ThumbFormat::HiRegisterOp => hi_register_op(cpu, bus, op),
        ThumbFormat::LoadPcRelative => load_pc_relative(cpu, bus, op),
        ThumbFormat::LoadStoreRegister => load_store_register(cpu, bus, op),
        ThumbFormat::LoadStoreSignExtended => load_store_sign_extended(cpu, bus, op),
        ThumbFormat::LoadStoreWordByte => load_store_word_byte(cpu, bus, op),
        ThumbFormat::LoadStoreHalfword => load_store_halfword(cpu, bus, op),
        ThumbFormat::LoadStoreSpRelative => load_store_sp_relative(cpu, bus, op),
        ThumbFormat::LoadAddress => load_address(cpu, op),
        ThumbFormat::AdjustSp => adjust_sp(cpu, op),
        ThumbFormat::PushPop => push_pop(cpu, bus, op),
        ThumbFormat::MultipleLoadStore => multiple_load_store(cpu, bus, op),
        ThumbFormat::ConditionalBranch => conditional_branch(cpu, bus, op, (op >> 8) & 0xF),
        ThumbFormat::SoftwareInterrupt => software_interrupt(cpu, bus, op),
        ThumbFormat::UnconditionalBranch => unconditional_branch(cpu, bus, op),
        ThumbFormat::LongBranchLink => long_branch_link(cpu, bus, op),
        ThumbFormat::Undefined => undefined(cpu, bus),
    }
}

/// A 3-bit register field.
pub open spec fn lo_field(op: u32, shift: u32) -> int {
    ((op >> shift) & 7) as int
}

fn lo_reg(op: u32, shift: u32) -> (r: usize)
    requires
        shift < 32,
    ensures
        r == lo_field(op, shift),
        r < 8,
{
    assert((op >> shift) & 7 < 8) by {
        crate::bits::lemma_bit_facts();
    }
    ((op >> shift) & 7) as usize
}

/// 32-bit wrapping sum/difference.
pub open spec fn wadd(a: u32, b: int) -> u32 {
    ((a + b) % 0x1_0000_0000) as u32
}

/// Flags and destination of an add/subtract through the adder.
pub open spec fn arith_effect(v: CpuView, x: u32, y: u32, c: u32, rd: int, write: bool) -> CpuView {
    let r = spec_add_with_carry(x, y, c);
    let v1 = spec_set_nz(spec_set_flag(spec_set_flag(v, FLAG_C, r.1), FLAG_V, r.2), r.0);
    if write { spec_set_reg(v1, rd, r.0) } else { v1 }
}

fn arith(cpu: &mut Cpu, x: u32, y: u32, c: u32, rd: usize, write: bool)
    requires
        c <= 1,
        rd < 16,
    ensures
        final(cpu)@ == arith_effect(old(cpu)@, x, y, c, rd as int, write),
{
    let (r, carry, overflow) = add_with_carry(x, y, c);
    cpu.set_flag(FLAG_C, carry);
    cpu.set_flag(FLAG_V, overflow);
    cpu.set_nz(r);
    if write {
        cpu.set_reg(rd, r);
    }
}

/// Format 1: LSL/LSR/ASR Rd, Rs, #imm5.
pub open spec fn shift_immediate_effect(v: CpuView, op: u32) -> CpuView {
    let amount = (op >> 6) & 0x1F;
    let value = v.regs[lo_field(op, 3)];
    let carry_in = v.cpsr & FLAG_C != 0;
    let ty = (op >> 11) & 3;
    let r = if ty == 0 {
        spec_lsl(value, amount, carry_in)
    } else if ty == 1 {
        spec_lsr(value, if amount == 0 { 32 } else { amount }, carry_in)
    } else {
        spec_asr(value, if amount == 0 { 32 } else { amount }, carry_in)
    };
    spec_set_reg(spec_set_nz(spec_set_flag(v, FLAG_C, r.1), r.0), lo_field(op, 0), r.0)
}

fn shift_immediate(cpu: &mut Cpu, op: u32)
    ensures
        final(cpu)@ == shift_immediate_effect(old(cpu)@, op),
{
    let amount = (op >> 6) & 0x1F;
    let value = cpu.reg(lo_reg(op, 3));
    let rd = lo_reg(op, 0);
    let carry_in = cpu.flag_c();
    let ty = (op >> 11) & 3;
    let (result, carry) = if ty == 0 {
        lsl(value, amount, carry_in)
    } else if ty == 1 {
        lsr(value, if amount == 0 { 32 } else { amount }, carry_in)
    } else {
        asr(value, if amount == 0 { 32 } else { amount }, carry_in)
    };
    cpu.set_flag(FLAG_C, carry);
    cpu.set_nz(result);
    cpu.set_reg(rd, result);
}

/// Format 2: ADD/SUB Rd, Rs, Rn / #imm3.
pub open spec fn add_subtract_effect(v: CpuView, op: u32) -> CpuView {
    let value = if op & 0x400 != 0 { (op >> 6) & 7 } else { v.regs[lo_field(op, 6)] };
    let a = v.regs[lo_field(op, 3)];
    if op & 0x200 != 0 {
        arith_effect(v, a, !value, 1, lo_field(op, 0), true)
    } else {
        arith_effect(v, a, value, 0, lo_field(op, 0), true)
    }
}

fn add_subtract(cpu: &mut Cpu, op: u32)
    ensures
        final(cpu)@ == add_subtract_effect(old(cpu)@, op),
{
    let value = if op & 0x400 != 0 {
        (op >> 6) & 7
    } else {
        cpu.reg(lo_reg(op, 6))
    };
    let a = cpu.reg(lo_reg(op, 3));
    let rd = lo_reg(op, 0);
    if op & 0x200 != 0 {
        arith(cpu, a, !value, 1, rd, true);
    } else {
        arith(cpu, a, value, 0, rd, true);
    }
}

/// Format 3: MOV/CMP/ADD/SUB Rd, #imm8.
pub open spec fn immediate_op_effect(v: CpuView, op: u32) -> CpuView {
    let rd = lo_field(op, 8);
    let imm = op & 0xFF;
    let ty = (op >> 11) & 3;
    if ty == 0 {
        spec_set_reg(spec_set_nz(v, imm), rd, imm)
    } else if ty == 1 {
        arith_effect(v, v.regs[rd], !imm, 1, rd, false)
    } else if ty == 2 {
        arith_effect(v, v.regs[rd], imm, 0, rd, true)
    } else {
        arith_effect(v, v.regs[rd], !imm, 1, rd, true)
    }
}

fn immediate_op(cpu: &mut Cpu, op: u32)
    ensures
        final(cpu)@ == immediate_op_effect(old(cpu)@, op),
{
    let rd = lo_reg(op, 8);
    let imm = op & 0xFF;
    let ty = (op >> 11) & 3;
    let current = cpu.reg(rd);
    if ty == 0 {
        cpu.set_nz(imm);  // MOV
        cpu.set_reg(rd, imm);
    } else if ty == 1 {
        arith(cpu, current, !imm, 1, rd, false);  // CMP
    } else if ty == 2 {
        arith(cpu, current, imm, 0, rd, true);  // ADD
    } else {
        arith(cpu, current, !imm, 1, rd, true);  // SUB
    }
}

/// Format 4: register-to-register ALU operations.
pub open spec fn alu_op_effect(v: CpuView, op: u32) -> CpuView {
    let rd = lo_field(op, 0);
    let a = v.regs[rd];
    let b = v.regs[lo_field(op, 3)];
    let carry_in = v.cpsr & FLAG_C != 0;
    let cb: u32 = if carry_in { 1 } else { 0 };
    let k = (op >> 6) & 0xF;
    let logical = |r: u32, write: bool|
        if write { spec_set_reg(spec_set_nz(v, r), rd, r) } else { spec_set_nz(v, r) };
    let shift = |r: (u32, bool)|
        spec_set_reg(spec_set_nz(spec_set_flag(spec_add_cycles(v, 1), FLAG_C, r.1), r.0), rd, r.0);
    if k == 0x0 {
        logical(a & b, true)
    } else if k == 0x1 {
        logical(a ^ b, true)
    } else if k == 0x2 {
        shift(spec_lsl(a, b & 0xFF, carry_in))
    } else if k == 0x3 {
        shift(spec_lsr(a, b & 0xFF, carry_in))
    } else if k == 0x4 {
        shift(spec_asr(a, b & 0xFF, carry_in))
    } else if k == 0x5 {
        arith_effect(v, a, b, cb, rd, true)
    } else if k == 0x6 {
        arith_effect(v, a, !b, cb, rd, true)
    } else if k == 0x7 {
        shift(spec_ror(a, b & 0xFF, carry_in))
    } else if k == 0x8 {
        logical(a & b, false)
    } else if k == 0x9 {
        arith_effect(v, 0, !b, 1, rd, true)
    } else if k == 0xA {
        arith_effect(v, a, !b, 1, rd, false)
    } else if k == 0xB {
        arith_effect(v, a, b, 0, rd, false)
    } else if k == 0xC {
        logical(a | b, true)
    } else if k == 0xD {
        // MUL (C unpredictable; unchanged).
        let r = ((a * b) % 0x1_0000_0000) as u32;
        spec_set_reg(spec_set_nz(spec_add_cycles(v, spec_multiplier_cycles(b)), r), rd, r)
    } else if k == 0xE {
        logical(a & !b, true)
    } else {
        logical(!b, true)
    }
}

/// The logical Thumb ALU operations write Rd (`a`) combined with Rs (`b`)
/// bit by bit: AND `a & b`, EOR `a ^ b`, ORR `a | b`, BIC `a` with the bits
/// of `b` cleared, MVN the inverse of `b`; TST writes no register. No other
/// register changes.
pub proof fn lemma_thumb_logical_results(v: CpuView, op: u32)
    requires
        v.regs.len() == 16,
    ensures
        ({
            let rd = lo_field(op, 0);
            let a = v.regs[rd];
            let b = v.regs[lo_field(op, 3)];
            let k = (op >> 6) & 0xF;
            let w = alu_op_effect(v, op);
            &&& k == 0x0 ==> w.regs[rd] == a & b
            &&& k == 0x1 ==> w.regs[rd] == a ^ b
            &&& k == 0xC ==> w.regs[rd] == a | b
            &&& k == 0xE ==> w.regs[rd] == a & !b && w.regs[rd] & b == 0
            &&& k == 0xF ==> w.regs[rd] == !b
            &&& k == 0x8 ==> w.regs == v.regs
            &&& (k == 0x0 || k == 0x1 || k == 0x8 || k == 0xC || k == 0xE || k == 0xF) ==> forall|
                i: int,
            | 0 <= i < 16 && i != rd ==> #[trigger] w.regs[i] == v.regs[i]
        }),
{
    let b = v.regs[lo_field(op, 3)];
    let a = v.regs[lo_field(op, 0)];
    assert((a & !b) & b == 0) by {
        crate::bits::lemma_bit_identities();
    }
    assert(lo_field(op, 0) < 8) by {
        crate::bits::lemma_bit_facts();
    }
}

fn logical(cpu: &mut Cpu, result: u32, rd: usize, write: bool)
    requires
        rd < 16,
    ensures
        final(cpu)@ == if write {
            spec_set_reg(spec_set_nz(old(cpu)@, result), rd as int, result)
        } else {
            spec_set_nz(old(cpu)@, result)
        },
{
    cpu.set_nz(result);
    if write {
        cpu.set_reg(rd, result);
    }
}

fn shift_result(cpu: &mut Cpu, r: (u32, bool), rd: usize)
    requires
        rd < 16,
    ensures
        final(cpu)@ == spec_set_reg(
            spec_set_nz(spec_set_flag(spec_add_cycles(old(cpu)@, 1), FLAG_C, r.1), r.0),
            rd as int,
            r.0,
        ),
{
    cpu.add_cycles(1);
    cpu.set_flag(FLAG_C, r.1);
    cpu.set_nz(r.0);
    cpu.set_reg(rd, r.0);
}

fn alu_op(cpu: &mut Cpu, op: u32)
    ensures
        final(cpu)@ == alu_op_effect(old(cpu)@, op),
{
    let rd = lo_reg(op, 0);
    let a = cpu.reg(rd);
    let b = cpu.reg(lo_reg(op, 3));
    let carry_in = cpu.flag_c();
    let cb: u32 = if carry_in { 1 } else { 0 };
    let k = (op >> 6) & 0xF;
    if k == 0x0 {
        logical(cpu, a & b, rd, true);  // AND
    } else if k == 0x1 {
        logical(cpu, a ^ b, rd, true);  // EOR
    } else if k == 0x2 {
        shift_result(cpu, lsl(a, b & 0xFF, carry_in), rd);  // LSL
    } else if k == 0x3 {
        shift_result(cpu, lsr(a, b & 0xFF, carry_in), rd);  // LSR
    } else if k == 0x4 {
        shift_result(cpu, asr(a, b & 0xFF, carry_in), rd);  // ASR
    } else if k == 0x5 {
        arith(cpu, a, b, cb, rd, true);  // ADC
    } else if k == 0x6 {
        arith(cpu, a, !b, cb, rd, true);  // SBC
    } else if k == 0x7 {
        shift_result(cpu, ror(a, b & 0xFF, carry_in), rd);  // ROR
    } else if k == 0x8 {
        logical(cpu, a & b, rd, false);  // TST
    } else if k == 0x9 {
        arith(cpu, 0, !b, 1, rd, true);  // NEG
    } else if k == 0xA {
        arith(cpu, a, !b, 1, rd, false);  // CMP
    } else if k == 0xB {
        arith(cpu, a, b, 0, rd, false);  // CMN
    } else if k == 0xC {
        logical(cpu, a | b, rd, true);  // ORR
    } else if k == 0xD {
        let result = a.wrapping_mul(b);  // MUL
        cpu.add_cycles(multiplier_cycles(b));
        logical(cpu, result, rd, true);
    } else if k == 0xE {
        logical(cpu, a & !b, rd, true);  // BIC
    } else {
        logical(cpu, !b, rd, true);  // MVN
    }
}

/// Format 5: ADD/CMP/MOV on high registers, and BX.
pub open spec fn hi_register_effect(v: CpuView, op: u32, pipe: Seq<u32>) -> CpuView {
    let rd = ((op & 7) | ((op >> 4) & 8)) as int;
    let value = v.regs[((op >> 3) & 0xF) as int];
    let k = (op >> 8) & 3;
    if k == 0 {
        let result = wadd(v.regs[rd], value as int);
        if rd == 15 { spec_branch(v, result, pipe) } else { spec_set_reg(v, rd, result) }
    } else if k == 1 {
        arith_effect(v, v.regs[rd], !value, 1, rd, false)
    } else if k == 2 {
        if rd == 15 { spec_branch(v, value, pipe) } else { spec_set_reg(v, rd, value) }
    } else {
        // BX: the one Thumb instruction that can switch to ARM state.
        spec_branch(spec_set_flag(v, FLAG_T, value & 1 != 0), value, pipe)
    }
}

/// Whether a format 5 instruction branches: BX, and ADD or MOV into PC.
pub open spec fn hi_register_branches(op: u32) -> bool {
    let rd = (op & 7) | ((op >> 4) & 8);
    let k = (op >> 8) & 3;
    k == 3 || ((k == 0 || k == 2) && rd == 15)
}

fn hi_register_op<B: Bus>(cpu: &mut Cpu, bus: &mut B, op: u32)
    requires
        old(bus).bus_inv(),
    ensures
        final(bus).bus_inv(),
        final(cpu)@ == hi_register_effect(old(cpu)@, op, final(cpu)@.pipeline),
        if hi_register_branches(op) {
            branch_refilled(*old(bus), final(cpu)@, *final(bus))
        } else {
            *final(bus) == *old(bus)
        },
{
    assert((op & 7) | ((op >> 4) & 8) < 16) by {
        crate::bits::lemma_bit_facts();
    }
    assert((op >> 3) & 0xF < 16) by {
        crate::bits::lemma_bit_facts();
    }
    let rd = ((op & 7) | ((op >> 4) & 8)) as usize;
    let value = cpu.reg(((op >> 3) & 0xF) as usize);
    let k = (op >> 8) & 3;
    assert(k < 4) by {
        crate::bits::lemma_bit_facts();
    }
    if k == 0 {
        let result = cpu.reg(rd).wrapping_add(value);
        if rd == 15 {
            cpu.branch_to(bus, result);  // stays Thumb; bit 0 ignored
        } else {
            cpu.set_reg(rd, result);
        }
    } else if k == 1 {
        let current = cpu.reg(rd);
        arith(cpu, current, !value, 1, rd, false);  // CMP
    } else if k == 2 {
        if rd == 15 {
            cpu.branch_to(bus, value);  // MOV PC
        } else {
            cpu.set_reg(rd, value);
        }
    } else {
        cpu.set_flag(FLAG_T, value & 1 != 0);
        cpu.branch_to(bus, value);
    }
}

/// A load's effect on the register file: the loaded value (unknown to the
/// CPU) lands in `rd` and the load's internal cycle is counted.
pub open spec fn loaded(v: CpuView, rd: int, value: u32) -> CpuView {
    spec_set_reg(spec_add_cycles(v, 1), rd, value)
}

/// A Thumb load at `addr` that returned `value`, by kind: 0 LDR (the
/// rotated aligned word), 1 LDRB (the byte), 2 LDRH (the rotated aligned
/// halfword), 3 LDSB (the byte, sign-extended), 4 LDSH (the signed
/// halfword, a signed byte at an odd address).
pub open spec fn thumb_load_did<B: BusModel>(b0: B, addr: u32, kind: int, value: u32, b1: B) -> bool {
    if kind == 0 {
        word_loaded(b0, addr, value, b1)
    } else if kind == 1 {
        value < 0x100 && b0.read_did(addr, Width::Byte, value, b1)
    } else if kind == 2 {
        half_loaded(b0, addr, value, b1)
    } else if kind == 3 {
        exists|b: u32|
            b < 0x100 && #[trigger] b0.read_did(addr, Width::Byte, b, b1) && value == sext8(b as u8)
    } else {
        signed_half_loaded(b0, addr, value, b1)
    }
}

/// A Thumb load into `rd` against the bus: Rd takes the value read.
pub open spec fn thumb_load_mem<B: BusModel>(
    v: CpuView,
    b0: B,
    addr: u32,
    kind: int,
    rd: int,
    w: CpuView,
    b1: B,
) -> bool {
    exists|value: u32| #[trigger] thumb_load_did(b0, addr, kind, value, b1) && w == loaded(v, rd, value)
}

/// Format 6: LDR Rd, [PC, #imm8*4] (PC reads word-aligned).
pub open spec fn load_pc_relative_done(v: CpuView, op: u32, w: CpuView) -> bool {
    exists|value: u32| w == #[trigger] loaded(v, lo_field(op, 8), value)
}

/// Format 6 against the bus: the word at the PC-relative address, read as
/// a word, lands in Rd.
pub open spec fn load_pc_relative_mem<B: BusModel>(v: CpuView, b0: B, op: u32, w: CpuView, b1: B) -> bool {
    exists|value: u32|
        #[trigger] word_read(b0, pc_relative_addr(v, op), value, b1) && w == loaded(
            v,
            lo_field(op, 8),
            value,
        )
}

/// The address format 6 loads from: the word-aligned PC plus imm8 * 4.
pub open spec fn pc_relative_addr(v: CpuView, op: u32) -> u32 {
    wadd(v.regs[15] & !2u32, ((op & 0xFF) * 4) as int)
}

fn load_pc_relative<B: Bus>(cpu: &mut Cpu, bus: &mut B, op: u32)
    requires
        old(bus).bus_inv(),
    ensures
        final(bus).bus_inv(),
        load_pc_relative_done(old(cpu)@, op, final(cpu)@),
        exists|value: u32|
            #[trigger] word_read(*old(bus), pc_relative_addr(old(cpu)@, op), value, *final(bus))
                && final(cpu)@ == loaded(old(cpu)@, lo_field(op, 8), value),
{
    let rd = lo_reg(op, 8);
    assert(op & 0xFF <= 0xFF) by {
        crate::bits::lemma_bit_facts();
    }
    let addr = (cpu.reg(15) & !2u32).wrapping_add((op & 0xFF) * 4);
    let ghost b0 = *bus;
    let value = bus.read32(addr);
    cpu.add_cycles(1);
    cpu.set_reg(rd, value);
    assert(cpu@ == loaded(old(cpu)@, lo_field(op, 8), value));
    assert(addr == pc_relative_addr(old(cpu)@, op));
    assert(word_read(b0, pc_relative_addr(old(cpu)@, op), value, *bus));
}

/// Format 7: LDR/STR/LDRB/STRB Rd, [Rb, Ro].
/// Stores leave the registers alone; loads (LDRB: a byte) land in Rd.
pub open spec fn load_store_register_done(v: CpuView, op: u32, w: CpuView) -> bool {
    &&& (op >> 10) & 3 < 2 ==> w == v
    &&& (op >> 10) & 3 >= 2 ==> exists|value: u32|
        ((op >> 10) & 3 == 3 ==> value < 0x100) && w == #[trigger] loaded(
            v,
            lo_field(op, 0),
            value,
        )
}

/// Format 7 against the bus, at Rb + Ro: STR writes Rd as an aligned
/// word, STRB its low byte; LDR and LDRB load into Rd.
pub open spec fn load_store_register_mem<B: BusModel>(v: CpuView, b0: B, op: u32, w: CpuView, b1: B) -> bool {
    let addr = wadd(v.regs[lo_field(op, 3)], v.regs[lo_field(op, 6)] as int);
    let rd = lo_field(op, 0);
    let k = (op >> 10) & 3;
    if k == 0 {
        word_written(b0, addr & !3u32, v.regs[rd], b1)
    } else if k == 1 {
        b0.write_did(addr, Width::Byte, v.regs[rd] & 0xFF, b1)
    } else {
        thumb_load_mem(v, b0, addr, if k == 2 { 0 } else { 1 }, rd, w, b1)
    }
}

fn load_store_register<B: Bus>(cpu: &mut Cpu, bus: &mut B, op: u32)
    requires
        old(bus).bus_inv(),
    ensures
        final(bus).bus_inv(),
        load_store_register_done(old(cpu)@, op, final(cpu)@),
        load_store_register_mem(old(cpu)@, *old(bus), op, final(cpu)@, *final(bus)),
{
    let addr = cpu.reg(lo_reg(op, 3)).wrapping_add(cpu.reg(lo_reg(op, 6)));
    let rd = lo_reg(op, 0);
    let k = (op >> 10) & 3;
    let ghost b0 = *bus;
    if k == 0 {
        bus.write32(addr & !3u32, cpu.reg(rd));  // STR
    } else if k == 1 {
        bus.write8(addr, (cpu.reg(rd) & 0xFF) as u8);  // STRB
        assert(((cpu@.regs[rd as int] & 0xFF) as u8) as u32 == cpu@.regs[rd as int] & 0xFF) by {
            crate::bits::lemma_alignment();
        }
    } else {
        let value = if k == 2 {
            load32_rotated(bus, addr)  // LDR
        } else {
            bus.read8(addr) as u32  // LDRB
        };
        assert(thumb_load_did(b0, addr, if k == 2 { 0 } else { 1 }, value, *bus));
        cpu.add_cycles(1);
        cpu.set_reg(rd, value);
        assert(cpu@ == loaded(old(cpu)@, lo_field(op, 0), value));
    }
}

/// Format 8: STRH/LDRH/LDSB/LDSH Rd, [Rb, Ro].
/// STRH leaves the registers alone; LDSB loads a sign-extended byte.
pub open spec fn load_store_sign_extended_done(v: CpuView, op: u32, w: CpuView) -> bool {
    &&& (op >> 10) & 3 == 0 ==> w == v
    &&& (op >> 10) & 3 != 0 ==> exists|value: u32|
        ((op >> 10) & 3 == 1 ==> exists|b: u8| value == #[trigger] sext8(b)) && w
            == #[trigger] loaded(v, lo_field(op, 0), value)
}

/// Format 8 against the bus, at Rb + Ro: STRH writes the low half of Rd
/// as an aligned halfword; LDSB, LDRH and LDSH load into Rd.
pub open spec fn load_store_sign_extended_mem<B: BusModel>(
    v: CpuView,
    b0: B,
    op: u32,
    w: CpuView,
    b1: B,
) -> bool {
    let addr = wadd(v.regs[lo_field(op, 3)], v.regs[lo_field(op, 6)] as int);
    let rd = lo_field(op, 0);
    let k = (op >> 10) & 3;
    if k == 0 {
        half_written(b0, addr & !1u32, (v.regs[rd] & 0xFFFF) as u16, b1)
    } else {
        thumb_load_mem(v, b0, addr, if k == 1 { 3 } else if k == 2 { 2 } else { 4 }, rd, w, b1)
    }
}

fn load_store_sign_extended<B: Bus>(cpu: &mut Cpu, bus: &mut B, op: u32)
    requires
        old(bus).bus_inv(),
    ensures
        final(bus).bus_inv(),
        load_store_sign_extended_done(old(cpu)@, op, final(cpu)@),
        load_store_sign_extended_mem(old(cpu)@, *old(bus), op, final(cpu)@, *final(bus)),
{
    let addr = cpu.reg(lo_reg(op, 3)).wrapping_add(cpu.reg(lo_reg(op, 6)));
    let rd = lo_reg(op, 0);
    let k = (op >> 10) & 3;
    let ghost b0 = *bus;
    if k == 0 {
        bus.write16(addr & !1u32, (cpu.reg(rd) & 0xFFFF) as u16);  // STRH
        assert((addr & !1u32) & !1u32 == addr & !1u32) by {
            crate::bits::lemma_alignment();
        }
    } else {
        let ghost mut witness: u8 = 0;
        let value = if k == 1 {
            let b = bus.read8(addr);  // LDSB
            proof {
                witness = b;
            }
            sign_extend8(b)
        } else if k == 2 {
            load16_rotated(bus, addr)  // LDRH
        } else {
            load16_signed(bus, addr)  // LDSH
        };
        proof {
            if k == 1 {
                assert((witness as u32) as u8 == witness);
            }
        }
        assert(thumb_load_did(b0, addr, if k == 1 { 3 } else if k == 2 { 2 } else { 4 }, value, *bus));
        cpu.add_cycles(1);
        cpu.set_reg(rd, value);
        proof {
            if k == 1 {
                assert(value == sext8(witness));
            }
            assert(cpu@ == loaded(old(cpu)@, lo_field(op, 0), value));
        }
    }
}

/// Format 9: LDR/STR/LDRB/STRB Rd, [Rb, #imm5].
pub open spec fn load_store_word_byte_done(v: CpuView, op: u32, w: CpuView) -> bool {
    &&& op & 0x800 == 0 ==> w == v
    &&& op & 0x800 != 0 ==> exists|value: u32|
        (op & 0x1000 != 0 ==> value < 0x100) && w == #[trigger] loaded(v, lo_field(op, 0), value)
}

/// Format 9 against the bus, at Rb + imm5 (scaled by 4 for words): a
/// store writes Rd (its low byte for STRB, an aligned word for STR); a load
/// loads into Rd.
pub open spec fn load_store_word_byte_mem<B: BusModel>(v: CpuView, b0: B, op: u32, w: CpuView, b1: B) -> bool {
    let byte = op & 0x1000 != 0;
    let imm = (op >> 6) & 0x1F;
    let addr = wadd(v.regs[lo_field(op, 3)], if byte { imm as int } else { imm * 4 });
    let rd = lo_field(op, 0);
    if op & 0x800 == 0 {
        if byte {
            b0.write_did(addr, Width::Byte, v.regs[rd] & 0xFF, b1)
        } else {
            word_written(b0, addr & !3u32, v.regs[rd], b1)
        }
    } else {
        thumb_load_mem(v, b0, addr, if byte { 1 } else { 0 }, rd, w, b1)
    }
}

fn load_store_word_byte<B: Bus>(cpu: &mut Cpu, bus: &mut B, op: u32)
    requires
        old(bus).bus_inv(),
    ensures
        final(bus).bus_inv(),
        load_store_word_byte_done(old(cpu)@, op, final(cpu)@),
        load_store_word_byte_mem(old(cpu)@, *old(bus), op, final(cpu)@, *final(bus)),
{
    let byte = op & 0x1000 != 0;
    let load = op & 0x800 != 0;
    let imm = (op >> 6) & 0x1F;
    assert((op >> 6) & 0x1F <= 0x1F) by {
        crate::bits::lemma_bit_facts();
    }
    let rd = lo_reg(op, 0);
    let addr = cpu.reg(lo_reg(op, 3)).wrapping_add(if byte { imm } else { imm * 4 });
    let ghost b0 = *bus;
    if !load {
        if byte {
            bus.write8(addr, (cpu.reg(rd) & 0xFF) as u8);
            assert(((cpu@.regs[rd as int] & 0xFF) as u8) as u32 == cpu@.regs[rd as int] & 0xFF) by {
                crate::bits::lemma_alignment();
            }
        } else {
            bus.write32(addr & !3u32, cpu.reg(rd));
            assert((addr & !3u32) & !3u32 == addr & !3u32) by {
                crate::bits::lemma_alignment();
            }
        }
    } else {
        let value = if byte {
            bus.read8(addr) as u32
        } else {
            load32_rotated(bus, addr)
        };
        assert(thumb_load_did(b0, addr, if byte { 1 } else { 0 }, value, *bus));
        cpu.add_cycles(1);
        cpu.set_reg(rd, value);
        assert(cpu@ == loaded(old(cpu)@, lo_field(op, 0), value));
    }
}

/// Format 10: LDRH/STRH Rd, [Rb, #imm5*2].
pub open spec fn load_store_halfword_done(v: CpuView, op: u32, w: CpuView) -> bool {
    &&& op & 0x800 == 0 ==> w == v
    &&& op & 0x800 != 0 ==> exists|value: u32| w == #[trigger] loaded(v, lo_field(op, 0), value)
}

/// Format 10 against the bus, at Rb + imm5 * 2: STRH writes the low half
/// of Rd as an aligned halfword; LDRH loads into Rd.
pub open spec fn load_store_halfword_mem<B: BusModel>(v: CpuView, b0: B, op: u32, w: CpuView, b1: B) -> bool {
    let addr = wadd(v.regs[lo_field(op, 3)], (((op >> 6) & 0x1F) * 2) as int);
    let rd = lo_field(op, 0);
    if op & 0x800 != 0 {
        thumb_load_mem(v, b0, addr, 2, rd, w, b1)
    } else {
        half_written(b0, addr & !1u32, (v.regs[rd] & 0xFFFF) as u16, b1)
    }
}

fn load_store_halfword<B: Bus>(cpu: &mut Cpu, bus: &mut B, op: u32)
    requires
        old(bus).bus_inv(),
    ensures
        final(bus).bus_inv(),
        load_store_halfword_done(old(cpu)@, op, final(cpu)@),
        load_store_halfword_mem(old(cpu)@, *old(bus), op, final(cpu)@, *final(bus)),
{
    assert((op >> 6) & 0x1F <= 0x1F) by {
        crate::bits::lemma_bit_facts();
    }
    let addr = cpu.reg(lo_reg(op, 3)).wrapping_add(((op >> 6) & 0x1F) * 2);
    let rd = lo_reg(op, 0);
    let ghost b0 = *bus;
    if op & 0x800 != 0 {
        let value = load16_rotated(bus, addr);
        assert(thumb_load_did(b0, addr, 2, value, *bus));
        cpu.add_cycles(1);
        cpu.set_reg(rd, value);
        assert(cpu@ == loaded(old(cpu)@, lo_field(op, 0), value));
    } else {
        bus.write16(addr & !1u32, (cpu.reg(rd) & 0xFFFF) as u16);
        assert((addr & !1u32) & !1u32 == addr & !1u32) by {
            crate::bits::lemma_alignment();
        }
    }
}

/// Format 11: LDR/STR Rd, [SP, #imm8*4].
pub open spec fn load_store_sp_relative_done(v: CpuView, op: u32, w: CpuView) -> bool {
    &&& op & 0x800 == 0 ==> w == v
    &&& op & 0x800 != 0 ==> exists|value: u32| w == #[trigger] loaded(v, lo_field(op, 8), value)
}

/// Format 11 against the bus, at SP + imm8 * 4: STR writes Rd as an
/// aligned word; LDR loads into Rd.
pub open spec fn load_store_sp_relative_mem<B: BusModel>(v: CpuView, b0: B, op: u32, w: CpuView, b1: B) -> bool {
    let addr = wadd(v.regs[13], ((op & 0xFF) * 4) as int);
    let rd = lo_field(op, 8);
    if op & 0x800 != 0 {
        thumb_load_mem(v, b0, addr, 0, rd, w, b1)
    } else {
        word_written(b0, addr & !3u32, v.regs[rd], b1)
    }
}

fn load_store_sp_relative<B: Bus>(cpu: &mut Cpu, bus: &mut B, op: u32)
    requires
        old(bus).bus_inv(),
    ensures
        final(bus).bus_inv(),
        load_store_sp_relative_done(old(cpu)@, op, final(cpu)@),
        load_store_sp_relative_mem(old(cpu)@, *old(bus), op, final(cpu)@, *final(bus)),
{
    let rd = lo_reg(op, 8);
    assert(op & 0xFF <= 0xFF) by {
        crate::bits::lemma_bit_facts();
    }
    let addr = cpu.reg(13).wrapping_add((op & 0xFF) * 4);
    let ghost b0 = *bus;
    if op & 0x800 != 0 {
        let value = load32_rotated(bus, addr);
        assert(thumb_load_did(b0, addr, 0, value, *bus));
        cpu.add_cycles(1);
        cpu.set_reg(rd, value);
        assert(cpu@ == loaded(old(cpu)@, lo_field(op, 8), value));
    } else {
        bus.write32(addr & !3u32, cpu.reg(rd));
        assert((addr & !3u32) & !3u32 == addr & !3u32) by {
            crate::bits::lemma_alignment();
        }
    }
}

/// Format 12: ADD Rd, PC/SP, #imm8*4 (PC reads word-aligned; no flags).
pub open spec fn load_address_effect(v: CpuView, op: u32) -> CpuView {
    let base = if op & 0x800 != 0 { v.regs[13] } else { v.regs[15] & !2u32 };
    spec_set_reg(v, lo_field(op, 8), wadd(base, ((op & 0xFF) * 4) as int))
}

fn load_address(cpu: &mut Cpu, op: u32)
    ensures
        final(cpu)@ == load_address_effect(old(cpu)@, op),
{
    let rd = lo_reg(op, 8);
    let base = if op & 0x800 != 0 {
        cpu.reg(13)
    } else {
        cpu.reg(15) & !2u32
    };
    assert(op & 0xFF <= 0xFF) by {
        crate::bits::lemma_bit_facts();
    }
    cpu.set_reg(rd, base.wrapping_add((op & 0xFF) * 4));
}

/// Format 13: ADD SP, #±imm7*4.
pub open spec fn adjust_sp_effect(v: CpuView, op: u32) -> CpuView {
    let offset = ((op & 0x7F) * 4) as int;
    spec_set_reg(v, 13, if op & 0x80 != 0 { wadd(v.regs[13], -offset) } else { wadd(v.regs[13], offset) })
}

fn adjust_sp(cpu: &mut Cpu, op: u32)
    ensures
        final(cpu)@ == adjust_sp_effect(old(cpu)@, op),
{
    assert(op & 0x7F <= 0x7F) by {
        crate::bits::lemma_bit_facts();
    }
    let offset = (op & 0x7F) * 4;
    let sp = cpu.reg(13);
    let new_sp = if op & 0x80 != 0 {
        sp.wrapping_sub(offset)
    } else {
        sp.wrapping_add(offset)
    };
    cpu.set_reg(13, new_sp);
}

/// The ARM block transfer that a PUSH/POP with registers to move performs:
/// PUSH is STMDB SP! and POP is LDMIA SP!, the R bit adding LR to a PUSH
/// and PC to a POP.
pub open spec fn push_pop_block_op(op: u32) -> u32 {
    let list = op & 0xFF;
    if op & 0x800 != 0 {
        0xE8BD_0000u32 | list | (if op & 0x100 != 0 { 0x8000u32 } else { 0u32 })
    } else {
        0xE92D_0000u32 | list | (if op & 0x100 != 0 { 0x4000u32 } else { 0u32 })
    }
}

/// Format 14: PUSH {Rlist, LR} / POP {Rlist, PC}, register side. With
/// registers to move it is the ARM block transfer of `push_pop_block_op`;
/// with none it moves PC alone: PUSH steps SP down by 0x40, POP steps it up
/// by 0x40 and branches to the word it read.
pub open spec fn push_pop_done(v: CpuView, op: u32, w: CpuView) -> bool {
    let sp = v.regs[13];
    if op & 0xFF == 0 && op & 0x100 == 0 {
        if op & 0x800 == 0 {
            w == spec_set_reg(v, 13, wadd(sp, -0x40))
        } else {
            exists|value: u32|
                w == #[trigger] spec_branch(spec_set_reg(v, 13, wadd(sp, 0x40)), value, w.pipeline)
        }
    } else {
        block_done(v, push_pop_block_op(op), w)
    }
}

/// PUSH/POP against the bus: the ARM block transfer's stores and loads;
/// with no registers, PUSH stores PC + 2 at SP - 0x40 and POP reads the
/// word at SP and refills the pipeline from it.
pub open spec fn push_pop_mem<B: BusModel>(v: CpuView, b0: B, op: u32, w: CpuView, b1: B) -> bool {
    let sp = v.regs[13];
    if op & 0xFF == 0 && op & 0x100 == 0 {
        if op & 0x800 == 0 {
            word_written(b0, wadd(sp, -0x40) & !3u32, wadd(v.regs[15], 2), b1)
        } else {
            exists|value: u32, mid: B|
                #[trigger] word_read(b0, sp & !3u32, value, mid) && w == spec_branch(
                    spec_set_reg(v, 13, wadd(sp, 0x40)),
                    value,
                    w.pipeline,
                ) && refilled(mid, value, thumb_state(v.cpsr), w.pipeline, b1)
        }
    } else {
        block_mem(v, b0, push_pop_block_op(op), w, b1)
    }
}

fn push_pop<B: Bus>(cpu: &mut Cpu, bus: &mut B, op: u32)
    requires
        old(bus).bus_inv(),
    ensures
        final(bus).bus_inv(),
        push_pop_done(old(cpu)@, op, final(cpu)@),
        push_pop_mem(old(cpu)@, *old(bus), op, final(cpu)@, *final(bus)),
        mode_valid(old(cpu)@.cpsr) ==> mode_valid(final(cpu)@.cpsr),
{
    let pop = op & 0x800 != 0;
    let lr_pc = op & 0x100 != 0;
    let list = op & 0xFF;
    if list == 0 && !lr_pc {
        // Empty-list quirk, mirroring ARM LDM/STM: transfers PC, SP ±0x40.
        let sp = cpu.reg(13);
        let ghost b0 = *bus;
        if pop {
            let value = bus.read32(sp & !3u32);
            let ghost mid = *bus;
            let ghost v0 = cpu@;
            cpu.set_reg(13, sp.wrapping_add(0x40));
            cpu.branch_to(bus, value);
            assert(word_read(b0, sp & !3u32, value, mid));
            assert(cpu@ == spec_branch(spec_set_reg(v0, 13, wadd(sp, 0x40)), value, cpu@.pipeline));
        } else {
            let addr = sp.wrapping_sub(0x40);
            cpu.set_reg(13, addr);
            bus.write32(addr & !3u32, cpu.reg(15).wrapping_add(2));
        }
        return;
    }
    // Otherwise exactly the ARM STMDB SP! / LDMIA SP! it encodes.
    let block_op = if pop {
        0xE8BD_0000u32 | list | (if lr_pc { 0x8000u32 } else { 0u32 })
    } else {
        0xE92D_0000u32 | list | (if lr_pc { 0x4000u32 } else { 0u32 })
    };
    block_transfer(cpu, bus, block_op);
}

/// The ARM block transfer that LDMIA/STMIA Rb! with registers to move
/// performs.
pub open spec fn multiple_block_op(op: u32) -> u32 {
    let base_field = ((op >> 8u32) & 7) << 16u32;
    if op & 0x800 != 0 {
        0xE8B0_0000u32 | base_field | (op & 0xFF)
    } else {
        0xE8A0_0000u32 | base_field | (op & 0xFF)
    }
}

/// Format 15: LDMIA/STMIA Rb!, {Rlist}, register side. With registers to
/// move it is the ARM block transfer of `multiple_block_op`; with none it
/// moves PC alone and steps Rb up by 0x40 (LDMIA then branching to the word
/// it read).
pub open spec fn multiple_load_store_done(v: CpuView, op: u32, w: CpuView) -> bool {
    let rb = lo_field(op, 8);
    let base = v.regs[rb];
    if op & 0xFF == 0 {
        if op & 0x800 == 0 {
            w == spec_set_reg(v, rb, wadd(base, 0x40))
        } else {
            exists|value: u32|
                w == #[trigger] spec_branch(spec_set_reg(v, rb, wadd(base, 0x40)), value, w.pipeline)
        }
    } else {
        block_done(v, multiple_block_op(op), w)
    }
}

/// LDMIA/STMIA against the bus: the ARM block transfer's stores and loads;
/// with no registers, STMIA stores PC + 2 at Rb and LDMIA reads the word at
/// Rb and refills the pipeline from it.
pub open spec fn multiple_load_store_mem<B: BusModel>(
    v: CpuView,
    b0: B,
    op: u32,
    w: CpuView,
    b1: B,
) -> bool {
    let rb = lo_field(op, 8);
    let base = v.regs[rb];
    if op & 0xFF == 0 {
        if op & 0x800 == 0 {
            word_written(b0, base & !3u32, wadd(v.regs[15], 2), b1)
        } else {
            exists|value: u32, mid: B|
                #[trigger] word_read(b0, base & !3u32, value, mid) && w == spec_branch(
                    spec_set_reg(v, rb, wadd(base, 0x40)),
                    value,
                    w.pipeline,
                ) && refilled(mid, value, thumb_state(v.cpsr), w.pipeline, b1)
        }
    } else {
        block_mem(v, b0, multiple_block_op(op), w, b1)
    }
}

fn multiple_load_store<B: Bus>(cpu: &mut Cpu, bus: &mut B, op: u32)
    requires
        old(bus).bus_inv(),
    ensures
        final(bus).bus_inv(),
        multiple_load_store_done(old(cpu)@, op, final(cpu)@),
        multiple_load_store_mem(old(cpu)@, *old(bus), op, final(cpu)@, *final(bus)),
        mode_valid(old(cpu)@.cpsr) ==> mode_valid(final(cpu)@.cpsr),
{
    let load = op & 0x800 != 0;
    let rb = lo_reg(op, 8);
    let list = op & 0xFF;
    let base = cpu.reg(rb);
    if list == 0 {
        // Empty-list quirk: transfers PC, base += 0x40.
        let ghost b0 = *bus;
        if load {
            let value = bus.read32(base & !3u32);
            let ghost mid = *bus;
            let ghost v0 = cpu@;
            cpu.set_reg(rb, base.wrapping_add(0x40));
            cpu.branch_to(bus, value);
            assert(word_read(b0, base & !3u32, value, mid));
            assert(cpu@ == spec_branch(
                spec_set_reg(v0, lo_field(op, 8), wadd(base, 0x40)),
                value,
                cpu@.pipeline,
            ));
        } else {
            bus.write32(base & !3u32, cpu.reg(15).wrapping_add(2));
            cpu.set_reg(rb, base.wrapping_add(0x40));
        }
        return;
    }
    // Otherwise exactly the ARM LDMIA/STMIA Rb! it encodes.
    let base_field = ((op >> 8u32) & 7) << 16u32;
    let block_op = if load {
        0xE8B0_0000u32 | base_field | list
    } else {
        0xE8A0_0000u32 | base_field | list
    };
    block_transfer(cpu, bus, block_op);
}

/// The signed 8-bit halfword offset of a conditional branch, in bytes.
pub open spec fn cond_branch_offset(op: u32) -> u32 {
    let imm = op & 0xFF;
    if imm & 0x80 != 0 { (imm << 1) | 0xFFFF_FE00 } else { imm << 1 }
}

/// Format 16: conditional branch (8-bit offset).
/// A conditional branch is taken only when its condition passes.
pub open spec fn conditional_branch_done(v: CpuView, op: u32, cond: u32, w: CpuView) -> bool {
    if cond_passed(v.cpsr, cond) {
        w == spec_branch(v, wadd(v.regs[15], cond_branch_offset(op) as int), w.pipeline)
    } else {
        w == v
    }
}

fn conditional_branch<B: Bus>(cpu: &mut Cpu, bus: &mut B, op: u32, cond: u32)
    requires
        old(bus).bus_inv(),
    ensures
        final(bus).bus_inv(),
        conditional_branch_done(old(cpu)@, op, cond, final(cpu)@),
        if cond_passed(old(cpu)@.cpsr, cond) {
            branch_refilled(*old(bus), final(cpu)@, *final(bus))
        } else {
            *final(bus) == *old(bus)
        },
{
    if cpu.check_cond(cond) {
        let imm = op & 0xFF;
        let offset = if imm & 0x80 != 0 {
            (imm << 1) | 0xFFFF_FE00
        } else {
            imm << 1
        };
        let target = cpu.reg(15).wrapping_add(offset);
        cpu.branch_to(bus, target);
    }
}

/// Format 17: SWI. The Thumb encoding carries the number in bits 7:0.
fn software_interrupt(cpu: &mut Cpu, bus: &mut impl Bus, op: u32)
    requires
        old(bus).bus_inv(),
    ensures
        final(bus).bus_inv(),
        swi_taken(old(cpu)@, (op & 0xFF) as u8, final(cpu)@),
        swi_done(old(cpu)@, *old(bus), (op & 0xFF) as u8, final(cpu)@, *final(bus)),
{
    cpu.do_swi(bus, (op & 0xFF) as u8);
}

/// The signed 11-bit halfword offset of an unconditional branch, in bytes.
pub open spec fn uncond_branch_offset(op: u32) -> u32 {
    let imm = op & 0x7FF;
    if imm & 0x400 != 0 { (imm << 1) | 0xFFFF_F000 } else { imm << 1 }
}

/// Format 18: unconditional branch (11-bit offset).
pub open spec fn unconditional_branch_effect(v: CpuView, op: u32, pipe: Seq<u32>) -> CpuView {
    spec_branch(v, wadd(v.regs[15], uncond_branch_offset(op) as int), pipe)
}

fn unconditional_branch<B: Bus>(cpu: &mut Cpu, bus: &mut B, op: u32)
    requires
        old(bus).bus_inv(),
    ensures
        final(bus).bus_inv(),
        final(cpu)@ == unconditional_branch_effect(old(cpu)@, op, final(cpu)@.pipeline),
        branch_refilled(*old(bus), final(cpu)@, *final(bus)),
{
    let imm = op & 0x7FF;
    let offset = if imm & 0x400 != 0 {
        (imm << 1) | 0xFFFF_F000
    } else {
        imm << 1
    };
    let target = cpu.reg(15).wrapping_add(offset);
    cpu.branch_to(bus, target);
}

/// The sign-extended high part `imm11 << 12` of a BL pair.
pub open spec fn bl_high_offset(op: u32) -> u32 {
    let imm = op & 0x7FF;
    if imm & 0x400 != 0 { (imm << 12) | 0xFF80_0000 } else { imm << 12 }
}

proof fn lemma_offset_bits(op: u32)
    by (bit_vector)
    ensures
        op & 0x0080_0000 == 0 ==> branch_offset(op) == (op & 0x00FF_FFFF) * 4,
        op & 0x0080_0000 != 0 ==> branch_offset(op) == (op & 0x00FF_FFFF) * 4 + 0xFC00_0000,
        op & 0x80 == 0 ==> cond_branch_offset(op) == (op & 0xFF) * 2,
        op & 0x80 != 0 ==> cond_branch_offset(op) == (op & 0xFF) * 2 + 0xFFFF_FE00,
        op & 0x400 == 0 ==> uncond_branch_offset(op) == (op & 0x7FF) * 2,
        op & 0x400 != 0 ==> uncond_branch_offset(op) == (op & 0x7FF) * 2 + 0xFFFF_F000,
        op & 0x400 == 0 ==> bl_high_offset(op) == (op & 0x7FF) * 0x1000,
        op & 0x400 != 0 ==> bl_high_offset(op) == (op & 0x7FF) * 0x1000 + 0xFF80_0000,
        (op & 0x00FF_FFFF) < 0x100_0000 && (op & 0xFF) < 0x100 && (op & 0x7FF) < 0x800,
        (op & 0x0080_0000 != 0) == ((op & 0x00FF_FFFF) >= 0x80_0000),
        (op & 0x80 != 0) == ((op & 0xFF) >= 0x80),
        (op & 0x400 != 0) == ((op & 0x7FF) >= 0x400),
{
}

/// Branch offsets are sign-extended: read as signed 32-bit values, the ARM
/// B/BL offset is four times the signed 24-bit field, a Thumb conditional
/// branch's twice its signed 8-bit field, an unconditional branch's twice
/// its signed 11-bit field, and the first BL half's high part 4096 times
/// its signed 11-bit field.
pub proof fn lemma_branch_offsets(op: u32)
    ensures
        signed32(branch_offset(op)) == 4 * ((op & 0x00FF_FFFF) - (if op & 0x0080_0000 != 0 {
            0x100_0000int
        } else {
            0
        })),
        signed32(cond_branch_offset(op)) == 2 * ((op & 0xFF) - (if op & 0x80 != 0 {
            0x100int
        } else {
            0
        })),
        signed32(uncond_branch_offset(op)) == 2 * ((op & 0x7FF) - (if op & 0x400 != 0 {
            0x800int
        } else {
            0
        })),
        signed32(bl_high_offset(op)) == 0x1000 * ((op & 0x7FF) - (if op & 0x400 != 0 {
            0x800int
        } else {
            0
        })),
{
    lemma_offset_bits(op);
}

/// Format 19: BL, split across two halfwords. The halves are handled
/// independently so interrupted or abused pairs still behave like hardware.
/// BL halves. First: LR = PC + (signed imm11 << 12). Second: branch to
/// LR + (imm11 << 1) with LR = return address | 1.
pub open spec fn long_branch_link_effect(v: CpuView, op: u32, pipe: Seq<u32>) -> CpuView {
    if op & 0x800 == 0 {
        spec_set_reg(v, 14, wadd(v.regs[15], bl_high_offset(op) as int))
    } else {
        spec_branch(
            spec_set_reg(v, 14, wadd(v.regs[15], -2) | 1),
            wadd(v.regs[14], ((op & 0x7FF) << 1) as int),
            pipe,
        )
    }
}

fn long_branch_link<B: Bus>(cpu: &mut Cpu, bus: &mut B, op: u32)
    requires
        old(bus).bus_inv(),
    ensures
        final(bus).bus_inv(),
        final(cpu)@ == long_branch_link_effect(old(cpu)@, op, final(cpu)@.pipeline),
        if op & 0x800 != 0 {
            branch_refilled(*old(bus), final(cpu)@, *final(bus))
        } else {
            *final(bus) == *old(bus)
        },
{
    let imm = op & 0x7FF;
    if op & 0x800 == 0 {
        let offset = if imm & 0x400 != 0 {
            (imm << 12) | 0xFF80_0000
        } else {
            imm << 12
        };
        let lr = cpu.reg(15).wrapping_add(offset);
        cpu.set_reg(14, lr);
    } else {
        let target = cpu.reg(14).wrapping_add(imm << 1);
        let lr = cpu.reg(15).wrapping_sub(2) | 1;
        cpu.set_reg(14, lr);
        cpu.branch_to(bus, target);
    }
}

/// The undefined-instruction trap (LR = the next instruction).
pub open spec fn undefined_effect(v: CpuView, pipe: Seq<u32>) -> CpuView {
    spec_branch(
        spec_exception_entry(v, VEC_UNDEFINED, Mode::Undefined, wadd(v.regs[15], -2)),
        VEC_UNDEFINED,
        pipe,
    )
}

fn undefined(cpu: &mut Cpu, bus: &mut impl Bus)
    requires
        old(bus).bus_inv(),
    ensures
        final(bus).bus_inv(),
        final(cpu)@ == undefined_effect(old(cpu)@, final(cpu)@.pipeline),
        branch_refilled(*old(bus), final(cpu)@, *final(bus)),
{
    let lr = cpu.reg(15).wrapping_sub(2);
    cpu.enter_exception(bus, VEC_UNDEFINED, Mode::Undefined, lr);
}

} // verus!
