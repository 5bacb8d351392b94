//! Top-level system: ties the CPU and memory (with its peripherals) together
//! and drives the main loop. This is the seam a frontend calls into.

use crate::cpu::{
    mode_valid, refilled, spec_branch, spec_set_cpsr, step_taken, thumb_state, Cpu, CpuView, cpu_initial,
};
use crate::memory::{
    fresh_memory, half_read, lemma_half_read_timing_only, lemma_word_read_timing_only, mem_wf,
    same_but_timing, ticked, word_read, Bus, Memory, MemoryView, ROM_MAX_SIZE,
};
use crate::apu::ApuView;
use crate::io::IoView;
use crate::save::SaveView;
use crate::ppu::PpuView;
use crate::CoreError;
use vstd::prelude::*;
use vstd::string::StringExecFns;

verus! {

/// A complete GBA: CPU + memory bus and its peripherals.
pub struct Gba {
    pub cpu: Cpu,
    pub mem: Memory,
}

/// The CPU state right after the post-BIOS boot sequence: System mode, the
/// three stacks set up, LR and PC at the cartridge entry point.
pub open spec fn booted(v: CpuView, pipe: Seq<u32>) -> CpuView {
    let s = spec_set_cpsr(v, 0x1F);
    let t = CpuView {
        regs: s.regs.update(13, 0x0300_7F00).update(14, 0x0800_0000),
        bank_irq: seq![0x0300_7FA0u32, 0],
        bank_svc: seq![0x0300_7FE0u32, 0],
        ..s
    };
    spec_branch(t, 0x0800_0000, pipe)
}

/// One [`Gba::step`] from CPU state `c0` and memory `m0`: the CPU step on
/// that memory, leaving memory `m`, then the peripherals ticked from `m`
/// for the cycles the step took.
pub open spec fn gba_stepped(c0: CpuView, m0: Memory, c1: CpuView, m1: MemoryView) -> bool {
    exists|m: Memory|
        #[trigger] step_taken(c0, m0, c1, m) && mem_wf(m@) && m1 == ticked(
            m@,
            (c1.cycles - c0.cycles) % 0x1_0000_0000_0000_0000,
        )
}

/// The memory after the frame-ready signal is taken.
pub open spec fn frame_taken(m: MemoryView) -> MemoryView {
    MemoryView { ppu: PpuView { frame_ready: false, ..m.ppu }, ..m }
}

/// `k` rounds of [`Gba::run_frame`]'s loop: each one step, then the
/// frame-ready signal taken.
pub open spec fn run_steps(c0: CpuView, m0: Memory, k: nat, c1: CpuView, m1: Memory) -> bool
    decreases k,
{
    if k == 0 {
        c1 == c0 && m1 == m0
    } else {
        exists|cm: CpuView, mm: Memory, mt: MemoryView|
            run_steps(c0, m0, (k - 1) as nat, cm, mm) && #[trigger] gba_stepped(cm, mm, c1, mt)
                && m1@ == frame_taken(mt)
    }
}

proof fn lemma_run_steps_step(
    c0: CpuView,
    m0: Memory,
    k: nat,
    cm: CpuView,
    mm: Memory,
    c1: CpuView,
    mt: MemoryView,
    m1: Memory,
)
    requires
        run_steps(c0, m0, k, cm, mm),
        gba_stepped(cm, mm, c1, mt),
        m1@ == frame_taken(mt),
    ensures
        run_steps(c0, m0, k + 1, c1, m1),
{
    let k1 = k + 1;
    assert(((k1 - 1) as nat) == k);
}

/// A pipeline refill on the memory map changes only its timing state.
proof fn lemma_refill_timing_only(b0: Memory, target: u32, thumb: bool, pipe: Seq<u32>, b1: Memory)
    requires
        refilled(b0, target, thumb, pipe, b1),
    ensures
        same_but_timing(b0@, b1@),
{
    let mid: Memory = choose|mid: Memory|
        if thumb {
            half_read(b0, target & !1u32, pipe[0], mid) && half_read(
                mid,
                (((target & !1u32) + 2) % 0x1_0000_0000) as u32,
                pipe[1],
                b1,
            )
        } else {
            word_read(b0, target & !3u32, pipe[0], mid) && word_read(
                mid,
                (((target & !3u32) + 4) % 0x1_0000_0000) as u32,
                pipe[1],
                b1,
            )
        };
    if thumb {
        lemma_half_read_timing_only(b0, target & !1u32, pipe[0], mid);
        lemma_half_read_timing_only(
            mid,
            (((target & !1u32) + 2) % 0x1_0000_0000) as u32,
            pipe[1],
            b1,
        );
    } else {
        lemma_word_read_timing_only(b0, target & !3u32, pipe[0], mid);
        lemma_word_read_timing_only(
            mid,
            (((target & !3u32) + 4) % 0x1_0000_0000) as u32,
            pipe[1],
            b1,
        );
    }
}

impl Gba {
    /// Boot a cartridge in HLE mode (post-BIOS state, no BIOS image needed).
    pub fn new(rom: Vec<u8>) -> (r: Result<Gba, CoreError>)
        ensures
            rom@.len() > ROM_MAX_SIZE <==> r is Err,
            r matches Err(e) ==> e == (CoreError::RomTooLarge {
                size: rom@.len() as usize,
                max: ROM_MAX_SIZE,
            }),
            r matches Ok(g) ==> mem_wf(g.mem@) && g.cpu@ == booted(cpu_initial(), g.cpu@.pipeline),
            r matches Ok(g) ==> mode_valid(g.cpu@.cpsr),
            // The memory map is the fresh one holding `rom`, with no BIOS,
            // after the first two instructions were fetched from the entry
            // point.
            r matches Ok(g) ==> {
                &&& g.mem@.rom == rom@
                &&& !g.mem@.has_bios
                &&& exists|m0: Memory|
                    fresh_memory(m0@, rom@) && #[trigger] refilled(
                        m0,
                        0x0800_0000,
                        thumb_state(g.cpu@.cpsr),
                        g.cpu@.pipeline,
                        g.mem,
                    ) && same_but_timing(m0@, g.mem@)
            },
    {
        let mut mem = match Memory::new(rom) {
            Ok(m) => m,
            Err(e) => {
                return Err(e);
            },
        };
        let ghost m0 = mem;
        let mut cpu = Cpu::new();
        cpu.skip_bios(&mut mem);
        proof {
            lemma_refill_timing_only(m0, 0x0800_0000, thumb_state(cpu@.cpsr), cpu@.pipeline, mem);
            assert(fresh_memory(m0@, rom@));
            assert(mem@.rom == m0@.rom);
            assert(refilled(m0, 0x0800_0000, thumb_state(cpu@.cpsr), cpu@.pipeline, mem));
            assert(same_but_timing(m0@, mem@));
        }
        let g = Gba { cpu, mem };
        assert(g.mem == mem && g.cpu@ == cpu@);
        Ok(g)
    }

    /// Execute one CPU instruction and advance the peripherals by the cycles
    /// it took.
    pub fn step(&mut self) -> (r: u64)
        requires
            mem_wf(old(self).mem@),
        ensures
            mem_wf(final(self).mem@),
            r as int == (final(self).cpu@.cycles - old(self).cpu@.cycles) % 0x1_0000_0000_0000_0000,
            // The CPU step leaves memory `m`; the peripherals then ran from
            // it for exactly the cycles the instruction took.
            exists|m: Memory|
                #[trigger] step_taken(old(self).cpu@, old(self).mem, final(self).cpu@, m) && mem_wf(
                    m@,
                ) && final(self).mem@ == ticked(m@, r as int),
            mode_valid(old(self).cpu@.cpsr) ==> mode_valid(final(self).cpu@.cpsr),
    {
        let cycles = self.cpu.step(&mut self.mem);
        let ghost m = self.mem;
        self.mem.tick(cycles);
        assert(step_taken(old(self).cpu@, old(self).mem, self.cpu@, m));
        cycles
    }

    /// Run until the PPU signals a completed frame, or `max_steps` is
    /// reached (a guard against ROMs that never reach VBlank). Returns the
    /// steps run.
    pub fn run_frame(&mut self, max_steps: u64) -> (r: u64)
        requires
            mem_wf(old(self).mem@),
        ensures
            mem_wf(final(self).mem@),
            r <= max_steps,
            max_steps > 0 ==> r >= 1,
            // The frame-ready signal is consumed (each step's is taken).
            max_steps > 0 ==> !final(self).mem@.ppu.frame_ready,
            // `r` rounds of one step each; none at all for `max_steps == 0`.
            run_steps(old(self).cpu@, old(self).mem, r as nat, final(self).cpu@, final(self).mem),
            max_steps == 0 ==> r == 0 && final(self).cpu@ == old(self).cpu@ && final(self).mem
                == old(self).mem,
            // Stopping early means the last step completed a frame.
            r < max_steps ==> exists|mt: MemoryView|
                mt.ppu.frame_ready && #[trigger] frame_taken(mt) == final(self).mem@,
            mode_valid(old(self).cpu@.cpsr) ==> mode_valid(final(self).cpu@.cpsr),
    {
        let ghost c0 = self.cpu@;
        let ghost m0 = self.mem;
        let mut steps: u64 = 0;
        while steps < max_steps
            invariant
                mem_wf(self.mem@),
                steps <= max_steps,
                max_steps > 0 ==> steps >= 1 || steps == 0,
                steps >= 1 ==> !self.mem@.ppu.frame_ready,
                run_steps(c0, m0, steps as nat, self.cpu@, self.mem),
                mode_valid(c0.cpsr) ==> mode_valid(self.cpu@.cpsr),
            ensures
                mem_wf(self.mem@),
                steps <= max_steps,
                max_steps > 0 ==> steps >= 1,
                steps >= 1 ==> !self.mem@.ppu.frame_ready,
                run_steps(c0, m0, steps as nat, self.cpu@, self.mem),
                steps < max_steps ==> exists|mt: MemoryView|
                    mt.ppu.frame_ready && #[trigger] frame_taken(mt) == self.mem@,
                mode_valid(c0.cpsr) ==> mode_valid(self.cpu@.cpsr),
            decreases max_steps - steps,
        {
            let ghost cm = self.cpu@;
            let ghost mm = self.mem;
            self.step();
            let ghost mt = self.mem@;
            steps = steps + 1;
            let ready = self.mem.take_frame_ready();
            proof {
                assert(self.mem@ == frame_taken(mt));
                lemma_run_steps_step(c0, m0, (steps - 1) as nat, cm, mm, self.cpu@, mt, self.mem);
            }
            if ready {
                assert(mt.ppu.frame_ready && frame_taken(mt) == self.mem@);
                break;
            }
        }
        steps
    }

    /// The current 15-bit BGR555 framebuffer (240×160).
    pub fn framebuffer(&self) -> (r: &[u16])
        ensures
            r@ == self.mem@.ppu.framebuffer,
    {
        self.mem.framebuffer()
    }

    /// Take the accumulated stereo audio samples (interleaved L/R).
    pub fn drain_samples(&mut self) -> (r: Vec<i16>)
        ensures
            r@ == old(self).mem@.apu.buffer,
            final(self).mem@ == (MemoryView {
                apu: ApuView { buffer: Seq::empty(), ..old(self).mem@.apu },
                ..old(self).mem@
            }),
            final(self).cpu@ == old(self).cpu@,
    {
        self.mem.drain_samples()
    }

    /// Set the pressed buttons (active-high, KEYINPUT bit order: A, B,
    /// Select, Start, Right, Left, Up, Down, R, L).
    pub fn set_keys(&mut self, pressed: u16)
        ensures
            final(self).mem@ == (MemoryView {
                io: IoView { keyinput: !pressed & 0x03FF, ..old(self).mem@.io },
                ..old(self).mem@
            }),
            final(self).cpu@ == old(self).cpu@,
    {
        self.mem.set_keys(pressed);
    }

    /// The cartridge battery save memory (persist this as the game's `.sav`).
    pub fn save_data(&self) -> (r: &[u8])
        ensures
            r@ == self.mem@.save.data,
    {
        self.mem.save_data()
    }

    /// Restore battery save memory from a persisted `.sav`.
    pub fn load_save_data(&mut self, bytes: &[u8])
        ensures
            final(self).mem@ == (MemoryView {
                save: SaveView {
                    data: Seq::new(
                        old(self).mem@.save.data.len(),
                        |i: int|
                            if i < bytes@.len() {
                                bytes@[i]
                            } else {
                                old(self).mem@.save.data[i]
                            },
                    ),
                    ..old(self).mem@.save
                },
                ..old(self).mem@
            }),
            final(self).cpu@ == old(self).cpu@,
    {
        self.mem.load_save_data(bytes);
    }
}

// ---------------------------------------------------------------------------
// Save-state framing
// ---------------------------------------------------------------------------

/// The little-endian encoding of a 32-bit length.
pub open spec fn le32(n: u32) -> Seq<u8> {
    seq![n as u8, (n >> 8u32) as u8, (n >> 16u32) as u8, (n >> 24u32) as u8]
}

/// A save state: the CPU blob, length-prefixed so a load can find where the
/// memory blob begins, followed by the memory blob.
pub open spec fn framed(cpu_blob: Seq<u8>, mem_blob: Seq<u8>) -> Seq<u8> {
    le32(cpu_blob.len() as u32) + cpu_blob + mem_blob
}

/// Frame a CPU blob and a memory blob into one save state.
pub fn frame_state(cpu_blob: &[u8], mem_blob: &[u8]) -> (r: Vec<u8>)
    requires
        cpu_blob@.len() <= u32::MAX,
    ensures
        r@ == framed(cpu_blob@, mem_blob@),
{
    let n = cpu_blob.len() as u32;
    let mut out: Vec<u8> = Vec::new();
    out.push(n as u8);
    out.push((n >> 8u32) as u8);
    out.push((n >> 16u32) as u8);
    out.push((n >> 24u32) as u8);
    let mut i: usize = 0;
    while i < cpu_blob.len()
        invariant
            i <= cpu_blob@.len(),
            out@ == le32(n) + cpu_blob@.subrange(0, i as int),
        decreases cpu_blob@.len() - i,
    {
        out.push(cpu_blob[i]);
        i = i + 1;
        proof {
            assert(out@ =~= le32(n) + cpu_blob@.subrange(0, i as int));
        }
    }
    let mut j: usize = 0;
    while j < mem_blob.len()
        invariant
            j <= mem_blob@.len(),
            out@ == le32(n) + cpu_blob@ + mem_blob@.subrange(0, j as int),
        decreases mem_blob@.len() - j,
    {
        out.push(mem_blob[j]);
        j = j + 1;
        proof {
            assert(out@ =~= le32(n) + cpu_blob@ + mem_blob@.subrange(0, j as int));
        }
    }
    proof {
        assert(cpu_blob@.subrange(0, cpu_blob@.len() as int) =~= cpu_blob@);
        assert(mem_blob@.subrange(0, mem_blob@.len() as int) =~= mem_blob@);
        assert(out@ =~= framed(cpu_blob@, mem_blob@));
    }
    out
}

/// The length prefix of a state (its first four bytes, little-endian).
pub open spec fn prefix_len(data: Seq<u8>) -> int {
    data[0] as int + data[1] as int * 0x100 + data[2] as int * 0x1_0000 + data[3] as int
        * 0x100_0000
}

/// Where a state's memory blob begins: after the prefix and the CPU blob.
/// Fails (as "truncated") when the data is too short for either.
pub fn split_state(data: &[u8]) -> (r: Result<usize, CoreError>)
    ensures
        (data@.len() < 4 || data@.len() < 4 + prefix_len(data@)) <==> r is Err,
        r matches Ok(end) ==> end == 4 + prefix_len(data@),
        r matches Err(e) ==> e matches CoreError::SaveState(msg) && msg@ == "truncated"@,
{
    if data.len() < 4 {
        return Err(CoreError::SaveState(String::from_str("truncated")));
    }
    let cpu_len = (data[0] as usize) + (data[1] as usize) * 0x100 + (data[2] as usize)
        * 0x1_0000 + (data[3] as usize) * 0x100_0000;
    if data.len() - 4 < cpu_len {
        return Err(CoreError::SaveState(String::from_str("truncated")));
    }
    Ok(4 + cpu_len)
}

/// Framing round-trips: splitting a framed state finds the boundary right
/// after the CPU blob, so the two blobs come back unchanged.
pub proof fn lemma_frame_split_roundtrip(cpu_blob: Seq<u8>, mem_blob: Seq<u8>)
    requires
        cpu_blob.len() <= u32::MAX,
    ensures
        ({
            let d = framed(cpu_blob, mem_blob);
            &&& d.len() >= 4
            &&& prefix_len(d) == cpu_blob.len()
            &&& d.subrange(4, 4 + cpu_blob.len() as int) == cpu_blob
            &&& d.subrange(4 + cpu_blob.len() as int, d.len() as int) == mem_blob
        }),
{
    let d = framed(cpu_blob, mem_blob);
    let n = cpu_blob.len() as u32;
    assert(d[0] == n as u8 && d[1] == (n >> 8u32) as u8 && d[2] == (n >> 16u32) as u8 && d[3]
        == (n >> 24u32) as u8);
    let b0 = n as u8;
    let b1 = (n >> 8u32) as u8;
    let b2 = (n >> 16u32) as u8;
    let b3 = (n >> 24u32) as u8;
    assert(b0 as int + b1 as int * 0x100 + b2 as int * 0x1_0000 + b3 as int * 0x100_0000 == n)
        by (bit_vector)
        requires
            b0 == n as u8,
            b1 == (n >> 8u32) as u8,
            b2 == (n >> 16u32) as u8,
            b3 == (n >> 24u32) as u8,
    ;
    assert(d.subrange(4, 4 + cpu_blob.len() as int) =~= cpu_blob);
    assert(d.subrange(4 + cpu_blob.len() as int, d.len() as int) =~= mem_blob);
}

} // verus!
