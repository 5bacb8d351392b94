//! GBA memory map and bus.
//!
//! Every region is decoded and timed, the I/O register file and the
//! peripherals (PPU, APU, DMA, timers) are wired in, cartridge open-bus reads
//! are modeled, the 8-bit-write quirks of palette/VRAM/OAM are honored and the
//! cartridge save chip answers at 0x0E00_0000. Access timing (waitstates, S/N
//! cycles) is accumulated per access and handed to the CPU so its cycle
//! counter reflects the real bus — see [`crate::timing`].
//!
//! The state is specified by [`MemoryView`]: a read by [`mem_read`], a write
//! by [`mem_write`], a step of the peripherals by `Memory::tick`.

use crate::apu::{
    apu_initial, apu_offset_ok, apu_read16, apu_run, apu_wf, apu_write16, apu_write8,
    timer_overflowed, Apu, ApuView,
};
use crate::dma::{self, dma_initial, dma_read16, dma_write16, Dma, DmaChannel};
use crate::io::{io_initial, byte_of_half, io_read16, io_write16, io_write8, merge_byte, Io, IoView};
use crate::ppu::{frame_run, ppu_initial, ppu_read16, ppu_wf, ppu_write16, timing_run, Ppu, PpuView};
use crate::save::{detected, save_initial, save_read, save_write, Save, SaveView};
use crate::timers::{timers_initial, timers_read16, timers_ticked, timers_write16, Timer, Timers};
use crate::timing::{access_cycles, spec_access_cycles, region_of, Region, SeqTracker, Width, width_size};
use crate::CoreError;
use vstd::prelude::*;

verus! {

/// The access model of a bus: what one native access of each width can
/// return and where it leaves the bus. [`Bus`] states its accessors over it.
pub trait BusModel: Sized {
    /// A read of `width` at `addr` can return `value` and leave the bus as
    /// `next`.
    spec fn read_did(&self, addr: u32, width: Width, value: u32, next: Self) -> bool;

    /// A write of `value` (of `width`) at `addr` can leave the bus as `next`.
    spec fn write_did(&self, addr: u32, width: Width, value: u32, next: Self) -> bool;

    /// Taking the pending halt request can answer `r` and leave the bus as
    /// `next`.
    spec fn halt_taken(&self, r: bool, next: Self) -> bool;

    /// Taking the accumulated waitstate cycles can answer `r` and leave the
    /// bus as `next`.
    spec fn cycles_taken(&self, r: u32, next: Self) -> bool;
}

/// Two byte reads at the halfword `a` (low byte first) that return `r`.
pub open spec fn bytes_read_as_half<B: BusModel>(b0: B, a: u32, r: u32, b1: B) -> bool {
    exists|mid: B, lo: u32, hi: u32|
        #![trigger b0.read_did(a, Width::Byte, lo, mid), mid.read_did(a | 1, Width::Byte, hi, b1)]
        lo < 0x100 && hi < 0x100 && b0.read_did(a, Width::Byte, lo, mid) && mid.read_did(
            a | 1,
            Width::Byte,
            hi,
            b1,
        ) && r == lo | (hi << 8u32)
}

/// A halfword read at `addr` (aligned down) returning `r`: one native
/// halfword access, or, for a bus that composes it, two byte reads.
pub open spec fn half_read<B: BusModel>(b0: B, addr: u32, r: u32, b1: B) -> bool {
    ||| b0.read_did(addr & !1u32, Width::Half, r, b1)
    ||| bytes_read_as_half(b0, addr & !1u32, r, b1)
}

/// Two halfword reads at the word `a` (low half first) that return `r`.
pub open spec fn halves_read_as_word<B: BusModel>(b0: B, a: u32, r: u32, b1: B) -> bool {
    exists|mid: B, lo: u32, hi: u32|
        #![trigger half_read(b0, a, lo, mid), half_read(mid, a | 2, hi, b1)]
        lo < 0x1_0000 && hi < 0x1_0000 && half_read(b0, a, lo, mid) && half_read(
            mid,
            a | 2,
            hi,
            b1,
        ) && r == lo | (hi << 16u32)
}

/// A word read at `addr` (aligned down) returning `r`: one native word
/// access, or two halfword reads.
pub open spec fn word_read<B: BusModel>(b0: B, addr: u32, r: u32, b1: B) -> bool {
    ||| b0.read_did(addr & !3u32, Width::Word, r, b1)
    ||| halves_read_as_word(b0, addr & !3u32, r, b1)
}

/// Two byte writes of `value` at the halfword `a`, low byte first.
pub open spec fn bytes_written_as_half<B: BusModel>(b0: B, a: u32, value: u16, b1: B) -> bool {
    exists|mid: B|
        #![trigger b0.write_did(a, Width::Byte, (value as u8) as u32, mid)]
        b0.write_did(a, Width::Byte, (value as u8) as u32, mid) && mid.write_did(
            a | 1,
            Width::Byte,
            ((value >> 8u16) as u8) as u32,
            b1,
        )
}

/// A halfword write of `value` at `addr` (aligned down): one native
/// halfword access, or two byte writes.
pub open spec fn half_written<B: BusModel>(b0: B, addr: u32, value: u16, b1: B) -> bool {
    ||| b0.write_did(addr & !1u32, Width::Half, value as u32, b1)
    ||| bytes_written_as_half(b0, addr & !1u32, value, b1)
}

/// Two halfword writes of `value` at the word `a`, low half first.
pub open spec fn halves_written_as_word<B: BusModel>(b0: B, a: u32, value: u32, b1: B) -> bool {
    exists|mid: B|
        #![trigger half_written(b0, a, value as u16, mid)]
        half_written(b0, a, value as u16, mid) && half_written(
            mid,
            a | 2,
            (value >> 16u32) as u16,
            b1,
        )
}

/// A word write of `value` at `addr` (aligned down): one native word
/// access, or two halfword writes.
pub open spec fn word_written<B: BusModel>(b0: B, addr: u32, value: u32, b1: B) -> bool {
    ||| b0.write_did(addr & !3u32, Width::Word, value, b1)
    ||| halves_written_as_word(b0, addr & !3u32, value, b1)
}

/// CPU-visible address space. The CPU is generic over this trait, so tests can
/// substitute a flat RAM bus.
///
/// Byte access is required; the 16/32-bit accessors have byte-composed
/// defaults for simple test buses. [`Memory`] overrides all of them so that
/// each access is a single timed, correctly-sized bus operation.
///
/// `bus_inv` is the implementation's own consistency invariant: every access
/// starts from a consistent bus and leaves it consistent.
pub trait Bus: BusModel {
    spec fn bus_inv(&self) -> bool;

    fn read8(&mut self, addr: u32) -> (r: u8)
        requires
            old(self).bus_inv(),
        ensures
            final(self).bus_inv(),
            old(self).read_did(addr, Width::Byte, r as u32, *final(self)),
    ;

    fn write8(&mut self, addr: u32, value: u8)
        requires
            old(self).bus_inv(),
        ensures
            final(self).bus_inv(),
            old(self).write_did(addr, Width::Byte, value as u32, *final(self)),
    ;

    fn read16(&mut self, addr: u32) -> (r: u16)
        requires
            old(self).bus_inv(),
        ensures
            final(self).bus_inv(),
            half_read(*old(self), addr, r as u32, *final(self)),
        default_ensures
            final(self).bus_inv(),
            bytes_read_as_half(*old(self), addr & !1u32, r as u32, *final(self)),
    {
        let a = addr & !1u32;
        let ghost b0 = *self;
        let lo = self.read8(a);
        let ghost mid = *self;
        let hi = self.read8(a | 1);
        let r = (lo as u16) | ((hi as u16) << 8);
        assert(r as u32 == (lo as u32) | ((hi as u32) << 8u32)) by (bit_vector)
            requires
                r == (lo as u16) | ((hi as u16) << 8),
        ;
        assert(b0.read_did(a, Width::Byte, lo as u32, mid) && mid.read_did(
            a | 1,
            Width::Byte,
            hi as u32,
            *self,
        ));
        r
    }

    fn read32(&mut self, addr: u32) -> (r: u32)
        requires
            old(self).bus_inv(),
        ensures
            final(self).bus_inv(),
            word_read(*old(self), addr, r, *final(self)),
        default_ensures
            final(self).bus_inv(),
            halves_read_as_word(*old(self), addr & !3u32, r, *final(self)),
    {
        let a = addr & !3u32;
        let ghost b0 = *self;
        let lo = self.read16(a);
        let ghost mid = *self;
        let hi = self.read16(a | 2);
        let r = (lo as u32) | ((hi as u32) << 16);
        assert(r == (lo as u32) | ((hi as u32) << 16u32)) by (bit_vector)
            requires
                r == (lo as u32) | ((hi as u32) << 16),
        ;
        assert(half_read(b0, a, lo as u32, mid) && half_read(mid, a | 2, hi as u32, *self));
        r
    }

    fn write16(&mut self, addr: u32, value: u16)
        requires
            old(self).bus_inv(),
        ensures
            final(self).bus_inv(),
            half_written(*old(self), addr, value, *final(self)),
        default_ensures
            final(self).bus_inv(),
            bytes_written_as_half(*old(self), addr & !1u32, value, *final(self)),
    {
        let a = addr & !1u32;
        let ghost b0 = *self;
        self.write8(a, value as u8);
        let ghost mid = *self;
        self.write8(a | 1, (value >> 8) as u8);
        assert(b0.write_did(a, Width::Byte, (value as u8) as u32, mid));
    }

    fn write32(&mut self, addr: u32, value: u32)
        requires
            old(self).bus_inv(),
        ensures
            final(self).bus_inv(),
            word_written(*old(self), addr, value, *final(self)),
        default_ensures
            final(self).bus_inv(),
            halves_written_as_word(*old(self), addr & !3u32, value, *final(self)),
    {
        let a = addr & !3u32;
        let ghost b0 = *self;
        self.write16(a, value as u16);
        let ghost mid = *self;
        self.write16(a | 2, (value >> 16) as u16);
        assert(half_written(b0, a, value as u16, mid));
    }

    /// Whether this bus holds a real BIOS image.
    spec fn bios_loaded(&self) -> bool;

    /// Whether this bus's interrupt line is up (an enabled request pending
    /// with interrupts on).
    spec fn interrupt_line(&self) -> bool;

    /// Whether a real BIOS image is present. `false` selects HLE SWI handling.
    fn has_bios(&self) -> (r: bool)
        ensures
            r == self.bios_loaded(),
    ;

    /// Whether an unmasked interrupt is pending (drives CPU IRQ dispatch).
    fn irq_pending(&self) -> (r: bool)
        ensures
            r == self.interrupt_line(),
    ;

    /// Take (and clear) a pending HALTCNT request from the I/O registers.
    /// A bus without I/O registers never has one, and stays as it is.
    fn take_halt_request(&mut self) -> (r: bool)
        requires
            old(self).bus_inv(),
        ensures
            final(self).bus_inv(),
            old(self).halt_taken(r, *final(self)),
    ;

    /// Take (and reset) the waitstate cycles accumulated since the last call.
    /// A bus without a waitstate model charges none, and stays as it is.
    fn take_access_cycles(&mut self) -> (r: u32)
        requires
            old(self).bus_inv(),
        ensures
            final(self).bus_inv(),
            old(self).cycles_taken(r, *final(self)),
    ;
}

/// A freshly built memory map holding cartridge `rom`: zeroed RAM, video
/// memory and BIOS area, no BIOS image, the save chip its marker names
/// (erased), the I/O registers, PPU, APU, DMA and timers at power-on, no
/// access in progress and no cycles charged.
pub open spec fn fresh_memory(m: MemoryView, rom: Seq<u8>) -> bool {
    &&& mem_wf(m)
    &&& m.rom == rom
    &&& m.bios == Seq::new(BIOS_SIZE as nat, |i: int| 0u8)
    &&& m.ewram == Seq::new(EWRAM_SIZE as nat, |i: int| 0u8)
    &&& m.iwram == Seq::new(IWRAM_SIZE as nat, |i: int| 0u8)
    &&& m.palette == Seq::new(PALETTE_SIZE as nat, |i: int| 0u8)
    &&& m.vram == Seq::new(VRAM_SIZE as nat, |i: int| 0u8)
    &&& m.oam == Seq::new(OAM_SIZE as nat, |i: int| 0u8)
    &&& m.apu == apu_initial()
    &&& m.io == io_initial()
    &&& m.ppu == ppu_initial()
    &&& m.dma == dma_initial()
    &&& m.timers == timers_initial()
    &&& m.seq == None::<(u32, u8)>
    &&& m.save == save_initial(detected(rom))
    &&& !m.has_bios
    &&& m.access_cycles == 0
    &&& m.open_bus == 0
}

/// `b` is `a` up to the timing state a read touches (the sequential-access
/// tracker, the charged cycles and the open-bus latch).
pub open spec fn same_but_timing(a: MemoryView, b: MemoryView) -> bool {
    b == (MemoryView { seq: b.seq, access_cycles: b.access_cycles, open_bus: b.open_bus, ..a })
}

/// Reads on the memory map change only its timing state.
pub proof fn lemma_half_read_timing_only(b0: Memory, addr: u32, r: u32, b1: Memory)
    requires
        half_read(b0, addr, r, b1),
    ensures
        same_but_timing(b0@, b1@),
{
    if !b0.read_did(addr & !1u32, Width::Half, r, b1) {
        let (mid, lo, hi): (Memory, u32, u32) = choose|mid: Memory, lo: u32, hi: u32|
            lo < 0x100 && hi < 0x100 && b0.read_did(addr & !1u32, Width::Byte, lo, mid)
                && mid.read_did((addr & !1u32) | 1, Width::Byte, hi, b1) && r == lo | (hi << 8u32);
    }
}

/// Reads on the memory map change only its timing state.
pub proof fn lemma_word_read_timing_only(b0: Memory, addr: u32, r: u32, b1: Memory)
    requires
        word_read(b0, addr, r, b1),
    ensures
        same_but_timing(b0@, b1@),
{
    if !b0.read_did(addr & !3u32, Width::Word, r, b1) {
        let (mid, lo, hi): (Memory, u32, u32) = choose|mid: Memory, lo: u32, hi: u32|
            lo < 0x1_0000 && hi < 0x1_0000 && half_read(b0, addr & !3u32, lo, mid) && half_read(
                mid,
                (addr & !3u32) | 2,
                hi,
                b1,
            ) && r == lo | (hi << 16u32);
        lemma_half_read_timing_only(b0, addr & !3u32, lo, mid);
        lemma_half_read_timing_only(mid, (addr & !3u32) | 2, hi, b1);
    }
}

/// I/O sub-block boundaries within 0x0400_0000. Offsets outside the PPU,
/// sound, DMA and timer ranges fall through to [`Io`].
pub const PPU_REG_END: u32 = 0x60;
pub const SOUND_REG_START: u32 = 0x60;
pub const SOUND_REG_END: u32 = 0xA8;
pub const DMA_REG_START: u32 = 0xB0;
pub const DMA_REG_END: u32 = 0xE0;
pub const TIMER_REG_START: u32 = 0x100;
pub const TIMER_REG_END: u32 = 0x110;

pub const BIOS_SIZE: usize = 0x4000;
pub const EWRAM_SIZE: usize = 0x40000;
pub const IWRAM_SIZE: usize = 0x8000;
pub const PALETTE_SIZE: usize = 0x400;
pub const VRAM_SIZE: usize = 0x18000;
pub const OAM_SIZE: usize = 0x400;
pub const ROM_MAX_SIZE: usize = 0x200_0000;

/// The Direct Sound FIFO registers, as DMA destinations.
pub const FIFO_A_ADDR: u32 = 0x0400_00A0;
pub const FIFO_B_ADDR: u32 = 0x0400_00A4;

/// The GBA memory map.
pub struct Memory {
    bios: Vec<u8>,
    ewram: Vec<u8>,
    iwram: Vec<u8>,
    palette: Vec<u8>,
    vram: Vec<u8>,
    oam: Vec<u8>,
    rom: Vec<u8>,
    io: Io,
    ppu: Ppu,
    apu: Apu,
    dma: Dma,
    timers: Timers,
    save: Save,
    has_bios: bool,
    /// Waitstate cycles accumulated since the CPU last drained them.
    access_cycles: u32,
    seq: SeqTracker,
    /// Last value driven on the bus, returned for open-bus reads.
    open_bus: u32,
}

/// The abstract memory-map state.
pub ghost struct MemoryView {
    pub bios: Seq<u8>,
    pub ewram: Seq<u8>,
    pub iwram: Seq<u8>,
    pub palette: Seq<u8>,
    pub vram: Seq<u8>,
    pub oam: Seq<u8>,
    pub rom: Seq<u8>,
    pub io: IoView,
    pub ppu: PpuView,
    pub apu: ApuView,
    pub dma: Seq<DmaChannel>,
    pub timers: Seq<Timer>,
    pub save: SaveView,
    pub has_bios: bool,
    pub access_cycles: u32,
    pub seq: Option<(u32, u8)>,
    pub open_bus: u32,
}

impl View for Memory {
    type V = MemoryView;

    closed spec fn view(&self) -> MemoryView {
        MemoryView {
            bios: self.bios@,
            ewram: self.ewram@,
            iwram: self.iwram@,
            palette: self.palette@,
            vram: self.vram@,
            oam: self.oam@,
            rom: self.rom@,
            io: self.io@,
            ppu: self.ppu@,
            apu: self.apu@,
            dma: self.dma@,
            timers: self.timers@,
            save: self.save@,
            has_bios: self.has_bios,
            access_cycles: self.access_cycles,
            seq: self.seq@,
            open_bus: self.open_bus,
        }
    }
}

/// The memory map's invariant: every region at its size, the cartridge
/// within the 32 MiB window, and the PPU and APU consistent.
pub open spec fn mem_wf(m: MemoryView) -> bool {
    &&& m.bios.len() == BIOS_SIZE
    &&& m.ewram.len() == EWRAM_SIZE
    &&& m.iwram.len() == IWRAM_SIZE
    &&& m.palette.len() == PALETTE_SIZE
    &&& m.vram.len() == VRAM_SIZE
    &&& m.oam.len() == OAM_SIZE
    &&& m.rom.len() <= ROM_MAX_SIZE
    &&& ppu_wf(m.ppu)
    &&& apu_wf(m.apu)
    &&& m.dma.len() == 4
    &&& m.timers.len() == 4
}

/// An access of `width` at `addr` is naturally aligned.
pub open spec fn aligned(addr: u32, width: Width) -> bool {
    match width {
        Width::Byte => true,
        Width::Half => addr % 2 == 0,
        Width::Word => addr % 4 == 0,
    }
}

/// Byte `i` of a region that wraps modulo its length.
pub open spec fn byte_mod(data: Seq<u8>, i: int) -> u32 {
    data[i % data.len() as int] as u32
}

/// A little-endian load of `width` bytes from `base`, wrapping modulo the
/// region's length (mirrored regions wrap rather than run off the end).
pub open spec fn load_le(data: Seq<u8>, base: int, width: Width) -> u32 {
    match width {
        Width::Byte => byte_mod(data, base),
        Width::Half => byte_mod(data, base) | (byte_mod(data, base + 1) << 8u32),
        Width::Word => byte_mod(data, base) | (byte_mod(data, base + 1) << 8u32) | (byte_mod(
            data,
            base + 2,
        ) << 16u32) | (byte_mod(data, base + 3) << 24u32),
    }
}

/// A little-endian store of `width` bytes of `value` at `base`, wrapping
/// modulo the region's length.
pub open spec fn store_le(data: Seq<u8>, base: int, width: Width, value: u32) -> Seq<u8> {
    let len = data.len() as int;
    let d1 = data.update(base % len, value as u8);
    match width {
        Width::Byte => d1,
        Width::Half => d1.update((base + 1) % len, (value >> 8u32) as u8),
        Width::Word => d1.update((base + 1) % len, (value >> 8u32) as u8).update(
            (base + 2) % len,
            (value >> 16u32) as u8,
        ).update((base + 3) % len, (value >> 24u32) as u8),
    }
}

/// VRAM is 96 KiB in a 128 KiB window: the upper 32 KiB mirrors 64K–96K.
pub open spec fn vram_index(addr: u32) -> int {
    let a = (addr & 0x1_FFFF) as int;
    if a >= 0x18000 {
        a - 0x8000
    } else {
        a
    }
}

/// A read of an 8/16/32-bit view of a halfword register file `h`.
pub open spec fn halves_read(h: spec_fn(u32) -> u16, off: u32, width: Width) -> u32 {
    match width {
        Width::Byte => byte_of_half(h(off & !1u32), off) as u32,
        Width::Half => h(off) as u32,
        Width::Word => (h(off) as u32) | ((h((off + 2) as u32) as u32) << 16u32),
    }
}

/// What an I/O read at offset `off` (within 0x000..0x400) returns: the PPU,
/// sound, DMA and timer blocks answer their ranges, the general register
/// file the rest.
pub open spec fn mem_io_read(m: MemoryView, off: u32, width: Width) -> u32 {
    if off < PPU_REG_END {
        halves_read(|o: u32| ppu_read16(m.ppu, o), off, width)
    } else if SOUND_REG_START <= off < SOUND_REG_END {
        halves_read(|o: u32| apu_read16(m.apu, o), off, width)
    } else if DMA_REG_START <= off < DMA_REG_END {
        halves_read(|o: u32| dma_read16(m.dma, o), off, width)
    } else if TIMER_REG_START <= off < TIMER_REG_END {
        halves_read(|o: u32| timers_read16(m.timers, o), off, width)
    } else {
        halves_read(|o: u32| io_read16(m.io, o), off, width)
    }
}

/// The state after an I/O write at offset `off`.
pub open spec fn mem_io_write(m: MemoryView, off: u32, width: Width, value: u32) -> MemoryView {
    let lo = value as u16;
    let hi = (value >> 16u32) as u16;
    let hoff = (off + 2) as u32;
    let even = off & !1u32;
    if off < PPU_REG_END {
        let p = m.ppu;
        MemoryView {
            ppu: match width {
                Width::Byte => ppu_write16(
                    p,
                    even,
                    merge_byte(ppu_read16(p, even), off, value as u8),
                ),
                Width::Half => ppu_write16(p, off, lo),
                Width::Word => ppu_write16(ppu_write16(p, off, lo), hoff, hi),
            },
            ..m
        }
    } else if SOUND_REG_START <= off < SOUND_REG_END {
        let a = m.apu;
        MemoryView {
            apu: match width {
                Width::Byte => apu_write8(a, off, value as u8),
                Width::Half => apu_write16(a, off, lo),
                Width::Word => apu_write16(apu_write16(a, off, lo), hoff, hi),
            },
            ..m
        }
    } else if DMA_REG_START <= off < DMA_REG_END {
        let d = m.dma;
        MemoryView {
            dma: match width {
                Width::Byte => dma_write16(
                    d,
                    even,
                    merge_byte(dma_read16(d, even), off, value as u8),
                ),
                Width::Half => dma_write16(d, off, lo),
                Width::Word => dma_write16(dma_write16(d, off, lo), hoff, hi),
            },
            ..m
        }
    } else if TIMER_REG_START <= off < TIMER_REG_END {
        let t = m.timers;
        MemoryView {
            timers: match width {
                Width::Byte => timers_write16(
                    t,
                    even,
                    merge_byte(timers_read16(t, even), off, value as u8),
                ),
                Width::Half => timers_write16(t, off, lo),
                Width::Word => timers_write16(timers_write16(t, off, lo), hoff, hi),
            },
            ..m
        }
    } else {
        let s = m.io;
        MemoryView {
            io: match width {
                Width::Byte => io_write8(s, off, value as u8),
                Width::Half => io_write16(s, off, lo),
                Width::Word => io_write16(io_write16(s, off, lo), hoff, hi),
            },
            ..m
        }
    }
}

/// An out-of-bounds cartridge read: the bus floats with the last prefetched
/// halfword, which reads back as the address halved.
pub open spec fn rom_open_bus(addr: u32, width: Width) -> u32 {
    let half = |a: u32| ((a >> 1u32) as u16) as u32;
    match width {
        Width::Word => half(addr) | (half((addr + 2) as u32) << 16u32),
        Width::Half => half(addr),
        Width::Byte => {
            let h = half(addr & !1u32);
            if addr & 1 == 0 {
                h & 0xFF
            } else {
                h >> 8u32
            }
        },
    }
}

/// A read of the save chip: its bus is 8 bits wide, so a wider read sees the
/// byte repeated in every lane.
pub open spec fn save_bus_read(s: SaveView, addr: u32, width: Width) -> u32 {
    let b = save_read(s, addr) as u32;
    match width {
        Width::Byte => b,
        Width::Half => (b * 0x0101) as u32,
        Width::Word => (b * 0x0101_0101) as u32,
    }
}

/// What a read of `width` at `addr` returns (without timing).
#[verifier::opaque]
pub open spec fn mem_read(m: MemoryView, addr: u32, width: Width) -> u32 {
    let r = addr >> 24u32;
    if r <= 1 {
        if addr < BIOS_SIZE {
            load_le(m.bios, addr as int, width)
        } else {
            m.open_bus
        }
    } else if r == 2 {
        load_le(m.ewram, addr as int, width)
    } else if r == 3 {
        load_le(m.iwram, addr as int, width)
    } else if r == 4 {
        mem_io_read(m, addr & 0x3FF, width)
    } else if r == 5 {
        load_le(m.palette, addr as int, width)
    } else if r == 6 {
        load_le(m.vram, vram_index(addr), width)
    } else if r == 7 {
        load_le(m.oam, addr as int, width)
    } else if 8 <= r <= 0xD {
        let off = (addr & 0x01FF_FFFF) as int;
        if off + width_size(width) <= m.rom.len() {
            load_le(m.rom, off, width)
        } else {
            rom_open_bus(addr, width)
        }
    } else if r == 0xE || r == 0xF {
        save_bus_read(m.save, addr, width)
    } else {
        m.open_bus
    }
}

/// Where OBJ tiles start in VRAM: 0x10000 in the tiled modes, 0x14000 in the
/// bitmap modes (3–5).
pub open spec fn obj_vram_start(m: MemoryView) -> int {
    if m.ppu.regs[0] & 7 >= 3 {
        0x14000
    } else {
        0x10000
    }
}

/// The state after a write of `width` at `addr` (without timing).
#[verifier::opaque]
pub open spec fn mem_write(m: MemoryView, addr: u32, width: Width, value: u32) -> MemoryView {
    let r = addr >> 24u32;
    let dup = ((value as u8) as u32 * 0x0101) as u32;
    if r == 2 {
        MemoryView { ewram: store_le(m.ewram, addr as int, width, value), ..m }
    } else if r == 3 {
        MemoryView { iwram: store_le(m.iwram, addr as int, width, value), ..m }
    } else if r == 4 {
        mem_io_write(m, addr & 0x3FF, width, value)
    } else if r == 5 {
        // Palette RAM has a 16-bit bus: an 8-bit write fills the halfword.
        if width == Width::Byte {
            MemoryView { palette: store_le(m.palette, (addr & !1u32) as int, Width::Half, dup), ..m }
        } else {
            MemoryView { palette: store_le(m.palette, addr as int, width, value), ..m }
        }
    } else if r == 6 {
        let idx = vram_index(addr);
        if width == Width::Byte {
            // BG VRAM duplicates a byte across the halfword; OBJ VRAM ignores it.
            if idx < obj_vram_start(m) {
                MemoryView { vram: store_le(m.vram, idx - idx % 2, Width::Half, dup), ..m }
            } else {
                m
            }
        } else {
            MemoryView { vram: store_le(m.vram, idx, width, value), ..m }
        }
    } else if r == 7 {
        // OAM has a 16-bit bus and ignores 8-bit writes entirely.
        if width == Width::Byte {
            m
        } else {
            MemoryView { oam: store_le(m.oam, addr as int, width, value), ..m }
        }
    } else if r == 0xE || r == 0xF {
        // The save chip's 8-bit bus takes the low byte.
        MemoryView { save: save_write(m.save, addr, value as u8), ..m }
    } else {
        // BIOS and ROM are not writable.
        m
    }
}

/// The state after a timed access: the S/N classification and waitstates
/// are charged (the counter saturates rather than wrapping), and the access
/// leaves `open_bus` holding the value moved.
pub open spec fn charged(m: MemoryView, addr: u32, width: Width, moved: u32) -> MemoryView {
    let seq = m.seq == Some((addr, (addr >> 24u32) as u8));
    let c = spec_access_cycles(region_of(addr), width, seq, m.io.waitcnt);
    MemoryView {
        seq: Some((((addr + width_size(width)) % 0x1_0000_0000) as u32, (addr >> 24u32) as u8)),
        access_cycles: if m.access_cycles + c > u32::MAX { u32::MAX } else { (m.access_cycles
            + c) as u32 },
        open_bus: moved,
        ..m
    }
}

/// A DMA address step: decrement, fixed, or increment (modes 0 and 3).
pub open spec fn dma_advance(addr: u32, mode: u16, step: u32) -> u32 {
    if mode == dma::ADDR_DEC {
        addr.wrapping_sub(step)
    } else if mode == dma::ADDR_FIXED {
        addr
    } else {
        addr.wrapping_add(step)
    }
}

/// `n` DMA units copied from `src` to `dst` (each address aligned to the
/// unit), with the addresses stepping by their modes: the state after them
/// and the final source and destination addresses.
pub open spec fn dma_units(
    m: MemoryView,
    word: bool,
    src: u32,
    dst: u32,
    src_ctl: u16,
    dst_ctl: u16,
    n: nat,
) -> (MemoryView, u32, u32)
    decreases n,
{
    if n == 0 {
        (m, src, dst)
    } else {
        let p = dma_units(m, word, src, dst, src_ctl, dst_ctl, (n - 1) as nat);
        let width = if word { Width::Word } else { Width::Half };
        let step: u32 = if word { 4 } else { 2 };
        let align: u32 = if word { !3u32 } else { !1u32 };
        let value = mem_read(p.0, p.1 & align, width);
        (
            mem_write(p.0, p.2 & align, width, value),
            dma_advance(p.1, src_ctl, step),
            dma_advance(p.2, dst_ctl, step),
        )
    }
}

/// Where `n` units of a DMA transfer leave an address that started at
/// `addr`, by its control mode: 0 and 3 increment and 1 decrements it by
/// the unit size per unit, 2 keeps it fixed (all modulo 2^32).
pub open spec fn dma_address_after(addr: u32, mode: u16, unit: int, n: nat) -> u32 {
    if mode == 1 {
        ((addr - n * unit) % 0x1_0000_0000) as u32
    } else if mode == 2 {
        addr
    } else {
        ((addr + n * unit) % 0x1_0000_0000) as u32
    }
}

/// DMA addressing: after `n` units the source and destination addresses
/// have moved by `n` unit sizes (4 bytes for 32-bit units, 2 for 16-bit)
/// in the direction their modes select, so unit `k` reads and writes at
/// the start addresses moved by `k` units.
pub proof fn lemma_dma_addresses(
    m: MemoryView,
    word: bool,
    src: u32,
    dst: u32,
    src_ctl: u16,
    dst_ctl: u16,
    n: nat,
)
    ensures
        ({
            let unit: int = if word { 4 } else { 2 };
            let r = dma_units(m, word, src, dst, src_ctl, dst_ctl, n);
            &&& r.1 == dma_address_after(src, src_ctl, unit, n)
            &&& r.2 == dma_address_after(dst, dst_ctl, unit, n)
        }),
    decreases n,
{
    if n > 0 {
        let k = (n - 1) as nat;
        lemma_dma_addresses(m, word, src, dst, src_ctl, dst_ctl, k);
        let unit: int = if word { 4 } else { 2 };
        lemma_address_step(src, src_ctl, unit, k);
        lemma_address_step(dst, dst_ctl, unit, k);
    }
}

proof fn lemma_address_step(addr: u32, mode: u16, unit: int, k: nat)
    requires
        unit == 2 || unit == 4,
    ensures
        dma_advance(dma_address_after(addr, mode, unit, k), mode, unit as u32)
            == dma_address_after(addr, mode, unit, k + 1),
{
    let m: int = 0x1_0000_0000;
    let a = dma_address_after(addr, mode, unit, k);
    if mode == 1 {
        vstd::arithmetic::div_mod::lemma_sub_mod_noop(addr - k * unit, unit, m);
        vstd::arithmetic::div_mod::lemma_mod_bound(addr - k * unit, m);
        vstd::arithmetic::div_mod::lemma_small_mod(unit as nat, m as nat);
        assert(addr - (k + 1) * unit == (addr - k * unit) - unit) by (nonlinear_arith);
        if a >= unit {
            vstd::arithmetic::div_mod::lemma_small_mod((a - unit) as nat, m as nat);
        } else {
            vstd::arithmetic::div_mod::lemma_mod_add_multiples_vanish(a - unit, m);
            vstd::arithmetic::div_mod::lemma_small_mod((a - unit + m) as nat, m as nat);
        }
    } else if mode != 2 {
        vstd::arithmetic::div_mod::lemma_add_mod_noop(addr + k * unit, unit, m);
        vstd::arithmetic::div_mod::lemma_mod_bound(addr + k * unit, m);
        vstd::arithmetic::div_mod::lemma_small_mod(unit as nat, m as nat);
        assert(addr + (k + 1) * unit == (addr + k * unit) + unit) by (nonlinear_arith);
        if a + unit < m {
            vstd::arithmetic::div_mod::lemma_small_mod((a + unit) as nat, m as nat);
        } else {
            vstd::arithmetic::div_mod::lemma_mod_sub_multiples_vanish(a + unit, m);
            vstd::arithmetic::div_mod::lemma_small_mod((a + unit - m) as nat, m as nat);
        }
    }
}

/// The interrupt bit of DMA channel `i` in `IF`.
pub open spec fn dma_irq_bit(i: int) -> u16 {
    if i == 0 {
        0x0100
    } else if i == 1 {
        0x0200
    } else if i == 2 {
        0x0400
    } else {
        0x0800
    }
}

/// Raising the completion interrupt of channel `i` if `ctrl` asks for it.
pub open spec fn dma_irq_raised(m: MemoryView, i: int, ctrl: u16) -> MemoryView {
    if ctrl & dma::CNT_IRQ != 0 {
        MemoryView { io: IoView { iff: m.io.iff | dma_irq_bit(i), ..m.io }, ..m }
    } else {
        m
    }
}

/// A channel's transfer of its latched count: the units are copied, then a
/// repeating channel with a non-immediate start reloads its count (and its
/// destination if so configured) while any other channel turns itself off;
/// finally the completion interrupt is raised if enabled.
#[verifier::opaque]
pub open spec fn dma_transfer(m: MemoryView, i: int) -> MemoryView {
    let c = m.dma[i];
    let ctrl = c.control;
    let word = ctrl & dma::CNT_WORD != 0;
    let dst_ctl = (ctrl >> 5u16) & 3;
    let src_ctl = (ctrl >> 7u16) & 3;
    let p = dma_units(m, word, c.src, c.dst, src_ctl, dst_ctl, c.remaining as nat);
    let m1 = p.0;
    let d = m1.dma[i];
    let d1 = if ctrl & dma::CNT_REPEAT != 0 && dma::timing_of(ctrl) != 0 {
        DmaChannel {
            src: p.1,
            remaining: dma::effective_count(d.count, i),
            dst: if dst_ctl == dma::ADDR_INC_RELOAD { d.dad & dma::addr_mask(i) } else { p.2 },
            ..d
        }
    } else {
        DmaChannel { src: p.1, dst: p.2, control: d.control & !dma::CNT_ENABLE, ..d }
    };
    dma_irq_raised(MemoryView { dma: m1.dma.update(i, d1), ..m1 }, i, ctrl)
}

/// Servicing channel `i` after a step: an enabled channel runs if its start
/// condition holds (a queued immediate transfer, which is consumed; VBlank;
/// HBlank). Special-timing channels are served by the sound FIFOs instead.
pub open spec fn dma_service(m: MemoryView, i: int, vblank: bool, hblank: bool) -> MemoryView {
    let c = m.dma[i];
    let t = dma::timing_of(c.control);
    if c.control & dma::CNT_ENABLE == 0 {
        m
    } else if t == 0 {
        let m1 = MemoryView { dma: m.dma.update(i, DmaChannel { pending: false, ..c }), ..m };
        if c.pending {
            dma_transfer(m1, i)
        } else {
            m1
        }
    } else if (t == 1 && vblank) || (t == 2 && hblank) {
        dma_transfer(m, i)
    } else {
        m
    }
}

/// Channels `0..n` serviced in priority order.
pub open spec fn dma_run(m: MemoryView, vblank: bool, hblank: bool, n: nat) -> MemoryView
    decreases n,
{
    if n == 0 {
        m
    } else {
        dma_service(dma_run(m, vblank, hblank, (n - 1) as nat), n - 1, vblank, hblank)
    }
}

/// A sound-FIFO refill by channel `i`: four words to the fixed FIFO address;
/// a non-repeating channel then turns itself off.
#[verifier::opaque]
pub open spec fn sound_dma_transfer(m: MemoryView, i: int) -> MemoryView {
    let c = m.dma[i];
    let ctrl = c.control;
    let src_ctl = (ctrl >> 7u16) & 3;
    let p = dma_units(m, true, c.src, c.dst, src_ctl, dma::ADDR_FIXED, 4);
    let m1 = p.0;
    let d = m1.dma[i];
    let d1 = if ctrl & dma::CNT_REPEAT != 0 {
        DmaChannel { src: p.1, ..d }
    } else {
        DmaChannel { src: p.1, control: d.control & !dma::CNT_ENABLE, ..d }
    };
    dma_irq_raised(MemoryView { dma: m1.dma.update(i, d1), ..m1 }, i, ctrl)
}

/// Whether channel `i` is an enabled special-timing channel feeding `fifo`.
pub open spec fn feeds_fifo(c: DmaChannel, fifo: u32) -> bool {
    c.control & dma::CNT_ENABLE != 0 && dma::timing_of(c.control) == 3 && c.dst == fifo
}

/// Refill FIFO `ch` (0 = A, 1 = B) if it is at most half full: every
/// sound channel (DMA1, then DMA2) aimed at it runs once.
pub open spec fn fifo_refilled(m: MemoryView, ch: int) -> MemoryView {
    let len = if ch == 0 { m.apu.fifo_a.len() } else { m.apu.fifo_b.len() };
    let fifo = if ch == 0 { FIFO_A_ADDR } else { FIFO_B_ADDR };
    if len > 16 {
        m
    } else {
        let m1 = if feeds_fifo(m.dma[1], fifo) { sound_dma_transfer(m, 1) } else { m };
        if feeds_fifo(m1.dma[2], fifo) { sound_dma_transfer(m1, 2) } else { m1 }
    }
}

/// Timer `t` (0 or 1) overflowed: the Direct Sound channels it clocks play
/// their next samples, and each FIFO it clocks is refilled if it ran low.
#[verifier::opaque]
pub open spec fn sound_timer_fired(m: MemoryView, t: u8) -> MemoryView {
    let m1 = MemoryView { apu: timer_overflowed(m.apu, t), ..m };
    let m2 = if t as u16 == (m1.apu.cnt_h >> 10u16) & 1 { fifo_refilled(m1, 0) } else { m1 };
    if t as u16 == (m2.apu.cnt_h >> 14u16) & 1 { fifo_refilled(m2, 1) } else { m2 }
}

proof fn lemma_aligned_io(addr: u32, width: Width)
    requires
        aligned(addr, width),
    ensures
        aligned(addr & 0x3FF, width),
        addr & 0x3FF < 0x400,
{
    assert(addr & 0x3FF < 0x400) by {
        crate::bits::lemma_bit_facts();
    }
    assert(addr % 2 == 0 ==> (addr & 0x3FF) % 2 == 0) by {
        crate::bits::lemma_bit_facts();
    }
    assert(addr % 4 == 0 ==> (addr & 0x3FF) % 4 == 0) by {
        crate::bits::lemma_bit_facts();
    }
}

/// A step of the peripherals by `cycles`: the timers run (clocking Direct
/// Sound on timer 0/1 overflows), then the APU, then the PPU (whose picture
/// is `frame`); the timer and display interrupts are raised, and the DMA
/// channels the step triggered run.
#[verifier::opaque]
pub open spec fn ticked(m: MemoryView, cycles: int) -> MemoryView {
    let t = timers_ticked(m.timers, cycles, 4);
    let m1 = MemoryView { timers: t.0, ..m };
    let m2 = if t.2 & 1 != 0 { sound_timer_fired(m1, 0) } else { m1 };
    let m3 = if t.2 & 2 != 0 { sound_timer_fired(m2, 1) } else { m2 };
    let m4 = MemoryView { apu: apu_run(m3.apu, cycles as nat), ..m3 };
    let p = m4.ppu;
    let r = timing_run(p.regs[2], p.vcount, p.dot, p.frame_ready, cycles as nat);
    let m5 = MemoryView {
        ppu: PpuView {
            vcount: r.0,
            dot: r.1,
            frame_ready: r.2,
            framebuffer: frame_run(p, m4.vram, m4.palette, m4.oam, cycles as nat),
            ..p
        },
        ..m4
    };
    let irqs = t.1 | r.3;
    let m6 = if irqs != 0 {
        MemoryView { io: IoView { iff: m5.io.iff | irqs, ..m5.io }, ..m5 }
    } else {
        m5
    };
    dma_run(m6, r.4, r.5, 4)
}

proof fn lemma_unit_aligned(addr: u32)
    ensures
        aligned(addr & !3u32, Width::Word),
        aligned(addr & !1u32, Width::Half),
{
    assert((addr & !3u32) % 4 == 0) by {
        crate::bits::lemma_bit_facts();
    }
    assert((addr & !1u32) % 2 == 0) by {
        crate::bits::lemma_bit_facts();
    }
}

fn dma_step(addr: u32, mode: u16, step: u32) -> (r: u32)
    ensures
        r == dma_advance(addr, mode, step),
{
    if mode == dma::ADDR_DEC {
        addr.wrapping_sub(step)
    } else if mode == dma::ADDR_FIXED {
        addr
    } else {
        addr.wrapping_add(step)
    }
}

fn dma_irq(i: usize) -> (r: u16)
    ensures
        r == dma_irq_bit(i as int),
{
    if i == 0 {
        0x0100
    } else if i == 1 {
        0x0200
    } else if i == 2 {
        0x0400
    } else {
        0x0800
    }
}

/// The parts of the state that no memory access changes.
pub open spec fn fixed_parts(a: MemoryView, b: MemoryView) -> bool {
    &&& a.rom == b.rom
    &&& a.bios == b.bios
    &&& a.has_bios == b.has_bios
    &&& a.ppu.framebuffer == b.ppu.framebuffer
}

/// A read's result does not depend on the access-timing bookkeeping.
proof fn lemma_read_ignores_timing(m: MemoryView, addr: u32, width: Width, seq: Option<(u32, u8)>, ac: u32)
    ensures
        mem_read(MemoryView { seq: seq, access_cycles: ac, ..m }, addr, width) == mem_read(m, addr, width),
{
    reveal(mem_read);
}

fn load_slice(data: &[u8], base: usize, width: Width) -> (r: u32)
    requires
        data@.len() > 0,
        base + 4 <= usize::MAX,
    ensures
        r == load_le(data@, base as int, width),
{
    let len = data.len();
    let b0 = data[base % len] as u32;
    match width {
        Width::Byte => b0,
        Width::Half => b0 | ((data[(base + 1) % len] as u32) << 8u32),
        Width::Word => b0 | ((data[(base + 1) % len] as u32) << 8u32) | ((data[(base + 2) % len]
            as u32) << 16u32) | ((data[(base + 3) % len] as u32) << 24u32),
    }
}

fn store_slice(data: &mut Vec<u8>, base: usize, width: Width, value: u32)
    requires
        old(data)@.len() > 0,
        base + 4 <= usize::MAX,
    ensures
        final(data)@ == store_le(old(data)@, base as int, width, value),
{
    let len = data.len();
    data[base % len] = value as u8;
    match width {
        Width::Byte => {},
        Width::Half => {
            data[(base + 1) % len] = (value >> 8u32) as u8;
        },
        Width::Word => {
            data[(base + 1) % len] = (value >> 8u32) as u8;
            data[(base + 2) % len] = (value >> 16u32) as u8;
            data[(base + 3) % len] = (value >> 24u32) as u8;
        },
    }
}

fn vram_offset(addr: u32) -> (r: usize)
    ensures
        r == vram_index(addr),
        r < VRAM_SIZE,
{
    assert(addr & 0x1_FFFF <= 0x1_FFFF) by {
        crate::bits::lemma_bit_facts();
    }
    let a = (addr & 0x1_FFFF) as usize;
    if a >= 0x18000 {
        a - 0x8000
    } else {
        a
    }
}

fn half_of_addr(a: u32) -> (r: u32)
    ensures
        r == ((a >> 1u32) as u16) as u32,
{
    ((a >> 1u32) as u16) as u32
}

impl Memory {
    /// A memory map with the given cartridge ROM and a zero-filled BIOS (HLE
    /// mode); fails when the ROM exceeds the 32 MiB cartridge window.
    pub fn new(rom: Vec<u8>) -> (r: Result<Memory, CoreError>)
        ensures
            rom@.len() > ROM_MAX_SIZE <==> r is Err,
            r matches Err(e) ==> e == (CoreError::RomTooLarge { size: rom@.len() as usize, max: ROM_MAX_SIZE }),
            r matches Ok(m) ==> fresh_memory(m@, rom@),
    {
        if rom.len() > ROM_MAX_SIZE {
            return Err(CoreError::RomTooLarge { size: rom.len(), max: ROM_MAX_SIZE });
        }
        let kind = crate::save::detect(&rom);
        let m = Memory {
            bios: vec![0u8; BIOS_SIZE],
            ewram: vec![0u8; EWRAM_SIZE],
            iwram: vec![0u8; IWRAM_SIZE],
            palette: vec![0u8; PALETTE_SIZE],
            vram: vec![0u8; VRAM_SIZE],
            oam: vec![0u8; OAM_SIZE],
            rom,
            io: Io::new(),
            ppu: Ppu::new(),
            apu: Apu::new(),
            dma: Dma::new(),
            timers: Timers::new(),
            save: Save::new(kind),
            has_bios: false,
            access_cycles: 0,
            seq: SeqTracker::default(),
            open_bus: 0,
        };
        assert(m.bios@ =~= Seq::new(BIOS_SIZE as nat, |i: int| 0u8));
        assert(m.ewram@ =~= Seq::new(EWRAM_SIZE as nat, |i: int| 0u8));
        assert(m.iwram@ =~= Seq::new(IWRAM_SIZE as nat, |i: int| 0u8));
        assert(m.palette@ =~= Seq::new(PALETTE_SIZE as nat, |i: int| 0u8));
        assert(m.vram@ =~= Seq::new(VRAM_SIZE as nat, |i: int| 0u8));
        assert(m.oam@ =~= Seq::new(OAM_SIZE as nat, |i: int| 0u8));
        Ok(m)
    }

    /// Load a real BIOS image (exactly 16 KiB), switching to LLE mode.
    pub fn load_bios(&mut self, bios: Vec<u8>) -> (r: Result<(), CoreError>)
        requires
            mem_wf(old(self)@),
        ensures
            mem_wf(final(self)@),
            bios@.len() != BIOS_SIZE <==> r is Err,
            r matches Err(e) ==> e == (CoreError::BadBiosSize { size: bios@.len() as usize, expected: BIOS_SIZE })
                && final(self)@ == old(self)@,
            r is Ok ==> final(self)@ == (MemoryView { bios: bios@, has_bios: true, ..old(self)@ }),
    {
        if bios.len() != BIOS_SIZE {
            return Err(CoreError::BadBiosSize { size: bios.len(), expected: BIOS_SIZE });
        }
        self.bios = bios;
        self.has_bios = true;
        Ok(())
    }

    /// Raise interrupt request bit(s) in `IF`.
    pub fn raise_irq(&mut self, bits: u16)
        ensures
            final(self)@ == (MemoryView {
                io: IoView { iff: old(self)@.io.iff | bits, ..old(self)@.io },
                ..old(self)@
            }),
    {
        self.io.raise_irq(bits);
    }

    /// The PPU's 15-bit BGR555 framebuffer (240×160).
    pub fn framebuffer(&self) -> (r: &[u16])
        ensures
            r@ == self@.ppu.framebuffer,
    {
        self.ppu.framebuffer()
    }

    /// Take (and clear) the "a frame finished drawing" flag from the PPU.
    pub fn take_frame_ready(&mut self) -> (r: bool)
        ensures
            r == old(self)@.ppu.frame_ready,
            final(self)@ == (MemoryView {
                ppu: PpuView { frame_ready: false, ..old(self)@.ppu },
                ..old(self)@
            }),
    {
        self.ppu.take_frame_ready()
    }

    /// Current scanline (VCOUNT).
    pub fn vcount(&self) -> (r: u16)
        ensures
            r == self@.ppu.vcount,
    {
        self.ppu.vcount()
    }

    /// Read-only view of VRAM, for headless render checks.
    pub fn vram(&self) -> (r: &[u8])
        ensures
            r@ == self@.vram,
    {
        self.vram.as_slice()
    }

    /// Take the accumulated stereo audio samples (interleaved L/R).
    pub fn drain_samples(&mut self) -> (r: Vec<i16>)
        ensures
            r@ == old(self)@.apu.buffer,
            final(self)@ == (MemoryView {
                apu: ApuView { buffer: Seq::empty(), ..old(self)@.apu },
                ..old(self)@
            }),
    {
        self.apu.drain_samples()
    }

    /// Set the pressed buttons (active-high, KEYINPUT bit order: A, B,
    /// Select, Start, Right, Left, Up, Down, R, L).
    pub fn set_keys(&mut self, pressed: u16)
        ensures
            final(self)@ == (MemoryView {
                io: IoView { keyinput: !pressed & 0x03FF, ..old(self)@.io },
                ..old(self)@
            }),
    {
        self.io.set_keys(pressed);
    }

    /// The cartridge battery save memory (persist this as the game's `.sav`).
    pub fn save_data(&self) -> (r: &[u8])
        ensures
            r@ == self@.save.data,
    {
        self.save.data()
    }

    /// Restore battery save memory from a persisted `.sav`: the leading
    /// bytes are replaced, up to the chip's size.
    pub fn load_save_data(&mut self, bytes: &[u8])
        ensures
            final(self)@ == (MemoryView {
                save: SaveView {
                    data: Seq::new(
                        old(self)@.save.data.len(),
                        |i: int| if i < bytes@.len() { bytes@[i] } else { old(self)@.save.data[i] },
                    ),
                    ..old(self)@.save
                },
                ..old(self)@
            }),
    {
        self.save.load_data(bytes);
    }

    /// Decode and perform a read of the given width, without timing.
    fn decode_read(&mut self, addr: u32, width: Width) -> (r: u32)
        requires
            mem_wf(old(self)@),
            aligned(addr, width),
        ensures
            r == mem_read(old(self)@, addr, width),
            final(self)@ == old(self)@,
    {
        reveal(mem_read);
        let r = addr >> 24u32;
        assert(r <= 0xD ==> addr < 0x0E00_0000) by (bit_vector)
            requires
                r == addr >> 24u32,
        ;
        if r <= 1 {
            if (addr as usize) < BIOS_SIZE {
                load_slice(&self.bios, addr as usize, width)
            } else {
                self.open_bus
            }
        } else if r == 2 {
            load_slice(&self.ewram, addr as usize, width)
        } else if r == 3 {
            load_slice(&self.iwram, addr as usize, width)
        } else if r == 4 {
            proof {
                lemma_aligned_io(addr, width);
            }
            self.io_read(addr & 0x3FF, width)
        } else if r == 5 {
            load_slice(&self.palette, addr as usize, width)
        } else if r == 6 {
            let idx = vram_offset(addr);
            load_slice(&self.vram, idx, width)
        } else if r == 7 {
            load_slice(&self.oam, addr as usize, width)
        } else if 8 <= r && r <= 0xD {
            assert(addr & 0x01FF_FFFF <= 0x01FF_FFFF) by {
                crate::bits::lemma_bit_facts();
            }
            let offset = (addr & 0x01FF_FFFF) as usize;
            let n: usize = match width {
                Width::Byte => 1,
                Width::Half => 2,
                Width::Word => 4,
            };
            if offset + n <= self.rom.len() {
                load_slice(&self.rom, offset, width)
            } else {
                // Out-of-bounds cartridge read: the bus floats with the last
                // prefetched halfword, which reads back as addr/2.
                match width {
                    Width::Word => half_of_addr(addr) | (half_of_addr(addr + 2) << 16u32),
                    Width::Half => half_of_addr(addr),
                    Width::Byte => {
                        let h = half_of_addr(addr & !1u32);
                        if addr & 1 == 0 {
                            h & 0xFF
                        } else {
                            h >> 8u32
                        }
                    },
                }
            }
        } else if r == 0xE || r == 0xF {
            let b = self.save.read(addr) as u32;
            match width {
                Width::Byte => b,
                Width::Half => b * 0x0101,
                Width::Word => b * 0x0101_0101,
            }
        } else {
            self.open_bus
        }
    }

    /// Decode and perform a write of the given width, without timing.
    #[verifier::rlimit(40)]
    fn decode_write(&mut self, addr: u32, width: Width, value: u32)
        requires
            mem_wf(old(self)@),
            aligned(addr, width),
        ensures
            final(self)@ == mem_write(old(self)@, addr, width, value),
            mem_wf(final(self)@),
            fixed_parts(old(self)@, final(self)@),
    {
        reveal(mem_write);
        let r = addr >> 24u32;
        assert(r <= 0xD ==> addr < 0x0E00_0000) by (bit_vector)
            requires
                r == addr >> 24u32,
        ;
        let dup = (value as u8) as u32 * 0x0101;
        if r == 2 {
            store_slice(&mut self.ewram, addr as usize, width, value);
        } else if r == 3 {
            store_slice(&mut self.iwram, addr as usize, width, value);
        } else if r == 4 {
            proof {
                lemma_aligned_io(addr, width);
            }
            self.io_write(addr & 0x3FF, width, value);
        } else if r == 5 {
            // Palette RAM has a 16-bit bus: an 8-bit write duplicates the
            // byte across the whole halfword.
            if matches!(width, Width::Byte) {
                assert(addr & !1u32 <= addr) by {
                    crate::bits::lemma_bit_facts();
                }
                store_slice(&mut self.palette, (addr & !1u32) as usize, Width::Half, dup);
            } else {
                store_slice(&mut self.palette, addr as usize, width, value);
            }
        } else if r == 6 {
            let idx = vram_offset(addr);
            if matches!(width, Width::Byte) {
                // An 8-bit VRAM write duplicates across the halfword in the BG
                // area and is ignored in the OBJ area, whose start depends on
                // the mode: 0x10000 in the tiled modes, 0x14000 in 3–5.
                let obj_start: usize = if self.ppu.bg_mode() >= 3 {
                    0x14000
                } else {
                    0x10000
                };
                if idx < obj_start {
                    store_slice(&mut self.vram, idx - idx % 2, Width::Half, dup);
                }
            } else {
                store_slice(&mut self.vram, idx, width, value);
            }
        } else if r == 7 {
            // OAM has a 16-bit bus and ignores 8-bit writes entirely.
            if !matches!(width, Width::Byte) {
                store_slice(&mut self.oam, addr as usize, width, value);
            }
        } else if r == 0xE || r == 0xF {
            self.save.write(addr, value as u8);
        }
        // BIOS and ROM are not writable.
    }

    fn timed_read(&mut self, addr: u32, width: Width) -> (r: u32)
        requires
            mem_wf(old(self)@),
            aligned(addr, width),
        ensures
            r == mem_read(old(self)@, addr, width),
            final(self)@ == charged(old(self)@, addr, width, r),
            mem_wf(final(self)@),
    {
        let seq = self.seq.classify(addr, width);
        let c = access_cycles(Region::of(addr), width, seq, self.io.waitcnt());
        self.access_cycles = self.access_cycles.saturating_add(c);
        proof {
            lemma_read_ignores_timing(old(self)@, addr, width, self@.seq, self@.access_cycles);
            assert(self@ == (MemoryView { seq: self@.seq, access_cycles: self@.access_cycles, ..old(self)@ }));
        }
        let value = self.decode_read(addr, width);
        self.open_bus = value;
        value
    }

    fn timed_write(&mut self, addr: u32, width: Width, value: u32)
        requires
            mem_wf(old(self)@),
            aligned(addr, width),
        ensures
            final(self)@ == mem_write(charged(old(self)@, addr, width, value), addr, width, value),
            mem_wf(final(self)@),
            fixed_parts(old(self)@, final(self)@),
    {
        let seq = self.seq.classify(addr, width);
        let c = access_cycles(Region::of(addr), width, seq, self.io.waitcnt());
        self.access_cycles = self.access_cycles.saturating_add(c);
        self.open_bus = value;
        self.decode_write(addr, width, value);
    }

    /// Copy `count` DMA units, returning the final source and destination.
    fn dma_copy(
        &mut self,
        word: bool,
        src: u32,
        dst: u32,
        src_ctl: u16,
        dst_ctl: u16,
        count: u32,
    ) -> (r: (u32, u32))
        requires
            mem_wf(old(self)@),
        ensures
            ({
                let p = dma_units(old(self)@, word, src, dst, src_ctl, dst_ctl, count as nat);
                &&& final(self)@ == p.0
                &&& r == (p.1, p.2)
            }),
            mem_wf(final(self)@),
            fixed_parts(old(self)@, final(self)@),
    {
        let width = if word {
            Width::Word
        } else {
            Width::Half
        };
        let step: u32 = if word {
            4
        } else {
            2
        };
        let align: u32 = if word {
            !3u32
        } else {
            !1u32
        };
        let ghost m0 = self@;
        let mut s = src;
        let mut d = dst;
        let mut k: u32 = 0;
        while k < count
            invariant
                mem_wf(self@),
                k <= count,
                fixed_parts(m0, self@),
                dma_units(m0, word, src, dst, src_ctl, dst_ctl, k as nat) == (self@, s, d),
                width == (if word { Width::Word } else { Width::Half }),
                step == (if word { 4u32 } else { 2u32 }),
                align == (if word { !3u32 } else { !1u32 }),
            decreases count - k,
        {
            proof {
                lemma_unit_aligned(s);
                lemma_unit_aligned(d);
            }
            let value = self.decode_read(s & align, width);
            self.decode_write(d & align, width, value);
            s = dma_step(s, src_ctl, step);
            d = dma_step(d, dst_ctl, step);
            k = k + 1;
        }
        (s, d)
    }

    /// Perform one channel's transfer, then apply repeat/reload or disable
    /// and raise the completion interrupt.
    fn transfer_dma(&mut self, i: usize)
        requires
            mem_wf(old(self)@),
            i < 4,
        ensures
            final(self)@ == dma_transfer(old(self)@, i as int),
            mem_wf(final(self)@),
            fixed_parts(old(self)@, final(self)@),
    {
        reveal(dma_transfer);
        let c = self.dma.channel(i);
        let ctrl = c.control;
        let word = ctrl & dma::CNT_WORD != 0;
        let dst_ctl = (ctrl >> 5u16) & 3;
        let src_ctl = (ctrl >> 7u16) & 3;
        let (src, dst) = self.dma_copy(word, c.src, c.dst, src_ctl, dst_ctl, c.remaining);
        let mut d = self.dma.channel(i);
        d.src = src;
        if ctrl & dma::CNT_REPEAT != 0 && (ctrl >> 12u16) & 3 != 0 {
            // Reload the count; reload the destination too if configured.
            d.remaining = dma::reload_count(d.count, i);
            d.dst = if dst_ctl == dma::ADDR_INC_RELOAD {
                d.dad & dma::dst_mask(i)
            } else {
                dst
            };
        } else {
            d.dst = dst;
            d.control = d.control & !dma::CNT_ENABLE;
        }
        self.dma.set_channel(i, d);
        if ctrl & dma::CNT_IRQ != 0 {
            self.io.raise_irq(dma_irq(i));
        }
    }

    /// Run the DMA channels triggered this step, in priority order (0
    /// highest), each transferring atomically.
    fn run_dma(&mut self, vblank: bool, hblank: bool)
        requires
            mem_wf(old(self)@),
        ensures
            final(self)@ == dma_run(old(self)@, vblank, hblank, 4),
            mem_wf(final(self)@),
            fixed_parts(old(self)@, final(self)@),
    {
        let ghost m0 = self@;
        let mut i: usize = 0;
        while i < 4
            invariant
                i <= 4,
                mem_wf(self@),
                fixed_parts(m0, self@),
                self@ == dma_run(m0, vblank, hblank, i as nat),
            decreases 4 - i,
        {
            let c = self.dma.channel(i);
            if c.control & dma::CNT_ENABLE != 0 {
                let timing = (c.control >> 12u16) & 3;
                let triggered = if timing == 0 {
                    self.dma.take_pending(i)
                } else if timing == 1 {
                    vblank
                } else if timing == 2 {
                    hblank
                } else {
                    false
                };
                if triggered {
                    self.transfer_dma(i);
                }
            }
            i = i + 1;
        }
    }

    /// Refill a Direct Sound FIFO from channel `i`: four words to the fixed
    /// FIFO address.
    fn sound_transfer(&mut self, i: usize)
        requires
            mem_wf(old(self)@),
            i < 4,
        ensures
            final(self)@ == sound_dma_transfer(old(self)@, i as int),
            mem_wf(final(self)@),
            fixed_parts(old(self)@, final(self)@),
    {
        reveal(sound_dma_transfer);
        let c = self.dma.channel(i);
        let ctrl = c.control;
        let src_ctl = (ctrl >> 7u16) & 3;
        let (src, _dst) = self.dma_copy(true, c.src, c.dst, src_ctl, dma::ADDR_FIXED, 4);
        let mut d = self.dma.channel(i);
        d.src = src;
        if ctrl & dma::CNT_REPEAT == 0 {
            d.control = d.control & !dma::CNT_ENABLE;
        }
        self.dma.set_channel(i, d);
        if ctrl & dma::CNT_IRQ != 0 {
            self.io.raise_irq(dma_irq(i));
        }
    }

    fn refill_fifo(&mut self, ch: usize)
        requires
            mem_wf(old(self)@),
            ch < 2,
        ensures
            final(self)@ == fifo_refilled(old(self)@, ch as int),
            mem_wf(final(self)@),
            fixed_parts(old(self)@, final(self)@),
    {
        if !self.apu.fifo_needs_dma(ch) {
            return ;
        }
        let fifo = if ch == 0 {
            FIFO_A_ADDR
        } else {
            FIFO_B_ADDR
        };
        let c1 = self.dma.channel(1);
        if c1.control & dma::CNT_ENABLE != 0 && (c1.control >> 12u16) & 3 == 3 && c1.dst == fifo {
            self.sound_transfer(1);
        }
        let c2 = self.dma.channel(2);
        if c2.control & dma::CNT_ENABLE != 0 && (c2.control >> 12u16) & 3 == 3 && c2.dst == fifo {
            self.sound_transfer(2);
        }
    }

    /// Timer `t` overflowed: clock the Direct Sound channels bound to it and
    /// refill their FIFOs by DMA when they run low.
    fn sound_timer_overflow(&mut self, t: u8)
        requires
            mem_wf(old(self)@),
        ensures
            final(self)@ == sound_timer_fired(old(self)@, t),
            mem_wf(final(self)@),
            fixed_parts(old(self)@, final(self)@),
    {
        reveal(sound_timer_fired);
        self.apu.on_timer_overflow(t);
        let cnt_h = self.apu.read16(0x82);
        if t as u16 == (cnt_h >> 10u16) & 1 {
            self.refill_fifo(0);
        }
        let cnt_h = self.apu.read16(0x82);
        if t as u16 == (cnt_h >> 14u16) & 1 {
            self.refill_fifo(1);
        }
    }

    /// Advance the timers, APU, PPU and DMA by `cycles`, raising any
    /// resulting interrupts. Call this after each `Cpu::step` with the cycles
    /// it reported.
    #[verifier::rlimit(60)]
    pub fn tick(&mut self, cycles: u64)
        requires
            mem_wf(old(self)@),
        ensures
            final(self)@ == ticked(old(self)@, cycles as int),
            mem_wf(final(self)@),
            final(self)@.rom == old(self)@.rom,
            final(self)@.bios == old(self)@.bios,
            final(self)@.has_bios == old(self)@.has_bios,
    {
        let (timer_irqs, sound) = self.timers.tick(cycles);
        if sound & 1 != 0 {
            self.sound_timer_overflow(0);
        }
        if sound & 2 != 0 {
            self.sound_timer_overflow(1);
        }
        self.apu.tick(cycles);
        let ghost m4 = self@;
        let out = self.ppu.tick(cycles, self.vram.as_slice(), self.palette.as_slice(), self.oam.as_slice());
        let ghost m5 = self@;
        proof {
            assert(m5 == (MemoryView {
                ppu: PpuView {
                    vcount: m5.ppu.vcount,
                    dot: m5.ppu.dot,
                    frame_ready: m5.ppu.frame_ready,
                    framebuffer: m5.ppu.framebuffer,
                    ..m4.ppu
                },
                ..m4
            }));
        }
        let irqs = timer_irqs | out.irqs;
        if irqs != 0 {
            self.io.raise_irq(irqs);
        }
        self.run_dma(out.vblank_start, out.hblank_start);
        proof {
            reveal(ticked);
        }
    }

    /// Dispatch an I/O read (offset within 0x000..0x400).
    fn io_read(&mut self, off: u32, width: Width) -> (r: u32)
        requires
            mem_wf(old(self)@),
            off < 0x400,
            aligned(off, width),
        ensures
            r == mem_io_read(old(self)@, off, width),
            final(self)@ == old(self)@,
    {
        if off < PPU_REG_END {
            match width {
                Width::Byte => self.ppu.read8(off) as u32,
                Width::Half => self.ppu.read16(off) as u32,
                Width::Word => self.ppu.read32(off),
            }
        } else if SOUND_REG_START <= off && off < SOUND_REG_END {
            match width {
                Width::Byte => self.apu.read8(off) as u32,
                Width::Half => self.apu.read16(off) as u32,
                Width::Word => self.apu.read32(off),
            }
        } else if DMA_REG_START <= off && off < DMA_REG_END {
            match width {
                Width::Byte => self.dma.read8(off) as u32,
                Width::Half => self.dma.read16(off) as u32,
                Width::Word => self.dma.read32(off),
            }
        } else if TIMER_REG_START <= off && off < TIMER_REG_END {
            match width {
                Width::Byte => self.timers.read8(off) as u32,
                Width::Half => self.timers.read16(off) as u32,
                Width::Word => self.timers.read32(off),
            }
        } else {
            match width {
                Width::Byte => self.io.read8(off) as u32,
                Width::Half => self.io.read16(off) as u32,
                Width::Word => self.io.read32(off),
            }
        }
    }

    /// Dispatch an I/O write (offset within 0x000..0x400).
    fn io_write(&mut self, off: u32, width: Width, value: u32)
        requires
            mem_wf(old(self)@),
            off < 0x400,
            aligned(off, width),
        ensures
            final(self)@ == mem_io_write(old(self)@, off, width, value),
            mem_wf(final(self)@),
    {
        if off < PPU_REG_END {
            match width {
                Width::Byte => self.ppu.write8(off, value as u8),
                Width::Half => self.ppu.write16(off, value as u16),
                Width::Word => self.ppu.write32(off, value),
            }
        } else if SOUND_REG_START <= off && off < SOUND_REG_END {
            match width {
                Width::Byte => self.apu.write8(off, value as u8),
                Width::Half => self.apu.write16(off, value as u16),
                Width::Word => self.apu.write32(off, value),
            }
        } else if DMA_REG_START <= off && off < DMA_REG_END {
            match width {
                Width::Byte => self.dma.write8(off, value as u8),
                Width::Half => self.dma.write16(off, value as u16),
                Width::Word => self.dma.write32(off, value),
            }
        } else if TIMER_REG_START <= off && off < TIMER_REG_END {
            match width {
                Width::Byte => self.timers.write8(off, value as u8),
                Width::Half => self.timers.write16(off, value as u16),
                Width::Word => self.timers.write32(off, value),
            }
        } else {
            match width {
                Width::Byte => self.io.write8(off, value as u8),
                Width::Half => self.io.write16(off, value as u16),
                Width::Word => self.io.write32(off, value),
            }
        }
    }
}

/// A value of `width` as an access of that width carries it.
pub open spec fn narrowed(v: u32, width: Width) -> u32 {
    match width {
        Width::Byte => (v as u8) as u32,
        Width::Half => (v as u16) as u32,
        Width::Word => v,
    }
}

impl BusModel for Memory {
    /// A timed read: the decoded value, with its waitstates charged.
    open spec fn read_did(&self, addr: u32, width: Width, value: u32, next: Self) -> bool {
        &&& value == narrowed(mem_read(self@, addr, width), width)
        &&& next@ == charged(self@, addr, width, mem_read(self@, addr, width))
    }

    /// A timed write: waitstates charged, then the decoded store.
    open spec fn write_did(&self, addr: u32, width: Width, value: u32, next: Self) -> bool {
        next@ == mem_write(charged(self@, addr, width, value), addr, width, value)
    }

    /// The HALTCNT request, cleared.
    open spec fn halt_taken(&self, r: bool, next: Self) -> bool {
        &&& r == self@.io.halt_request
        &&& next@ == (MemoryView { io: IoView { halt_request: false, ..self@.io }, ..self@ })
    }

    /// The waitstate counter, reset.
    open spec fn cycles_taken(&self, r: u32, next: Self) -> bool {
        &&& r == self@.access_cycles
        &&& next@ == (MemoryView { access_cycles: 0, ..self@ })
    }
}

impl Bus for Memory {
    open spec fn bus_inv(&self) -> bool {
        mem_wf(self@)
    }

    open spec fn bios_loaded(&self) -> bool {
        self@.has_bios
    }

    open spec fn interrupt_line(&self) -> bool {
        self@.io.ime && (self@.io.ie & self@.io.iff) != 0
    }

    fn read8(&mut self, addr: u32) -> (r: u8)
        ensures
            r == mem_read(old(self)@, addr, Width::Byte) as u8,
            final(self)@ == charged(old(self)@, addr, Width::Byte, mem_read(old(self)@, addr, Width::Byte)),
    {
        self.timed_read(addr, Width::Byte) as u8
    }

    fn write8(&mut self, addr: u32, value: u8)
        ensures
            final(self)@ == mem_write(
                charged(old(self)@, addr, Width::Byte, value as u32),
                addr,
                Width::Byte,
                value as u32,
            ),
    {
        self.timed_write(addr, Width::Byte, value as u32);
    }

    fn read16(&mut self, addr: u32) -> (r: u16)
        ensures
            r == mem_read(old(self)@, addr & !1u32, Width::Half) as u16,
            final(self)@ == charged(
                old(self)@,
                addr & !1u32,
                Width::Half,
                mem_read(old(self)@, addr & !1u32, Width::Half),
            ),
    {
        proof {
            lemma_unit_aligned(addr);
        }
        self.timed_read(addr & !1u32, Width::Half) as u16
    }

    fn read32(&mut self, addr: u32) -> (r: u32)
        ensures
            r == mem_read(old(self)@, addr & !3u32, Width::Word),
            final(self)@ == charged(old(self)@, addr & !3u32, Width::Word, r),
    {
        proof {
            lemma_unit_aligned(addr);
        }
        self.timed_read(addr & !3u32, Width::Word)
    }

    fn write16(&mut self, addr: u32, value: u16)
        ensures
            final(self)@ == mem_write(
                charged(old(self)@, addr & !1u32, Width::Half, value as u32),
                addr & !1u32,
                Width::Half,
                value as u32,
            ),
    {
        proof {
            lemma_unit_aligned(addr);
        }
        self.timed_write(addr & !1u32, Width::Half, value as u32);
    }

    fn write32(&mut self, addr: u32, value: u32)
        ensures
            final(self)@ == mem_write(
                charged(old(self)@, addr & !3u32, Width::Word, value),
                addr & !3u32,
                Width::Word,
                value,
            ),
    {
        proof {
            lemma_unit_aligned(addr);
        }
        self.timed_write(addr & !3u32, Width::Word, value);
    }

    fn has_bios(&self) -> (r: bool)
        ensures
            r == self@.has_bios,
    {
        self.has_bios
    }

    fn irq_pending(&self) -> (r: bool)
        ensures
            r == (self@.io.ime && (self@.io.ie & self@.io.iff) != 0),
    {
        self.io.irq_pending()
    }

    fn take_halt_request(&mut self) -> (r: bool)
        ensures
            r == old(self)@.io.halt_request,
            final(self)@ == (MemoryView {
                io: IoView { halt_request: false, ..old(self)@.io },
                ..old(self)@
            }),
    {
        self.io.take_halt_request()
    }

    fn take_access_cycles(&mut self) -> (r: u32)
        ensures
            r == old(self)@.access_cycles,
            final(self)@ == (MemoryView { access_cycles: 0, ..old(self)@ }),
    {
        let c = self.access_cycles;
        self.access_cycles = 0;
        c
    }
}

// ---------------------------------------------------------------------------
// Laws
// ---------------------------------------------------------------------------

proof fn lemma_mod_offset(base: int, len: int, k: int, i: int)
    requires
        len > 0,
        k == 1 || k == 2 || k == 4,
        len % k == 0,
        base >= 0,
        base % k == 0,
        0 <= i < k,
    ensures
        (base + i) % len == base % len + i,
        base % len + i < len,
{
    let r0 = base % len;
    vstd::arithmetic::div_mod::lemma_fundamental_div_mod(len, k);
    let q = len / k;
    assert(len == k * q);
    assert(q > 0) by (nonlinear_arith)
        requires
            len == k * q,
            len > 0,
            k > 0,
    ;
    vstd::arithmetic::div_mod::lemma_mod_mod(base, k, q);
    assert(r0 % k == 0);
    vstd::arithmetic::div_mod::lemma_fundamental_div_mod(base, len);
    assert(0 <= r0 < len);
    assert(r0 + k <= len) by {
        vstd::arithmetic::div_mod::lemma_fundamental_div_mod(r0, k);
        let a = r0 / k;
        assert(r0 == k * a);
        assert(k * a < k * q);
        assert(a < q) by (nonlinear_arith)
            requires
                k * a < k * q,
                k > 0,
        ;
        assert(k * a + k <= k * q) by (nonlinear_arith)
            requires
                a < q,
                k > 0,
        ;
    }
    vstd::arithmetic::div_mod::lemma_small_mod(i as nat, len as nat);
    vstd::arithmetic::div_mod::lemma_add_mod_noop(base, i, len);
    vstd::arithmetic::div_mod::lemma_small_mod((r0 + i) as nat, len as nat);
}

/// The value a `width` access carries: `value` truncated to the width.
pub open spec fn truncated(value: u32, width: Width) -> u32 {
    match width {
        Width::Byte => value & 0xFF,
        Width::Half => value & 0xFFFF,
        Width::Word => value,
    }
}

proof fn lemma_store_then_load(data: Seq<u8>, base: int, width: Width, value: u32)
    requires
        data.len() > 0,
        data.len() % 4 == 0,
        base >= 0,
        width is Half ==> base % 2 == 0,
        width is Word ==> base % 4 == 0,
    ensures
        load_le(store_le(data, base, width, value), base, width) == truncated(value, width),
{
    let len = data.len() as int;
    let k: int = match width {
        Width::Byte => 1,
        Width::Half => 2,
        Width::Word => 4,
    };
    lemma_mod_offset(base, len, k, 0);
    let d = store_le(data, base, width, value);
    let r0 = base % len;
    match width {
        Width::Byte => {
            assert(((value as u8) as u32) == value & 0xFF) by {
                crate::bits::lemma_bit_facts();
            }
        },
        Width::Half => {
            lemma_mod_offset(base, len, 2, 1);
            assert(d[r0] == value as u8);
            assert(d[r0 + 1] == (value >> 8u32) as u8);
            let b0 = value as u8;
            let b1 = (value >> 8u32) as u8;
            assert((b0 as u32) | ((b1 as u32) << 8u32) == value & 0xFFFF) by (bit_vector)
                requires
                    b0 == value as u8,
                    b1 == (value >> 8u32) as u8,
            ;
        },
        Width::Word => {
            lemma_mod_offset(base, len, 4, 1);
            lemma_mod_offset(base, len, 4, 2);
            lemma_mod_offset(base, len, 4, 3);
            assert(d[r0] == value as u8);
            assert(d[r0 + 1] == (value >> 8u32) as u8);
            assert(d[r0 + 2] == (value >> 16u32) as u8);
            assert(d[r0 + 3] == (value >> 24u32) as u8);
            let b0 = value as u8;
            let b1 = (value >> 8u32) as u8;
            let b2 = (value >> 16u32) as u8;
            let b3 = (value >> 24u32) as u8;
            assert((b0 as u32) | ((b1 as u32) << 8u32) | ((b2 as u32) << 16u32) | ((b3 as u32)
                << 24u32) == value) by (bit_vector)
                requires
                    b0 == value as u8,
                    b1 == (value >> 8u32) as u8,
                    b2 == (value >> 16u32) as u8,
                    b3 == (value >> 24u32) as u8,
            ;
        },
    }
}

/// Work RAM reads back what was written: after a write of `width` to an
/// EWRAM or IWRAM address, a read of that width there returns the value
/// (truncated to the width).
pub proof fn lemma_ram_read_after_write(m: MemoryView, addr: u32, width: Width, value: u32)
    requires
        mem_wf(m),
        addr >> 24u32 == 2 || addr >> 24u32 == 3,
        aligned(addr, width),
    ensures
        mem_read(mem_write(m, addr, width, value), addr, width) == truncated(value, width),
{
    reveal(mem_read);
    reveal(mem_write);
    if addr >> 24u32 == 2 {
        lemma_store_then_load(m.ewram, addr as int, width, value);
    } else {
        lemma_store_then_load(m.iwram, addr as int, width, value);
    }
}

/// Writes to the BIOS and the cartridge ROM change nothing.
pub proof fn lemma_rom_is_read_only(m: MemoryView, addr: u32, width: Width, value: u32)
    requires
        addr >> 24u32 <= 1 || 8 <= addr >> 24u32 <= 0xD,
    ensures
        mem_write(m, addr, width, value) == m,
{
    reveal(mem_write);
}

/// OAM sits on a 16-bit bus and ignores byte writes.
pub proof fn lemma_oam_ignores_byte_writes(m: MemoryView, addr: u32, value: u32)
    requires
        addr >> 24u32 == 7,
    ensures
        mem_write(m, addr, Width::Byte, value) == m,
{
    reveal(mem_write);
}

/// Palette RAM sits on a 16-bit bus: a byte write fills the whole halfword
/// with that byte.
pub proof fn lemma_palette_byte_write_fills_halfword(m: MemoryView, addr: u32, value: u32)
    requires
        mem_wf(m),
        addr >> 24u32 == 5,
    ensures
        mem_read(mem_write(m, addr, Width::Byte, value), addr & !1u32, Width::Half) == ((
        value as u8) as u32) * 0x0101,
{
    reveal(mem_read);
    reveal(mem_write);
    let a = addr & !1u32;
    assert(a >> 24u32 == 5 && a % 2 == 0) by (bit_vector)
        requires
            addr >> 24u32 == 5,
            a == addr & !1u32,
    ;
    let dup = ((value as u8) as u32 * 0x0101) as u32;
    lemma_store_then_load(m.palette, a as int, Width::Half, dup);
    let b = value as u8;
    assert((((b as u32) * 0x0101) as u32) & 0xFFFF == (b as u32) * 0x0101) by {
        crate::bits::lemma_bit_facts();
    }
}

/// A byte write to VRAM: in the BG area it fills the aligned halfword with
/// the byte; in the OBJ area (from 0x10000 in the tiled modes, 0x14000 in
/// the bitmap modes) it is ignored.
pub proof fn lemma_vram_byte_write(m: MemoryView, addr: u32, value: u32)
    requires
        mem_wf(m),
        addr >> 24u32 == 6,
    ensures
        vram_index(addr) >= obj_vram_start(m) ==> mem_write(m, addr, Width::Byte, value) == m,
        vram_index(addr) < obj_vram_start(m) ==> mem_read(
            mem_write(m, addr, Width::Byte, value),
            addr & !1u32,
            Width::Half,
        ) == ((value as u8) as u32) * 0x0101,
{
    reveal(mem_read);
    reveal(mem_write);
    let a = addr & !1u32;
    assert(a >> 24u32 == 6 && (a & 0x1_FFFF) == (addr & 0x1_FFFF) - (addr & 0x1_FFFF) % 2)
        by (bit_vector)
        requires
            addr >> 24u32 == 6,
            a == addr & !1u32,
    ;
    let idx = vram_index(addr);
    assert(vram_index(a) == idx - idx % 2);
    if idx < obj_vram_start(m) {
        let dup = ((value as u8) as u32 * 0x0101) as u32;
        lemma_store_then_load(m.vram, idx - idx % 2, Width::Half, dup);
        let b = value as u8;
        assert((((b as u32) * 0x0101) as u32) & 0xFFFF == (b as u32) * 0x0101) by {
            crate::bits::lemma_bit_facts();
        }
    }
}

/// A cartridge read past the end of the ROM sees the open-bus pattern: the
/// address halved.
pub proof fn lemma_rom_open_bus(m: MemoryView, addr: u32)
    requires
        8 <= addr >> 24u32 <= 0xD,
        addr % 2 == 0,
        (addr & 0x01FF_FFFF) + 2 > m.rom.len(),
    ensures
        mem_read(m, addr, Width::Half) == ((addr >> 1u32) as u16) as u32,
{
    reveal(mem_read);
}

} // verus!
