//! DMA controller — four channels (DMA0–DMA3).
//!
//! This module owns the DMA *register state* and the latch/repeat
//! bookkeeping; the memory-to-memory copy is performed by
//! [`Memory`](crate::memory::Memory), the only place with access to the
//! whole address space, on the right trigger (immediate, VBlank, HBlank, or
//! the sound-FIFO "special" timing).

use vstd::prelude::*;

verus! {

/// Control-register (CNT_H) bit layout.
pub const CNT_DEST_SHIFT: u16 = 5;
pub const CNT_SRC_SHIFT: u16 = 7;
pub const CNT_REPEAT: u16 = 0x0200;
pub const CNT_WORD: u16 = 0x0400;
pub const CNT_TIMING_SHIFT: u16 = 12;
pub const CNT_IRQ: u16 = 0x4000;
pub const CNT_ENABLE: u16 = 0x8000;

/// Address-adjustment modes for source/destination (0 = increment).
pub const ADDR_DEC: u16 = 1;
pub const ADDR_FIXED: u16 = 2;
pub const ADDR_INC_RELOAD: u16 = 3;

/// One channel's registers and internal latches.
#[derive(Clone, Copy)]
pub struct DmaChannel {
    /// Source register (raw).
    pub sad: u32,
    /// Destination register (raw).
    pub dad: u32,
    /// Word-count register (raw).
    pub count: u16,
    /// CNT_H.
    pub control: u16,
    /// Internal latched source.
    pub src: u32,
    /// Internal latched destination.
    pub dst: u32,
    /// Internal remaining units.
    pub remaining: u32,
    /// An immediate transfer is queued.
    pub pending: bool,
}

/// Source/destination address width: 27-bit for DMA0–2 (internal memory
/// only) and 28-bit for DMA3 (which can also reach the cartridge).
pub open spec fn addr_mask(ch: int) -> u32 {
    if ch == 3 { 0x0FFF_FFFF } else { 0x07FF_FFFF }
}

/// Maximum unit count (a `count` field of 0 means "transfer the maximum").
pub open spec fn spec_count_max(ch: int) -> u32 {
    if ch == 3 { 0x1_0000 } else { 0x4000 }
}

pub fn src_mask(ch: usize) -> (r: u32)
    ensures
        r == addr_mask(ch as int),
{
    if ch == 3 {
        0x0FFF_FFFF
    } else {
        0x07FF_FFFF
    }
}

pub fn dst_mask(ch: usize) -> (r: u32)
    ensures
        r == addr_mask(ch as int),
{
    if ch == 3 {
        0x0FFF_FFFF
    } else {
        0x07FF_FFFF
    }
}

pub fn count_max(ch: usize) -> (r: u32)
    ensures
        r == spec_count_max(ch as int),
{
    if ch == 3 {
        0x1_0000
    } else {
        0x4000
    }
}

/// The unit count a channel runs with: the count register masked to its
/// width, with 0 meaning the maximum.
pub open spec fn effective_count(count: u16, ch: int) -> u32 {
    let c = (count as u32) & ((spec_count_max(ch) - 1) as u32);
    if c == 0 { spec_count_max(ch) } else { c }
}

/// The unit count of a transfer is the count field modulo the channel's
/// maximum, 0x4000 units on DMA0–2 (14 bits) and 0x1_0000 on DMA3 (16
/// bits), with a field of 0 running the maximum.
pub proof fn lemma_zero_count_is_max(count: u16, ch: int)
    requires
        0 <= ch < 4,
    ensures
        ({
            let max: int = if ch == 3 { 0x1_0000 } else { 0x4000 };
            let c = count as int;
            effective_count(count, ch) == if c % max == 0 { max } else { c % max }
        }),
{
    crate::bits::lemma_bit_identities();
    crate::bits::lemma_bit_facts();
    let x = count as u32;
    assert((x as u64) & 0x3FFF == (x as u64) % 0x4000);
    assert(((x & 0x3FFF) as u64) == (x as u64) & 0x3FFF);
    assert(x & 0xFFFF == x);
}

pub fn reload_count(count: u16, ch: usize) -> (r: u32)
    ensures
        r == effective_count(count, ch as int),
        1 <= r <= 0x1_0000,
{
    let max = count_max(ch);
    let c = (count as u32) & (max - 1);
    assert((count as u32) & 0xFFFF <= 0xFFFF) by {
        crate::bits::lemma_bit_facts();
    }
    assert((count as u32) & 0x3FFF <= 0x3FFF) by {
        crate::bits::lemma_bit_facts();
    }
    if c == 0 {
        max
    } else {
        c
    }
}

/// Start timing field of a control value (0 immediate, 1 VBlank, 2 HBlank,
/// 3 special).
pub open spec fn timing_of(control: u16) -> u16 {
    (control >> 12) & 3
}

/// The channel after its enable edge: internal counters latched from the
/// registers, and an immediate transfer queued when so configured.
pub open spec fn latched(c: DmaChannel, ch: int) -> DmaChannel {
    DmaChannel {
        src: c.sad & addr_mask(ch),
        dst: c.dad & addr_mask(ch),
        remaining: effective_count(c.count, ch),
        pending: if timing_of(c.control) == 0 { true } else { c.pending },
        ..c
    }
}

pub struct Dma {
    ch: [DmaChannel; 4],
}

/// The four DMA channels at power-on: all registers and transfer state
/// zero, nothing pending.
pub open spec fn dma_initial() -> Seq<DmaChannel> {
    Seq::new(
        4,
        |i: int|
            DmaChannel {
                sad: 0,
                dad: 0,
                count: 0,
                control: 0,
                src: 0,
                dst: 0,
                remaining: 0,
                pending: false,
            },
    )
}

impl View for Dma {
    type V = Seq<DmaChannel>;

    closed spec fn view(&self) -> Seq<DmaChannel> {
        self.ch@
    }
}

/// What a halfword read of a DMA register returns: only CNT_H is readable.
pub open spec fn dma_read16(d: Seq<DmaChannel>, offset: u32) -> u16 {
    let rel = offset - 0xB0;
    let ch = rel / 12;
    if ch >= 4 || rel % 12 != 10 {
        0
    } else {
        d[ch].control
    }
}

/// The registers after a halfword write.
pub open spec fn dma_write16(d: Seq<DmaChannel>, offset: u32, value: u16) -> Seq<DmaChannel> {
    let rel = offset - 0xB0;
    let i = rel / 12;
    let k = rel % 12;
    if i >= 4 {
        d
    } else {
        let c = d[i];
        if k == 0 {
            d.update(i, DmaChannel { sad: (c.sad & 0xFFFF_0000) | (value as u32), ..c })
        } else if k == 2 {
            d.update(i, DmaChannel { sad: (c.sad & 0x0000_FFFF) | ((value as u32) << 16), ..c })
        } else if k == 4 {
            d.update(i, DmaChannel { dad: (c.dad & 0xFFFF_0000) | (value as u32), ..c })
        } else if k == 6 {
            d.update(i, DmaChannel { dad: (c.dad & 0x0000_FFFF) | ((value as u32) << 16), ..c })
        } else if k == 8 {
            d.update(i, DmaChannel { count: value, ..c })
        } else if k == 10 {
            let w = DmaChannel { control: value, ..c };
            if value & CNT_ENABLE != 0 && c.control & CNT_ENABLE == 0 {
                d.update(i, latched(w, i))
            } else {
                d.update(i, w)
            }
        } else {
            d
        }
    }
}

impl Dma {
    /// There are always four channels.
    pub proof fn lemma_view_len(&self)
        ensures
            self@.len() == 4,
    {
    }

    pub fn new() -> (r: Dma)
        ensures
            r@ == dma_initial(),
            r@ == Seq::new(
                4,
                |i: int|
                    DmaChannel {
                        sad: 0,
                        dad: 0,
                        count: 0,
                        control: 0,
                        src: 0,
                        dst: 0,
                        remaining: 0,
                        pending: false,
                    },
            ),
    {
        let z = DmaChannel {
            sad: 0,
            dad: 0,
            count: 0,
            control: 0,
            src: 0,
            dst: 0,
            remaining: 0,
            pending: false,
        };
        let r = Dma { ch: [z, z, z, z] };
        assert(r@ =~= Seq::new(
            4,
            |i: int|
                DmaChannel {
                    sad: 0,
                    dad: 0,
                    count: 0,
                    control: 0,
                    src: 0,
                    dst: 0,
                    remaining: 0,
                    pending: false,
                },
        ));
        r
    }

    /// A channel's state.
    pub fn channel(&self, i: usize) -> (r: DmaChannel)
        requires
            i < 4,
        ensures
            r == self@[i as int],
    {
        self.ch[i]
    }

    /// Replace a channel's state (used by the transfer engine).
    pub fn set_channel(&mut self, i: usize, c: DmaChannel)
        requires
            i < 4,
        ensures
            final(self)@ == old(self)@.update(i as int, c),
    {
        self.ch[i] = c;
    }

    /// Take (and clear) a channel's queued immediate transfer.
    pub fn take_pending(&mut self, i: usize) -> (r: bool)
        requires
            i < 4,
        ensures
            r == old(self)@[i as int].pending,
            final(self)@ == old(self)@.update(
                i as int,
                DmaChannel { pending: false, ..old(self)@[i as int] },
            ),
    {
        let mut c = self.ch[i];
        let r = c.pending;
        c.pending = false;
        self.ch[i] = c;
        r
    }

    /// Latch source/dest/count into the internal counters when a channel is
    /// enabled, and queue an immediate transfer if so configured.
    fn latch(&mut self, i: usize)
        requires
            i < 4,
        ensures
            final(self)@ == old(self)@.update(i as int, latched(old(self)@[i as int], i as int)),
    {
        let mut c = self.ch[i];
        c.src = c.sad & src_mask(i);
        c.dst = c.dad & dst_mask(i);
        c.remaining = reload_count(c.count, i);
        if (c.control >> 12) & 3 == 0 {
            c.pending = true;
        }
        self.ch[i] = c;
    }

    // ---- register access (0x0B0..0x0E0) ----

    pub fn read16(&self, offset: u32) -> (r: u16)
        requires
            offset >= 0xB0,
        ensures
            r == dma_read16(self@, offset),
    {
        let rel = (offset - 0xB0) as usize;
        let ch = rel / 12;
        if ch >= 4 {
            return 0;
        }
        if rel % 12 == 10 {
            self.ch[ch].control
        } else {
            0
        }
    }

    pub fn write16(&mut self, offset: u32, value: u16)
        requires
            offset >= 0xB0,
        ensures
            final(self)@.len() == 4,
            final(self)@ == dma_write16(old(self)@, offset, value),
    {
        let rel = (offset - 0xB0) as usize;
        let i = rel / 12;
        if i >= 4 {
            return;
        }
        let k = rel % 12;
        let mut c = self.ch[i];
        if k == 0 {
            c.sad = (c.sad & 0xFFFF_0000) | (value as u32);
        } else if k == 2 {
            c.sad = (c.sad & 0x0000_FFFF) | ((value as u32) << 16);
        } else if k == 4 {
            c.dad = (c.dad & 0xFFFF_0000) | (value as u32);
        } else if k == 6 {
            c.dad = (c.dad & 0x0000_FFFF) | ((value as u32) << 16);
        } else if k == 8 {
            c.count = value;
        } else if k == 10 {
            let was_enabled = c.control & CNT_ENABLE != 0;
            c.control = value;
            self.ch[i] = c;
            if value & CNT_ENABLE != 0 && !was_enabled {
                self.latch(i);
            }
            return;
        } else {
            return;
        }
        self.ch[i] = c;
    }

    pub fn read8(&self, offset: u32) -> (r: u8)
        requires
            offset >= 0xB0,
        ensures
            r == crate::io::byte_of_half(dma_read16(self@, offset & !1u32), offset),
    {
        assert(offset >= 0xB0 ==> offset & !1u32 >= 0xB0) by {
            crate::bits::lemma_bit_facts();
        }
        let half = self.read16(offset & !1u32);
        crate::io::half_byte(half, offset)
    }

    pub fn write8(&mut self, offset: u32, value: u8)
        requires
            offset >= 0xB0,
        ensures
            final(self)@.len() == 4,
            final(self)@ == dma_write16(
                old(self)@,
                offset & !1u32,
                crate::io::merge_byte(dma_read16(old(self)@, offset & !1u32), offset, value),
            ),
    {
        assert(offset >= 0xB0 ==> offset & !1u32 >= 0xB0) by {
            crate::bits::lemma_bit_facts();
        }
        let half = self.read16(offset & !1u32);
        let merged = crate::io::merge_half(half, offset, value);
        self.write16(offset & !1u32, merged);
    }

    pub fn read32(&self, offset: u32) -> (r: u32)
        requires
            0xB0 <= offset <= 0xFFFF_FFFD,
        ensures
            r == (dma_read16(self@, offset) as u32) | ((dma_read16(self@, (offset + 2) as u32)
                as u32) << 16),
    {
        let lo = self.read16(offset);
        let hi = self.read16(offset + 2);
        (lo as u32) | ((hi as u32) << 16)
    }

    pub fn write32(&mut self, offset: u32, value: u32)
        requires
            0xB0 <= offset <= 0xFFFF_FFFD,
        ensures
            final(self)@.len() == 4,
            final(self)@ == dma_write16(
                dma_write16(old(self)@, offset, value as u16),
                (offset + 2) as u32,
                (value >> 16) as u16,
            ),
    {
        self.write16(offset, value as u16);
        self.write16(offset + 2, (value >> 16) as u16);
    }
}

impl Default for Dma {
    fn default() -> (r: Dma)
        ensures
            r@ == Seq::new(
                4,
                |i: int|
                    DmaChannel {
                        sad: 0,
                        dad: 0,
                        count: 0,
                        control: 0,
                        src: 0,
                        dst: 0,
                        remaining: 0,
                        pending: false,
                    },
            ),
    {
        Dma::new()
    }
}

/// Enabling a channel (a 0→1 edge of the enable bit) latches its source and
/// destination, masked to the channel's address width, and a count of at
/// least one unit.
pub proof fn lemma_enable_latches(d: Seq<DmaChannel>, ch: int, value: u16)
    requires
        d.len() == 4,
        0 <= ch < 4,
        value & CNT_ENABLE != 0,
        d[ch].control & CNT_ENABLE == 0,
    ensures
        ({
            let e = dma_write16(d, (0xB0 + 12 * ch + 10) as u32, value)[ch];
            &&& e.control == value
            &&& e.src == d[ch].sad & addr_mask(ch)
            &&& e.dst == d[ch].dad & addr_mask(ch)
            &&& 1 <= e.remaining <= spec_count_max(ch)
            &&& timing_of(value) == 0 ==> e.pending
        }),
{
    let c = d[ch].count as u32;
    assert(c & 0xFFFF <= 0xFFFF) by {
        crate::bits::lemma_bit_facts();
    }
    assert(c & 0x3FFF <= 0x3FFF) by {
        crate::bits::lemma_bit_facts();
    }
}

} // verus!
