//! Waitstate / access-timing model.
//!
//! Every memory access costs a number of CPU cycles that depends on the
//! region, the access width, whether it is sequential (S) or non-sequential
//! (N), and, for the cartridge and SRAM, the software-programmed `WAITCNT`.
//! Sequential vs non-sequential is inferred from address adjacency.

use vstd::prelude::*;

verus! {

/// Access width in bytes.
#[derive(Clone, Copy, PartialEq, Eq, Structural)]
pub enum Width {
    Byte,
    Half,
    Word,
}

/// Number of bytes moved by an access of the given width.
pub open spec fn width_size(w: Width) -> nat {
    match w {
        Width::Byte => 1,
        Width::Half => 2,
        Width::Word => 4,
    }
}

/// A coarse region tag used only for timing (distinct from address decode).
#[derive(Clone, Copy, PartialEq, Eq, Structural)]
pub enum Region {
    /// 32-bit bus, no waitstates: BIOS, IWRAM, I/O, OAM.
    Fast,
    /// 16-bit bus, 2 waitstates: on-board EWRAM.
    Ewram,
    /// 16-bit bus, no waitstates: palette RAM and VRAM.
    Video,
    /// Cartridge ROM waitstate set 0/1/2 (mirror of the same ROM).
    Rom0,
    Rom1,
    Rom2,
    /// Cartridge SRAM (8-bit bus).
    Sram,
}

/// The timing region of an address, selected by its top byte.
pub open spec fn region_of(addr: u32) -> Region {
    let top = addr >> 24;
    if top == 0x02 {
        Region::Ewram
    } else if top == 0x05 || top == 0x06 {
        Region::Video
    } else if top == 0x08 || top == 0x09 {
        Region::Rom0
    } else if top == 0x0A || top == 0x0B {
        Region::Rom1
    } else if top == 0x0C || top == 0x0D {
        Region::Rom2
    } else if top == 0x0E || top == 0x0F {
        Region::Sram
    } else {
        Region::Fast
    }
}

impl Region {
    /// Map a 32-bit address to its timing region.
    pub fn of(addr: u32) -> (r: Region)
        ensures
            r == region_of(addr),
    {
        match addr >> 24 {
            0x02 => Region::Ewram,
            0x05 | 0x06 => Region::Video,
            0x08 | 0x09 => Region::Rom0,
            0x0A | 0x0B => Region::Rom1,
            0x0C | 0x0D => Region::Rom2,
            0x0E | 0x0F => Region::Sram,
            _ => Region::Fast,
        }
    }
}

/// Waits added to the 1-cycle base for a first (non-sequential) cartridge
/// access, indexed by the 2-bit WAITCNT field (GBATEK: 4, 3, 2, 8).
pub open spec fn n_waits(bits: int) -> int {
    if bits == 0 {
        4
    } else if bits == 1 {
        3
    } else if bits == 2 {
        2
    } else {
        8
    }
}

/// Waits for a sequential cartridge access in waitstate set `set`
/// (WS0: 2/1, WS1: 4/1, WS2: 8/1), selected by the 1-bit WAITCNT field.
pub open spec fn s_waits(set: int, bit: int) -> int {
    if bit == 1 {
        1
    } else if set == 0 {
        2
    } else if set == 1 {
        4
    } else {
        8
    }
}

/// Cycles of one access, as GBATEK's waitstate tables give them.
pub open spec fn spec_access_cycles(region: Region, width: Width, seq: bool, waitcnt: u16) -> int {
    match region {
        Region::Fast => 1,
        Region::Video => if width == Width::Word { 2 } else { 1 },
        Region::Ewram => if width == Width::Word { 6 } else { 3 },
        Region::Sram => 1 + n_waits((waitcnt & 3) as int),
        _ => {
            let set: int = match region {
                Region::Rom0 => 0,
                Region::Rom1 => 1,
                _ => 2,
            };
            let n_field = ((waitcnt >> (2 + 3 * set) as u16) & 3) as int;
            let s_field = ((waitcnt >> (4 + 3 * set) as u16) & 1) as int;
            let n = 1 + n_waits(n_field);
            let s = 1 + s_waits(set, s_field);
            let first = if seq { s } else { n };
            if width == Width::Word { first + s } else { first }
        },
    }
}

fn n_wait_table(bits: u16) -> (r: u32)
    requires
        bits < 4,
    ensures
        r == n_waits(bits as int),
{
    match bits {
        0 => 4,
        1 => 3,
        2 => 2,
        _ => 8,
    }
}

fn s_wait_table(set: u16, bit: u16) -> (r: u32)
    requires
        set < 3,
        bit < 2,
    ensures
        r == s_waits(set as int, bit as int),
{
    if bit == 1 {
        1
    } else {
        match set {
            0 => 2,
            1 => 4,
            _ => 8,
        }
    }
}

/// Cycles for a single access. `waitcnt` is the raw 16-bit register value.
pub fn access_cycles(region: Region, width: Width, seq: bool, waitcnt: u16) -> (r: u32)
    ensures
        r == spec_access_cycles(region, width, seq, waitcnt),
        1 <= r <= 18,
{
    match region {
        Region::Fast => 1,
        Region::Video => match width {
            Width::Word => 2,
            _ => 1,
        },
        Region::Ewram => match width {
            Width::Word => 6,
            _ => 3,
        },
        Region::Sram => {
            assert((waitcnt & 3) < 4) by {
                crate::bits::lemma_bit_facts();
            }
            1 + n_wait_table(waitcnt & 3)
        },
        _ => {
            let set: u16 = match region {
                Region::Rom0 => 0,
                Region::Rom1 => 1,
                _ => 2,
            };
            let n_field = (waitcnt >> (2 + 3 * set)) & 3;
            let s_field = (waitcnt >> (4 + 3 * set)) & 1;
            assert(n_field < 4) by (bit_vector)
                requires n_field == (waitcnt >> (2 + 3 * set)) & 3;
            assert(s_field < 2) by (bit_vector)
                requires s_field == (waitcnt >> (4 + 3 * set)) & 1;
            let n = 1 + n_wait_table(n_field);
            let s = 1 + s_wait_table(set, s_field);
            let first = if seq { s } else { n };
            match width {
                // A 32-bit ROM access is two 16-bit accesses: the first at the
                // access's own S/N cost, the second always sequential.
                Width::Word => first + s,
                _ => first,
            }
        },
    }
}

/// Tracks the previous access so the next one can be classified S or N.
pub struct SeqTracker {
    /// Address where the previous access ended, and the region it was in.
    prev_end: Option<(u32, u8)>,
}

impl View for SeqTracker {
    type V = Option<(u32, u8)>;

    closed spec fn view(&self) -> Option<(u32, u8)> {
        self.prev_end
    }
}

impl Default for SeqTracker {
    fn default() -> (r: SeqTracker)
        ensures
            r@ == None::<(u32, u8)>,
    {
        SeqTracker { prev_end: None }
    }
}

impl SeqTracker {
    /// Classify `addr`/`width` and update state. Sequential iff this access
    /// begins exactly where the previous one ended, within the same region.
    pub fn classify(&mut self, addr: u32, width: Width) -> (seq: bool)
        ensures
            seq == (old(self)@ == Some((addr, (addr >> 24) as u8))),
            final(self)@ == Some((
                ((addr + width_size(width)) % 0x1_0000_0000) as u32,
                (addr >> 24) as u8,
            )),
    {
        let size: u32 = match width {
            Width::Byte => 1,
            Width::Half => 2,
            Width::Word => 4,
        };
        assert(addr >> 24 < 256) by {
            crate::bits::lemma_bit_facts();
        }
        let region = (addr >> 24) as u8;
        let seq = match self.prev_end {
            Some((a, r)) => a == addr && r == region,
            None => false,
        };
        self.prev_end = Some((addr.wrapping_add(size), region));
        seq
    }
}

} // verus!
