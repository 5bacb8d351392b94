//! I/O register file (address range `0x0400_0000..0x0400_03FF`): the
//! interrupt controller (`IE`/`IF`/`IME`), waitstate control (`WAITCNT`),
//! the keypad (`KEYINPUT`) and the halt/post-boot flags (`HALTCNT`/`POSTFLG`).
//! Registers without behavior of their own are backed by plain storage so
//! software reads back what it wrote.

pub mod irq;

use vstd::prelude::*;

verus! {

pub struct Io {
    ie: u16,
    iff: u16,
    ime: bool,
    waitcnt: u16,
    postflg: u8,
    /// Set when software writes `HALTCNT`; the CPU polls and clears it.
    halt_request: bool,
    /// KEYINPUT (0x130): active-low button state; 0x03FF = nothing pressed.
    keyinput: u16,
    /// Backing store for registers without behavior, indexed by
    /// `(offset & 0x3FF) >> 1`.
    scratch: [u16; 512],
}

/// The abstract state of the I/O register file.
pub ghost struct IoView {
    pub ie: u16,
    pub iff: u16,
    pub ime: bool,
    pub waitcnt: u16,
    pub postflg: u8,
    pub halt_request: bool,
    pub keyinput: u16,
    pub scratch: Seq<u16>,
}

impl View for Io {
    type V = IoView;

    closed spec fn view(&self) -> IoView {
        IoView {
            ie: self.ie,
            iff: self.iff,
            ime: self.ime,
            waitcnt: self.waitcnt,
            postflg: self.postflg,
            halt_request: self.halt_request,
            keyinput: self.keyinput,
            scratch: self.scratch@,
        }
    }
}

/// The power-on state: no interrupts enabled or requested, no keys held.
pub open spec fn io_initial() -> IoView {
    IoView {
        ie: 0,
        iff: 0,
        ime: false,
        waitcnt: 0,
        postflg: 0,
        halt_request: false,
        keyinput: 0x03FF,
        scratch: Seq::new(512, |i: int| 0u16),
    }
}

/// Index into the backing store for an offset.
pub open spec fn scratch_index(offset: u32) -> int {
    ((offset & 0x3FF) >> 1) as int
}

/// What a halfword read of `offset` returns.
pub open spec fn io_read16(s: IoView, offset: u32) -> u16 {
    let reg = offset & 0x3FE;
    if reg == 0x130 {
        s.keyinput
    } else if reg == 0x200 {
        s.ie
    } else if reg == 0x202 {
        s.iff
    } else if reg == 0x204 {
        s.waitcnt
    } else if reg == 0x208 {
        if s.ime { 1 } else { 0 }
    } else if reg == 0x300 {
        s.postflg as u16
    } else {
        s.scratch[scratch_index(offset)]
    }
}

/// The state after a halfword write of `value` to `offset`.
pub open spec fn io_write16(s: IoView, offset: u32, value: u16) -> IoView {
    let reg = offset & 0x3FE;
    if reg == 0x200 {
        IoView { ie: value, ..s }
    } else if reg == 0x202 {
        // IF is write-1-to-acknowledge: writing a 1 clears that request.
        IoView { iff: s.iff & !value, ..s }
    } else if reg == 0x204 {
        IoView { waitcnt: value, ..s }
    } else if reg == 0x208 {
        IoView { ime: value & 1 != 0, ..s }
    } else if reg == 0x300 {
        IoView {
            postflg: (value & 1) as u8,
            halt_request: s.halt_request || value & 0x8000 != 0,
            ..s
        }
    } else if reg == 0x130 {
        s
    } else {
        IoView { scratch: s.scratch.update((reg >> 1) as int, value), ..s }
    }
}

/// Low (even offset) or high (odd offset) byte of a halfword.
pub open spec fn byte_of_half(half: u16, offset: u32) -> u8 {
    if offset & 1 == 0 { (half & 0xFF) as u8 } else { (half >> 8) as u8 }
}

/// A halfword with the byte selected by `offset` replaced by `value`.
pub open spec fn merge_byte(half: u16, offset: u32, value: u8) -> u16 {
    if offset & 1 == 0 {
        (half & 0xFF00) | (value as u16)
    } else {
        (half & 0x00FF) | ((value as u16) << 8)
    }
}

/// The state after a byte write.
pub open spec fn io_write8(s: IoView, offset: u32, value: u8) -> IoView {
    let reg = offset & 0x3FF;
    if reg == 0x300 {
        IoView { postflg: value & 1, ..s }
    } else if reg == 0x301 {
        IoView { halt_request: true, ..s }
    } else {
        io_write16(s, offset & !1u32, merge_byte(io_read16(s, offset & !1u32), offset, value))
    }
}

/// Exec form of [`byte_of_half`].
pub fn half_byte(half: u16, offset: u32) -> (r: u8)
    ensures
        r == byte_of_half(half, offset),
{
    if offset & 1 == 0 {
        (half & 0xFF) as u8
    } else {
        (half >> 8) as u8
    }
}

/// Exec form of [`merge_byte`].
pub fn merge_half(half: u16, offset: u32, value: u8) -> (r: u16)
    ensures
        r == merge_byte(half, offset, value),
{
    if offset & 1 == 0 {
        (half & 0xFF00) | (value as u16)
    } else {
        (half & 0x00FF) | ((value as u16) << 8)
    }
}

impl Io {
    pub fn new() -> (r: Io)
        ensures
            r@ == io_initial(),
    {
        let r = Io {
            ie: 0,
            iff: 0,
            ime: false,
            waitcnt: 0,
            postflg: 0,
            halt_request: false,
            keyinput: 0x03FF,
            scratch: [0u16; 512],
        };
        assert(r.scratch@ =~= Seq::new(512, |i: int| 0u16));
        r
    }

    /// Set the keypad state. `pressed` is active-high (bit set = held) using
    /// the KEYINPUT bit order (A, B, Select, Start, Right, Left, Up, Down,
    /// R, L); it is stored active-low as the hardware register expects.
    pub fn set_keys(&mut self, pressed: u16)
        ensures
            final(self)@ == (IoView { keyinput: !pressed & 0x03FF, ..old(self)@ }),
    {
        self.keyinput = !pressed & 0x03FF;
    }

    pub fn waitcnt(&self) -> (r: u16)
        ensures
            r == self@.waitcnt,
    {
        self.waitcnt
    }

    /// IRQ line as seen by the CPU: an enabled interrupt is pending and the
    /// master enable is set.
    pub fn irq_pending(&self) -> (r: bool)
        ensures
            r == (self@.ime && (self@.ie & self@.iff) != 0),
    {
        self.ime && (self.ie & self.iff) != 0
    }

    /// Raise interrupt request bit(s).
    pub fn raise_irq(&mut self, bits: u16)
        ensures
            final(self)@ == (IoView { iff: old(self)@.iff | bits, ..old(self)@ }),
    {
        self.iff = self.iff | bits;
    }

    /// Take (and clear) a pending halt request.
    pub fn take_halt_request(&mut self) -> (r: bool)
        ensures
            r == old(self)@.halt_request,
            final(self)@ == (IoView { halt_request: false, ..old(self)@ }),
    {
        let r = self.halt_request;
        self.halt_request = false;
        r
    }

    pub fn read8(&mut self, offset: u32) -> (r: u8)
        ensures
            r == byte_of_half(io_read16(old(self)@, offset & !1u32), offset),
            final(self)@ == old(self)@,
    {
        let half = self.read16(offset & !1);
        half_byte(half, offset)
    }

    pub fn read16(&mut self, offset: u32) -> (r: u16)
        ensures
            r == io_read16(old(self)@, offset),
            final(self)@ == old(self)@,
    {
        let reg = offset & 0x3FE;
        if reg == 0x0130 {
            self.keyinput
        } else if reg == 0x0200 {
            self.ie
        } else if reg == 0x0202 {
            self.iff
        } else if reg == 0x0204 {
            self.waitcnt
        } else if reg == 0x0208 {
            if self.ime { 1 } else { 0 }
        } else if reg == 0x0300 {
            self.postflg as u16
        } else {
            let i = ((offset & 0x3FF) >> 1) as usize;
            assert((offset & 0x3FF) >> 1 < 512) by {
                crate::bits::lemma_bit_facts();
            }
            self.scratch[i]
        }
    }

    pub fn read32(&mut self, offset: u32) -> (r: u32)
        requires
            offset <= 0xFFFF_FFFD,
        ensures
            r == (io_read16(old(self)@, offset) as u32) | ((io_read16(
                old(self)@,
                (offset + 2) as u32,
            ) as u32) << 16),
            final(self)@ == old(self)@,
    {
        let lo = self.read16(offset);
        let hi = self.read16(offset + 2);
        (lo as u32) | ((hi as u32) << 16)
    }

    pub fn write8(&mut self, offset: u32, value: u8)
        ensures
            final(self)@ == io_write8(old(self)@, offset, value),
    {
        // HALTCNT lives in the high byte of 0x0300; a byte write there must
        // not disturb POSTFLG in the low byte.
        let reg = offset & 0x3FF;
        if reg == 0x0300 {
            self.postflg = value & 1;
        } else if reg == 0x0301 {
            self.halt_request = true;
        } else {
            let half = self.read16(offset & !1);
            let merged = merge_half(half, offset, value);
            self.write16(offset & !1, merged);
        }
    }

    pub fn write16(&mut self, offset: u32, value: u16)
        ensures
            final(self)@ == io_write16(old(self)@, offset, value),
    {
        let reg = offset & 0x3FE;
        if reg == 0x0200 {
            self.ie = value;
        } else if reg == 0x0202 {
            self.iff = self.iff & !value;
        } else if reg == 0x0204 {
            self.waitcnt = value;
        } else if reg == 0x0208 {
            self.ime = value & 1 != 0;
        } else if reg == 0x0300 {
            self.postflg = (value & 1) as u8;
            if value & 0x8000 != 0 {
                self.halt_request = true;
            }
        } else if reg == 0x0130 {
            // KEYINPUT is read-only.
        } else {
            assert(reg >> 1 < 512) by (bit_vector)
                requires reg == offset & 0x3FE;
            self.scratch[(reg >> 1) as usize] = value;
        }
    }

    pub fn write32(&mut self, offset: u32, value: u32)
        requires
            offset <= 0xFFFF_FFFD,
        ensures
            final(self)@ == io_write16(
                io_write16(old(self)@, offset, value as u16),
                (offset + 2) as u32,
                (value >> 16) as u16,
            ),
    {
        self.write16(offset, value as u16);
        self.write16(offset + 2, (value >> 16) as u16);
    }
}

impl Default for Io {
    fn default() -> (r: Io)
        ensures
            r@ == io_initial(),
    {
        Io::new()
    }
}

/// Writing `bits` to `IF` acknowledges exactly those requests: afterwards
/// `IF` reads back as its old value with those bits cleared.
pub proof fn lemma_if_write_one_to_clear(s: IoView, bits: u16)
    ensures
        io_read16(io_write16(s, 0x202, bits), 0x202) == s.iff & !bits,
{
    assert(0x202u32 & 0x3FE == 0x202) by {
        crate::bits::lemma_bit_facts();
    }
}

/// A plain (behaviorless) register reads back the halfword last written to it.
pub proof fn lemma_scratch_read_after_write(s: IoView, offset: u32, value: u16)
    requires
        s.scratch.len() == 512,
        ({
            let reg = offset & 0x3FE;
            reg != 0x130 && reg != 0x200 && reg != 0x202 && reg != 0x204 && reg != 0x208
                && reg != 0x300
        }),
    ensures
        io_read16(io_write16(s, offset, value), offset) == value,
{
    assert((offset & 0x3FE) >> 1 == (offset & 0x3FF) >> 1) by {
        crate::bits::lemma_bit_facts();
    }
    assert((offset & 0x3FE) >> 1 < 512) by {
        crate::bits::lemma_bit_facts();
    }
}

/// The keypad register cannot be written by software.
pub proof fn lemma_keyinput_read_only(s: IoView, value: u16)
    ensures
        io_read16(io_write16(s, 0x130, value), 0x130) == s.keyinput,
{
    assert(0x130u32 & 0x3FE == 0x130) by {
        crate::bits::lemma_bit_facts();
    }
}

} // verus!
