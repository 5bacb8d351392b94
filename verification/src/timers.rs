//! Hardware timers — four channels (TM0–TM3).
//!
//! Each timer counts up at a prescaled rate (1/64/256/1024 cycles) or, in
//! cascade (count-up) mode, once each time the timer below it overflows. On
//! overflow the counter reloads from its reload value and can raise an
//! interrupt. [`Timers::tick`] advances all four for a batch of cycles and
//! returns the interrupt bits to raise. The prescaler remainder is carried
//! between calls.

use vstd::prelude::*;

verus! {

pub const CNT_CASCADE: u16 = 0x04;
pub const CNT_IRQ: u16 = 0x40;
pub const CNT_ENABLE: u16 = 0x80;

/// The state of one timer channel.
#[derive(Clone, Copy)]
pub struct Timer {
    pub reload: u16,
    pub control: u16,
    pub counter: u16,
    /// Accumulated (un-prescaled) cycles not yet turned into an increment.
    pub prescaler_acc: u64,
}

/// The prescaler divisor selected by control bits 1:0.
pub open spec fn prescaler(control: u16) -> u64 {
    let sel = control & 3;
    if sel == 0 {
        1
    } else if sel == 1 {
        64
    } else if sel == 2 {
        256
    } else {
        1024
    }
}

/// One count: 0xFFFF overflows to the reload value.
pub open spec fn count_once(counter: u16, reload: u16) -> (u16, nat) {
    if counter == 0xFFFF {
        (reload, 1)
    } else {
        ((counter + 1) as u16, 0)
    }
}

/// `n` single counts in a row: the final counter and how many overflows.
pub open spec fn count_n(counter: u16, reload: u16, n: nat) -> (u16, nat)
    decreases n,
{
    if n == 0 {
        (counter, 0)
    } else {
        let prev = count_n(counter, reload, (n - 1) as nat);
        let next = count_once(prev.0, reload);
        (next.0, prev.1 + next.1)
    }
}

/// The closed form of `n` counts: below the overflow point the counter just
/// advances; past it, it cycles through `reload..=0xFFFF`.
pub open spec fn count_closed(counter: u16, reload: u16, n: nat) -> (u16, nat) {
    let space: int = 0x1_0000 - counter;
    let period: int = 0x1_0000 - reload;
    if n < space {
        ((counter + n) as u16, 0)
    } else {
        ((reload + (n - space) % period) as u16, (1 + (n - space) / period) as nat)
    }
}

/// Counting `n` times at once lands exactly where `n` single counts do:
/// the batched timer update loses no overflow and no count.
pub proof fn lemma_batched_count_is_exact(counter: u16, reload: u16, n: nat)
    ensures
        count_closed(counter, reload, n) == count_n(counter, reload, n),
    decreases n,
{
    if n > 0 {
        lemma_batched_count_is_exact(counter, reload, (n - 1) as nat);
        let space: int = 0x1_0000 - counter;
        let period: int = 0x1_0000 - reload;
        let m: int = n - 1;
        if m + 1 < space {
        } else if m + 1 == space {
            assert(m < space);
            assert((counter + m) as u16 == 0xFFFF);
            assert((n - space) == 0);
            assert(0int % period == 0) by (nonlinear_arith)
                requires
                    period > 0,
            ;
            assert(0int / period == 0) by (nonlinear_arith)
                requires
                    period > 0,
            ;
        } else {
            let k = m - space;
            assert(k >= 0);
            let q = k / period;
            let r = k % period;
            assert(k == q * period + r && 0 <= r < period) by (nonlinear_arith)
                requires
                    period > 0,
                    q == k / period,
                    r == k % period,
            ;
            if r == period - 1 {
                assert((reload + r) as u16 == 0xFFFF);
                assert((k + 1) / period == q + 1 && (k + 1) % period == 0) by (nonlinear_arith)
                    requires
                        period > 0,
                        k == q * period + r,
                        r == period - 1,
                ;
            } else {
                assert((k + 1) / period == q && (k + 1) % period == r + 1) by (nonlinear_arith)
                    requires
                        period > 0,
                        k == q * period + r,
                        0 <= r < period - 1,
                ;
            }
        }
    }
}

/// One timer's part of a tick: its state afterwards and how many times it
/// overflowed. A cascade timer (any but the first) counts the overflows of
/// the timer below it (`below`); the others count prescaled cycles,
/// carrying the remainder.
pub open spec fn timer_ticked(t: Timer, first: bool, cycles: int, below: nat) -> (Timer, nat) {
    if t.control & CNT_ENABLE == 0 {
        (t, 0)
    } else if !first && t.control & CNT_CASCADE != 0 {
        let c = count_n(t.counter, t.reload, below);
        (Timer { counter: c.0, ..t }, c.1)
    } else {
        let total = t.prescaler_acc + cycles;
        let p = prescaler(t.control) as int;
        let c = count_n(t.counter, t.reload, (total / p) as nat);
        (Timer { counter: c.0, prescaler_acc: (total % p) as u64, ..t }, c.1)
    }
}

/// A running timer that counts cycles (the first timer, or one not in
/// cascade mode) counts once per 1, 64, 256 or 1024 cycles as its control
/// bits 1:0 are 0, 1, 2 or 3: after a tick, the counts made are the
/// accumulated cycles divided by that period and the remainder is carried;
/// short of the overflow point the counter just advances by them, and the
/// count that passes 0xFFFF loads the reload value and overflows once.
pub proof fn lemma_prescaler_periods(t: Timer, first: bool, cycles: nat)
    requires
        t.control & CNT_ENABLE != 0,
        first || t.control & CNT_CASCADE == 0,
    ensures
        ({
            let sel = t.control & 3;
            let period: int = if sel == 0 {
                1
            } else if sel == 1 {
                64
            } else if sel == 2 {
                256
            } else {
                1024
            };
            let total = t.prescaler_acc + cycles;
            let r = timer_ticked(t, first, cycles as int, 0);
            &&& r.0.prescaler_acc == total % period
            &&& r.0.reload == t.reload && r.0.control == t.control
            &&& t.counter + total / period < 0x1_0000 ==> r.0.counter == t.counter + total / period
                && r.1 == 0
            &&& t.counter + total / period == 0x1_0000 ==> r.0.counter == t.reload && r.1 == 1
        }),
{
    let total = t.prescaler_acc + cycles;
    let p = prescaler(t.control) as int;
    assert(t.control & 3 <= 3) by {
        crate::bits::lemma_bit_facts();
    }
    lemma_batched_count_is_exact(t.counter, t.reload, (total / p) as nat);
    let period: int = 0x1_0000 - t.reload;
    assert(0int % period == 0 && 0int / period == 0) by (nonlinear_arith)
        requires
            period > 0,
    ;
}

/// The interrupt bit of timer `i` in `IF`.
pub open spec fn timer_irq_bit(i: int) -> u16 {
    if i == 0 {
        0x08
    } else if i == 1 {
        0x10
    } else if i == 2 {
        0x20
    } else {
        0x40
    }
}

/// Timers `0..n` ticked in order: their states, the interrupt bits raised,
/// the mask of timers 0/1 that overflowed, and the overflows of timer n-1.
pub open spec fn timers_ticked(ts: Seq<Timer>, cycles: int, n: nat) -> (Seq<Timer>, u16, u8, nat)
    decreases n,
{
    if n == 0 {
        (ts, 0, 0, 0)
    } else {
        let p = timers_ticked(ts, cycles, (n - 1) as nat);
        let i = n - 1;
        let r = timer_ticked(ts[i], i == 0, cycles, p.3);
        let irqs = if r.1 > 0 && ts[i].control & CNT_IRQ != 0 {
            p.1 | timer_irq_bit(i)
        } else {
            p.1
        };
        let snd = if r.1 > 0 && i < 2 {
            p.2 | (if i == 0 { 1u8 } else { 2u8 })
        } else {
            p.2
        };
        (p.0.update(i, r.0), irqs, snd, r.1)
    }
}

/// Ticking the first `n` timers leaves the others as they were.
proof fn lemma_ticked_prefix(ts: Seq<Timer>, cycles: int, n: nat)
    requires
        n <= ts.len(),
    ensures
        timers_ticked(ts, cycles, n).0.len() == ts.len(),
        forall|j: int| n <= j < ts.len() ==> #[trigger] timers_ticked(ts, cycles, n).0[j] == ts[j],
    decreases n,
{
    if n > 0 {
        lemma_ticked_prefix(ts, cycles, (n - 1) as nat);
    }
}

/// A cascade timer counts the overflows of the timer below it in the same
/// tick: with timer 0 counting cycles and timer 1 in cascade, timer 1
/// advances once per timer-0 overflow.
pub proof fn lemma_cascade_counts_overflows(ts: Seq<Timer>, cycles: int)
    requires
        ts.len() == 4,
        cycles >= 0,
        ts[0].control & CNT_ENABLE != 0,
        ts[1].control & CNT_ENABLE != 0,
        ts[1].control & CNT_CASCADE != 0,
    ensures
        ({
            let total = ts[0].prescaler_acc + cycles;
            let lower = count_n(
                ts[0].counter,
                ts[0].reload,
                (total / (prescaler(ts[0].control) as int)) as nat,
            );
            timers_ticked(ts, cycles, 2).0[1].counter == count_n(
                ts[1].counter,
                ts[1].reload,
                lower.1,
            ).0
        }),
{
    reveal_with_fuel(timers_ticked, 3);
}

impl Timer {
    fn enabled(&self) -> (r: bool)
        ensures
            r == (self.control & CNT_ENABLE != 0),
    {
        self.control & CNT_ENABLE != 0
    }

    fn cascade(&self) -> (r: bool)
        ensures
            r == (self.control & CNT_CASCADE != 0),
    {
        self.control & CNT_CASCADE != 0
    }

    fn irq_enabled(&self) -> (r: bool)
        ensures
            r == (self.control & CNT_IRQ != 0),
    {
        self.control & CNT_IRQ != 0
    }

    /// Apply `increments` counts, returning how many times it overflowed.
    fn add(&mut self, increments: u128) -> (overflows: u128)
        ensures
            final(self).counter == count_n(old(self).counter, old(self).reload, increments as nat).0,
            overflows == count_n(old(self).counter, old(self).reload, increments as nat).1,
            final(self).reload == old(self).reload,
            final(self).control == old(self).control,
            final(self).prescaler_acc == old(self).prescaler_acc,
    {
        proof {
            lemma_batched_count_is_exact(self.counter, self.reload, increments as nat);
        }
        if increments == 0 {
            return 0;
        }
        let space: u128 = 0x1_0000 - self.counter as u128;
        if increments < space {
            self.counter = (self.counter as u128 + increments) as u16;
            0
        } else {
            let period: u128 = 0x1_0000 - self.reload as u128;
            let past = increments - space;
            let overflows = 1 + past / period;
            let rem = past % period;
            self.counter = (self.reload as u128 + rem) as u16;
            overflows
        }
    }
}

pub struct Timers {
    timers: [Timer; 4],
}

/// The four timers at power-on: stopped, all zero.
pub open spec fn timers_initial() -> Seq<Timer> {
    Seq::new(4, |i: int| Timer { reload: 0, control: 0, counter: 0, prescaler_acc: 0 })
}

impl View for Timers {
    type V = Seq<Timer>;

    closed spec fn view(&self) -> Seq<Timer> {
        self.timers@
    }
}

/// Timer index and register half of an offset in `0x100..0x110`.
pub open spec fn timer_slot(offset: u32) -> (int, bool) {
    (((offset - 0x100) / 4) as int, (offset - 0x100) % 4 < 2)
}

/// What a halfword read returns: TMxCNT_L reads the live counter.
pub open spec fn timers_read16(t: Seq<Timer>, offset: u32) -> u16 {
    let (i, low) = timer_slot(offset);
    if offset < 0x100 || i >= 4 {
        0
    } else if low {
        t[i].counter
    } else {
        t[i].control
    }
}

/// The state after a halfword write: TMxCNT_L sets the reload value; a
/// disabled→enabled edge of TMxCNT_H reloads the counter and resets the
/// prescaler phase.
pub open spec fn timers_write16(t: Seq<Timer>, offset: u32, value: u16) -> Seq<Timer> {
    let (i, low) = timer_slot(offset);
    if offset < 0x100 || i >= 4 {
        t
    } else if low {
        t.update(i, Timer { reload: value, ..t[i] })
    } else if value & CNT_ENABLE != 0 && t[i].control & CNT_ENABLE == 0 {
        t.update(
            i,
            Timer { control: value, counter: t[i].reload, prescaler_acc: 0, ..t[i] },
        )
    } else {
        t.update(i, Timer { control: value, ..t[i] })
    }
}

impl Timers {
    /// There are always four timers.
    pub proof fn lemma_view_len(&self)
        ensures
            self@.len() == 4,
    {
    }

    pub fn new() -> (r: Timers)
        ensures
            r@ == timers_initial(),
            r@ == Seq::new(
                4,
                |i: int| Timer { reload: 0, control: 0, counter: 0, prescaler_acc: 0 },
            ),
    {
        let z = Timer { reload: 0, control: 0, counter: 0, prescaler_acc: 0 };
        let r = Timers { timers: [z, z, z, z] };
        assert(r@ =~= Seq::new(
            4,
            |i: int| Timer { reload: 0, control: 0, counter: 0, prescaler_acc: 0 },
        ));
        r
    }

    /// Advance all timers by `cycles`. Returns the interrupt bits to raise and
    /// a mask of which of timers 0/1 overflowed (bit 0 / bit 1), used to clock
    /// Direct Sound. Processed low-to-high so a cascade timer sees this tick's
    /// overflows from the timer below it.
    pub fn tick(&mut self, cycles: u64) -> (r: (u16, u8))
        ensures
            final(self)@ == timers_ticked(old(self)@, cycles as int, 4).0,
            r.0 == timers_ticked(old(self)@, cycles as int, 4).1,
            r.1 == timers_ticked(old(self)@, cycles as int, 4).2,
            final(self)@.len() == 4,
            r.0 & 0xFF87 == 0,
            r.1 < 4,
    {
        let mut irqs: u16 = 0;
        let mut sound_overflow: u8 = 0;
        let mut prev_overflows: u128 = 0;
        let ghost t0 = self@;
        assert(0u16 & 0xFF87 == 0) by {
            crate::bits::lemma_register_fields();
        }
        let mut i: usize = 0;
        while i < 4
            invariant
                i <= 4,
                self@.len() == 4,
                t0.len() == 4,
                ({
                    let p = timers_ticked(t0, cycles as int, i as nat);
                    &&& self@ == p.0
                    &&& irqs == p.1
                    &&& sound_overflow == p.2
                    &&& prev_overflows == p.3
                }),
                irqs & 0xFF87 == 0,
                irqs < 0x80,
                sound_overflow < 4,
            decreases 4 - i,
        {
            proof {
                lemma_ticked_prefix(t0, cycles as int, i as nat);
            }
            let mut t = self.timers[i];
            let ghost ti = t;
            if !t.enabled() {
                prev_overflows = 0;
            } else {
                let increments = if i > 0 && t.cascade() {
                    prev_overflows
                } else {
                    let ctl = t.control;
                    assert(ctl & 3 < 4) by {
                        crate::bits::lemma_mask_bounds();
                    }
                    let pres: u64 = match ctl & 3 {
                        0 => 1,
                        1 => 64,
                        2 => 256,
                        _ => 1024,
                    };
                    let total: u128 = t.prescaler_acc as u128 + cycles as u128;
                    t.prescaler_acc = (total % (pres as u128)) as u64;
                    total / (pres as u128)
                };
                let overflows = t.add(increments);
                if overflows > 0 && t.irq_enabled() {
                    let bit: u16 = match i {
                        0 => 0x08,
                        1 => 0x10,
                        2 => 0x20,
                        _ => 0x40,
                    };
                    assert(irqs < 0x80 && (bit == 0x08 || bit == 0x10 || bit == 0x20 || bit == 0x40)
                        ==> (irqs | bit) < 0x80 && (irqs | bit) & 0xFF87 == 0) by (bit_vector)
                        requires irqs & 0xFF87 == 0;
                    irqs = irqs | bit;
                }
                if overflows > 0 && i < 2 {
                    let bit: u8 = if i == 0 { 1 } else { 2 };
                    assert(sound_overflow < 4 && (bit == 1 || bit == 2) ==> (sound_overflow | bit) < 4)
                        by (bit_vector);
                    sound_overflow = sound_overflow | bit;
                }
                prev_overflows = overflows;
                self.timers[i] = t;
            }
            proof {
                assert(self@ =~= timers_ticked(t0, cycles as int, (i + 1) as nat).0);
            }
            i = i + 1;
        }
        (irqs, sound_overflow)
    }

    // ---- register access (0x100..0x110) ----

    pub fn read16(&self, offset: u32) -> (r: u16)
        ensures
            r == timers_read16(self@, offset),
    {
        if offset < 0x100 {
            return 0;
        }
        let i = ((offset - 0x100) / 4) as usize;
        if i >= 4 {
            return 0;
        }
        if (offset - 0x100) % 4 < 2 {
            self.timers[i].counter
        } else {
            self.timers[i].control
        }
    }

    pub fn write16(&mut self, offset: u32, value: u16)
        ensures
            final(self)@.len() == 4,
            final(self)@ == timers_write16(old(self)@, offset, value),
    {
        if offset < 0x100 {
            return;
        }
        let i = ((offset - 0x100) / 4) as usize;
        if i >= 4 {
            return;
        }
        let mut t = self.timers[i];
        if (offset - 0x100) % 4 < 2 {
            t.reload = value;
        } else {
            let was_enabled = t.enabled();
            t.control = value;
            if value & CNT_ENABLE != 0 && !was_enabled {
                t.counter = t.reload;
                t.prescaler_acc = 0;
            }
        }
        self.timers[i] = t;
    }

    pub fn read8(&self, offset: u32) -> (r: u8)
        ensures
            r == crate::io::byte_of_half(timers_read16(self@, offset & !1u32), offset),
    {
        let half = self.read16(offset & !1u32);
        crate::io::half_byte(half, offset)
    }

    pub fn write8(&mut self, offset: u32, value: u8)
        ensures
            final(self)@.len() == 4,
            final(self)@ == timers_write16(
                old(self)@,
                offset & !1u32,
                crate::io::merge_byte(timers_read16(old(self)@, offset & !1u32), offset, value),
            ),
    {
        let half = self.read16(offset & !1u32);
        let merged = crate::io::merge_half(half, offset, value);
        self.write16(offset & !1u32, merged);
    }

    pub fn read32(&self, offset: u32) -> (r: u32)
        requires
            offset <= 0xFFFF_FFFD,
        ensures
            r == (timers_read16(self@, offset) as u32) | ((timers_read16(
                self@,
                (offset + 2) as u32,
            ) as u32) << 16),
    {
        let lo = self.read16(offset);
        let hi = self.read16(offset + 2);
        (lo as u32) | ((hi as u32) << 16)
    }

    pub fn write32(&mut self, offset: u32, value: u32)
        requires
            offset <= 0xFFFF_FFFD,
        ensures
            final(self)@.len() == 4,
            final(self)@ == timers_write16(
                timers_write16(old(self)@, offset, value as u16),
                (offset + 2) as u32,
                (value >> 16) as u16,
            ),
    {
        self.write16(offset, value as u16);
        self.write16(offset + 2, (value >> 16) as u16);
    }
}

impl Default for Timers {
    fn default() -> (r: Timers)
        ensures
            r@ == Seq::new(
                4,
                |i: int| Timer { reload: 0, control: 0, counter: 0, prescaler_acc: 0 },
            ),
    {
        Timers::new()
    }
}

} // verus!
