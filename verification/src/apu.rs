//! Audio Processing Unit — the four PSG (Game Boy) channels plus Direct Sound.
//!
//! * Channel 1 — square wave with frequency sweep and a volume envelope.
//! * Channel 2 — square wave with a volume envelope.
//! * Channel 3 — wave output from 32 nibbles of wave RAM.
//! * Channel 4 — noise from a 15/7-bit LFSR with a volume envelope.
//!
//! A 512 Hz frame sequencer clocks the length counters (256 Hz), volume
//! envelopes (64 Hz) and the sweep (128 Hz). The channels are mixed to stereo
//! per `SOUNDCNT_L`/`SOUNDCNT_H` and resampled to [`SAMPLE_RATE`] into an
//! output buffer that the frontend drains.
//!
//! Direct Sound: two 8-bit PCM FIFOs (A and B), each clocked by a timer
//! overflow and refilled by DMA when half-empty.
//!
//! Every channel operation has a specification function of the same name in
//! the past participle (`square_ticked`, `noise_triggered`, …); the register
//! file is specified by [`apu_read16`] and [`apu_write16`], and a batch of
//! cycles by [`apu_run`].

use crate::io::{byte_of_half, half_byte, merge_byte, merge_half};
use std::collections::VecDeque;
use vstd::prelude::*;

verus! {

/// Output sample rate (stereo): 16.78 MHz / 512 = 32768 Hz.
pub const SAMPLE_RATE: u32 = 32768;
/// CPU cycles per output sample (16_777_216 / SAMPLE_RATE).
pub const CYCLES_PER_SAMPLE: u32 = 512;
/// CPU cycles per frame-sequencer step (the sequencer runs at 512 Hz).
pub const FRAME_SEQ_PERIOD: u32 = 32768;
/// Upper bound on every channel's countdown timer.
pub const TIMER_MAX: i32 = 0x100_0000;
/// Depth of each Direct Sound FIFO, in samples.
pub const FIFO_CAPACITY: usize = 32;

/// The 8-step waveform of square duty setting `duty` (bit i is step i).
pub open spec fn duty_pattern(duty: u8) -> u8 {
    if duty == 0 {
        0x01
    } else if duty == 1 {
        0x81
    } else if duty == 2 {
        0x87
    } else {
        0x7E
    }
}

fn duty_bits(duty: u8) -> (r: u8)
    ensures
        r == duty_pattern(duty),
{
    match duty {
        0 => 0x01,
        1 => 0x81,
        2 => 0x87,
        _ => 0x7E,
    }
}

/// The number of whole periods `p` a countdown at `t` must be reloaded by to
/// get back above zero (each reload advances the channel one step).
pub open spec fn periods_elapsed(t: int, p: int) -> int {
    if t > 0 {
        0
    } else {
        (-t) / p + 1
    }
}

proof fn lemma_periods_elapsed(t: int, p: int, j: int)
    requires
        p >= 1,
        0 <= j,
    ensures
        periods_elapsed(t, p) >= 0,
        t + periods_elapsed(t, p) * p > 0,
        t + periods_elapsed(t, p) * p <= if t > 0 { t } else { p },
        j < periods_elapsed(t, p) ==> t + j * p <= 0,
{
    if t <= 0 {
        let q = (-t) / p;
        let r = (-t) % p;
        vstd::arithmetic::div_mod::lemma_fundamental_div_mod(-t, p);
        assert(0 <= r < p);
        assert(q >= 0) by (nonlinear_arith)
            requires
                -t >= 0,
                p >= 1,
                q == (-t) / p,
        ;
        assert(t + (q + 1) * p == p - r) by (nonlinear_arith)
            requires
                -t == p * q + r,
        ;
        if j < q + 1 {
            assert(t + j * p <= 0) by (nonlinear_arith)
                requires
                    -t == p * q + r,
                    0 <= r,
                    j <= q,
                    p >= 1,
            ;
        }
    }
}

/// A countdown period, never less than one cycle.
pub open spec fn at_least_one(p: int) -> int {
    if p < 1 {
        1
    } else {
        p
    }
}

/// A boolean as a register bit.
pub open spec fn bit16(b: bool) -> u16 {
    if b {
        1
    } else {
        0
    }
}

fn bit(b: bool) -> (r: u16)
    ensures
        r == bit16(b),
{
    if b {
        1
    } else {
        0
    }
}

// ---------------------------------------------------------------------------
// Square channels (1 and 2)
// ---------------------------------------------------------------------------

/// A square-wave channel (used by channels 1 and 2; only channel 1 sweeps).
#[derive(Clone, Copy)]
pub struct Square {
    pub duty: u8,
    pub freq: u16,
    pub length_load: u8,
    pub env_initial: u8,
    pub env_add: bool,
    pub env_period: u8,
    pub length_enabled: bool,
    pub sweep_period: u8,
    pub sweep_negate: bool,
    pub sweep_shift: u8,
    pub has_sweep: bool,
    pub enabled: bool,
    pub dac_on: bool,
    pub timer: i32,
    pub duty_pos: u8,
    pub length: u16,
    pub volume: u8,
    pub env_timer: u8,
    pub sweep_timer: u8,
    pub sweep_on: bool,
    pub sweep_shadow: u16,
}

/// The ranges that the register fields and the live state of a square
/// channel stay in.
pub open spec fn square_wf(s: Square) -> bool {
    &&& s.duty <= 3
    &&& s.freq <= 2047
    &&& s.length_load <= 63
    &&& s.env_initial <= 15
    &&& s.env_period <= 7
    &&& s.sweep_period <= 7
    &&& s.sweep_shift <= 7
    &&& s.duty_pos <= 7
    &&& s.length <= 64
    &&& 0 <= s.timer <= TIMER_MAX
    &&& s.volume <= 15
    &&& s.env_timer <= 7
    &&& s.sweep_timer <= 8
    &&& s.sweep_shadow <= 2047
}

pub open spec fn square_initial(has_sweep: bool) -> Square {
    Square {
        duty: 0,
        freq: 0,
        length_load: 0,
        env_initial: 0,
        env_add: false,
        env_period: 0,
        length_enabled: false,
        sweep_period: 0,
        sweep_negate: false,
        sweep_shift: 0,
        has_sweep,
        enabled: false,
        dac_on: false,
        timer: 0,
        duty_pos: 0,
        length: 0,
        volume: 0,
        env_timer: 0,
        sweep_timer: 0,
        sweep_on: false,
        sweep_shadow: 0,
    }
}

/// Cycles per duty step: (2048 - freq) * 16.
pub open spec fn square_period(s: Square) -> int {
    (2048 - s.freq) * 16
}

/// The channel after `cycles` cycles: the duty position advances once per
/// elapsed period.
pub open spec fn square_ticked(s: Square, cycles: int) -> Square {
    if !s.enabled {
        s
    } else {
        let t = s.timer - cycles;
        let p = at_least_one(square_period(s));
        let k = periods_elapsed(t, p);
        Square { timer: (t + k * p) as i32, duty_pos: ((s.duty_pos + k) % 8) as u8, ..s }
    }
}

/// The sweep unit's next frequency: the shadow frequency plus or minus itself
/// shifted right by the sweep shift.
pub open spec fn sweep_target(s: Square) -> int {
    let delta = (s.sweep_shadow >> s.sweep_shift) as int;
    if s.sweep_negate {
        s.sweep_shadow - delta
    } else {
        s.sweep_shadow + delta
    }
}

/// A sweep calculation's overflow check: a target above 2047 turns the
/// channel off.
pub open spec fn sweep_checked(s: Square) -> Square {
    if sweep_target(s) > 2047 {
        Square { enabled: false, ..s }
    } else {
        s
    }
}

/// Writing the trigger bit: restart the channel (if its DAC is on), reload
/// the timer, length, envelope and sweep.
pub open spec fn square_triggered(s: Square) -> Square {
    let s1 = Square {
        enabled: s.dac_on,
        timer: square_period(s) as i32,
        length: if s.length == 0 { 64 } else { s.length },
        volume: s.env_initial,
        env_timer: s.env_period,
        ..s
    };
    if s.has_sweep {
        let s2 = Square {
            sweep_shadow: s.freq,
            sweep_timer: if s.sweep_period == 0 { 8 } else { s.sweep_period },
            sweep_on: s.sweep_period > 0 || s.sweep_shift > 0,
            ..s1
        };
        if s.sweep_shift > 0 {
            sweep_checked(s2)
        } else {
            s2
        }
    } else {
        s1
    }
}

/// A 256 Hz length clock: count down if enabled, turning the channel off
/// when the count reaches zero.
pub open spec fn square_length_clocked(s: Square) -> Square {
    if s.length_enabled && s.length > 0 {
        let l = (s.length - 1) as u16;
        Square { length: l, enabled: if l == 0 { false } else { s.enabled }, ..s }
    } else {
        s
    }
}

/// One envelope step of volume `v`: up (to at most 15) or down (to at least 0).
pub open spec fn envelope_step(add: bool, v: u8) -> u8 {
    if add && v < 15 {
        (v + 1) as u8
    } else if !add && v > 0 {
        (v - 1) as u8
    } else {
        v
    }
}

/// A 64 Hz envelope clock.
pub open spec fn square_envelope_clocked(s: Square) -> Square {
    if s.env_period == 0 {
        s
    } else {
        let et = if s.env_timer > 0 { (s.env_timer - 1) as u8 } else { 0u8 };
        if et == 0 {
            Square { env_timer: s.env_period, volume: envelope_step(s.env_add, s.volume), ..s }
        } else {
            Square { env_timer: et, ..s }
        }
    }
}

/// A 128 Hz sweep clock (channel 1 only).
pub open spec fn square_sweep_clocked(s: Square) -> Square {
    if !s.has_sweep || !s.sweep_on {
        s
    } else {
        let st = if s.sweep_timer > 0 { (s.sweep_timer - 1) as u8 } else { 0u8 };
        if st != 0 {
            Square { sweep_timer: st, ..s }
        } else {
            let s1 = Square {
                sweep_timer: if s.sweep_period == 0 { 8 } else { s.sweep_period },
                ..s
            };
            if s.sweep_period == 0 {
                s1
            } else {
                let new = sweep_target(s1);
                let s2 = sweep_checked(s1);
                if new <= 2047 && s.sweep_shift > 0 {
                    sweep_checked(Square { sweep_shadow: new as u16, freq: new as u16, ..s2 })
                } else {
                    s2
                }
            }
        }
    }
}

/// The channel's current output level (0..=15).
pub open spec fn square_output(s: Square) -> u8 {
    if !s.enabled || !s.dac_on {
        0
    } else if (duty_pattern(s.duty) >> s.duty_pos) & 1 != 0 {
        s.volume
    } else {
        0
    }
}

/// Square duty cycles over the 8 steps of a period: at 12.5% (duty 0) the
/// wave is high on step 0 only, at 25% (duty 1) on steps 0 and 7, at 50%
/// (duty 2) on steps 0–2 and 7, at 75% (duty 3) on steps 1–6. A playing
/// channel outputs its envelope volume on a high step and 0 on a low one;
/// a stopped channel or one whose DAC is off outputs 0.
pub proof fn lemma_square_duty_shape(s: Square)
    requires
        square_wf(s),
    ensures
        ({
            let p = s.duty_pos;
            let high = if s.duty == 0 {
                p == 0
            } else if s.duty == 1 {
                p == 0 || p == 7
            } else if s.duty == 2 {
                p <= 2 || p == 7
            } else {
                1 <= p <= 6
            };
            square_output(s) == if s.enabled && s.dac_on && high { s.volume } else { 0 }
        }),
{
    crate::bits::lemma_bit_identities();
    let p = s.duty_pos;
    assert((0x01u8 >> p) & 1 != 0 <==> p == 0);
    assert((0x81u8 >> p) & 1 != 0 <==> (p == 0 || p == 7));
    assert((0x87u8 >> p) & 1 != 0 <==> (p <= 2 || p == 7));
    assert((0x7Eu8 >> p) & 1 != 0 <==> (1 <= p && p <= 6));
}

/// NRx1/NRx2 (duty, envelope) as read back.
pub open spec fn square_cnt_h(s: Square) -> u16 {
    ((s.duty as u16) << 6u16) | (s.env_period as u16) | (bit16(s.env_add) << 3u16) | ((
    s.env_initial as u16) << 4u16)
}

/// Writing NRx1/NRx2: length load, duty, envelope and DAC power.
pub open spec fn square_write_cnt_h(s: Square, value: u16) -> Square {
    let dac_on = value & 0xF800 != 0;
    Square {
        length_load: (value & 0x3F) as u8,
        length: (64 - (value & 0x3F)) as u16,
        duty: ((value >> 6) & 0x3) as u8,
        env_period: ((value >> 8) & 0x7) as u8,
        env_add: value & 0x800 != 0,
        env_initial: ((value >> 12) & 0xF) as u8,
        dac_on,
        enabled: if dac_on { s.enabled } else { false },
        ..s
    }
}

/// Writing NRx3/NRx4: frequency, length enable, trigger.
pub open spec fn square_write_cnt_x(s: Square, value: u16) -> Square {
    let s1 = Square { freq: value & 0x7FF, length_enabled: value & 0x4000 != 0, ..s };
    if value & 0x8000 != 0 {
        square_triggered(s1)
    } else {
        s1
    }
}

impl Square {
    fn new(has_sweep: bool) -> (r: Square)
        ensures
            r == square_initial(has_sweep),
    {
        Square {
            duty: 0,
            freq: 0,
            length_load: 0,
            env_initial: 0,
            env_add: false,
            env_period: 0,
            length_enabled: false,
            sweep_period: 0,
            sweep_negate: false,
            sweep_shift: 0,
            has_sweep,
            enabled: false,
            dac_on: false,
            timer: 0,
            duty_pos: 0,
            length: 0,
            volume: 0,
            env_timer: 0,
            sweep_timer: 0,
            sweep_on: false,
            sweep_shadow: 0,
        }
    }

    fn period(&self) -> (r: i32)
        requires
            square_wf(*self),
        ensures
            r == square_period(*self),
            16 <= r <= 32768,
    {
        (2048 - self.freq as i32) * 16
    }

    fn tick(&mut self, cycles: i32)
        requires
            square_wf(*old(self)),
            0 <= cycles <= CYCLES_PER_SAMPLE,
        ensures
            *final(self) == square_ticked(*old(self), cycles as int),
            square_wf(*final(self)),
    {
        if !self.enabled {
            return ;
        }
        let p0 = self.period();
        let p = if p0 < 1 { 1 } else { p0 };
        self.timer = self.timer - cycles;
        let ghost s1 = *self;
        let ghost t0 = self.timer as int;
        let ghost k = periods_elapsed(t0, p as int);
        let ghost mut j: int = 0;
        proof {
            lemma_periods_elapsed(t0, p as int, 0);
        }
        while self.timer <= 0
            invariant
                1 <= p <= 32768,
                t0 >= -512,
                k == periods_elapsed(t0, p as int),
                0 <= j <= k,
                self.timer == t0 + j * p,
                self.duty_pos == (s1.duty_pos + j) % 8,
                *self == (Square { timer: self.timer, duty_pos: self.duty_pos, ..s1 }),
            decreases k - j,
        {
            proof {
                lemma_periods_elapsed(t0, p as int, j);
                assert(j < k);
                lemma_periods_elapsed(t0, p as int, j + 1);
                vstd::arithmetic::div_mod::lemma_add_mod_noop(s1.duty_pos + j, 1, 8);
            }
            self.timer = self.timer + p;
            self.duty_pos = (self.duty_pos + 1) % 8;
            proof {
                j = j + 1;
                assert(self.timer == t0 + j * p) by (nonlinear_arith)
                    requires
                        self.timer == t0 + (j - 1) * p + p,
                ;
            }
        }
        proof {
            lemma_periods_elapsed(t0, p as int, j);
        }
    }

    /// One sweep calculation: returns the target frequency, turning the
    /// channel off if it overflows.
    fn sweep_calc(&mut self) -> (r: u16)
        requires
            square_wf(*old(self)),
        ensures
            r == sweep_target(*old(self)),
            *final(self) == sweep_checked(*old(self)),
            square_wf(*final(self)),
    {
        let shadow = self.sweep_shadow;
        let shift = self.sweep_shift;
        let delta = shadow >> shift;
        assert(shadow >> shift <= shadow) by {
            crate::bits::lemma_bit_facts();
        }
        let new = if self.sweep_negate {
            shadow - delta
        } else {
            shadow + delta
        };
        if new > 2047 {
            self.enabled = false;
        }
        new
    }

    fn trigger(&mut self)
        requires
            square_wf(*old(self)),
        ensures
            *final(self) == square_triggered(*old(self)),
            square_wf(*final(self)),
    {
        self.enabled = self.dac_on;
        self.timer = self.period();
        if self.length == 0 {
            self.length = 64;
        }
        self.volume = self.env_initial;
        self.env_timer = self.env_period;
        if self.has_sweep {
            self.sweep_shadow = self.freq;
            self.sweep_timer = if self.sweep_period == 0 {
                8
            } else {
                self.sweep_period
            };
            self.sweep_on = self.sweep_period > 0 || self.sweep_shift > 0;
            if self.sweep_shift > 0 {
                // An immediate overflow check can turn the channel off.
                self.sweep_calc();
            }
        }
    }

    fn clock_length(&mut self)
        requires
            square_wf(*old(self)),
        ensures
            *final(self) == square_length_clocked(*old(self)),
            square_wf(*final(self)),
    {
        if self.length_enabled && self.length > 0 {
            self.length = self.length - 1;
            if self.length == 0 {
                self.enabled = false;
            }
        }
    }

    fn clock_envelope(&mut self)
        requires
            square_wf(*old(self)),
        ensures
            *final(self) == square_envelope_clocked(*old(self)),
            square_wf(*final(self)),
    {
        if self.env_period == 0 {
            return ;
        }
        if self.env_timer > 0 {
            self.env_timer = self.env_timer - 1;
        }
        if self.env_timer == 0 {
            self.env_timer = self.env_period;
            if self.env_add && self.volume < 15 {
                self.volume = self.volume + 1;
            } else if !self.env_add && self.volume > 0 {
                self.volume = self.volume - 1;
            }
        }
    }

    fn clock_sweep(&mut self)
        requires
            square_wf(*old(self)),
        ensures
            *final(self) == square_sweep_clocked(*old(self)),
            square_wf(*final(self)),
    {
        if !self.has_sweep || !self.sweep_on {
            return ;
        }
        if self.sweep_timer > 0 {
            self.sweep_timer = self.sweep_timer - 1;
        }
        if self.sweep_timer == 0 {
            self.sweep_timer = if self.sweep_period == 0 {
                8
            } else {
                self.sweep_period
            };
            if self.sweep_period > 0 {
                let new = self.sweep_calc();
                if new <= 2047 && self.sweep_shift > 0 {
                    self.sweep_shadow = new;
                    self.freq = new;
                    // Second overflow check, on the new shadow frequency.
                    self.sweep_calc();
                }
            }
        }
    }

    fn output(&self) -> (r: u8)
        requires
            square_wf(*self),
        ensures
            r == square_output(*self),
            r <= 15,
    {
        if !self.enabled || !self.dac_on {
            return 0;
        }
        if (duty_bits(self.duty) >> self.duty_pos) & 1 != 0 {
            self.volume
        } else {
            0
        }
    }

    fn cnt_h(&self) -> (r: u16)
        ensures
            r == square_cnt_h(*self),
    {
        ((self.duty as u16) << 6u16) | (self.env_period as u16) | (bit(self.env_add) << 3u16) | ((
        self.env_initial as u16) << 4u16)
    }

    fn write_cnt_h(&mut self, value: u16)
        requires
            square_wf(*old(self)),
        ensures
            *final(self) == square_write_cnt_h(*old(self), value),
            square_wf(*final(self)),
    {
        assert(value & 0x3F <= 63 && (value >> 6) & 3 <= 3 && (value >> 8) & 7 <= 7 && (value
            >> 12) & 0xF <= 15) by (bit_vector);
        self.length_load = (value & 0x3F) as u8;
        self.length = 64 - (value & 0x3F);
        self.duty = ((value >> 6) & 0x3) as u8;
        self.env_period = ((value >> 8) & 0x7) as u8;
        self.env_add = value & 0x800 != 0;
        self.env_initial = ((value >> 12) & 0xF) as u8;
        self.dac_on = value & 0xF800 != 0;
        if !self.dac_on {
            self.enabled = false;
        }
    }

    fn write_cnt_x(&mut self, value: u16)
        requires
            square_wf(*old(self)),
        ensures
            *final(self) == square_write_cnt_x(*old(self), value),
            square_wf(*final(self)),
    {
        assert(value & 0x7FF <= 2047) by {
            crate::bits::lemma_bit_facts();
        }
        self.freq = value & 0x7FF;
        self.length_enabled = value & 0x4000 != 0;
        if value & 0x8000 != 0 {
            self.trigger();
        }
    }
}

// ---------------------------------------------------------------------------
// Wave channel (3)
// ---------------------------------------------------------------------------

/// The wave channel: 32 4-bit samples played from wave RAM (which the
/// [`Apu`] holds, 16 bytes).
#[derive(Clone, Copy)]
pub struct Wave {
    pub freq: u16,
    pub length_load: u8,
    pub length_enabled: bool,
    /// 0 = mute, 1 = 100%, 2 = 50%, 3 = 25%.
    pub volume_shift: u8,
    pub dac_on: bool,
    pub enabled: bool,
    pub timer: i32,
    pub position: usize,
    pub length: u16,
}

pub open spec fn wave_wf(w: Wave) -> bool {
    &&& w.freq <= 2047
    &&& w.volume_shift <= 3
    &&& 0 <= w.timer <= TIMER_MAX
    &&& w.position <= 31
    &&& w.length <= 256
}

pub open spec fn wave_initial() -> Wave {
    Wave {
        freq: 0,
        length_load: 0,
        length_enabled: false,
        volume_shift: 0,
        dac_on: false,
        enabled: false,
        timer: 0,
        position: 0,
        length: 0,
    }
}

/// Cycles per sample step: (2048 - freq) * 8.
pub open spec fn wave_period(w: Wave) -> int {
    (2048 - w.freq) * 8
}

pub open spec fn wave_ticked(w: Wave, cycles: int) -> Wave {
    if !w.enabled {
        w
    } else {
        let t = w.timer - cycles;
        let p = at_least_one(wave_period(w));
        let k = periods_elapsed(t, p);
        Wave { timer: (t + k * p) as i32, position: ((w.position + k) % 32) as usize, ..w }
    }
}

pub open spec fn wave_triggered(w: Wave) -> Wave {
    Wave {
        enabled: w.dac_on,
        timer: wave_period(w) as i32,
        length: if w.length == 0 { 256 } else { w.length },
        position: 0,
        ..w
    }
}

pub open spec fn wave_length_clocked(w: Wave) -> Wave {
    if w.length_enabled && w.length > 0 {
        let l = (w.length - 1) as u16;
        Wave { length: l, enabled: if l == 0 { false } else { w.enabled }, ..w }
    } else {
        w
    }
}

/// The current output level: the 4-bit sample at the play position (high
/// nibble first), shifted down by the volume setting.
pub open spec fn wave_output(w: Wave, ram: Seq<u8>) -> u8 {
    if !w.enabled || !w.dac_on || w.volume_shift == 0 {
        0
    } else {
        let byte = ram[(w.position / 2) as int];
        let sample = if w.position % 2 == 0 { byte >> 4u8 } else { byte & 0xF };
        sample >> ((w.volume_shift - 1) as u8)
    }
}

/// The wave channel's volume code scales its output: at 100% (code 1) it
/// plays the current 4-bit sample (the high nibble of its wave-RAM byte at
/// an even position, the low one at an odd position); 50% (code 2) is that
/// level halved, 25% (code 3) quartered, and code 0 is silence. A silent
/// or disabled channel outputs 0 whatever the code.
pub proof fn lemma_wave_volume_scales(w: Wave, ram: Seq<u8>)
    requires
        wave_wf(w),
        ram.len() == 16,
    ensures
        ({
            let full = wave_output(Wave { volume_shift: 1, ..w }, ram);
            let byte = ram[(w.position / 2) as int];
            &&& w.enabled && w.dac_on && w.position % 2 == 0 ==> full == byte >> 4u8
            &&& w.enabled && w.dac_on && w.position % 2 == 1 ==> full == byte & 0xF
            &&& wave_output(Wave { volume_shift: 2, ..w }, ram) == full >> 1u8
            &&& wave_output(Wave { volume_shift: 3, ..w }, ram) == full >> 2u8
            &&& wave_output(Wave { volume_shift: 0, ..w }, ram) == 0
            &&& !(w.enabled && w.dac_on) ==> wave_output(w, ram) == 0
            &&& full <= 15
        }),
{
    crate::bits::lemma_bit_identities();
    let byte = ram[(w.position / 2) as int];
    assert(byte >> 4u8 <= 15 && byte & 0xF <= 15 && 0u8 >> 1u8 == 0 && 0u8 >> 2u8 == 0)
        by (bit_vector);
    let sample = if w.position % 2 == 0 { byte >> 4u8 } else { byte & 0xF };
    assert(sample >> 0u8 == sample);
}

impl Wave {
    fn new() -> (r: Wave)
        ensures
            r == wave_initial(),
    {
        Wave {
            freq: 0,
            length_load: 0,
            length_enabled: false,
            volume_shift: 0,
            dac_on: false,
            enabled: false,
            timer: 0,
            position: 0,
            length: 0,
        }
    }

    fn period(&self) -> (r: i32)
        requires
            wave_wf(*self),
        ensures
            r == wave_period(*self),
            8 <= r <= 16384,
    {
        (2048 - self.freq as i32) * 8
    }

    fn tick(&mut self, cycles: i32)
        requires
            wave_wf(*old(self)),
            0 <= cycles <= CYCLES_PER_SAMPLE,
        ensures
            *final(self) == wave_ticked(*old(self), cycles as int),
            wave_wf(*final(self)),
    {
        if !self.enabled {
            return ;
        }
        let p0 = self.period();
        let p = if p0 < 1 { 1 } else { p0 };
        self.timer = self.timer - cycles;
        let ghost w1 = *self;
        let ghost t0 = self.timer as int;
        let ghost k = periods_elapsed(t0, p as int);
        let ghost mut j: int = 0;
        proof {
            lemma_periods_elapsed(t0, p as int, 0);
        }
        while self.timer <= 0
            invariant
                1 <= p <= 16384,
                t0 >= -512,
                k == periods_elapsed(t0, p as int),
                0 <= j <= k,
                self.timer == t0 + j * p,
                self.position == (w1.position + j) % 32,
                *self == (Wave { timer: self.timer, position: self.position, ..w1 }),
            decreases k - j,
        {
            proof {
                lemma_periods_elapsed(t0, p as int, j);
                lemma_periods_elapsed(t0, p as int, j + 1);
                vstd::arithmetic::div_mod::lemma_add_mod_noop(w1.position + j, 1, 32);
            }
            self.timer = self.timer + p;
            self.position = (self.position + 1) % 32;
            proof {
                j = j + 1;
                assert(self.timer == t0 + j * p) by (nonlinear_arith)
                    requires
                        self.timer == t0 + (j - 1) * p + p,
                ;
            }
        }
        proof {
            lemma_periods_elapsed(t0, p as int, j);
        }
    }

    fn trigger(&mut self)
        requires
            wave_wf(*old(self)),
        ensures
            *final(self) == wave_triggered(*old(self)),
            wave_wf(*final(self)),
    {
        self.enabled = self.dac_on;
        self.timer = self.period();
        if self.length == 0 {
            self.length = 256;
        }
        self.position = 0;
    }

    fn clock_length(&mut self)
        requires
            wave_wf(*old(self)),
        ensures
            *final(self) == wave_length_clocked(*old(self)),
            wave_wf(*final(self)),
    {
        if self.length_enabled && self.length > 0 {
            self.length = self.length - 1;
            if self.length == 0 {
                self.enabled = false;
            }
        }
    }

    fn output(&self, ram: &[u8; 16]) -> (r: u8)
        requires
            wave_wf(*self),
        ensures
            r == wave_output(*self, ram@),
            r <= 15,
    {
        if !self.enabled || !self.dac_on || self.volume_shift == 0 {
            return 0;
        }
        let byte = ram[self.position / 2];
        let sample = if self.position % 2 == 0 {
            byte >> 4u8
        } else {
            byte & 0xF
        };
        assert(byte >> 4u8 <= 15 && byte & 0xF <= 15) by {
            crate::bits::lemma_bit_facts();
        }
        let sh = self.volume_shift - 1;
        assert(sample <= 15 && sh <= 2 ==> sample >> sh <= 15) by {
            crate::bits::lemma_bit_facts();
        }
        sample >> sh
    }
}

// ---------------------------------------------------------------------------
// Noise channel (4)
// ---------------------------------------------------------------------------

/// The noise channel: output driven by a 15-bit (or 7-bit) LFSR.
#[derive(Clone, Copy)]
pub struct Noise {
    pub length_load: u8,
    pub length_enabled: bool,
    pub env_initial: u8,
    pub env_add: bool,
    pub env_period: u8,
    pub divisor_code: u8,
    pub width_7bit: bool,
    pub shift: u8,
    pub dac_on: bool,
    pub enabled: bool,
    pub timer: i32,
    pub lfsr: u16,
    pub length: u16,
    pub volume: u8,
    pub env_timer: u8,
}

pub open spec fn noise_wf(n: Noise) -> bool {
    &&& n.length_load <= 63
    &&& n.env_initial <= 15
    &&& n.env_period <= 7
    &&& n.divisor_code <= 7
    &&& n.shift <= 15
    &&& 0 <= n.timer <= TIMER_MAX
    &&& n.length <= 64
    &&& n.volume <= 15
    &&& n.env_timer <= 7
}

pub open spec fn noise_initial() -> Noise {
    Noise {
        length_load: 0,
        length_enabled: false,
        env_initial: 0,
        env_add: false,
        env_period: 0,
        divisor_code: 0,
        width_7bit: false,
        shift: 0,
        dac_on: false,
        enabled: false,
        timer: 0,
        lfsr: 0,
        length: 0,
        volume: 0,
        env_timer: 0,
    }
}

/// Cycles per LFSR step: divisor (8, or 16 × code) × 2^(shift + 1) × 2.
pub open spec fn noise_period(n: Noise) -> int {
    let divisor: int = if n.divisor_code == 0 { 8 } else { n.divisor_code * 16 };
    divisor * ((1u32 << ((n.shift + 1) as u32)) as int) * 2
}

/// One LFSR step: shift right, feeding bit0 XOR bit1 into bit 14 (and into
/// bit 6 in 7-bit mode).
pub open spec fn lfsr_step(l: u16, width_7bit: bool) -> u16 {
    let b = (l ^ (l >> 1u16)) & 1;
    let l1 = (l >> 1u16) | (b << 14u16);
    if width_7bit {
        (l1 & !(1u16 << 6u16)) | (b << 6u16)
    } else {
        l1
    }
}

/// The LFSR after `k` steps.
pub open spec fn lfsr_after(l: u16, width_7bit: bool, k: nat) -> u16
    decreases k,
{
    if k == 0 {
        l
    } else {
        lfsr_step(lfsr_after(l, width_7bit, (k - 1) as nat), width_7bit)
    }
}

/// The channel after `cycles` cycles (shift settings 14 and 15 stop it).
pub open spec fn noise_ticked(n: Noise, cycles: int) -> Noise {
    if !n.enabled || n.shift >= 14 {
        n
    } else {
        let t = n.timer - cycles;
        let p = at_least_one(noise_period(n));
        let k = periods_elapsed(t, p);
        Noise { timer: (t + k * p) as i32, lfsr: lfsr_after(n.lfsr, n.width_7bit, k as nat), ..n }
    }
}

pub open spec fn noise_triggered(n: Noise) -> Noise {
    Noise {
        enabled: n.dac_on,
        timer: noise_period(n) as i32,
        length: if n.length == 0 { 64 } else { n.length },
        volume: n.env_initial,
        env_timer: n.env_period,
        lfsr: 0x7FFF,
        ..n
    }
}

pub open spec fn noise_length_clocked(n: Noise) -> Noise {
    if n.length_enabled && n.length > 0 {
        let l = (n.length - 1) as u16;
        Noise { length: l, enabled: if l == 0 { false } else { n.enabled }, ..n }
    } else {
        n
    }
}

pub open spec fn noise_envelope_clocked(n: Noise) -> Noise {
    if n.env_period == 0 {
        n
    } else {
        let et = if n.env_timer > 0 { (n.env_timer - 1) as u8 } else { 0u8 };
        if et == 0 {
            Noise { env_timer: n.env_period, volume: envelope_step(n.env_add, n.volume), ..n }
        } else {
            Noise { env_timer: et, ..n }
        }
    }
}

/// High (at the envelope volume) while the LFSR's low bit is 0.
pub open spec fn noise_output(n: Noise) -> u8 {
    if !n.enabled || !n.dac_on {
        0
    } else if n.lfsr & 1 == 0 {
        n.volume
    } else {
        0
    }
}

/// NR42 (envelope) as read back.
pub open spec fn noise_cnt_l(n: Noise) -> u16 {
    (n.env_period as u16) | (bit16(n.env_add) << 3u16) | ((n.env_initial as u16) << 4u16)
}

/// Writing NR41/NR42: length load, envelope and DAC power.
pub open spec fn noise_write_cnt_l(n: Noise, value: u16) -> Noise {
    let dac_on = value & 0xF800 != 0;
    Noise {
        length_load: (value & 0x3F) as u8,
        length: (64 - (value & 0x3F)) as u16,
        env_period: ((value >> 8) & 0x7) as u8,
        env_add: value & 0x800 != 0,
        env_initial: ((value >> 12) & 0xF) as u8,
        dac_on,
        enabled: if dac_on { n.enabled } else { false },
        ..n
    }
}

/// Writing NR43/NR44: divisor, width, shift, length enable, trigger.
pub open spec fn noise_write_cnt_h(n: Noise, value: u16) -> Noise {
    let n1 = Noise {
        divisor_code: (value & 0x7) as u8,
        width_7bit: value & 0x8 != 0,
        shift: ((value >> 4) & 0xF) as u8,
        length_enabled: value & 0x4000 != 0,
        ..n
    };
    if value & 0x8000 != 0 {
        noise_triggered(n1)
    } else {
        n1
    }
}

impl Noise {
    fn new() -> (r: Noise)
        ensures
            r == noise_initial(),
    {
        Noise {
            length_load: 0,
            length_enabled: false,
            env_initial: 0,
            env_add: false,
            env_period: 0,
            divisor_code: 0,
            width_7bit: false,
            shift: 0,
            dac_on: false,
            enabled: false,
            timer: 0,
            lfsr: 0,
            length: 0,
            volume: 0,
            env_timer: 0,
        }
    }

    fn period(&self) -> (r: i32)
        requires
            noise_wf(*self),
        ensures
            r == noise_period(*self),
            1 <= r <= 14_680_064,
            self.shift < 14 ==> r <= 3_670_016,
    {
        let divisor: i32 = if self.divisor_code == 0 {
            8
        } else {
            self.divisor_code as i32 * 16
        };
        let s = (self.shift + 1) as u32;
        assert(1 <= s <= 16 ==> 2 <= (1u32 << s) <= 65536) by {
            crate::bits::lemma_bit_facts();
        }
        assert(s <= 14 ==> (1u32 << s) <= 16384) by {
            crate::bits::lemma_bit_facts();
        }
        let m = (1u32 << s) as i32;
        assert(divisor * m * 2 <= 112 * 65536 * 2) by (nonlinear_arith)
            requires
                1 <= divisor <= 112,
                2 <= m <= 65536,
        ;
        assert(s <= 14 ==> divisor * m * 2 <= 112 * 16384 * 2) by (nonlinear_arith)
            requires
                1 <= divisor <= 112,
                s <= 14 ==> 2 <= m <= 16384,
        ;
        assert(divisor * m * 2 >= 1) by (nonlinear_arith)
            requires
                1 <= divisor,
                1 <= m,
        ;
        divisor * m * 2
    }

    fn tick(&mut self, cycles: i32)
        requires
            noise_wf(*old(self)),
            0 <= cycles <= CYCLES_PER_SAMPLE,
        ensures
            *final(self) == noise_ticked(*old(self), cycles as int),
            noise_wf(*final(self)),
    {
        if !self.enabled || self.shift >= 14 {
            return ;
        }
        let p0 = self.period();
        let p = if p0 < 1 { 1 } else { p0 };
        self.timer = self.timer - cycles;
        let ghost n1 = *self;
        let ghost t0 = self.timer as int;
        let ghost k = periods_elapsed(t0, p as int);
        let ghost mut j: int = 0;
        proof {
            lemma_periods_elapsed(t0, p as int, 0);
        }
        while self.timer <= 0
            invariant
                1 <= p <= 3_670_016,
                t0 >= -512,
                k == periods_elapsed(t0, p as int),
                0 <= j <= k,
                self.timer == t0 + j * p,
                self.lfsr == lfsr_after(n1.lfsr, n1.width_7bit, j as nat),
                *self == (Noise { timer: self.timer, lfsr: self.lfsr, ..n1 }),
            decreases k - j,
        {
            proof {
                lemma_periods_elapsed(t0, p as int, j);
                lemma_periods_elapsed(t0, p as int, j + 1);
            }
            self.timer = self.timer + p;
            let l = self.lfsr;
            let b = (l ^ (l >> 1u16)) & 1;
            let mut l1 = (l >> 1u16) | (b << 14u16);
            if self.width_7bit {
                l1 = (l1 & !(1u16 << 6u16)) | (b << 6u16);
            }
            self.lfsr = l1;
            proof {
                j = j + 1;
                assert(self.timer == t0 + j * p) by (nonlinear_arith)
                    requires
                        self.timer == t0 + (j - 1) * p + p,
                ;
            }
        }
        proof {
            lemma_periods_elapsed(t0, p as int, j);
        }
    }

    fn trigger(&mut self)
        requires
            noise_wf(*old(self)),
        ensures
            *final(self) == noise_triggered(*old(self)),
            noise_wf(*final(self)),
    {
        self.enabled = self.dac_on;
        self.timer = self.period();
        if self.length == 0 {
            self.length = 64;
        }
        self.volume = self.env_initial;
        self.env_timer = self.env_period;
        self.lfsr = 0x7FFF;
    }

    fn clock_length(&mut self)
        requires
            noise_wf(*old(self)),
        ensures
            *final(self) == noise_length_clocked(*old(self)),
            noise_wf(*final(self)),
    {
        if self.length_enabled && self.length > 0 {
            self.length = self.length - 1;
            if self.length == 0 {
                self.enabled = false;
            }
        }
    }

    fn clock_envelope(&mut self)
        requires
            noise_wf(*old(self)),
        ensures
            *final(self) == noise_envelope_clocked(*old(self)),
            noise_wf(*final(self)),
    {
        if self.env_period == 0 {
            return ;
        }
        if self.env_timer > 0 {
            self.env_timer = self.env_timer - 1;
        }
        if self.env_timer == 0 {
            self.env_timer = self.env_period;
            if self.env_add && self.volume < 15 {
                self.volume = self.volume + 1;
            } else if !self.env_add && self.volume > 0 {
                self.volume = self.volume - 1;
            }
        }
    }

    fn output(&self) -> (r: u8)
        requires
            noise_wf(*self),
        ensures
            r == noise_output(*self),
            r <= 15,
    {
        if !self.enabled || !self.dac_on {
            return 0;
        }
        if self.lfsr & 1 == 0 {
            self.volume
        } else {
            0
        }
    }

    fn cnt_l(&self) -> (r: u16)
        ensures
            r == noise_cnt_l(*self),
    {
        (self.env_period as u16) | (bit(self.env_add) << 3u16) | ((self.env_initial as u16) << 4u16)
    }

    fn write_cnt_l(&mut self, value: u16)
        requires
            noise_wf(*old(self)),
        ensures
            *final(self) == noise_write_cnt_l(*old(self), value),
            noise_wf(*final(self)),
    {
        assert(value & 0x3F <= 63 && (value >> 8) & 7 <= 7 && (value >> 12) & 0xF <= 15)
            by (bit_vector);
        self.length_load = (value & 0x3F) as u8;
        self.length = 64 - (value & 0x3F);
        self.env_period = ((value >> 8) & 0x7) as u8;
        self.env_add = value & 0x800 != 0;
        self.env_initial = ((value >> 12) & 0xF) as u8;
        self.dac_on = value & 0xF800 != 0;
        if !self.dac_on {
            self.enabled = false;
        }
    }

    fn write_cnt_h(&mut self, value: u16)
        requires
            noise_wf(*old(self)),
        ensures
            *final(self) == noise_write_cnt_h(*old(self), value),
            noise_wf(*final(self)),
    {
        assert(value & 7 <= 7 && (value >> 4) & 0xF <= 15) by {
            crate::bits::lemma_bit_facts();
        }
        self.divisor_code = (value & 0x7) as u8;
        self.width_7bit = value & 0x8 != 0;
        self.shift = ((value >> 4) & 0xF) as u8;
        self.length_enabled = value & 0x4000 != 0;
        if value & 0x8000 != 0 {
            self.trigger();
        }
    }
}

// ---------------------------------------------------------------------------
// The APU: channels, Direct Sound, mixing, registers
// ---------------------------------------------------------------------------

pub struct Apu {
    ch1: Square,
    ch2: Square,
    ch3: Wave,
    /// Wave RAM: 32 4-bit samples, high nibble first.
    wave_ram: [u8; 16],
    ch4: Noise,
    /// SOUNDCNT_L: per-channel L/R enables and master volumes.
    cnt_l: u16,
    /// SOUNDCNT_H: PSG/Direct-Sound mixing.
    cnt_h: u16,
    /// SOUNDCNT_X bit 7: master enable.
    master_enable: bool,
    soundbias: u16,
    frame_seq_step: u8,
    frame_seq_timer: u32,
    sample_timer: u32,
    /// Interleaved stereo samples (L, R).
    buffer: Vec<i16>,
    /// Direct Sound FIFOs (up to 32 samples each) and their current outputs.
    fifo_a: VecDeque<i8>,
    fifo_b: VecDeque<i8>,
    dsa_out: i8,
    dsb_out: i8,
}

/// The abstract APU state.
pub ghost struct ApuView {
    pub ch1: Square,
    pub ch2: Square,
    pub ch3: Wave,
    pub wave_ram: Seq<u8>,
    pub ch4: Noise,
    pub cnt_l: u16,
    pub cnt_h: u16,
    pub master_enable: bool,
    pub soundbias: u16,
    pub frame_seq_step: u8,
    pub frame_seq_timer: u32,
    pub sample_timer: u32,
    pub buffer: Seq<i16>,
    pub fifo_a: Seq<i8>,
    pub fifo_b: Seq<i8>,
    pub dsa_out: i8,
    pub dsb_out: i8,
}

impl View for Apu {
    type V = ApuView;

    closed spec fn view(&self) -> ApuView {
        ApuView {
            ch1: self.ch1,
            ch2: self.ch2,
            ch3: self.ch3,
            wave_ram: self.wave_ram@,
            ch4: self.ch4,
            cnt_l: self.cnt_l,
            cnt_h: self.cnt_h,
            master_enable: self.master_enable,
            soundbias: self.soundbias,
            frame_seq_step: self.frame_seq_step,
            frame_seq_timer: self.frame_seq_timer,
            sample_timer: self.sample_timer,
            buffer: self.buffer@,
            fifo_a: self.fifo_a@,
            fifo_b: self.fifo_b@,
            dsa_out: self.dsa_out,
            dsb_out: self.dsb_out,
        }
    }
}

/// The APU's invariant: every channel in range, channel 1 (only) with a
/// sweep unit, the sequencer and sample timers inside their periods, and no
/// FIFO beyond its capacity.
pub open spec fn apu_wf(a: ApuView) -> bool {
    &&& square_wf(a.ch1)
    &&& a.ch1.has_sweep
    &&& square_wf(a.ch2)
    &&& !a.ch2.has_sweep
    &&& wave_wf(a.ch3)
    &&& a.wave_ram.len() == 16
    &&& noise_wf(a.ch4)
    &&& a.frame_seq_step <= 7
    &&& 1 <= a.frame_seq_timer <= FRAME_SEQ_PERIOD
    &&& 1 <= a.sample_timer <= CYCLES_PER_SAMPLE
    &&& a.fifo_a.len() <= FIFO_CAPACITY
    &&& a.fifo_b.len() <= FIFO_CAPACITY
}

/// The power-on state: everything silent, SOUNDBIAS at its default 0x200.
pub open spec fn apu_initial() -> ApuView {
    ApuView {
        ch1: square_initial(true),
        ch2: square_initial(false),
        ch3: wave_initial(),
        wave_ram: Seq::new(16, |i: int| 0u8),
        ch4: noise_initial(),
        cnt_l: 0,
        cnt_h: 0,
        master_enable: false,
        soundbias: 0x200,
        frame_seq_step: 0,
        frame_seq_timer: FRAME_SEQ_PERIOD,
        sample_timer: CYCLES_PER_SAMPLE,
        buffer: Seq::empty(),
        fifo_a: Seq::empty(),
        fifo_b: Seq::empty(),
        dsa_out: 0,
        dsb_out: 0,
    }
}

/// The next sample of a FIFO and the FIFO after it (an empty FIFO plays 0).
pub open spec fn fifo_popped(f: Seq<i8>) -> (i8, Seq<i8>) {
    if f.len() == 0 {
        (0, f)
    } else {
        (f[0], f.drop_first())
    }
}

/// A timer overflow: each Direct Sound channel bound to that timer (A by
/// SOUNDCNT_H bit 10, B by bit 14) plays the next sample of its FIFO.
pub open spec fn timer_overflowed(a: ApuView, timer: u8) -> ApuView {
    let a1 = if timer as u16 == (a.cnt_h >> 10u16) & 1 {
        ApuView { dsa_out: fifo_popped(a.fifo_a).0, fifo_a: fifo_popped(a.fifo_a).1, ..a }
    } else {
        a
    };
    if timer as u16 == (a1.cnt_h >> 14u16) & 1 {
        ApuView { dsb_out: fifo_popped(a1.fifo_b).0, fifo_b: fifo_popped(a1.fifo_b).1, ..a1 }
    } else {
        a1
    }
}

/// A halfword written to a FIFO: its low byte, then its high byte, each as
/// a signed sample, each dropped if the FIFO is already full.
pub open spec fn fifo_pushed(f: Seq<i8>, value: u16) -> Seq<i8> {
    let f1 = if f.len() < FIFO_CAPACITY {
        f.push((value as u8) as i8)
    } else {
        f
    };
    if f1.len() < FIFO_CAPACITY {
        f1.push(((value >> 8u16) as u8) as i8)
    } else {
        f1
    }
}

/// The channels after `cycles` cycles (they only run with the master enable on).
pub open spec fn channels_ticked(a: ApuView, cycles: int) -> ApuView {
    if a.master_enable {
        ApuView {
            ch1: square_ticked(a.ch1, cycles),
            ch2: square_ticked(a.ch2, cycles),
            ch3: wave_ticked(a.ch3, cycles),
            ch4: noise_ticked(a.ch4, cycles),
            ..a
        }
    } else {
        a
    }
}

/// One frame-sequencer step: steps 0, 2, 4, 6 clock the length counters;
/// 2 and 6 the sweep; 7 the envelopes.
pub open spec fn frame_sequenced(a: ApuView) -> ApuView {
    let st = a.frame_seq_step;
    let len = st % 2 == 0;
    let c1 = if len { square_length_clocked(a.ch1) } else { a.ch1 };
    let c2 = if len { square_length_clocked(a.ch2) } else { a.ch2 };
    let c3 = if len { wave_length_clocked(a.ch3) } else { a.ch3 };
    let c4 = if len { noise_length_clocked(a.ch4) } else { a.ch4 };
    let c1 = if st == 2 || st == 6 { square_sweep_clocked(c1) } else { c1 };
    let env = st == 7;
    ApuView {
        ch1: if env { square_envelope_clocked(c1) } else { c1 },
        ch2: if env { square_envelope_clocked(c2) } else { c2 },
        ch3: c3,
        ch4: if env { noise_envelope_clocked(c4) } else { c4 },
        frame_seq_step: ((st + 1) % 8) as u8,
        ..a
    }
}

/// The PSG master volume selected by SOUNDCNT_H bits 0–1 (25%, 50%, 100%).
pub open spec fn psg_volume(cnt_h: u16) -> int {
    if cnt_h & 3 == 0 {
        1
    } else if cnt_h & 3 == 1 {
        2
    } else {
        4
    }
}

/// The sum of the PSG outputs routed to one side; `m1`..`m4` are that
/// side's SOUNDCNT_L enable bits for channels 1–4.
pub open spec fn psg_side(a: ApuView, m1: u16, m2: u16, m3: u16, m4: u16) -> int {
    (if a.cnt_l & m1 != 0 { square_output(a.ch1) as int } else { 0 }) + (if a.cnt_l & m2 != 0 {
        square_output(a.ch2) as int
    } else {
        0
    }) + (if a.cnt_l & m3 != 0 { wave_output(a.ch3, a.wave_ram) as int } else { 0 }) + (if a.cnt_l
        & m4 != 0 {
        noise_output(a.ch4) as int
    } else {
        0
    })
}

/// A Direct Sound sample at 50% or (with `full`) 100% volume.
pub open spec fn dsound_level(out: i8, full: bool) -> int {
    out * (if full { 4int } else { 2int }) * 8
}

/// The left sample before clamping: PSG (bits 12–15 of SOUNDCNT_L, master
/// volume bits 4–6) plus Direct Sound A/B if routed left (bits 9 / 13).
pub open spec fn mix_left(a: ApuView) -> int {
    let dsa = dsound_level(a.dsa_out, a.cnt_h & 4 != 0);
    let dsb = dsound_level(a.dsb_out, a.cnt_h & 8 != 0);
    psg_side(a, 0x1000, 0x2000, 0x4000, 0x8000) * psg_volume(a.cnt_h) * (((a.cnt_l >> 4u16) & 7)
        + 1) * 8 + (if a.cnt_h & 0x200 != 0 { dsa } else { 0 }) + (if a.cnt_h & 0x2000 != 0 {
        dsb
    } else {
        0
    })
}

/// The right sample before clamping: PSG (bits 8–11, master volume bits
/// 0–2) plus Direct Sound A/B if routed right (bits 8 / 12).
pub open spec fn mix_right(a: ApuView) -> int {
    let dsa = dsound_level(a.dsa_out, a.cnt_h & 4 != 0);
    let dsb = dsound_level(a.dsb_out, a.cnt_h & 8 != 0);
    psg_side(a, 0x100, 0x200, 0x400, 0x800) * psg_volume(a.cnt_h) * ((a.cnt_l & 7) + 1) * 8 + (
    if a.cnt_h & 0x100 != 0 {
        dsa
    } else {
        0
    }) + (if a.cnt_h & 0x1000 != 0 { dsb } else { 0 })
}

pub open spec fn clamp16(x: int) -> i16 {
    if x < -32768 {
        -32768i16
    } else if x > 32767 {
        32767i16
    } else {
        x as i16
    }
}

/// The stereo sample the mixer produces now (silence with the master enable
/// off).
pub open spec fn mix_pair(a: ApuView) -> (i16, i16) {
    if !a.master_enable {
        (0, 0)
    } else {
        (clamp16(mix_left(a)), clamp16(mix_right(a)))
    }
}

/// The state after the mixer appends one stereo sample.
pub open spec fn mixed(a: ApuView) -> ApuView {
    ApuView { buffer: a.buffer.push(mix_pair(a).0).push(mix_pair(a).1), ..a }
}

/// One chunk of `step` cycles, no longer than the time to the next output
/// sample: channels run, the frame sequencer fires if its period elapsed,
/// and a sample is mixed if the sample timer expired.
pub open spec fn apu_chunk(a: ApuView, step: int) -> ApuView {
    let a1 = channels_ticked(a, step);
    let a2 = if step >= a1.frame_seq_timer {
        let over = step - a1.frame_seq_timer;
        frame_sequenced(
            ApuView {
                frame_seq_timer: (FRAME_SEQ_PERIOD - over % (FRAME_SEQ_PERIOD as int)) as u32,
                ..a1
            },
        )
    } else {
        ApuView { frame_seq_timer: (a1.frame_seq_timer - step) as u32, ..a1 }
    };
    let st = a2.sample_timer - step;
    if st == 0 {
        mixed(ApuView { sample_timer: CYCLES_PER_SAMPLE, ..a2 })
    } else {
        ApuView { sample_timer: st as u32, ..a2 }
    }
}

/// The state after `n` cycles, processed in chunks that end at each output
/// sample.
pub open spec fn apu_run(a: ApuView, n: nat) -> ApuView
    decreases n,
{
    if n == 0 || a.sample_timer == 0 {
        a
    } else {
        let step: nat = if n < a.sample_timer { n } else { a.sample_timer as nat };
        apu_run(apu_chunk(a, step as int), (n - step) as nat)
    }
}

/// SOUNDCNT_X as read: the master enable and the four channels' on bits.
pub open spec fn sound_status(a: ApuView) -> u16 {
    (bit16(a.master_enable) << 7u16) | bit16(a.ch1.enabled) | (bit16(a.ch2.enabled) << 1u16) | (
    bit16(a.ch3.enabled) << 2u16) | (bit16(a.ch4.enabled) << 3u16)
}

/// What a halfword read of sound register `offset` (0x60..0xA8) returns.
pub open spec fn apu_read16(a: ApuView, offset: u32) -> u16 {
    if offset == 0x60 {
        (a.ch1.sweep_shift as u16) | (bit16(a.ch1.sweep_negate) << 3u16) | ((
        a.ch1.sweep_period as u16) << 4u16)
    } else if offset == 0x62 {
        square_cnt_h(a.ch1)
    } else if offset == 0x68 {
        square_cnt_h(a.ch2)
    } else if offset == 0x70 {
        bit16(a.ch3.dac_on) << 7u16
    } else if offset == 0x72 {
        (a.ch3.volume_shift as u16) << 13u16
    } else if offset == 0x7C {
        noise_cnt_l(a.ch4)
    } else if offset == 0x80 {
        a.cnt_l
    } else if offset == 0x82 {
        a.cnt_h
    } else if offset == 0x84 {
        sound_status(a)
    } else if offset == 0x88 {
        a.soundbias
    } else if 0x90 <= offset <= 0x9F {
        let i = offset - 0x90;
        (a.wave_ram[i] as u16) | ((a.wave_ram[i + 1] as u16) << 8u16)
    } else {
        0
    }
}

/// All four PSG channels switched off.
pub open spec fn silenced(a: ApuView) -> ApuView {
    ApuView {
        ch1: Square { enabled: false, ..a.ch1 },
        ch2: Square { enabled: false, ..a.ch2 },
        ch3: Wave { enabled: false, ..a.ch3 },
        ch4: Noise { enabled: false, ..a.ch4 },
        ..a
    }
}

/// The state after a halfword write of `value` to sound register `offset`.
pub open spec fn apu_write16(a: ApuView, offset: u32, value: u16) -> ApuView {
    if offset == 0x60 {
        ApuView {
            ch1: Square {
                sweep_shift: (value & 0x7) as u8,
                sweep_negate: value & 0x8 != 0,
                sweep_period: ((value >> 4u16) & 0x7) as u8,
                ..a.ch1
            },
            ..a
        }
    } else if offset == 0x62 {
        ApuView { ch1: square_write_cnt_h(a.ch1, value), ..a }
    } else if offset == 0x64 {
        ApuView { ch1: square_write_cnt_x(a.ch1, value), ..a }
    } else if offset == 0x68 {
        ApuView { ch2: square_write_cnt_h(a.ch2, value), ..a }
    } else if offset == 0x6C {
        ApuView { ch2: square_write_cnt_x(a.ch2, value), ..a }
    } else if offset == 0x70 {
        let dac_on = value & 0x80 != 0;
        ApuView {
            ch3: Wave { dac_on, enabled: if dac_on { a.ch3.enabled } else { false }, ..a.ch3 },
            ..a
        }
    } else if offset == 0x72 {
        ApuView {
            ch3: Wave {
                length_load: value as u8,
                length: (256 - (value as u8)) as u16,
                volume_shift: ((value >> 13u16) & 0x3) as u8,
                ..a.ch3
            },
            ..a
        }
    } else if offset == 0x74 {
        let w = Wave { freq: value & 0x7FF, length_enabled: value & 0x4000 != 0, ..a.ch3 };
        ApuView { ch3: if value & 0x8000 != 0 { wave_triggered(w) } else { w }, ..a }
    } else if offset == 0x78 {
        ApuView { ch4: noise_write_cnt_l(a.ch4, value), ..a }
    } else if offset == 0x7C {
        ApuView { ch4: noise_write_cnt_h(a.ch4, value), ..a }
    } else if offset == 0x80 {
        ApuView { cnt_l: value, ..a }
    } else if offset == 0x82 {
        let a1 = ApuView { cnt_h: value, ..a };
        let a2 = if value & 0x800 != 0 {
            ApuView { fifo_a: Seq::empty(), dsa_out: 0, ..a1 }
        } else {
            a1
        };
        if value & 0x8000 != 0 {
            ApuView { fifo_b: Seq::empty(), dsb_out: 0, ..a2 }
        } else {
            a2
        }
    } else if offset == 0xA0 || offset == 0xA2 {
        ApuView { fifo_a: fifo_pushed(a.fifo_a, value), ..a }
    } else if offset == 0xA4 || offset == 0xA6 {
        ApuView { fifo_b: fifo_pushed(a.fifo_b, value), ..a }
    } else if offset == 0x84 {
        let a1 = ApuView { master_enable: value & 0x80 != 0, ..a };
        if value & 0x80 == 0 {
            silenced(a1)
        } else {
            a1
        }
    } else if offset == 0x88 {
        ApuView { soundbias: value, ..a }
    } else if 0x90 <= offset <= 0x9F {
        let i = offset - 0x90;
        ApuView {
            wave_ram: a.wave_ram.update(i, value as u8).update(i + 1, (value >> 8u16) as u8),
            ..a
        }
    } else {
        a
    }
}

/// The state after a byte write: wave RAM takes single bytes; every other
/// register is read, merged with the byte and written back as a halfword.
pub open spec fn apu_write8(a: ApuView, offset: u32, value: u8) -> ApuView {
    if 0x90 <= offset < 0xA0 {
        ApuView { wave_ram: a.wave_ram.update(offset - 0x90, value), ..a }
    } else {
        apu_write16(a, offset & !1u32, merge_byte(apu_read16(a, offset & !1u32), offset, value))
    }
}

/// The halfword offsets that a wave-RAM access cannot start at: 0x9F would
/// run past the 16 bytes of wave RAM.
pub open spec fn apu_offset_ok(offset: u32) -> bool {
    offset != 0x9F
}

/// Push a halfword's two bytes onto a Direct Sound FIFO (as signed samples),
/// dropping them if the 32-sample FIFO is already full.
fn push_fifo(fifo: &mut VecDeque<i8>, value: u16)
    requires
        old(fifo)@.len() <= FIFO_CAPACITY,
    ensures
        final(fifo)@ == fifo_pushed(old(fifo)@, value),
        final(fifo)@.len() <= FIFO_CAPACITY,
{
    if fifo.len() < FIFO_CAPACITY {
        fifo.push_back((value as u8) as i8);
    }
    if fifo.len() < FIFO_CAPACITY {
        fifo.push_back(((value >> 8u16) as u8) as i8);
    }
}

/// Take the next sample of a FIFO (0 when it is empty).
fn pop_fifo(fifo: &mut VecDeque<i8>) -> (r: i8)
    ensures
        r == fifo_popped(old(fifo)@).0,
        final(fifo)@ == fifo_popped(old(fifo)@).1,
{
    match fifo.pop_front() {
        Some(x) => x,
        None => 0,
    }
}

fn clamp_i16(x: i32) -> (r: i16)
    ensures
        r == clamp16(x as int),
{
    if x < -32768 {
        -32768
    } else if x > 32767 {
        32767
    } else {
        x as i16
    }
}

impl Apu {
    pub fn new() -> (r: Apu)
        ensures
            r@ == apu_initial(),
            apu_wf(r@),
    {
        let r = Apu {
            ch1: Square::new(true),
            ch2: Square::new(false),
            ch3: Wave::new(),
            wave_ram: [0u8; 16],
            ch4: Noise::new(),
            cnt_l: 0,
            cnt_h: 0,
            master_enable: false,
            soundbias: 0x200,
            frame_seq_step: 0,
            frame_seq_timer: FRAME_SEQ_PERIOD,
            sample_timer: CYCLES_PER_SAMPLE,
            buffer: Vec::new(),
            fifo_a: VecDeque::with_capacity(FIFO_CAPACITY),
            fifo_b: VecDeque::with_capacity(FIFO_CAPACITY),
            dsa_out: 0,
            dsb_out: 0,
        };
        assert(r.wave_ram@ =~= Seq::new(16, |i: int| 0u8));
        r
    }

    /// A timer (0 or 1) overflowed: clock any Direct Sound channel bound to
    /// it, playing the next PCM sample from its FIFO.
    pub fn on_timer_overflow(&mut self, timer: u8)
        requires
            apu_wf(old(self)@),
        ensures
            final(self)@ == timer_overflowed(old(self)@, timer),
            apu_wf(final(self)@),
    {
        if timer as u16 == (self.cnt_h >> 10u16) & 1 {
            self.dsa_out = pop_fifo(&mut self.fifo_a);
        }
        if timer as u16 == (self.cnt_h >> 14u16) & 1 {
            self.dsb_out = pop_fifo(&mut self.fifo_b);
        }
    }

    /// Whether Direct Sound FIFO `ch` (0 = A, otherwise B) is at most half
    /// full and should be refilled by DMA.
    pub fn fifo_needs_dma(&self, ch: usize) -> (r: bool)
        ensures
            r == ((if ch == 0 { self@.fifo_a.len() } else { self@.fifo_b.len() }) <= 16),
    {
        let len = if ch == 0 {
            self.fifo_a.len()
        } else {
            self.fifo_b.len()
        };
        len <= 16
    }

    /// Take the accumulated stereo samples, clearing the buffer.
    pub fn drain_samples(&mut self) -> (r: Vec<i16>)
        ensures
            r@ == old(self)@.buffer,
            final(self)@ == (ApuView { buffer: Seq::empty(), ..old(self)@ }),
    {
        let mut out: Vec<i16> = Vec::new();
        std::mem::swap(&mut out, &mut self.buffer);
        out
    }

    /// Number of stereo frames currently buffered.
    pub fn buffered_frames(&self) -> (r: usize)
        ensures
            r == self@.buffer.len() / 2,
    {
        self.buffer.len() / 2
    }

    /// Advance the APU by `cycles` CPU cycles. The work is done in chunks no
    /// longer than the time to the next output sample, so a large tick still
    /// produces every sample (and keeps the waveforms advancing between them).
    pub fn tick(&mut self, cycles: u64)
        requires
            apu_wf(old(self)@),
        ensures
            final(self)@ == apu_run(old(self)@, cycles as nat),
            apu_wf(final(self)@),
    {
        let mut remaining = cycles;
        let ghost a0 = self@;
        while remaining > 0
            invariant
                apu_wf(self@),
                apu_run(self@, remaining as nat) == apu_run(a0, cycles as nat),
            decreases remaining,
        {
            let step: u64 = if remaining < self.sample_timer as u64 {
                remaining
            } else {
                self.sample_timer as u64
            };
            let ghost before = self@;
            self.run_chunk(step as u32);
            remaining = remaining - step;
            proof {
                assert(apu_run(before, (remaining + step) as nat) == apu_run(
                    apu_chunk(before, step as int),
                    remaining as nat,
                ));
            }
        }
    }

    fn run_chunk(&mut self, step: u32)
        requires
            apu_wf(old(self)@),
            1 <= step <= old(self)@.sample_timer,
        ensures
            final(self)@ == apu_chunk(old(self)@, step as int),
            apu_wf(final(self)@),
    {
        let s = step as i32;
        if self.master_enable {
            self.ch1.tick(s);
            self.ch2.tick(s);
            self.ch3.tick(s);
            self.ch4.tick(s);
        }
        // The sequencer period far exceeds a chunk, so at most one step fires.
        if step >= self.frame_seq_timer {
            let over = step - self.frame_seq_timer;
            self.frame_seq_timer = FRAME_SEQ_PERIOD - over % FRAME_SEQ_PERIOD;
            self.clock_frame_sequencer();
        } else {
            self.frame_seq_timer = self.frame_seq_timer - step;
        }
        self.sample_timer = self.sample_timer - step;
        if self.sample_timer == 0 {
            self.sample_timer = CYCLES_PER_SAMPLE;
            self.mix_sample();
        }
    }

    fn clock_frame_sequencer(&mut self)
        requires
            apu_wf(old(self)@),
        ensures
            final(self)@ == frame_sequenced(old(self)@),
            apu_wf(final(self)@),
    {
        if self.frame_seq_step % 2 == 0 {
            self.ch1.clock_length();
            self.ch2.clock_length();
            self.ch3.clock_length();
            self.ch4.clock_length();
        }
        if self.frame_seq_step == 2 || self.frame_seq_step == 6 {
            self.ch1.clock_sweep();
        }
        if self.frame_seq_step == 7 {
            self.ch1.clock_envelope();
            self.ch2.clock_envelope();
            self.ch4.clock_envelope();
        }
        self.frame_seq_step = (self.frame_seq_step + 1) % 8;
    }

    /// The PSG outputs routed to one side (SOUNDCNT_L enable bits `m1`..`m4`).
    fn psg_sum(&self, m1: u16, m2: u16, m3: u16, m4: u16) -> (r: i32)
        requires
            apu_wf(self@),
        ensures
            r == psg_side(self@, m1, m2, m3, m4),
            0 <= r <= 60,
    {
        let l = self.cnt_l;
        let o1 = self.ch1.output() as i32;
        let o2 = self.ch2.output() as i32;
        let o3 = self.ch3.output(&self.wave_ram) as i32;
        let o4 = self.ch4.output() as i32;
        (if l & m1 != 0 { o1 } else { 0 }) + (if l & m2 != 0 { o2 } else { 0 }) + (if l & m3 != 0 {
            o3
        } else {
            0
        }) + (if l & m4 != 0 { o4 } else { 0 })
    }

    /// One side's PSG level: the routed sum scaled by the PSG master volume,
    /// the side's master volume (0..7, meaning 1..8) and 8.
    fn psg_level(&self, sum: i32, side_vol: u16) -> (r: i32)
        requires
            0 <= sum <= 60,
        ensures
            r == sum * psg_volume(self@.cnt_h) * ((side_vol & 7) + 1) * 8,
            0 <= r <= 15360,
    {
        let h = self.cnt_h;
        // PSG master volume from SOUNDCNT_H bits 0-1 (25%, 50%, 100%).
        let psg_vol: i32 = if h & 3 == 0 {
            1
        } else if h & 3 == 1 {
            2
        } else {
            4
        };
        assert(side_vol & 7 <= 7) by {
            crate::bits::lemma_bit_facts();
        }
        let vol = (side_vol & 7) as i32 + 1;
        assert(0 <= sum * psg_vol * vol * 8 <= 15360) by (nonlinear_arith)
            requires
                0 <= sum <= 60,
                1 <= psg_vol <= 4,
                1 <= vol <= 8,
        ;
        sum * psg_vol * vol * 8
    }

    /// A Direct Sound sample at 50% or 100% volume.
    fn ds_level(out: i8, full: bool) -> (r: i32)
        ensures
            r == dsound_level(out, full),
            -4096 <= r <= 4096,
    {
        (out as i32) * (if full { 4i32 } else { 2i32 }) * 8
    }

    fn mix_left_value(&self) -> (r: i32)
        requires
            apu_wf(self@),
        ensures
            r == mix_left(self@),
    {
        let h = self.cnt_h;
        let sum = self.psg_sum(0x1000, 0x2000, 0x4000, 0x8000);
        let mut left = self.psg_level(sum, self.cnt_l >> 4u16);
        let dsa = Self::ds_level(self.dsa_out, h & 4 != 0);
        let dsb = Self::ds_level(self.dsb_out, h & 8 != 0);
        if h & 0x200 != 0 {
            left = left + dsa;
        }
        if h & 0x2000 != 0 {
            left = left + dsb;
        }
        left
    }

    fn mix_right_value(&self) -> (r: i32)
        requires
            apu_wf(self@),
        ensures
            r == mix_right(self@),
    {
        let h = self.cnt_h;
        let sum = self.psg_sum(0x100, 0x200, 0x400, 0x800);
        let mut right = self.psg_level(sum, self.cnt_l);
        let dsa = Self::ds_level(self.dsa_out, h & 4 != 0);
        let dsb = Self::ds_level(self.dsb_out, h & 8 != 0);
        if h & 0x100 != 0 {
            right = right + dsa;
        }
        if h & 0x1000 != 0 {
            right = right + dsb;
        }
        right
    }

    /// Mix the channels into one stereo sample and append it to the buffer.
    fn mix_sample(&mut self)
        requires
            apu_wf(old(self)@),
        ensures
            final(self)@ == mixed(old(self)@),
            apu_wf(final(self)@),
    {
        if !self.master_enable {
            self.buffer.push(0);
            self.buffer.push(0);
            return ;
        }
        let left = self.mix_left_value();
        let right = self.mix_right_value();
        self.buffer.push(clamp_i16(left));
        self.buffer.push(clamp_i16(right));
    }

    // ---- register access (0x060..0x0A8, wave RAM at 0x090..0x0A0) ----

    pub fn read16(&self, offset: u32) -> (r: u16)
        requires
            apu_wf(self@),
            apu_offset_ok(offset),
        ensures
            r == apu_read16(self@, offset),
    {
        if offset == 0x60 {
            (self.ch1.sweep_shift as u16) | (bit(self.ch1.sweep_negate) << 3u16) | ((
            self.ch1.sweep_period as u16) << 4u16)
        } else if offset == 0x62 {
            self.ch1.cnt_h()
        } else if offset == 0x68 {
            self.ch2.cnt_h()
        } else if offset == 0x70 {
            bit(self.ch3.dac_on) << 7u16
        } else if offset == 0x72 {
            (self.ch3.volume_shift as u16) << 13u16
        } else if offset == 0x7C {
            self.ch4.cnt_l()
        } else if offset == 0x80 {
            self.cnt_l
        } else if offset == 0x82 {
            self.cnt_h
        } else if offset == 0x84 {
            (bit(self.master_enable) << 7u16) | bit(self.ch1.enabled) | (bit(self.ch2.enabled)
                << 1u16) | (bit(self.ch3.enabled) << 2u16) | (bit(self.ch4.enabled) << 3u16)
        } else if offset == 0x88 {
            self.soundbias
        } else if 0x90 <= offset && offset <= 0x9F {
            let i = (offset - 0x90) as usize;
            (self.wave_ram[i] as u16) | ((self.wave_ram[i + 1] as u16) << 8u16)
        } else {
            0
        }
    }

    pub fn read8(&self, offset: u32) -> (r: u8)
        requires
            apu_wf(self@),
        ensures
            r == byte_of_half(apu_read16(self@, offset & !1u32), offset),
    {
        assert(offset & !1u32 != 0x9F) by {
            crate::bits::lemma_bit_facts();
        }
        let half = self.read16(offset & !1u32);
        half_byte(half, offset)
    }

    pub fn write16(&mut self, offset: u32, value: u16)
        requires
            apu_wf(old(self)@),
            apu_offset_ok(offset),
        ensures
            final(self)@ == apu_write16(old(self)@, offset, value),
            apu_wf(final(self)@),
    {
        if offset == 0x60 {
            assert(value & 7 <= 7 && (value >> 4u16) & 7 <= 7) by {
                crate::bits::lemma_bit_facts();
            }
            self.ch1.sweep_shift = (value & 0x7) as u8;
            self.ch1.sweep_negate = value & 0x8 != 0;
            self.ch1.sweep_period = ((value >> 4u16) & 0x7) as u8;
        } else if offset == 0x62 {
            self.ch1.write_cnt_h(value);
        } else if offset == 0x64 {
            self.ch1.write_cnt_x(value);
        } else if offset == 0x68 {
            self.ch2.write_cnt_h(value);
        } else if offset == 0x6C {
            self.ch2.write_cnt_x(value);
        } else if offset == 0x70 {
            self.ch3.dac_on = value & 0x80 != 0;
            if !self.ch3.dac_on {
                self.ch3.enabled = false;
            }
        } else if offset == 0x72 {
            assert((value >> 13u16) & 3 <= 3) by {
                crate::bits::lemma_bit_facts();
            }
            self.ch3.length_load = value as u8;
            self.ch3.length = 256 - (value as u8) as u16;
            self.ch3.volume_shift = ((value >> 13u16) & 0x3) as u8;
        } else if offset == 0x74 {
            assert(value & 0x7FF <= 2047) by {
                crate::bits::lemma_bit_facts();
            }
            self.ch3.freq = value & 0x7FF;
            self.ch3.length_enabled = value & 0x4000 != 0;
            if value & 0x8000 != 0 {
                self.ch3.trigger();
            }
        } else if offset == 0x78 {
            self.ch4.write_cnt_l(value);
        } else if offset == 0x7C {
            self.ch4.write_cnt_h(value);
        } else if offset == 0x80 {
            self.cnt_l = value;
        } else if offset == 0x82 {
            self.cnt_h = value;
            if value & 0x800 != 0 {
                self.fifo_a.clear();
                self.dsa_out = 0;
            }
            if value & 0x8000 != 0 {
                self.fifo_b.clear();
                self.dsb_out = 0;
            }
        } else if offset == 0xA0 || offset == 0xA2 {
            // FIFO_A: 8-bit PCM samples, 32 deep.
            push_fifo(&mut self.fifo_a, value);
        } else if offset == 0xA4 || offset == 0xA6 {
            push_fifo(&mut self.fifo_b, value);
        } else if offset == 0x84 {
            self.master_enable = value & 0x80 != 0;
            if !self.master_enable {
                self.silence();
            }
        } else if offset == 0x88 {
            self.soundbias = value;
        } else if 0x90 <= offset && offset <= 0x9F {
            let i = (offset - 0x90) as usize;
            self.wave_ram[i] = value as u8;
            self.wave_ram[i + 1] = (value >> 8u16) as u8;
        }
    }

    pub fn write8(&mut self, offset: u32, value: u8)
        requires
            apu_wf(old(self)@),
        ensures
            final(self)@ == apu_write8(old(self)@, offset, value),
            apu_wf(final(self)@),
    {
        // Wave RAM is byte-addressable; other registers compose via read16.
        if 0x90 <= offset && offset < 0xA0 {
            self.wave_ram[(offset - 0x90) as usize] = value;
            return ;
        }
        assert(offset & !1u32 != 0x9F) by {
            crate::bits::lemma_bit_facts();
        }
        let half = self.read16(offset & !1u32);
        let merged = merge_half(half, offset, value);
        self.write16(offset & !1u32, merged);
    }

    pub fn read32(&self, offset: u32) -> (r: u32)
        requires
            apu_wf(self@),
            apu_offset_ok(offset),
            apu_offset_ok((offset + 2) as u32),
            offset <= u32::MAX - 2,
        ensures
            r == (apu_read16(self@, offset) as u32) | ((apu_read16(self@, (offset + 2) as u32)
                as u32) << 16u32),
    {
        (self.read16(offset) as u32) | ((self.read16(offset + 2) as u32) << 16u32)
    }

    pub fn write32(&mut self, offset: u32, value: u32)
        requires
            apu_wf(old(self)@),
            apu_offset_ok(offset),
            apu_offset_ok((offset + 2) as u32),
            offset <= u32::MAX - 2,
        ensures
            final(self)@ == apu_write16(
                apu_write16(old(self)@, offset, value as u16),
                (offset + 2) as u32,
                (value >> 16u32) as u16,
            ),
            apu_wf(final(self)@),
    {
        self.write16(offset, value as u16);
        self.write16(offset + 2, (value >> 16u32) as u16);
    }

    fn silence(&mut self)
        requires
            apu_wf(old(self)@),
        ensures
            final(self)@ == silenced(old(self)@),
            apu_wf(final(self)@),
    {
        self.ch1.enabled = false;
        self.ch2.enabled = false;
        self.ch3.enabled = false;
        self.ch4.enabled = false;
    }
}

impl Default for Apu {
    fn default() -> (r: Apu)
        ensures
            r@ == apu_initial(),
    {
        Apu::new()
    }
}

// ---------------------------------------------------------------------------
// Laws
// ---------------------------------------------------------------------------

/// The number of output samples that fall due within `n` cycles when the
/// next one is `st` cycles away: one at `st`, then one every 512 cycles.
pub open spec fn samples_due(st: int, n: int) -> int {
    if n < st {
        0
    } else {
        1 + (n - st) / (CYCLES_PER_SAMPLE as int)
    }
}

/// The mixer runs at the output rate: `n` cycles append exactly one stereo
/// pair per sample period that elapses, and keep what was buffered.
pub proof fn lemma_samples_at_output_rate(a: ApuView, n: nat)
    requires
        1 <= a.sample_timer <= CYCLES_PER_SAMPLE,
    ensures
        apu_run(a, n).buffer.len() == a.buffer.len() + 2 * samples_due(a.sample_timer as int, n as int),
        apu_run(a, n).buffer.subrange(0, a.buffer.len() as int) == a.buffer,
        1 <= apu_run(a, n).sample_timer <= CYCLES_PER_SAMPLE,
    decreases n,
{
    if n == 0 {
        assert(a.buffer.subrange(0, a.buffer.len() as int) =~= a.buffer);
    } else {
        let st = a.sample_timer as int;
        let step: nat = if n < a.sample_timer { n } else { a.sample_timer as nat };
        let b = apu_chunk(a, step as int);
        assert(b.buffer.len() == a.buffer.len() + (if step == st { 2int } else { 0int }));
        assert(b.buffer.subrange(0, a.buffer.len() as int) =~= a.buffer);
        assert(b.sample_timer == if step == st { CYCLES_PER_SAMPLE as int } else { st - step });
        lemma_samples_at_output_rate(b, (n - step) as nat);
        let c = apu_run(b, (n - step) as nat);
        assert(c.buffer.subrange(0, a.buffer.len() as int) =~= a.buffer) by {
            assert(c.buffer.subrange(0, b.buffer.len() as int) == b.buffer);
            assert forall|i: int| 0 <= i < a.buffer.len() implies c.buffer[i] == a.buffer[i] by {
                assert(c.buffer.subrange(0, b.buffer.len() as int)[i] == b.buffer[i]);
                assert(b.buffer.subrange(0, a.buffer.len() as int)[i] == a.buffer[i]);
            }
        }
        if step == st {
            let m = n - st;
            vstd::arithmetic::div_mod::lemma_fundamental_div_mod(m, 512);
            vstd::arithmetic::div_mod::lemma_fundamental_div_mod(m - 512, 512);
            if m >= 512 {
                assert((m - 512) / 512 + 1 == m / 512) by {
                    vstd::arithmetic::div_mod::lemma_div_plus_one(m - 512, 512);
                }
            } else {
                vstd::arithmetic::div_mod::lemma_basic_div(m, 512);
                assert(m / 512 == 0);
            }
        }
    }
}

/// Where the next output sample is, `n` cycles after it was `st` cycles
/// away: closer by `n`, or, once it has passed, a period minus the cycles
/// since the last one.
pub open spec fn sample_timer_after(st: int, n: int) -> int {
    if n < st {
        st - n
    } else {
        CYCLES_PER_SAMPLE - (n - st) % (CYCLES_PER_SAMPLE as int)
    }
}

proof fn lemma_sample_timer_after(a: ApuView, n: nat)
    requires
        1 <= a.sample_timer <= CYCLES_PER_SAMPLE,
    ensures
        apu_run(a, n).sample_timer == sample_timer_after(a.sample_timer as int, n as int),
    decreases n,
{
    let p = CYCLES_PER_SAMPLE as int;
    if n > 0 {
        let st = a.sample_timer as int;
        let step: nat = if n < a.sample_timer { n } else { a.sample_timer as nat };
        let b = apu_chunk(a, step as int);
        lemma_samples_at_output_rate(a, step);
        assert(b.sample_timer == if step == st { CYCLES_PER_SAMPLE as int } else { st - step });
        lemma_sample_timer_after(b, (n - step) as nat);
        if n >= st {
            let k = n - st;
            if k >= p {
                vstd::arithmetic::div_mod::lemma_mod_sub_multiples_vanish(k, p);
            } else {
                vstd::arithmetic::div_mod::lemma_small_mod(k as nat, p as nat);
            }
        }
    }
}

/// Ticking splits: running the APU for `m` cycles and then for `n` buffers
/// exactly as many samples as running it for `m + n` at once.
pub proof fn lemma_tick_split_samples(a: ApuView, m: nat, n: nat)
    requires
        1 <= a.sample_timer <= CYCLES_PER_SAMPLE,
    ensures
        apu_run(apu_run(a, m), n).buffer.len() == apu_run(a, m + n).buffer.len(),
{
    let p = CYCLES_PER_SAMPLE as int;
    let st = a.sample_timer as int;
    lemma_samples_at_output_rate(a, m);
    lemma_samples_at_output_rate(a, m + n);
    let b = apu_run(a, m);
    lemma_samples_at_output_rate(b, n);
    lemma_sample_timer_after(a, m);
    if m >= st {
        let q = (m - st) / p;
        let r = (m - st) % p;
        vstd::arithmetic::div_mod::lemma_fundamental_div_mod(m - st, p);
        vstd::arithmetic::div_mod::lemma_mod_bound(m - st, p);
        assert((m + n - st) / p == q + (r + n) / p) by {
            vstd::arithmetic::div_mod::lemma_hoist_over_denominator(r + n, q, p as nat);
            assert(r + n + q * p == m + n - st) by (nonlinear_arith)
                requires
                    m - st == p * q + r,
            ;
        }
        if r + n >= p {
            assert((r + n) / p == 1 + (r + n - p) / p) by {
                vstd::arithmetic::div_mod::lemma_div_plus_one(r + n - p, p);
            }
        } else {
            assert((r + n) / p == 0) by {
                vstd::arithmetic::div_mod::lemma_basic_div(r + n, p);
            }
        }
    }
}

/// From power-on, `n` cycles buffer one stereo pair per whole sample
/// period: `n / 512` of them.
pub proof fn lemma_initial_sample_count(n: nat)
    ensures
        apu_run(apu_initial(), n).buffer.len() == 2 * (n / (CYCLES_PER_SAMPLE as nat)),
{
    let p = CYCLES_PER_SAMPLE as int;
    lemma_samples_at_output_rate(apu_initial(), n);
    if n >= p {
        vstd::arithmetic::div_mod::lemma_div_plus_one(n - p, p);
    } else {
        vstd::arithmetic::div_mod::lemma_basic_div(n as int, p);
    }
}

/// The sample buffer holds whole stereo pairs: running the APU for any
/// number of cycles keeps an even-length buffer even.
pub proof fn lemma_buffer_holds_pairs(a: ApuView, n: nat)
    requires
        1 <= a.sample_timer <= CYCLES_PER_SAMPLE,
        a.buffer.len() % 2 == 0,
    ensures
        apu_run(a, n).buffer.len() % 2 == 0,
{
    lemma_samples_at_output_rate(a, n);
}

/// With the master enable off the APU is silent: running any number of
/// cycles only appends zero samples, and the master enable stays off.
pub proof fn lemma_disabled_apu_is_silent(a: ApuView, n: nat)
    requires
        !a.master_enable,
    ensures
        !apu_run(a, n).master_enable,
        apu_run(a, n).buffer.len() >= a.buffer.len(),
        apu_run(a, n).buffer.subrange(0, a.buffer.len() as int) == a.buffer,
        forall|i: int|
            a.buffer.len() <= i < apu_run(a, n).buffer.len() ==> #[trigger] apu_run(a, n).buffer[i]
                == 0,
    decreases n,
{
    if n == 0 || a.sample_timer == 0 {
        assert(a.buffer.subrange(0, a.buffer.len() as int) =~= a.buffer);
    } else {
        let step: nat = if n < a.sample_timer { n } else { a.sample_timer as nat };
        let b = apu_chunk(a, step as int);
        assert(!b.master_enable);
        assert(b.buffer =~= a.buffer || b.buffer =~= a.buffer.push(0i16).push(0i16));
        lemma_disabled_apu_is_silent(b, (n - step) as nat);
        let c = apu_run(b, (n - step) as nat);
        assert(c == apu_run(a, n));
        assert forall|i: int| 0 <= i < a.buffer.len() implies c.buffer[i] == a.buffer[i] by {
            assert(c.buffer.subrange(0, b.buffer.len() as int)[i] == b.buffer[i]);
        }
        assert(c.buffer.subrange(0, a.buffer.len() as int) =~= a.buffer);
        assert forall|i: int| a.buffer.len() <= i < c.buffer.len() implies #[trigger] c.buffer[i]
            == 0 by {
            if i < b.buffer.len() {
                assert(c.buffer.subrange(0, b.buffer.len() as int)[i] == b.buffer[i]);
            }
        }
    }
}

/// Turning the master enable off switches every channel off: SOUNDCNT_X
/// then reads 0.
pub proof fn lemma_master_disable_clears_status(a: ApuView, value: u16)
    requires
        apu_wf(a),
        value & 0x80 == 0,
    ensures
        apu_read16(apu_write16(a, 0x84, value), 0x84) == 0,
{
    let b = apu_write16(a, 0x84, value);
    assert(!b.master_enable && !b.ch1.enabled && !b.ch2.enabled && !b.ch3.enabled
        && !b.ch4.enabled);
    assert((0u16 << 7u16) | 0u16 | (0u16 << 1u16) | (0u16 << 2u16) | (0u16 << 3u16) == 0)
        by (bit_vector);
}

/// A Direct Sound FIFO plays samples in the order they were written: after
/// a halfword is written to an empty FIFO A, the next two overflows of the
/// timer driving it play its low byte, then its high byte.
pub proof fn lemma_fifo_plays_in_order(a: ApuView, value: u16, timer: u8)
    requires
        apu_wf(a),
        a.fifo_a.len() == 0,
        timer as u16 == (a.cnt_h >> 10u16) & 1,
    ensures
        ({
            let b = timer_overflowed(apu_write16(a, 0xA0, value), timer);
            let c = timer_overflowed(b, timer);
            &&& b.dsa_out == (value as u8) as i8
            &&& c.dsa_out == ((value >> 8u16) as u8) as i8
            &&& c.fifo_a.len() == 0
        }),
{
    let w = apu_write16(a, 0xA0, value);
    assert(w.fifo_a =~= seq![(value as u8) as i8, ((value >> 8u16) as u8) as i8]);
    let b = timer_overflowed(w, timer);
    assert(b.fifo_a =~= seq![((value >> 8u16) as u8) as i8]);
}

/// A length counter that reaches zero switches its channel off.
pub proof fn lemma_length_expiry_disables(s: Square)
    requires
        s.length_enabled,
        s.length == 1,
    ensures
        !square_length_clocked(s).enabled,
        square_length_clocked(s).length == 0,
{
}

/// A decreasing envelope never raises the volume, an increasing one never
/// lowers it, and the volume stays within 0..=15.
pub proof fn lemma_envelope_direction(s: Square)
    requires
        square_wf(s),
    ensures
        !s.env_add ==> square_envelope_clocked(s).volume <= s.volume,
        s.env_add ==> square_envelope_clocked(s).volume >= s.volume,
        square_envelope_clocked(s).volume <= 15,
{
}

} // verus!
