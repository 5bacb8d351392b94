//! Interrupt source bits, shared by `IE` and `IF`.

use vstd::prelude::*;

verus! {

pub const VBLANK: u16 = 0x0001;
pub const HBLANK: u16 = 0x0002;
pub const VCOUNT: u16 = 0x0004;
pub const TIMER0: u16 = 0x0008;
pub const TIMER1: u16 = 0x0010;
pub const TIMER2: u16 = 0x0020;
pub const TIMER3: u16 = 0x0040;
pub const SERIAL: u16 = 0x0080;
pub const DMA0: u16 = 0x0100;
pub const DMA1: u16 = 0x0200;
pub const DMA2: u16 = 0x0400;
pub const DMA3: u16 = 0x0800;
pub const KEYPAD: u16 = 0x1000;
pub const GAMEPAK: u16 = 0x2000;

} // verus!
