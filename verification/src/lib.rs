//! Game Boy Advance emulator core: the ARM7TDMI CPU, the memory map and its
//! peripherals (PPU, APU, DMA, timers, interrupt controller), BIOS services
//! and cartridge save memory.

pub mod apu;
pub mod bits;
pub mod bios;
pub mod cpu;
pub mod dma;
pub mod io;
pub mod memory;
pub mod ppu;
pub mod save;
pub mod system;
pub mod timers;
pub mod timing;

pub use cpu::{Cpu, Mode};
pub use memory::{Bus, Memory};
pub use ppu::Ppu;
pub use system::Gba;

use vstd::prelude::*;
use vstd::string::StringExecFns;

verus! {

/// Errors surfaced by the emulator core.
#[derive(Debug)]
#[non_exhaustive]
pub enum CoreError {
    /// ROM image exceeds the 32 MiB cartridge address space.
    RomTooLarge { size: usize, max: usize },
    /// BIOS image is not exactly 16 KiB.
    BadBiosSize { size: usize, expected: usize },
    /// A save-state blob could not be produced or restored.
    SaveState(String),
}

/// The character of decimal digit `d` (`d < 10`).
pub open spec fn digit_char(d: nat) -> char {
    if d == 0 {
        '0'
    } else if d == 1 {
        '1'
    } else if d == 2 {
        '2'
    } else if d == 3 {
        '3'
    } else if d == 4 {
        '4'
    } else if d == 5 {
        '5'
    } else if d == 6 {
        '6'
    } else if d == 7 {
        '7'
    } else if d == 8 {
        '8'
    } else {
        '9'
    }
}

/// The decimal numeral of `n`: no sign, no leading zeros.
pub open spec fn decimal(n: nat) -> Seq<char>
    decreases n,
{
    if n < 10 {
        seq![digit_char(n)]
    } else {
        decimal(n / 10).push(digit_char(n % 10))
    }
}

fn digit_str(d: usize) -> (r: &'static str)
    requires
        d < 10,
    ensures
        r@ == seq![digit_char(d as nat)],
{
    let r = if d == 0 {
        proof { reveal_strlit("0"); }
        "0"
    } else if d == 1 {
        proof { reveal_strlit("1"); }
        "1"
    } else if d == 2 {
        proof { reveal_strlit("2"); }
        "2"
    } else if d == 3 {
        proof { reveal_strlit("3"); }
        "3"
    } else if d == 4 {
        proof { reveal_strlit("4"); }
        "4"
    } else if d == 5 {
        proof { reveal_strlit("5"); }
        "5"
    } else if d == 6 {
        proof { reveal_strlit("6"); }
        "6"
    } else if d == 7 {
        proof { reveal_strlit("7"); }
        "7"
    } else if d == 8 {
        proof { reveal_strlit("8"); }
        "8"
    } else {
        proof { reveal_strlit("9"); }
        "9"
    };
    assert(r@ =~= seq![digit_char(d as nat)]);
    r
}

/// Format `n` in decimal.
fn decimal_string(n: usize) -> (r: String)
    ensures
        r@ == decimal(n as nat),
    decreases n,
{
    if n < 10 {
        String::from_str(digit_str(n))
    } else {
        let mut s = decimal_string(n / 10);
        s.append(digit_str(n % 10));
        s
    }
}

impl CoreError {
    /// A human-readable description of the error.
    pub fn to_string(&self) -> (r: String)
        ensures
            self matches CoreError::RomTooLarge { size, max } ==> r@ == "ROM is "@ + decimal(
                size as nat,
            ) + " bytes, exceeding the "@ + decimal(max as nat) + "-byte cartridge limit"@,
            self matches CoreError::BadBiosSize { size, expected } ==> r@ == "BIOS is "@
                + decimal(size as nat) + " bytes, expected exactly "@ + decimal(expected as nat),
            self matches CoreError::SaveState(msg) ==> r@ == "save state: "@ + msg@,
    {
        match self {
            CoreError::RomTooLarge { size, max } => {
                let a = decimal_string(*size);
                let b = decimal_string(*max);
                let mut r = String::from_str("ROM is ");
                r.append(a.as_str());
                r.append(" bytes, exceeding the ");
                r.append(b.as_str());
                r.append("-byte cartridge limit");
                proof {
                    assert(r@ == "ROM is "@ + a@ + " bytes, exceeding the "@ + b@
                        + "-byte cartridge limit"@);
                }
                r
            },
            CoreError::BadBiosSize { size, expected } => {
                let a = decimal_string(*size);
                let b = decimal_string(*expected);
                let mut r = String::from_str("BIOS is ");
                r.append(a.as_str());
                r.append(" bytes, expected exactly ");
                r.append(b.as_str());
                proof {
                    assert(r@ == "BIOS is "@ + a@ + " bytes, expected exactly "@ + b@);
                }
                r
            },
            CoreError::SaveState(msg) => {
                let mut r = String::from_str("save state: ");
                r.append(msg.as_str());
                r
            },
        }
    }
}

} // verus!
