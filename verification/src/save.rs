//! Cartridge save memory: SRAM and Flash. The save type is auto-detected from
//! an ID string in the ROM.
//!
//! Flash uses a small command protocol (unlock writes to 0x5555/0x2AAA, then a
//! command byte): the game reads the chip's manufacturer/device ID to identify
//! it, erases sectors, programs bytes, and — for the 128 KiB part — switches
//! between two 64 KiB banks. EEPROM is not implemented; those games fall back
//! to no save.

use vstd::prelude::*;

verus! {

#[derive(Clone, Copy, PartialEq, Eq, Structural)]
pub enum SaveType {
    NoSave,
    Sram,
    Flash64,
    Flash128,
}

/// Whether `needle` occurs in `hay` starting at `i`.
pub open spec fn occurs_at(hay: Seq<u8>, needle: Seq<u8>, i: int) -> bool {
    0 <= i && i + needle.len() <= hay.len() && hay.subrange(i, i + needle.len()) == needle
}

/// Whether `needle` occurs anywhere in `hay`.
pub open spec fn occurs(hay: Seq<u8>, needle: Seq<u8>) -> bool {
    exists|i: int| occurs_at(hay, needle, i)
}

fn matches_at(hay: &[u8], needle: &[u8], i: usize) -> (r: bool)
    requires
        i + needle@.len() <= hay@.len(),
    ensures
        r == occurs_at(hay@, needle@, i as int),
{
    let n = needle.len();
    let hl = hay.len();
    let mut k: usize = 0;
    while k < n
        invariant
            k <= n,
            n == needle@.len(),
            hl == hay@.len(),
            i + needle@.len() <= hay@.len(),
            forall|j: int| 0 <= j < k ==> hay@[i + j] == needle@[j],
        decreases n - k,
    {
        if hay[i + k] != needle[k] {
            assert(hay@.subrange(i as int, i + needle@.len())[k as int] != needle@[k as int]);
            return false;
        }
        k = k + 1;
    }
    assert(hay@.subrange(i as int, i + needle@.len()) =~= needle@);
    true
}

/// Whether `needle` occurs in `hay` (the `windows(..).any(..)` search).
pub fn contains(hay: &[u8], needle: &[u8]) -> (r: bool)
    ensures
        r == occurs(hay@, needle@),
{
    if needle.len() == 0 {
        assert(hay@.subrange(0, 0) =~= needle@);
        assert(occurs_at(hay@, needle@, 0));
        return true;
    }
    let hl = hay.len();
    let nl = needle.len();
    if nl > hl {
        assert forall|j: int| !occurs_at(hay@, needle@, j) by {}
        return false;
    }
    let mut i: usize = 0;
    while i <= hl - nl
        invariant
            nl <= hl,
            hl == hay@.len(),
            nl == needle@.len(),
            nl >= 1,
            forall|j: int| 0 <= j < i ==> !occurs_at(hay@, needle@, j),
        decreases hl - i,
    {
        if matches_at(hay, needle, i) {
            return true;
        }
        i = i + 1;
    }
    assert forall|j: int| !occurs_at(hay@, needle@, j) by {
        if 0 <= j < i {
        }
    }
    false
}

pub open spec fn tag_flash1m_v() -> Seq<u8> {
    seq![0x46u8, 0x4C, 0x41, 0x53, 0x48, 0x31, 0x4D, 0x5F, 0x56]
}

pub open spec fn tag_flash1m() -> Seq<u8> {
    seq![0x46u8, 0x4C, 0x41, 0x53, 0x48, 0x31, 0x4D]
}

pub open spec fn tag_flash512_v() -> Seq<u8> {
    seq![0x46u8, 0x4C, 0x41, 0x53, 0x48, 0x35, 0x31, 0x32, 0x5F, 0x56]
}

pub open spec fn tag_flash_v() -> Seq<u8> {
    seq![0x46u8, 0x4C, 0x41, 0x53, 0x48, 0x5F, 0x56]
}

pub open spec fn tag_flash() -> Seq<u8> {
    seq![0x46u8, 0x4C, 0x41, 0x53, 0x48]
}

/// The save type a ROM's ID marker announces ("FLASH1M" → 128 KiB flash,
/// "FLASH"/"FLASH512" → 64 KiB flash, otherwise SRAM).
pub open spec fn detected(rom: Seq<u8>) -> SaveType {
    if occurs(rom, tag_flash1m_v()) || occurs(rom, tag_flash1m()) {
        SaveType::Flash128
    } else if occurs(rom, tag_flash512_v()) || occurs(rom, tag_flash_v()) || occurs(
        rom,
        tag_flash(),
    ) {
        SaveType::Flash64
    } else {
        // SRAM markers and the default alike: SRAM is harmless for games
        // without a save and correct for the many without a marker.
        SaveType::Sram
    }
}

/// Detect the save type from the ID marker most GBA ROMs embed.
pub fn detect(rom: &[u8]) -> (r: SaveType)
    ensures
        r == detected(rom@),
{
    let flash1m_v: [u8; 9] = [0x46, 0x4C, 0x41, 0x53, 0x48, 0x31, 0x4D, 0x5F, 0x56];
    let flash1m: [u8; 7] = [0x46, 0x4C, 0x41, 0x53, 0x48, 0x31, 0x4D];
    let flash512_v: [u8; 10] = [0x46, 0x4C, 0x41, 0x53, 0x48, 0x35, 0x31, 0x32, 0x5F, 0x56];
    let flash_v: [u8; 7] = [0x46, 0x4C, 0x41, 0x53, 0x48, 0x5F, 0x56];
    let flash: [u8; 5] = [0x46, 0x4C, 0x41, 0x53, 0x48];
    let sram_v: [u8; 6] = [0x53, 0x52, 0x41, 0x4D, 0x5F, 0x56];
    let sram_f_v: [u8; 8] = [0x53, 0x52, 0x41, 0x4D, 0x5F, 0x46, 0x5F, 0x56];
    let sram: [u8; 4] = [0x53, 0x52, 0x41, 0x4D];
    proof {
        assert(flash1m_v@ =~= tag_flash1m_v());
        assert(flash1m@ =~= tag_flash1m());
        assert(flash512_v@ =~= tag_flash512_v());
        assert(flash_v@ =~= tag_flash_v());
        assert(flash@ =~= tag_flash());
    }
    if contains(rom, flash1m_v.as_slice()) || contains(rom, flash1m.as_slice()) {
        SaveType::Flash128
    } else if contains(rom, flash512_v.as_slice()) || contains(rom, flash_v.as_slice())
        || contains(rom, flash.as_slice()) {
        SaveType::Flash64
    } else if contains(rom, sram_v.as_slice()) || contains(rom, sram_f_v.as_slice()) || contains(
        rom,
        sram.as_slice(),
    ) {
        SaveType::Sram
    } else {
        SaveType::Sram
    }
}

/// Size of the backing memory of a save type.
pub open spec fn save_size(kind: SaveType) -> nat {
    match kind {
        SaveType::NoSave => 0,
        SaveType::Sram => 0x8000,
        SaveType::Flash64 => 0x10000,
        SaveType::Flash128 => 0x20000,
    }
}

pub struct Save {
    kind: SaveType,
    data: Vec<u8>,
    // Flash command state.
    bank: usize,
    id_mode: bool,
    erase_armed: bool,
    write_armed: bool,
    bank_armed: bool,
    cmd_step: u8,
    man_id: u8,
    dev_id: u8,
}

/// The abstract state of save memory.
pub ghost struct SaveView {
    pub kind: SaveType,
    pub data: Seq<u8>,
    pub bank: int,
    pub id_mode: bool,
    pub erase_armed: bool,
    pub write_armed: bool,
    pub bank_armed: bool,
    pub cmd_step: u8,
    pub man_id: u8,
    pub dev_id: u8,
}

/// A save chip of type `kind` at power-on: erased (all 0xFF), bank 0, no
/// command in progress, and the flash chip's IDs.
pub open spec fn save_initial(kind: SaveType) -> SaveView {
    SaveView {
        kind,
        data: Seq::new(save_size(kind), |i: int| 0xFFu8),
        bank: 0,
        id_mode: false,
        erase_armed: false,
        write_armed: false,
        bank_armed: false,
        cmd_step: 0,
        man_id: match kind {
            SaveType::Flash64 => 0x32u8,
            SaveType::Flash128 => 0x62u8,
            _ => 0u8,
        },
        dev_id: match kind {
            SaveType::Flash64 => 0x1Bu8,
            SaveType::Flash128 => 0x13u8,
            _ => 0u8,
        },
    }
}

/// The shape every save keeps: the backing size matches the type and the
/// selected flash bank lies inside it.
pub open spec fn save_wf(s: SaveView) -> bool {
    &&& s.data.len() == save_size(s.kind)
    &&& 0 <= s.bank <= 1
    &&& s.kind != SaveType::Flash128 ==> s.bank == 0 && !s.bank_armed
}

impl View for Save {
    type V = SaveView;

    closed spec fn view(&self) -> SaveView {
        SaveView {
            kind: self.kind,
            data: self.data@,
            bank: self.bank as int,
            id_mode: self.id_mode,
            erase_armed: self.erase_armed,
            write_armed: self.write_armed,
            bank_armed: self.bank_armed,
            cmd_step: self.cmd_step,
            man_id: self.man_id,
            dev_id: self.dev_id,
        }
    }
}

/// Offset of a flash byte in the backing store (bank-relative).
pub open spec fn flash_index(s: SaveView, addr: u32) -> int {
    s.bank * 0x10000 + (addr & 0xFFFF) as int
}

/// What a byte read at `addr` returns.
pub open spec fn save_read(s: SaveView, addr: u32) -> u8 {
    match s.kind {
        SaveType::NoSave => 0xFF,
        SaveType::Sram => s.data[(addr & 0x7FFF) as int],
        _ => {
            let off = addr & 0xFFFF;
            if s.id_mode {
                if off == 0 {
                    s.man_id
                } else if off == 1 {
                    s.dev_id
                } else {
                    0xFF
                }
            } else {
                s.data[flash_index(s, addr)]
            }
        },
    }
}

/// Effect of a flash command byte written to 0x5555 after the unlock.
pub open spec fn flash_command(s: SaveView, cmd: u8) -> SaveView {
    if cmd == 0x90 {
        SaveView { id_mode: true, ..s }
    } else if cmd == 0xF0 {
        SaveView { id_mode: false, ..s }
    } else if cmd == 0x80 {
        SaveView { erase_armed: true, ..s }
    } else if cmd == 0xA0 {
        SaveView { write_armed: true, ..s }
    } else if cmd == 0xB0 && s.kind == SaveType::Flash128 {
        SaveView { bank_armed: true, ..s }
    } else if cmd == 0x10 && s.erase_armed {
        // Chip erase.
        SaveView { data: Seq::new(s.data.len(), |i: int| 0xFFu8), erase_armed: false, ..s }
    } else {
        s
    }
}

/// Effect of a byte write to flash.
pub open spec fn flash_write(s: SaveView, addr: u32, value: u8) -> SaveView {
    let off = addr & 0xFFFF;
    if s.write_armed {
        // A pending single-byte program: flash can only clear bits (AND).
        let i = flash_index(s, addr);
        SaveView { data: s.data.update(i, s.data[i] & value), write_armed: false, cmd_step: 0, ..s }
    } else if s.bank_armed {
        // A pending bank switch (128 KiB only): the write to 0x0000 selects it.
        SaveView {
            bank: if off == 0 { (value & 1) as int } else { s.bank },
            bank_armed: false,
            cmd_step: 0,
            ..s
        }
    } else if s.cmd_step == 0 && off == 0x5555 && value == 0xAA {
        SaveView { cmd_step: 1, ..s }
    } else if s.cmd_step == 1 && off == 0x2AAA && value == 0x55 {
        SaveView { cmd_step: 2, ..s }
    } else if s.cmd_step == 2 {
        let t = if off == 0x5555 {
            flash_command(s, value)
        } else if s.erase_armed && value == 0x30 {
            // Sector erase (4 KiB) at the addressed sector.
            let base = s.bank * 0x10000 + (off & 0xF000) as int;
            SaveView {
                data: Seq::new(
                    s.data.len(),
                    |i: int| if base <= i < base + 0x1000 { 0xFFu8 } else { s.data[i] },
                ),
                erase_armed: false,
                ..s
            }
        } else {
            s
        };
        SaveView { cmd_step: 0, ..t }
    } else {
        SaveView { cmd_step: 0, ..s }
    }
}

/// Effect of a byte write.
pub open spec fn save_write(s: SaveView, addr: u32, value: u8) -> SaveView {
    match s.kind {
        SaveType::NoSave => s,
        SaveType::Sram => SaveView { data: s.data.update((addr & 0x7FFF) as int, value), ..s },
        _ => flash_write(s, addr, value),
    }
}

impl Save {
    #[verifier::type_invariant]
    spec fn inv(self) -> bool {
        save_wf(self@)
    }

    pub fn new(kind: SaveType) -> (r: Save)
        ensures
            r@ == save_initial(kind),
            r@.kind == kind,
            r@.data == Seq::new(save_size(kind), |i: int| 0xFFu8),
            r@.bank == 0,
            !r@.id_mode && !r@.erase_armed && !r@.write_armed && !r@.bank_armed,
            r@.cmd_step == 0,
            r@.man_id == match kind {
                SaveType::Flash64 => 0x32u8,
                SaveType::Flash128 => 0x62u8,
                _ => 0u8,
            },
            r@.dev_id == match kind {
                SaveType::Flash64 => 0x1Bu8,
                SaveType::Flash128 => 0x13u8,
                _ => 0u8,
            },
    {
        let (size, man_id, dev_id): (usize, u8, u8) = match kind {
            SaveType::NoSave => (0, 0, 0),
            SaveType::Sram => (0x8000, 0, 0),
            // Panasonic 64 KiB flash.
            SaveType::Flash64 => (0x10000, 0x32, 0x1B),
            // Sanyo 128 KiB flash (two 64 KiB banks).
            SaveType::Flash128 => (0x20000, 0x62, 0x13),
        };
        let data = vec![0xFFu8; size];
        assert(data@ =~= Seq::new(save_size(kind), |i: int| 0xFFu8));
        Save {
            kind,
            data,
            bank: 0,
            id_mode: false,
            erase_armed: false,
            write_armed: false,
            bank_armed: false,
            cmd_step: 0,
            man_id,
            dev_id,
        }
    }

    pub fn kind(&self) -> (r: SaveType)
        ensures
            r == self@.kind,
    {
        self.kind
    }

    /// The backing bytes, for persisting the battery save.
    pub fn data(&self) -> (r: &[u8])
        ensures
            r@ == self@.data,
    {
        self.data.as_slice()
    }

    /// Overwrite the start of the backing store with a persisted save (as
    /// many bytes as both hold).
    pub fn load_data(&mut self, bytes: &[u8])
        ensures
            final(self)@ == (SaveView {
                data: Seq::new(
                    old(self)@.data.len(),
                    |i: int| if i < bytes@.len() { bytes@[i] } else { old(self)@.data[i] },
                ),
                ..old(self)@
            }),
    {
        proof {
            use_type_invariant(&*self);
        }
        let n = if bytes.len() < self.data.len() {
            bytes.len()
        } else {
            self.data.len()
        };
        let ghost d0 = self.data@;
        let ghost s0 = self@;
        let mut i: usize = 0;
        while i < n
            invariant
                i <= n,
                n <= bytes@.len(),
                n <= d0.len(),
                n == bytes@.len() || n == d0.len(),
                self.data@.len() == d0.len(),
                save_wf(self@),
                self@ == (SaveView { data: self.data@, ..s0 }),
                forall|j: int|
                    0 <= j < d0.len() ==> #[trigger] self.data@[j] == if j < i {
                        bytes@[j]
                    } else {
                        d0[j]
                    },
            decreases n - i,
        {
            self.data[i] = bytes[i];
            i = i + 1;
        }
        proof {
            assert(self.data@ =~= Seq::new(
                d0.len(),
                |j: int| if j < bytes@.len() { bytes@[j] } else { d0[j] },
            ));
        }
    }

    pub fn read(&self, addr: u32) -> (r: u8)
        ensures
            r == save_read(self@, addr),
    {
        proof {
            use_type_invariant(self);
        }
        match self.kind {
            SaveType::NoSave => 0xFF,
            SaveType::Sram => {
                assert((addr & 0x7FFF) < 0x8000) by {
                    crate::bits::lemma_bit_facts();
                }
                self.data[(addr & 0x7FFF) as usize]
            },
            _ => {
                let off = addr & 0xFFFF;
                assert(off < 0x10000) by (bit_vector)
                    requires off == addr & 0xFFFF;
                if self.id_mode {
                    if off == 0 {
                        self.man_id
                    } else if off == 1 {
                        self.dev_id
                    } else {
                        0xFF
                    }
                } else {
                    self.data[self.bank * 0x10000 + off as usize]
                }
            },
        }
    }

    pub fn write(&mut self, addr: u32, value: u8)
        ensures
            final(self)@ == save_write(old(self)@, addr, value),
    {
        proof {
            use_type_invariant(&*self);
        }
        match self.kind {
            SaveType::NoSave => {},
            SaveType::Sram => {
                assert((addr & 0x7FFF) < 0x8000) by {
                    crate::bits::lemma_bit_facts();
                }
                self.data[(addr & 0x7FFF) as usize] = value;
            },
            _ => self.flash_write(addr, value),
        }
    }

    fn flash_write(&mut self, addr: u32, value: u8)
        requires
            old(self)@.kind == SaveType::Flash64 || old(self)@.kind == SaveType::Flash128,
        ensures
            final(self)@ == flash_write(old(self)@, addr, value),
    {
        proof {
            use_type_invariant(&*self);
        }
        let off = addr & 0xFFFF;
        assert(off < 0x10000) by (bit_vector)
            requires off == addr & 0xFFFF;
        if self.write_armed {
            let i = self.bank * 0x10000 + off as usize;
            let b = self.data[i] & value;
            self.data[i] = b;
            self.write_armed = false;
            self.cmd_step = 0;
            return;
        }
        if self.bank_armed {
            if off == 0 {
                let nb = (value & 1) as usize;
                assert(value & 1 <= 1) by {
                    crate::bits::lemma_bit_facts();
                }
                if self.kind == SaveType::Flash128 {
                    self.bank = nb;
                } else {
                    // Only the 128 KiB part arms a bank switch.
                    assert(false);
                }
            }
            self.bank_armed = false;
            self.cmd_step = 0;
            return;
        }
        if self.cmd_step == 0 && off == 0x5555 && value == 0xAA {
            self.cmd_step = 1;
        } else if self.cmd_step == 1 && off == 0x2AAA && value == 0x55 {
            self.cmd_step = 2;
        } else if self.cmd_step == 2 {
            if off == 0x5555 {
                self.flash_command(value);
            } else if self.erase_armed && value == 0x30 {
                assert((off & 0xF000) <= 0xF000) by {
                    crate::bits::lemma_bit_facts();
                }
                let base = self.bank * 0x10000 + (off & 0xF000) as usize;
                let ghost d0 = self.data@;
                let ghost s0 = self@;
                let mut k: usize = 0;
                while k < 0x1000
                    invariant
                        k <= 0x1000,
                        save_wf(self@),
                        self@ == (SaveView { data: self.data@, ..s0 }),
                        base + 0x1000 <= d0.len(),
                        self.data@.len() == d0.len(),
                        forall|j: int|
                            0 <= j < d0.len() ==> #[trigger] self.data@[j] == if base <= j < base
                                + k {
                                0xFFu8
                            } else {
                                d0[j]
                            },
                    decreases 0x1000 - k,
                {
                    self.data[base + k] = 0xFF;
                    k = k + 1;
                }
                self.erase_armed = false;
                proof {
                    let expect = Seq::new(
                        d0.len(),
                        |i: int| if base <= i < base + 0x1000 { 0xFFu8 } else { d0[i] },
                    );
                    assert(self.data@ =~= expect);
                }
            }
            self.cmd_step = 0;
        } else {
            self.cmd_step = 0;
        }
    }

    fn flash_command(&mut self, cmd: u8)
        requires
            save_wf(old(self)@),
        ensures
            final(self)@ == flash_command(old(self)@, cmd),
    {
        if cmd == 0x90 {
            self.id_mode = true;
        } else if cmd == 0xF0 {
            self.id_mode = false;
        } else if cmd == 0x80 {
            self.erase_armed = true;
        } else if cmd == 0xA0 {
            self.write_armed = true;
        } else if cmd == 0xB0 && self.kind == SaveType::Flash128 {
            self.bank_armed = true;
        } else if cmd == 0x10 && self.erase_armed {
            let n = self.data.len();
            let ghost d0 = self.data@;
            let ghost s0 = self@;
            let mut k: usize = 0;
            while k < n
                invariant
                    k <= n,
                    save_wf(self@),
                    self@ == (SaveView { data: self.data@, ..s0 }),
                    n == d0.len(),
                    self.data@.len() == n,
                    forall|j: int| 0 <= j < n ==> #[trigger] self.data@[j] == if j < k {
                        0xFFu8
                    } else {
                        d0[j]
                    },
                decreases n - k,
            {
                self.data[k] = 0xFF;
                k = k + 1;
            }
            self.erase_armed = false;
            assert(self.data@ =~= Seq::new(n as nat, |i: int| 0xFFu8));
        }
    }
}

// ---- laws of save memory ----

/// SRAM reads back the byte last written to the same (mirrored) address.
pub proof fn lemma_sram_read_after_write(s: SaveView, addr: u32, value: u8)
    requires
        save_wf(s),
        s.kind == SaveType::Sram,
    ensures
        save_read(save_write(s, addr, value), addr) == value,
{
    assert((addr & 0x7FFF) < 0x8000) by {
        crate::bits::lemma_bit_facts();
    }
}

/// The flash byte-program sequence (0xAA→0x5555, 0x55→0x2AAA, 0xA0→0x5555,
/// then the byte) stores `old & value`: programming can only clear bits, and
/// no other byte changes.
pub proof fn lemma_flash_program_clears_bits(s: SaveView, addr: u32, value: u8)
    requires
        save_wf(s),
        s.kind == SaveType::Flash64 || s.kind == SaveType::Flash128,
        s.cmd_step == 0,
        !s.write_armed,
        !s.bank_armed,
    ensures
        ({
            let s1 = save_write(s, 0x5555, 0xAA);
            let s2 = save_write(s1, 0x2AAA, 0x55);
            let s3 = save_write(s2, 0x5555, 0xA0);
            let s4 = save_write(s3, addr, value);
            let i = flash_index(s, addr);
            &&& s4.data == s.data.update(i, s.data[i] & value)
            &&& !s.id_mode ==> save_read(s4, addr) == s.data[i] & value
            &&& s4.cmd_step == 0 && !s4.write_armed
        }),
{
    assert(0x5555u32 & 0xFFFF == 0x5555) by {
        crate::bits::lemma_bit_facts();
    }
    assert(0x2AAAu32 & 0xFFFF == 0x2AAA) by {
        crate::bits::lemma_bit_facts();
    }
    assert((addr & 0xFFFF) < 0x10000) by {
        crate::bits::lemma_bit_facts();
    }
}

/// Reading the chip ID after the ID-mode command returns the manufacturer
/// and device codes.
pub proof fn lemma_flash_id_mode(s: SaveView)
    requires
        save_wf(s),
        s.kind == SaveType::Flash64 || s.kind == SaveType::Flash128,
        s.cmd_step == 0,
        !s.write_armed,
        !s.bank_armed,
    ensures
        ({
            let s1 = save_write(s, 0x5555, 0xAA);
            let s2 = save_write(s1, 0x2AAA, 0x55);
            let s3 = save_write(s2, 0x5555, 0x90);
            save_read(s3, 0) == s.man_id && save_read(s3, 1) == s.dev_id
        }),
{
    assert(0x5555u32 & 0xFFFF == 0x5555) by {
        crate::bits::lemma_bit_facts();
    }
    assert(0x2AAAu32 & 0xFFFF == 0x2AAA) by {
        crate::bits::lemma_bit_facts();
    }
    assert(0u32 & 0xFFFF == 0 && 1u32 & 0xFFFF == 1) by {
        crate::bits::lemma_bit_facts();
    }
}

} // verus!
