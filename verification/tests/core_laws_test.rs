//! Concrete checks of the library's laws and edge cases: memory read-back,
//! error variants, save memory, BIOS services, audio timing, timers, DMA and
//! save-state framing.

use gba_core::apu::Apu;
use gba_core::bios;
use gba_core::memory::Bus;
use gba_core::save::{detect, Save, SaveType};
use gba_core::system::{frame_state, split_state};
use gba_core::{CoreError, Cpu, Gba, Memory, Mode};

fn blank() -> Memory {
    Memory::new(vec![0; 0x100]).unwrap()
}

fn program(words: &[u32]) -> Memory {
    let mut bytes = Vec::new();
    for w in words {
        bytes.extend_from_slice(&w.to_le_bytes());
    }
    Memory::new(bytes).unwrap()
}

/// Run HLE SWI `number` with registers set by `setup`, returning the CPU and
/// memory afterwards.
fn swi(number: u8, mem: Memory, setup: impl FnOnce(&mut Cpu)) -> (Cpu, Memory) {
    let mut m = mem;
    let mut cpu = Cpu::new();
    cpu.skip_bios(&mut m);
    setup(&mut cpu);
    bios::hle_swi(&mut cpu, &mut m, number);
    (cpu, m)
}

// ------------------------------------------------------------------ memory

#[test]
fn ewram_and_iwram_read_back_every_width() {
    let mut m = blank();
    m.write32(0x0200_0100, 0xDEAD_BEEF);
    assert_eq!(m.read32(0x0200_0100), 0xDEAD_BEEF);
    m.write16(0x0300_0200, 0xCAFE);
    assert_eq!(m.read16(0x0300_0200), 0xCAFE);
    m.write8(0x0300_0203, 0x5A);
    assert_eq!(m.read8(0x0300_0203), 0x5A);
    // EWRAM mirrors every 256 KiB.
    assert_eq!(m.read32(0x0204_0100), 0xDEAD_BEEF);
}

#[test]
fn rom_and_bios_ignore_writes() {
    let mut m = program(&[0x1122_3344]);
    m.write32(0x0800_0000, 0);
    assert_eq!(m.read32(0x0800_0000), 0x1122_3344);
    m.write32(0x0000_0000, 0xFFFF_FFFF);
    assert_eq!(m.read32(0x0000_0000), 0);
}

#[test]
fn rom_too_large_reports_its_size() {
    match Memory::new(vec![0; 0x200_0001]) {
        Err(CoreError::RomTooLarge { size, max }) => {
            assert_eq!(size, 0x200_0001);
            assert_eq!(max, 0x200_0000);
        }
        _ => panic!("expected RomTooLarge"),
    }
    // Exactly 32 MiB still fits.
    assert!(Memory::new(vec![0; 0x200_0000]).is_ok());
}

#[test]
fn bios_of_the_wrong_size_is_rejected() {
    let mut m = blank();
    match m.load_bios(vec![0; 100]) {
        Err(e) => {
            assert!(matches!(e, CoreError::BadBiosSize { size: 100, expected: 0x4000 }));
            let text = e.to_string();
            assert!(text.contains("BIOS is 100 bytes"), "got {text}");
            assert!(text.contains("expected exactly 16384"), "got {text}");
        }
        Ok(()) => panic!("a 100-byte BIOS must be refused"),
    }
    assert!(!m.has_bios());
    assert!(m.load_bios(vec![0; 0x4000]).is_ok());
    assert!(m.has_bios());
}

#[test]
fn save_state_error_text_names_the_cause() {
    let e = CoreError::SaveState(String::from("truncated"));
    assert_eq!(e.to_string(), "save state: truncated");
    let big = Memory::new(vec![0; 0x200_0001]).map(|_| ()).unwrap_err();
    assert_eq!(
        big.to_string(),
        "ROM is 33554433 bytes, exceeding the 33554432-byte cartridge limit"
    );
    let empty = CoreError::BadBiosSize { size: 0, expected: 0x4000 };
    assert_eq!(empty.to_string(), "BIOS is 0 bytes, expected exactly 16384");
}

#[test]
fn vram_upper_window_mirrors_the_obj_area() {
    let mut m = blank();
    m.write16(0x0601_0000, 0x1234);
    // 0x0601_8000 lies past 96 KiB and mirrors 0x0601_0000.
    assert_eq!(m.read16(0x0601_8000), 0x1234);
}

#[test]
fn obj_vram_ignores_byte_writes() {
    let mut m = blank();
    m.write16(0x0601_0000, 0x1111);
    m.write8(0x0601_0000, 0xFF);
    assert_eq!(m.read16(0x0601_0000), 0x1111);
}

#[test]
fn io_scratch_registers_read_back_and_keyinput_is_read_only() {
    let mut m = blank();
    m.write16(0x0400_00A8, 0x4321);
    assert_eq!(m.read16(0x0400_00A8), 0x4321);
    m.write16(0x0400_0130, 0);
    assert_eq!(m.read16(0x0400_0130), 0x03FF);
    m.set_keys(0x0001); // A pressed
    assert_eq!(m.read16(0x0400_0130), 0x03FE);
}

#[test]
fn access_cycles_are_drained_once() {
    let mut m = blank();
    m.read32(0x0200_0000); // EWRAM word: 6 cycles
    assert_eq!(m.take_access_cycles(), 6);
    assert_eq!(m.take_access_cycles(), 0);
}

// ------------------------------------------------------------- save memory

#[test]
fn sram_reads_back_and_replicates_on_wide_reads() {
    let mut m = blank();
    m.write8(0x0E00_0010, 0x5A);
    assert_eq!(m.read8(0x0E00_0010), 0x5A);
    assert_eq!(m.read16(0x0E00_0010), 0x5A5A);
    assert_eq!(m.save_data()[0x10], 0x5A);
}

#[test]
fn save_type_detection_prefers_flash1m() {
    assert!(matches!(detect(b"xxFLASH1M_V103"), SaveType::Flash128));
    assert!(matches!(detect(b"FLASH512_V131"), SaveType::Flash64));
    assert!(matches!(detect(b"SRAM_V113"), SaveType::Sram));
    assert!(matches!(detect(b"nothing here"), SaveType::Sram));
    let mut rom = vec![0u8; 0x100];
    rom[0x40..0x49].copy_from_slice(b"FLASH1M_V");
    let m = Memory::new(rom).unwrap();
    assert_eq!(m.save_data().len(), 0x20000);
}

#[test]
fn flash_reports_its_id_in_id_mode() {
    let mut s = Save::new(SaveType::Flash128);
    s.write(0x0E00_5555, 0xAA);
    s.write(0x0E00_2AAA, 0x55);
    s.write(0x0E00_5555, 0x90);
    assert_eq!(s.read(0x0E00_0000), 0x62);
    assert_eq!(s.read(0x0E00_0001), 0x13);
}

#[test]
fn flash_program_only_clears_bits() {
    let mut s = Save::new(SaveType::Flash64);
    for v in [0xF0u8, 0x3C] {
        s.write(0x0E00_5555, 0xAA);
        s.write(0x0E00_2AAA, 0x55);
        s.write(0x0E00_5555, 0xA0);
        s.write(0x0E00_0123, v);
    }
    assert_eq!(s.read(0x0E00_0123), 0xF0 & 0x3C);
}

#[test]
fn load_save_data_replaces_the_prefix() {
    let mut g = Gba::new(vec![0; 0x100]).unwrap();
    g.load_save_data(&[1, 2, 3]);
    assert_eq!(&g.save_data()[..4], &[1, 2, 3, 0xFF]);
}

// -------------------------------------------------------------------- BIOS

#[test]
fn isqrt_is_exact() {
    assert_eq!(bios::isqrt(0), 0);
    assert_eq!(bios::isqrt(15), 3);
    assert_eq!(bios::isqrt(16), 4);
    assert_eq!(bios::isqrt(u32::MAX), 0xFFFF);
    for v in [1u32, 2, 3, 99, 100, 101, 65535, 65536, 1 << 31, 0xFFFE_0001] {
        let r = bios::isqrt(v) as u64;
        assert!(r * r <= v as u64 && (v as u64) < (r + 1) * (r + 1), "isqrt({v}) = {r}");
    }
}

#[test]
fn div_of_int_min_by_minus_one_wraps() {
    let (cpu, _) = swi(0x06, blank(), |cpu| {
        cpu.set_reg(0, 0x8000_0000);
        cpu.set_reg(1, 0xFFFF_FFFF);
    });
    assert_eq!(cpu.reg(0), 0x8000_0000);
    assert_eq!(cpu.reg(1), 0);
    assert_eq!(cpu.reg(3), 0x8000_0000);
}

#[test]
fn div_remainder_takes_the_numerator_sign() {
    let (cpu, _) = swi(0x06, blank(), |cpu| {
        cpu.set_reg(0, 7);
        cpu.set_reg(1, (-2i32) as u32);
    });
    assert_eq!(cpu.reg(0) as i32, -3);
    assert_eq!(cpu.reg(1) as i32, 1);
    assert_eq!(cpu.reg(3), 3);
}

#[test]
fn arctan_of_one_is_an_eighth_turn() {
    let (cpu, _) = swi(0x09, blank(), |cpu| cpu.set_reg(0, 0x4000));
    assert_eq!(cpu.reg(0), 0x2000);
    let (cpu, _) = swi(0x09, blank(), |cpu| cpu.set_reg(0, (-0x4000i32) as u32));
    assert_eq!(cpu.reg(0) as i32, -0x2000);
    let (cpu, _) = swi(0x09, blank(), |cpu| cpu.set_reg(0, 0));
    assert_eq!(cpu.reg(0), 0);
    // Beyond |tan| = 1 the angle keeps growing toward a quarter turn.
    let (cpu, _) = swi(0x09, blank(), |cpu| cpu.set_reg(0, 0x7FFF));
    let a = cpu.reg(0) as i32;
    assert!((0x2D00..0x2E00).contains(&a), "got {a:#X}");
}

#[test]
fn arctan2_axes_hit_the_quarter_turns() {
    let cases = [
        (0x4000u32, 0u32, 0u32),
        (0, 0x4000, 0x4000),
        ((-0x4000i32) as u32, 0, 0x8000),
        (0, (-0x4000i32) as u32, 0xC000),
    ];
    for (x, y, want) in cases {
        let (cpu, _) = swi(0x0A, blank(), |cpu| {
            cpu.set_reg(0, x);
            cpu.set_reg(1, y);
        });
        assert_eq!(cpu.reg(0), want, "atan2({y:#X}, {x:#X})");
    }
}

#[test]
fn lz77_decodes_literals_and_overlapping_references() {
    let mut m = blank();
    // Header: type 0x10, size 9. Flags 0x10: three literals, then a
    // reference of 6 bytes, 3 back ("ABC" repeated).
    m.write32(0x0200_0000, 0x0000_0910);
    for (i, b) in [0x10u8, b'A', b'B', b'C', 0x30, 0x02].iter().enumerate() {
        m.write8(0x0200_0004 + i as u32, *b);
    }
    let (_, mut m) = swi(0x11, m, |cpu| {
        cpu.set_reg(0, 0x0200_0000);
        cpu.set_reg(1, 0x0200_0100);
    });
    let out: Vec<u8> = (0..9).map(|i| m.read8(0x0200_0100 + i)).collect();
    assert_eq!(out, b"ABCABCABC");
}

#[test]
fn rl_uncomp_expands_runs_and_literals() {
    let mut m = blank();
    m.write32(0x0200_0000, 0x0000_0530); // type 0x30, size 5
    for (i, b) in [0x81u8, b'A', 0x00, b'B'].iter().enumerate() {
        m.write8(0x0200_0004 + i as u32, *b);
    }
    let (_, mut m) = swi(0x14, m, |cpu| {
        cpu.set_reg(0, 0x0200_0000);
        cpu.set_reg(1, 0x0200_0100);
    });
    let out: Vec<u8> = (0..5).map(|i| m.read8(0x0200_0100 + i)).collect();
    assert_eq!(out, b"AAAAB");
}

#[test]
fn diff8_unfilter_accumulates() {
    let mut m = blank();
    m.write32(0x0200_0000, 0x0000_0481); // size 4
    m.write32(0x0200_0004, 0x0101_0101);
    let (_, mut m) = swi(0x16, m, |cpu| {
        cpu.set_reg(0, 0x0200_0000);
        cpu.set_reg(1, 0x0200_0100);
    });
    assert_eq!(m.read32(0x0200_0100), 0x0403_0201);
}

#[test]
fn bit_unpack_widens_units() {
    let mut m = blank();
    m.write8(0x0200_0000, 0b0001_1011); // 2-bit units 3, 2, 1, 0
    // Parameter block: length 1, 2-bit source, 8-bit destination, offset 0.
    m.write16(0x0200_0010, 1);
    m.write8(0x0200_0012, 2);
    m.write8(0x0200_0013, 8);
    m.write32(0x0200_0014, 0);
    let (_, mut m) = swi(0x10, m, |cpu| {
        cpu.set_reg(0, 0x0200_0000);
        cpu.set_reg(1, 0x0200_0100);
        cpu.set_reg(2, 0x0200_0010);
    });
    assert_eq!(m.read32(0x0200_0100), 0x0001_0203);
}

#[test]
fn cpu_fast_set_rounds_up_to_eight_words() {
    let mut m = blank();
    m.write32(0x0200_0000, 0x1234_5678);
    let (_, mut m) = swi(0x0C, m, |cpu| {
        cpu.set_reg(0, 0x0200_0000);
        cpu.set_reg(1, 0x0200_0100);
        cpu.set_reg(2, 1 | 1 << 24); // one word, fill
    });
    for i in 0..8 {
        assert_eq!(m.read32(0x0200_0100 + i * 4), 0x1234_5678);
    }
    assert_eq!(m.read32(0x0200_0120), 0);
}

#[test]
fn soft_reset_reenters_the_cartridge() {
    let (cpu, mut m) = swi(0x00, program(&[0xEAFF_FFFE]), |cpu| cpu.set_reg(0, 7));
    assert_eq!(cpu.pc(), 0x0800_0000);
    assert_eq!(m.read32(0x0300_7E00), 0);
}

#[test]
fn unknown_swi_leaves_the_cpu_alone() {
    let (cpu, _) = swi(0x0E, blank(), |cpu| cpu.set_reg(0, 42));
    assert_eq!(cpu.reg(0), 42);
    assert!(!cpu.is_halted());
}

// ------------------------------------------------------------------- audio

#[test]
fn one_stereo_frame_per_sample_period() {
    let mut apu = Apu::new();
    apu.tick(511);
    assert_eq!(apu.buffered_frames(), 0);
    apu.tick(1);
    assert_eq!(apu.buffered_frames(), 1);
    apu.tick(512 * 10);
    assert_eq!(apu.buffered_frames(), 11);
    // Silent while the master enable is off.
    assert!(apu.drain_samples().iter().all(|&s| s == 0));
    assert_eq!(apu.buffered_frames(), 0);
}

#[test]
fn master_disable_clears_the_channel_status() {
    let mut apu = Apu::new();
    apu.write16(0x84, 0x80);
    apu.write16(0x62, 0xF080);
    apu.write16(0x64, 0x8780);
    assert_eq!(apu.read16(0x84), 0x81);
    apu.write16(0x84, 0);
    assert_eq!(apu.read16(0x84), 0);
}

#[test]
fn fifo_plays_samples_in_order() {
    let mut apu = Apu::new();
    apu.write16(0x84, 0x80);
    apu.write16(0x82, 0x0304); // DSA both sides at 100%, timer 0
    apu.write16(0xA0, 0x7F00); // low byte 0x00 first, then 0x7F
    apu.on_timer_overflow(0);
    apu.tick(512);
    apu.on_timer_overflow(0);
    apu.tick(512);
    assert_eq!(apu.drain_samples(), vec![0, 0, 0x7F * 32, 0x7F * 32]);
    assert!(apu.fifo_needs_dma(0));
}

#[test]
fn fifo_drops_bytes_beyond_its_depth() {
    let mut apu = Apu::new();
    for _ in 0..20 {
        apu.write16(0xA4, 0x0101);
    }
    assert!(!apu.fifo_needs_dma(1));
    // 40 bytes were offered; only 32 fit, so 16 pops leave it half full.
    for _ in 0..15 {
        apu.on_timer_overflow(0);
    }
    assert!(!apu.fifo_needs_dma(1));
    apu.on_timer_overflow(0);
    assert!(apu.fifo_needs_dma(1));
}

#[test]
fn wave_ram_reads_back_bytes_and_halfwords() {
    let mut apu = Apu::new();
    apu.write16(0x90, 0xBEEF);
    assert_eq!(apu.read16(0x90), 0xBEEF);
    apu.write8(0x93, 0x12);
    assert_eq!(apu.read8(0x93), 0x12);
}

// ------------------------------------------------------------------ timers

#[test]
fn batched_timer_ticks_lose_no_overflow() {
    let mut m = blank();
    m.write16(0x0400_0100, 0xFF00); // reload: 256 counts per overflow
    m.write16(0x0400_0102, 0xC0); // enable + IRQ, prescaler 1
    m.tick(256 * 5 + 3);
    assert_eq!(m.read16(0x0400_0100), 0xFF03);
    assert_eq!(m.read16(0x0400_0202) & 0x0008, 0x0008);
}

#[test]
fn prescaler_remainder_carries_between_ticks() {
    let mut m = blank();
    m.write16(0x0400_0100, 0);
    m.write16(0x0400_0102, 0x81); // prescaler 64
    for _ in 0..4 {
        m.tick(32);
    }
    assert_eq!(m.read16(0x0400_0100), 2);
}

// --------------------------------------------------------------------- DMA

#[test]
fn dma_count_zero_means_the_maximum() {
    let mut m = blank();
    m.write16(0x0200_0000 + 0x3FFF * 2, 0xABCD);
    m.write32(0x0400_00B0, 0x0200_0000);
    m.write32(0x0400_00B4, 0x0201_0000);
    m.write32(0x0400_00B8, 0x8000 << 16); // count 0, halfwords, immediate
    m.tick(0);
    assert_eq!(m.read16(0x0201_0000 + 0x3FFF * 2), 0xABCD);
}

// --------------------------------------------------------------------- CPU

fn run_program(words: &[u32], steps: usize) -> (Cpu, Memory) {
    let mut m = program(words);
    let mut cpu = Cpu::new();
    cpu.skip_bios(&mut m);
    for _ in 0..steps {
        cpu.step(&mut m);
    }
    (cpu, m)
}

#[test]
fn msr_cannot_flip_the_thumb_bit() {
    let (cpu, _) = run_program(
        &[
            0xE3A000FF, // mov r0, #0xFF   ; System mode bits with T set
            0xE121F000, // msr cpsr_c, r0
        ],
        2,
    );
    assert!(!cpu.is_thumb());
    assert_eq!(cpu.mode(), Mode::System);
    assert_eq!(cpu.cpsr() & 0xFF, 0xDF);
}

#[test]
fn invalid_mode_write_keeps_the_mode() {
    let (cpu, _) = run_program(
        &[
            0xE3A0DA01, // mov sp, #0x1000
            0xE3A000C5, // mov r0, #0xC5   ; mode field 0x05 is no mode
            0xE121F000, // msr cpsr_c, r0
        ],
        3,
    );
    assert_eq!(cpu.mode(), Mode::System);
    assert_eq!(cpu.cpsr() & 0x1F, 0x1F);
    assert_eq!(cpu.reg(13), 0x1000);
}

// ------------------------------------------------------------------- video

#[test]
fn a_frame_takes_228_lines() {
    let mut m = blank();
    m.tick(1232 * 228);
    assert_eq!(m.vcount(), 0);
    assert!(m.take_frame_ready());
    assert!(!m.take_frame_ready());
}

#[test]
fn frame_converts_to_opaque_rgba() {
    // Pure red, pure white, black and a mid-tone (r=16, g=8, b=1).
    let frame = [0x001Fu16, 0x7FFF, 0x0000, (1 << 10) | (8 << 5) | 16];
    let rgba = gba_core::ppu::frame_to_rgba(&frame);
    assert_eq!(
        rgba,
        vec![255, 0, 0, 255, 255, 255, 255, 255, 0, 0, 0, 255, 132, 66, 8, 255]
    );
}

#[test]
fn booted_framebuffer_converts_to_a_full_canvas() {
    let g = Gba::new(vec![0; 0x100]).unwrap();
    let rgba = gba_core::ppu::frame_to_rgba(g.framebuffer());
    assert_eq!(rgba.len(), 240 * 160 * 4);
    assert!(rgba.chunks(4).all(|px| px[3] == 255));
}

// -------------------------------------------------------------- save state

#[test]
fn framed_state_splits_back() {
    let blob = frame_state(&[1, 2, 3], &[9, 8]);
    assert_eq!(blob, vec![3, 0, 0, 0, 1, 2, 3, 9, 8]);
    let end = split_state(&blob).unwrap();
    assert_eq!(end, 7);
    assert_eq!(&blob[4..end], &[1, 2, 3]);
    assert_eq!(&blob[end..], &[9, 8]);
}

#[test]
fn truncated_state_is_rejected() {
    for data in [&[1u8, 0][..], &[5, 0, 0, 0, 1, 2][..]] {
        match split_state(data) {
            Err(e) => assert_eq!(e.to_string(), "save state: truncated"),
            Ok(_) => panic!("a truncated state must be refused"),
        }
    }
}

#[test]
fn huffman_decodes_four_bit_symbols() {
    let mut m = blank();
    // Header: type 2, 4-bit symbols, size 2. Tree: a root whose two
    // children are leaves, symbol 1 on the left and 2 on the right.
    m.write32(0x0200_0000, 0x0000_0224);
    m.write32(0x0200_0004, 0x0201_C001);
    // Stream: one right turn, then left turns.
    m.write32(0x0200_0008, 0x8000_0000);
    let (_, mut m) = swi(0x13, m, |cpu| {
        cpu.set_reg(0, 0x0200_0000);
        cpu.set_reg(1, 0x0200_0100);
    });
    assert_eq!(m.read8(0x0200_0100), 0x12);
    assert_eq!(m.read8(0x0200_0101), 0x11);
    assert_eq!(m.read8(0x0200_0102), 0);
}

#[test]
fn diff16_unfilter_accumulates_halfwords() {
    let mut m = blank();
    m.write32(0x0200_0000, 0x0000_0482); // size 4
    m.write32(0x0200_0004, 0x0001_0001);
    let (_, mut m) = swi(0x18, m, |cpu| {
        cpu.set_reg(0, 0x0200_0000);
        cpu.set_reg(1, 0x0200_0100);
    });
    assert_eq!(m.read32(0x0200_0100), 0x0002_0001);
}

#[test]
fn soft_reset_with_the_ram_flag_reenters_ewram() {
    let mut m = program(&[0xEAFF_FFFE]);
    m.write8(0x0300_7FFA, 1);
    let (cpu, _) = swi(0x00, m, |_| {});
    assert_eq!(cpu.pc(), 0x0200_0000);
}
