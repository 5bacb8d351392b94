//! Picture Processing Unit: display timing (VBlank/HBlank/VCount interrupts)
//! and a scanline renderer for the text (tiled) backgrounds of modes 0–1 and
//! regular (non-affine) sprites.
//!
//! A scanline is 1232 cycles: 960 of HDraw then 272 of HBlank; 228 lines per
//! frame (160 visible + 68 of VBlank). [`Ppu::tick`] advances a per-cycle dot
//! counter and reports the HBlank, VBlank and VCount-match events. Each
//! visible line is rendered at the start of its HBlank, where real hardware
//! has finished drawing it.

use vstd::prelude::*;

verus! {

pub const SCREEN_W: usize = 240;
pub const SCREEN_H: usize = 160;
pub const DOTS_PER_LINE: u32 = 1232;
pub const HDRAW_DOTS: u32 = 960;
pub const TOTAL_LINES: u16 = 228;

/// Offset of OBJ tile data in VRAM and of the OBJ palette in palette RAM.
pub const OBJ_VRAM_BASE: usize = 0x10000;
pub const OBJ_PALETTE_BASE: usize = 0x200;

pub struct Ppu {
    /// Raw 16-bit register file, indexed by `(offset & 0x3F) >> 1`.
    regs: [u16; 48],
    /// Current scanline (0..228). Drives VCOUNT; not stored in `regs`.
    vcount: u16,
    /// Cycle within the current scanline (0..1232).
    dot: u32,
    /// 240×160 framebuffer in 15-bit BGR555 (bit 15 unused).
    framebuffer: Vec<u16>,
    /// Set when a full visible frame has been drawn (entering VBlank).
    frame_ready: bool,
}

/// The abstract PPU state.
pub ghost struct PpuView {
    pub regs: Seq<u16>,
    pub vcount: u16,
    pub dot: u32,
    pub framebuffer: Seq<u16>,
    pub frame_ready: bool,
}

impl View for Ppu {
    type V = PpuView;

    closed spec fn view(&self) -> PpuView {
        PpuView {
            regs: self.regs@,
            vcount: self.vcount,
            dot: self.dot,
            framebuffer: self.framebuffer@,
            frame_ready: self.frame_ready,
        }
    }
}

/// The PPU's invariant: a full framebuffer and a position inside the frame.
pub open spec fn ppu_wf(p: PpuView) -> bool {
    &&& p.regs.len() == 48
    &&& p.framebuffer.len() == SCREEN_W * SCREEN_H
    &&& p.vcount < TOTAL_LINES
    &&& p.dot < DOTS_PER_LINE
}

/// Events of a `tick`: interrupt bits to raise, and whether a VBlank / an
/// HBlank began (the DMA start triggers).
pub struct TickOutput {
    pub irqs: u16,
    pub vblank_start: bool,
    pub hblank_start: bool,
}

/// Live DISPSTAT: the writable enable/setting bits OR the computed status
/// bits (VBlank/HBlank/VCount-match), which are read-only.
pub open spec fn dispstat_value(p: PpuView) -> u16 {
    let d = p.regs[2];
    let vb: u16 = if 160 <= p.vcount < 227 { 1 } else { 0 };
    let hb: u16 = if p.dot >= HDRAW_DOTS { 2 } else { 0 };
    let vc: u16 = if p.vcount == d >> 8 { 4 } else { 0 };
    (d & 0xFF38) | vb | hb | vc
}

/// What a halfword register read returns.
pub open spec fn ppu_read16(p: PpuView, offset: u32) -> u16 {
    let r = offset & 0x3E;
    if r == 0x04 {
        dispstat_value(p)
    } else if r == 0x06 {
        p.vcount
    } else {
        p.regs[(r >> 1) as int]
    }
}

/// The state after a halfword register write.
pub open spec fn ppu_write16(p: PpuView, offset: u32, value: u16) -> PpuView {
    let r = offset & 0x3E;
    if r == 0x04 {
        // DISPSTAT: only the IRQ-enable bits (3–5) and the VCount setting
        // (8–15) are writable; the status bits are hardware-driven.
        PpuView { regs: p.regs.update(2, (p.regs[2] & !0xFF38u16) | (value & 0xFF38)), ..p }
    } else if r == 0x06 {
        // VCOUNT is read-only.
        p
    } else {
        PpuView { regs: p.regs.update((r >> 1) as int, value), ..p }
    }
}

/// One dot of display timing (without the rendering it triggers), from the
/// DISPSTAT setting `d`, the line `v`, the dot `dot` and the frame-ready flag:
/// the new line, dot, frame-ready flag and the interrupt bits it raises.
pub open spec fn timing_next(d: u16, v: u16, dot: u32, fr: bool) -> (u16, u32, bool, u16) {
    let dot = dot + 1;
    let h_irq: u16 = if dot == HDRAW_DOTS && d & 0x10 != 0 { 0x0002 } else { 0 };
    if dot >= DOTS_PER_LINE {
        let v = if v + 1 >= TOTAL_LINES { 0 } else { v + 1 };
        let vb = v == 160;
        let v_irq: u16 = if vb && d & 0x08 != 0 { 0x0001 } else { 0 };
        let c_irq: u16 = if v == d >> 8 && d & 0x20 != 0 { 0x0004 } else { 0 };
        (v as u16, 0, fr || vb, h_irq | v_irq | c_irq)
    } else {
        (v, dot as u32, fr, h_irq)
    }
}

/// One dot of display timing of the PPU state `p`.
pub open spec fn timing_step(p: PpuView) -> (u16, u32, bool, u16) {
    timing_next(p.regs[2], p.vcount, p.dot, p.frame_ready)
}

/// `n` dots of display timing: the final line, dot and frame-ready flag, the
/// union of the interrupt bits raised, and whether a VBlank or an HBlank
/// period began on the way.
pub open spec fn timing_run(d: u16, v: u16, dot: u32, fr: bool, n: nat) -> (u16, u32, bool, u16, bool, bool)
    decreases n,
{
    if n == 0 {
        (v, dot, fr, 0, false, false)
    } else {
        let r = timing_run(d, v, dot, fr, (n - 1) as nat);
        let t = timing_next(d, r.0, r.1, r.2);
        (
            t.0,
            t.1,
            t.2,
            r.3 | t.3,
            r.4 || (t.0 == 160 && r.1 + 1 >= DOTS_PER_LINE),
            r.5 || r.1 + 1 == HDRAW_DOTS,
        )
    }
}

/// The picture `fb` with line `ly` composited from the given registers and
/// memory, every other pixel kept.
pub open spec fn line_drawn(
    fb: Seq<u16>,
    regs: Seq<u16>,
    vram: Seq<u8>,
    palette: Seq<u8>,
    oam: Seq<u8>,
    ly: int,
) -> Seq<u16> {
    Seq::new(
        fb.len(),
        |i: int|
            if ly * SCREEN_W <= i < ly * SCREEN_W + SCREEN_W {
                composite_pixel(regs, vram, palette, oam, i - ly * SCREEN_W, ly)
            } else {
                fb[i]
            },
    )
}

/// The picture after `n` dots from `p`: each visible line whose HBlank
/// begins on the way is composited, as it stands, from `p`'s registers and
/// the given memory.
pub open spec fn frame_run(p: PpuView, vram: Seq<u8>, palette: Seq<u8>, oam: Seq<u8>, n: nat) -> Seq<u16>
    decreases n,
{
    if n == 0 {
        p.framebuffer
    } else {
        let prev = frame_run(p, vram, palette, oam, (n - 1) as nat);
        let r = timing_run(p.regs[2], p.vcount, p.dot, p.frame_ready, (n - 1) as nat);
        if r.1 + 1 == HDRAW_DOTS && r.0 < SCREEN_H {
            line_drawn(prev, p.regs, vram, palette, oam, r.0 as int)
        } else {
            prev
        }
    }
}

/// Display timing has a closed form: `n` dots after line `v`, dot `dot`,
/// the dot is `(dot + n) mod 1232` and the line is `v` plus the number of
/// whole lines elapsed, modulo 228.
pub proof fn lemma_timing_closed_form(d: u16, v: u16, dot: u32, fr: bool, n: nat)
    requires
        v < TOTAL_LINES,
        dot < DOTS_PER_LINE,
    ensures
        timing_run(d, v, dot, fr, n).1 == (dot + n) % (DOTS_PER_LINE as int),
        timing_run(d, v, dot, fr, n).0 == (v + (dot + n) / (DOTS_PER_LINE as int)) % (
        TOTAL_LINES as int),
    decreases n,
{
    if n > 0 {
        let m = (n - 1) as nat;
        lemma_timing_closed_form(d, v, dot, fr, m);
        let t: int = dot + m;
        let L: int = DOTS_PER_LINE as int;
        let T: int = TOTAL_LINES as int;
        vstd::arithmetic::div_mod::lemma_fundamental_div_mod(t, L);
        vstd::arithmetic::div_mod::lemma_fundamental_div_mod(t + 1, L);
        vstd::arithmetic::div_mod::lemma_mod_bound(t, L);
        if t % L == L - 1 {
            assert((t + 1) % L == 0 && (t + 1) / L == t / L + 1);
            vstd::arithmetic::div_mod::lemma_add_mod_noop(v + t / L, 1, T);
            vstd::arithmetic::div_mod::lemma_mod_bound(v + t / L, T);
            vstd::arithmetic::div_mod::lemma_small_mod(1, T as nat);
        } else {
            assert((t + 1) % L == t % L + 1 && (t + 1) / L == t / L);
        }
    }
}

/// The PPU at power-on: registers zero, at line 0, dot 0, no frame ready,
/// and a black picture.
pub open spec fn ppu_initial() -> PpuView {
    PpuView {
        regs: Seq::new(48, |i: int| 0u16),
        vcount: 0,
        dot: 0,
        frame_ready: false,
        framebuffer: Seq::new((SCREEN_W * SCREEN_H) as nat, |i: int| 0u16),
    }
}

/// A byte of a memory region, reading as 0 outside it.
pub open spec fn byte_at(data: Seq<u8>, i: int) -> u8 {
    if 0 <= i < data.len() { data[i] } else { 0 }
}

/// A little-endian halfword of a memory region.
pub open spec fn half_at(data: Seq<u8>, i: int) -> u16 {
    (byte_at(data, i) as u16) | ((byte_at(data, i + 1) as u16) << 8)
}

fn read_byte(data: &[u8], i: usize) -> (r: u8)
    ensures
        r == byte_at(data@, i as int),
{
    if i < data.len() {
        data[i]
    } else {
        0
    }
}

fn read_u16(data: &[u8], i: usize) -> (r: u16)
    requires
        i < 0x100_0000,
    ensures
        r == half_at(data@, i as int),
{
    let lo = read_byte(data, i);
    let hi = read_byte(data, i + 1);
    (lo as u16) | ((hi as u16) << 8)
}

/// Convert a 15-bit BGR555 color to 8-bit-per-channel RGB. Channels are
/// scaled from 5 to 8 bits by replicating their top bits.
pub open spec fn expand5(c: u8) -> u8 {
    ((c << 3) | (c >> 2)) as u8
}

pub fn bgr555_to_rgb888(color: u16) -> (r: (u8, u8, u8))
    ensures
        r == (
            expand5((color & 0x1F) as u8),
            expand5(((color >> 5) & 0x1F) as u8),
            expand5(((color >> 10) & 0x1F) as u8),
        ),
        // The scaling is exact at both ends of the range.
        color & 0x1F == 0x1F ==> r.0 == 255,
        color & 0x1F == 0 ==> r.0 == 0,
        (color >> 5) & 0x1F == 0x1F ==> r.1 == 255,
        (color >> 10) & 0x1F == 0x1F ==> r.2 == 255,
{
    let r = (color & 0x1F) as u8;
    let g = ((color >> 5) & 0x1F) as u8;
    let b = ((color >> 10) & 0x1F) as u8;
    assert(((0x1Fu8 << 3) | (0x1Fu8 >> 2)) == 255u8) by {
        crate::bits::lemma_bit_facts();
    }
    assert(((0u8 << 3) | (0u8 >> 2)) == 0u8) by {
        crate::bits::lemma_bit_facts();
    }
    (expand5_exec(r), expand5_exec(g), expand5_exec(b))
}

fn expand5_exec(c: u8) -> (r: u8)
    ensures
        r == expand5(c),
{
    (c << 3) | (c >> 2)
}

/// Byte `n` of the RGBA8888 image of a BGR555 frame: four bytes per pixel,
/// red, green, blue and an opaque alpha.
pub open spec fn rgba_byte(frame: Seq<u16>, n: int) -> u8 {
    let px = frame[n / 4];
    let k = n % 4;
    if k == 0 {
        expand5((px & 0x1F) as u8)
    } else if k == 1 {
        expand5(((px >> 5) & 0x1F) as u8)
    } else if k == 2 {
        expand5(((px >> 10) & 0x1F) as u8)
    } else {
        255
    }
}

/// Convert a BGR555 frame to row-major RGBA8888 bytes (what a canvas takes).
pub fn frame_to_rgba(frame: &[u16]) -> (r: Vec<u8>)
    requires
        frame@.len() * 4 <= usize::MAX,
    ensures
        r@ == Seq::new(frame@.len() * 4, |n: int| rgba_byte(frame@, n)),
{
    let mut out: Vec<u8> = Vec::with_capacity(frame.len() * 4);
    let mut i: usize = 0;
    while i < frame.len()
        invariant
            i <= frame@.len(),
            frame@.len() * 4 <= usize::MAX,
            out@ == Seq::new(i as nat * 4, |n: int| rgba_byte(frame@, n)),
        decreases frame@.len() - i,
    {
        let (r, g, b) = bgr555_to_rgb888(frame[i]);
        out.push(r);
        out.push(g);
        out.push(b);
        out.push(255);
        proof {
            let base = i as int * 4;
            assert(base / 4 == i && base % 4 == 0);
            assert((base + 1) / 4 == i && (base + 1) % 4 == 1);
            assert((base + 2) / 4 == i && (base + 2) % 4 == 2);
            assert((base + 3) / 4 == i && (base + 3) % 4 == 3);
            assert(out@ =~= Seq::new((i + 1) as nat * 4, |n: int| rgba_byte(frame@, n)));
        }
        i = i + 1;
    }
    out
}

// ---- background layers ----

/// Whether background `bg` is a text (tiled) layer in `mode`.
pub open spec fn is_text_bg(mode: u16, bg: int) -> bool {
    if mode == 0 {
        bg < 4
    } else if mode == 1 {
        bg < 2
    } else {
        false
    }
}

/// Width/height in tiles of a text background of screen-size code `size`.
pub open spec fn text_bg_tiles(size: u16) -> (int, int) {
    if size == 0 {
        (32, 32)
    } else if size == 1 {
        (64, 32)
    } else if size == 2 {
        (32, 64)
    } else {
        (64, 64)
    }
}

/// Background-space coordinates of screen pixel (x, ly) on text background
/// `bg` (scrolled and wrapped to the map size).
pub open spec fn text_bg_coords(regs: Seq<u16>, bg: int, x: int, ly: int) -> (int, int) {
    let cnt = regs[4 + bg];
    let (w_tiles, h_tiles) = text_bg_tiles((cnt >> 14) & 3);
    let hofs = (regs[8 + bg * 2] & 0x1FF) as int;
    let vofs = (regs[9 + bg * 2] & 0x1FF) as int;
    ((x + hofs) % (w_tiles * 8), (ly + vofs) % (h_tiles * 8))
}

/// Text background scrolling: screen pixel (x, ly) of background `bg`
/// samples background column x + BGnHOFS and row ly + BGnVOFS (the offsets'
/// low 9 bits), wrapping at the map's width and height in pixels: 256, or
/// 512 for the wide (size 1, 3) and tall (size 2, 3) maps.
pub proof fn lemma_text_bg_scroll(regs: Seq<u16>, bg: int, x: int, ly: int)
    requires
        0 <= bg < 4,
        regs.len() == 48,
    ensures
        ({
            let size = (regs[4 + bg] >> 14u16) & 3;
            let width: int = if size == 1 || size == 3 { 512 } else { 256 };
            let height: int = if size == 2 || size == 3 { 512 } else { 256 };
            let hofs = (regs[8 + 2 * bg] & 0x1FF) as int;
            let vofs = (regs[9 + 2 * bg] & 0x1FF) as int;
            text_bg_coords(regs, bg, x, ly) == ((x + hofs) % width, (ly + vofs) % height)
        }),
{
    let size = (regs[4 + bg] >> 14u16) & 3;
    assert(size <= 3) by {
        crate::bits::lemma_bit_facts();
    }
}

/// The screen-map entry covering background pixel (bgx, bgy): the 32×32
/// screenblock is selected first, then the entry within it.
pub open spec fn text_map_entry(regs: Seq<u16>, vram: Seq<u8>, bg: int, bgx: int, bgy: int) -> u16 {
    let cnt = regs[4 + bg];
    let screen_base = ((cnt >> 8) & 0x1F) as int * 0x800;
    let w_tiles = text_bg_tiles((cnt >> 14) & 3).0;
    let ty = bgy / 8;
    let tx = bgx / 8;
    let sb = tx / 32 + (ty / 32) * (w_tiles / 32);
    half_at(vram, screen_base + sb * 0x800 + ((ty % 32) * 32 + tx % 32) * 2)
}

/// The palette index at background pixel (bgx, bgy) given its map entry,
/// with the 4bpp sub-palette bank; index 0 is transparent.
pub open spec fn text_tile_index(regs: Seq<u16>, vram: Seq<u8>, bg: int, entry: u16, bgx: int, bgy: int) -> (int, int) {
    let cnt = regs[4 + bg];
    let char_base = ((cnt >> 2) & 3) as int * 0x4000;
    let tile = (entry & 0x3FF) as int;
    let fx = if entry & 0x400 != 0 { 7 - bgx % 8 } else { bgx % 8 };
    let fy = if entry & 0x800 != 0 { 7 - bgy % 8 } else { bgy % 8 };
    if cnt & 0x80 != 0 {
        (byte_at(vram, char_base + tile * 64 + fy * 8 + fx) as int, 0)
    } else {
        let byte = byte_at(vram, char_base + tile * 32 + fy * 4 + fx / 2);
        ((if fx % 2 == 0 { byte & 0xF } else { byte >> 4 }) as int, ((entry >> 12) & 0xF) as int)
    }
}

/// Tile flipping in a text background: with the horizontal-flip bit (bit 10
/// of the map entry) set, column `c` of a tile shows what column `7 - c`
/// shows unflipped; with the vertical-flip bit (bit 11) set, row `r` shows
/// unflipped row `7 - r`. Unflipped, pixel (c, r) of tile `t` is byte
/// `r * 8 + c` of its 64-byte tile at 256 colors, and at 16 colors the low
/// (even `c`) or high (odd `c`) nibble of byte `r * 4 + c / 2` of its
/// 32-byte tile, with the entry's bits 15:12 as the palette bank.
pub proof fn lemma_tile_flips(
    regs: Seq<u16>,
    vram: Seq<u8>,
    bg: int,
    entry: u16,
    tx: int,
    c: int,
    ty: int,
    r: int,
)
    requires
        0 <= bg < 4,
        regs.len() == 48,
        tx >= 0,
        ty >= 0,
        0 <= c < 8,
        0 <= r < 8,
    ensures
        ({
            let plain = entry & 0xF3FF;
            let hflip = plain | 0x400;
            let vflip = plain | 0x800;
            let cnt = regs[4 + bg];
            let char_base = ((cnt >> 2u16) & 3) as int * 0x4000;
            let tile = (plain & 0x3FF) as int;
            let byte4 = byte_at(vram, char_base + tile * 32 + r * 4 + c / 2);
            &&& text_tile_index(regs, vram, bg, hflip, 8 * tx + c, 8 * ty + r)
                == text_tile_index(regs, vram, bg, plain, 8 * tx + 7 - c, 8 * ty + r)
            &&& text_tile_index(regs, vram, bg, vflip, 8 * tx + c, 8 * ty + r)
                == text_tile_index(regs, vram, bg, plain, 8 * tx + c, 8 * ty + 7 - r)
            &&& cnt & 0x80 != 0 ==> text_tile_index(regs, vram, bg, plain, 8 * tx + c, 8 * ty + r)
                == (byte_at(vram, char_base + tile * 64 + r * 8 + c) as int, 0int)
            &&& cnt & 0x80 == 0 ==> text_tile_index(regs, vram, bg, plain, 8 * tx + c, 8 * ty + r)
                == ((if c % 2 == 0 { byte4 & 0xF } else { byte4 >> 4u8 }) as int, (
            plain >> 12u16) as int)
        }),
{
    let plain = entry & 0xF3FF;
    let hflip = plain | 0x400;
    let vflip = plain | 0x800;
    assert(({
        let p = entry & 0xF3FF;
        let h = p | 0x400;
        let v = p | 0x800;
        &&& p & 0x400 == 0 && p & 0x800 == 0
        &&& h & 0x400 != 0 && h & 0x800 == 0 && v & 0x400 == 0 && v & 0x800 != 0
        &&& h & 0x3FF == p & 0x3FF && v & 0x3FF == p & 0x3FF
        &&& (h >> 12) & 0xF == (p >> 12) & 0xF && (v >> 12) & 0xF == (p >> 12) & 0xF
        &&& (p >> 12) & 0xF == p >> 12
    })) by (bit_vector);
    vstd::arithmetic::div_mod::lemma_fundamental_div_mod_converse(8 * tx + c, 8, tx, c);
    vstd::arithmetic::div_mod::lemma_fundamental_div_mod_converse(8 * tx + 7 - c, 8, tx, 7 - c);
    vstd::arithmetic::div_mod::lemma_fundamental_div_mod_converse(8 * ty + r, 8, ty, r);
    vstd::arithmetic::div_mod::lemma_fundamental_div_mod_converse(8 * ty + 7 - r, 8, ty, 7 - r);
}

/// The palette index of text background `bg` at screen pixel (x, ly).
pub open spec fn text_bg_index(regs: Seq<u16>, vram: Seq<u8>, bg: int, x: int, ly: int) -> (int, int) {
    let (bgx, bgy) = text_bg_coords(regs, bg, x, ly);
    text_tile_index(regs, vram, bg, text_map_entry(regs, vram, bg, bgx, bgy), bgx, bgy)
}

/// The color of text background `bg` at (x, ly), or None where transparent.
pub open spec fn text_bg_color(regs: Seq<u16>, vram: Seq<u8>, palette: Seq<u8>, bg: int, x: int, ly: int) -> Option<u16> {
    let (idx, bank) = text_bg_index(regs, vram, bg, x, ly);
    let color8 = regs[4 + bg] & 0x80 != 0;
    if idx == 0 {
        None
    } else if color8 {
        Some(half_at(palette, idx * 2))
    } else {
        Some(half_at(palette, (bank * 16 + idx) * 2))
    }
}

/// Whether background `bg` takes part in the current picture.
pub open spec fn bg_shown(regs: Seq<u16>, bg: int) -> bool {
    regs[0] & (0x100u16 << bg as u16) != 0 && is_text_bg(regs[0] & 7, bg)
}

/// The front-most background pixel at (x, ly) among the shown backgrounds
/// whose index is at least `from` with priority `prio`, then all lower
/// priorities: (color, priority).
pub open spec fn bg_front_from(regs: Seq<u16>, vram: Seq<u8>, palette: Seq<u8>, x: int, ly: int, prio: int, from: int) -> Option<(u16, int)>
    decreases 4 - prio, 4 - from,
{
    if prio >= 4 {
        None
    } else if from >= 4 {
        bg_front_from(regs, vram, palette, x, ly, prio + 1, 0)
    } else if bg_shown(regs, from) && (regs[4 + from] & 3) as int == prio && text_bg_color(
        regs,
        vram,
        palette,
        from,
        x,
        ly,
    ) is Some {
        Some((text_bg_color(regs, vram, palette, from, x, ly).unwrap(), prio))
    } else {
        bg_front_from(regs, vram, palette, x, ly, prio, from + 1)
    }
}

/// Backgrounds composite front-to-back by (priority, index).
pub open spec fn bg_front(regs: Seq<u16>, vram: Seq<u8>, palette: Seq<u8>, x: int, ly: int) -> Option<(u16, int)> {
    bg_front_from(regs, vram, palette, x, ly, 0, 0)
}

/// Whether background `bg` is shown and has a non-transparent pixel at
/// (x, ly).
pub open spec fn bg_opaque(regs: Seq<u16>, vram: Seq<u8>, palette: Seq<u8>, bg: int, x: int, ly: int) -> bool {
    bg_shown(regs, bg) && text_bg_color(regs, vram, palette, bg, x, ly) is Some
}

/// Whether background `b` comes before position (prio, from) in the
/// (priority, index) order.
spec fn bg_passed(regs: Seq<u16>, b: int, prio: int, from: int) -> bool {
    (regs[4 + b] & 3) as int <= prio && ((regs[4 + b] & 3) as int != prio || b < from)
}

proof fn lemma_bg_front_from_order(regs: Seq<u16>, vram: Seq<u8>, palette: Seq<u8>, x: int, ly: int, prio: int, from: int)
    requires
        regs.len() == 48,
        0 <= prio,
        0 <= from,
    ensures
        match bg_front_from(regs, vram, palette, x, ly, prio, from) {
            None => forall|b: int|
                0 <= b < 4 && #[trigger] bg_opaque(regs, vram, palette, b, x, ly) ==> bg_passed(regs, b, prio, from),
            Some((col, p)) => exists|b: int|
                0 <= b < 4 && #[trigger] bg_opaque(regs, vram, palette, b, x, ly) && !bg_passed(regs, b, prio, from)
                    && (regs[4 + b] & 3) as int == p && text_bg_color(regs, vram, palette, b, x, ly)
                    == Some(col) && forall|c: int|
                    0 <= c < 4 && #[trigger] bg_opaque(regs, vram, palette, c, x, ly) && !bg_passed(
                        regs,
                        c,
                        prio,
                        from,
                    ) ==> (regs[4 + c] & 3) as int > p || ((regs[4 + c] & 3) as int == p && c >= b),
        },
    decreases 4 - prio, 4 - from,
{
    crate::bits::lemma_mask_bounds();
    if prio >= 4 {
    } else if from >= 4 {
        lemma_bg_front_from_order(regs, vram, palette, x, ly, prio + 1, 0);
        assert forall|b: int| 0 <= b < 4 implies bg_passed(regs, b, prio, from) == bg_passed(regs, b, prio + 1, 0) by {
        }
    } else if bg_shown(regs, from) && (regs[4 + from] & 3) as int == prio && text_bg_color(
        regs,
        vram,
        palette,
        from,
        x,
        ly,
    ) is Some {
        assert(bg_opaque(regs, vram, palette, from, x, ly));
    } else {
        lemma_bg_front_from_order(regs, vram, palette, x, ly, prio, from + 1);
        assert forall|b: int| 0 <= b < 4 && bg_opaque(regs, vram, palette, b, x, ly) implies bg_passed(regs, b, prio, from + 1) == bg_passed(regs, b, prio, from) by {
        }
    }
}

/// Background priority: the front-most background pixel is that of the
/// shown, non-transparent background with the lowest priority value
/// (BGnCNT bits 1:0), the lower-numbered background winning a tie; there is
/// none exactly where every shown background is transparent there.
pub proof fn lemma_bg_priority_order(regs: Seq<u16>, vram: Seq<u8>, palette: Seq<u8>, x: int, ly: int)
    requires
        regs.len() == 48,
    ensures
        bg_front(regs, vram, palette, x, ly) is None <==> forall|b: int|
            0 <= b < 4 ==> !#[trigger] bg_opaque(regs, vram, palette, b, x, ly),
        match bg_front(regs, vram, palette, x, ly) {
            None => true,
            Some((col, p)) => exists|b: int|
                0 <= b < 4 && #[trigger] bg_opaque(regs, vram, palette, b, x, ly) && (regs[4 + b] & 3) as int
                    == p && text_bg_color(regs, vram, palette, b, x, ly) == Some(col) && forall|c: int|
                    0 <= c < 4 && #[trigger] bg_opaque(regs, vram, palette, c, x, ly) ==> (regs[4 + c]
                        & 3) as int > p || ((regs[4 + c] & 3) as int == p && c >= b),
        },
{
    lemma_bg_front_from_order(regs, vram, palette, x, ly, 0, 0);
    crate::bits::lemma_mask_bounds();
    assert forall|b: int| 0 <= b < 4 implies !bg_passed(regs, b, 0, 0) by {
    }
}

// ---- sprites ----

/// Sprite width/height in pixels for (shape, size); None for the
/// prohibited shape 3.
pub open spec fn obj_dims(shape: u16, size: u16) -> Option<(int, int)> {
    if shape == 0 {
        Some(if size == 0 { (8, 8) } else if size == 1 { (16, 16) } else if size == 2 { (32, 32) } else { (64, 64) })
    } else if shape == 1 {
        Some(if size == 0 { (16, 8) } else if size == 1 { (32, 8) } else if size == 2 { (32, 16) } else { (64, 32) })
    } else if shape == 2 {
        Some(if size == 0 { (8, 16) } else if size == 1 { (8, 32) } else if size == 2 { (16, 32) } else { (32, 64) })
    } else {
        None
    }
}

/// The color and priority sprite `i` puts at (x, ly), if any: regular
/// (non-affine, not disabled) sprites only, with H/V wrap, flips, 4bpp/8bpp
/// tiles and 1D/2D tile mapping; palette index 0 is transparent.
pub open spec fn sprite_pixel(dispcnt: u16, vram: Seq<u8>, palette: Seq<u8>, oam: Seq<u8>, i: int, x: int, ly: int) -> Option<(u16, int)> {
    let attr0 = half_at(oam, i * 8);
    let attr1 = half_at(oam, i * 8 + 2);
    let attr2 = half_at(oam, i * 8 + 4);
    if attr0 & 0x100 != 0 || attr0 & 0x200 != 0 {
        // Affine sprites are not drawn; bit 9 disables a regular sprite.
        None
    } else {
        match obj_dims(attr0 >> 14, attr1 >> 14) {
            None => None,
            Some((w, h)) => {
                let dy = (ly - (attr0 & 0xFF) as int) % 256;
                let dx = (x - (attr1 & 0x1FF) as int) % 512;
                if dy >= h || dx >= w {
                    None
                } else {
                    sprite_texel(dispcnt, vram, palette, attr0, attr1, attr2, w, h, dx, dy)
                }
            },
        }
    }
}

/// The color and priority of the texel at (dx, dy) inside a sprite of
/// size w×h with the given attributes, if it is not transparent.
pub open spec fn sprite_texel(dispcnt: u16, vram: Seq<u8>, palette: Seq<u8>, attr0: u16, attr1: u16, attr2: u16, w: int, h: int, dx: int, dy: int) -> Option<(u16, int)> {
    let color8 = attr0 & 0x2000 != 0;
    let fx = if attr1 & 0x1000 != 0 { w - 1 - dx } else { dx };
    let fy = if attr1 & 0x2000 != 0 { h - 1 - dy } else { dy };
    let unit = if color8 { 2int } else { 1int };
    let row_stride = if dispcnt & 0x40 != 0 { (w / 8) * unit } else { 32 };
    let tile = ((attr2 & 0x3FF) as int + (fy / 8) * row_stride + (fx / 8) * unit) % 1024;
    let base = OBJ_VRAM_BASE + (tile * 32) % 0x8000;
    let idx: int = if color8 {
        byte_at(vram, base + (fy % 8) * 8 + fx % 8) as int
    } else {
        let byte = byte_at(vram, base + (fy % 8) * 4 + (fx % 8) / 2);
        (if fx % 2 == 0 { byte & 0xF } else { byte >> 4 }) as int
    };
    if idx == 0 {
        None
    } else {
        let entry = if color8 { idx } else { ((attr2 >> 12) as int) * 16 + idx };
        Some((half_at(palette, OBJ_PALETTE_BASE + entry * 2), ((attr2 >> 10) & 3) as int))
    }
}

/// The front-most sprite pixel at (x, ly) among sprites `from..128`: the
/// lowest OAM index wins overlaps.
pub open spec fn sprite_front_from(dispcnt: u16, vram: Seq<u8>, palette: Seq<u8>, oam: Seq<u8>, x: int, ly: int, from: int) -> Option<(u16, int)>
    decreases 128 - from,
{
    if from >= 128 {
        None
    } else if sprite_pixel(dispcnt, vram, palette, oam, from, x, ly) is Some {
        sprite_pixel(dispcnt, vram, palette, oam, from, x, ly)
    } else {
        sprite_front_from(dispcnt, vram, palette, oam, x, ly, from + 1)
    }
}

/// The color the display shows at (x, ly): forced blank is white; otherwise
/// the front-most sprite or background (a sprite wins a priority tie), over
/// the backdrop (palette entry 0).
pub open spec fn composite_pixel(regs: Seq<u16>, vram: Seq<u8>, palette: Seq<u8>, oam: Seq<u8>, x: int, ly: int) -> u16 {
    let dispcnt = regs[0];
    if dispcnt & 0x80 != 0 {
        0x7FFF
    } else {
        let bg = bg_front(regs, vram, palette, x, ly);
        let obj = if dispcnt & 0x1000 != 0 {
            sprite_front_from(dispcnt, vram, palette, oam, x, ly, 0)
        } else {
            None
        };
        match (obj, bg) {
            (Some((oc, op)), Some((bc, bp))) => if op <= bp { oc } else { bc },
            (Some((oc, _)), None) => oc,
            (None, Some((bc, _))) => bc,
            (None, None) => half_at(palette, 0),
        }
    }
}

impl Ppu {
    pub fn new() -> (r: Ppu)
        ensures
            r@ == ppu_initial(),
            ppu_wf(r@),
            r@.regs == Seq::new(48, |i: int| 0u16),
            r@.vcount == 0 && r@.dot == 0 && !r@.frame_ready,
            r@.framebuffer == Seq::new((SCREEN_W * SCREEN_H) as nat, |i: int| 0u16),
    {
        let fb = vec![0u16; SCREEN_W * SCREEN_H];
        let r = Ppu { regs: [0u16; 48], vcount: 0, dot: 0, framebuffer: fb, frame_ready: false };
        assert(r.regs@ =~= Seq::new(48, |i: int| 0u16));
        assert(r.framebuffer@ =~= Seq::new((SCREEN_W * SCREEN_H) as nat, |i: int| 0u16));
        r
    }

    /// The 15-bit BGR555 framebuffer (240×160, row-major).
    pub fn framebuffer(&self) -> (r: &[u16])
        ensures
            r@ == self@.framebuffer,
    {
        self.framebuffer.as_slice()
    }

    /// Take (and clear) the "a frame finished drawing" flag.
    pub fn take_frame_ready(&mut self) -> (r: bool)
        ensures
            r == old(self)@.frame_ready,
            final(self)@ == (PpuView { frame_ready: false, ..old(self)@ }),
    {
        let r = self.frame_ready;
        self.frame_ready = false;
        r
    }

    pub fn vcount(&self) -> (r: u16)
        ensures
            r == self@.vcount,
    {
        self.vcount
    }

    /// The background mode (DISPCNT bits 2:0).
    pub fn bg_mode(&self) -> (r: u16)
        ensures
            r == self@.regs[0] & 7,
    {
        self.regs[0] & 7
    }

    // ---- register access (0x000..0x060) ----

    pub fn read16(&self, offset: u32) -> (r: u16)
        requires
            ppu_wf(self@),
        ensures
            r == ppu_read16(self@, offset),
    {
        let r = offset & 0x3E;
        assert(r >> 1 < 32) by (bit_vector)
            requires r == offset & 0x3E;
        if r == 0x04 {
            let d = self.regs[2];
            let vb: u16 = if 160 <= self.vcount && self.vcount < 227 { 1 } else { 0 };
            let hb: u16 = if self.dot >= HDRAW_DOTS { 2 } else { 0 };
            let vc: u16 = if self.vcount == d >> 8 { 4 } else { 0 };
            (d & 0xFF38) | vb | hb | vc
        } else if r == 0x06 {
            self.vcount
        } else {
            self.regs[(r >> 1) as usize]
        }
    }

    pub fn write16(&mut self, offset: u32, value: u16)
        requires
            ppu_wf(old(self)@),
        ensures
            final(self)@ == ppu_write16(old(self)@, offset, value),
            ppu_wf(final(self)@),
    {
        let r = offset & 0x3E;
        assert(r >> 1 < 32) by (bit_vector)
            requires r == offset & 0x3E;
        if r == 0x04 {
            self.regs[2] = (self.regs[2] & !0xFF38u16) | (value & 0xFF38);
        } else if r == 0x06 {
        } else {
            self.regs[(r >> 1) as usize] = value;
        }
    }

    pub fn read8(&self, offset: u32) -> (r: u8)
        requires
            ppu_wf(self@),
        ensures
            r == crate::io::byte_of_half(ppu_read16(self@, offset & !1u32), offset),
    {
        let half = self.read16(offset & !1u32);
        crate::io::half_byte(half, offset)
    }

    pub fn write8(&mut self, offset: u32, value: u8)
        requires
            ppu_wf(old(self)@),
        ensures
            final(self)@ == ppu_write16(
                old(self)@,
                offset & !1u32,
                crate::io::merge_byte(ppu_read16(old(self)@, offset & !1u32), offset, value),
            ),
            ppu_wf(final(self)@),
    {
        let half = self.read16(offset & !1u32);
        let merged = crate::io::merge_half(half, offset, value);
        self.write16(offset & !1u32, merged);
    }

    pub fn read32(&self, offset: u32) -> (r: u32)
        requires
            ppu_wf(self@),
            offset <= 0xFFFF_FFFD,
        ensures
            r == (ppu_read16(self@, offset) as u32) | ((ppu_read16(self@, (offset + 2) as u32)
                as u32) << 16),
    {
        let lo = self.read16(offset);
        let hi = self.read16(offset + 2);
        (lo as u32) | ((hi as u32) << 16)
    }

    pub fn write32(&mut self, offset: u32, value: u32)
        requires
            ppu_wf(old(self)@),
            offset <= 0xFFFF_FFFD,
        ensures
            final(self)@ == ppu_write16(
                ppu_write16(old(self)@, offset, value as u16),
                (offset + 2) as u32,
                (value >> 16) as u16,
            ),
            ppu_wf(final(self)@),
    {
        self.write16(offset, value as u16);
        self.write16(offset + 2, (value >> 16) as u16);
    }

    // ---- timing ----

    /// Advance the PPU by `cycles`, rendering visible scanlines and returning
    /// the interrupt bits (VBlank/HBlank/VCount) to raise in `IF` and whether
    /// a VBlank or HBlank period began.
    pub fn tick(&mut self, cycles: u64, vram: &[u8], palette: &[u8], oam: &[u8]) -> (out: TickOutput)
        requires
            ppu_wf(old(self)@),
        ensures
            ppu_wf(final(self)@),
            final(self)@.regs == old(self)@.regs,
            ({
                let r = timing_run(
                    old(self)@.regs[2],
                    old(self)@.vcount,
                    old(self)@.dot,
                    old(self)@.frame_ready,
                    cycles as nat,
                );
                &&& final(self)@.vcount == r.0
                &&& final(self)@.dot == r.1
                &&& final(self)@.frame_ready == r.2
                &&& out.irqs == r.3
                &&& out.vblank_start == r.4
                &&& out.hblank_start == r.5
            }),
            out.irqs & 0xFFF8 == 0,
            final(self)@.framebuffer == frame_run(old(self)@, vram@, palette@, oam@, cycles as nat),
    {
        let mut irqs: u16 = 0;
        let mut vblank_start = false;
        let mut hblank_start = false;
        let mut n: u64 = 0;
        let ghost p0 = self@;
        assert(0u16 & 0xFFF8 == 0) by {
            crate::bits::lemma_bit_facts();
        }
        while n < cycles
            invariant
                ppu_wf(self@),
                self@.regs == p0.regs,
                p0 == old(self)@,
                n <= cycles,
                irqs & 0xFFF8 == 0,
                ({
                    let r = timing_run(p0.regs[2], p0.vcount, p0.dot, p0.frame_ready, n as nat);
                    &&& self@.vcount == r.0
                    &&& self@.dot == r.1
                    &&& self@.frame_ready == r.2
                    &&& irqs == r.3
                    &&& vblank_start == r.4
                    &&& hblank_start == r.5
                }),
                self@.framebuffer == frame_run(p0, vram@, palette@, oam@, n as nat),
            decreases cycles - n,
        {
            proof {
                let n1 = (n + 1) as nat;
                assert(((n1 - 1) as nat) == n as nat);
            }
            let (bits, vb, hb) = self.tick_one(vram, palette, oam);
            assert(irqs & 0xFFF8 == 0 && bits & 0xFFF8 == 0 ==> (irqs | bits) & 0xFFF8 == 0)
                by (bit_vector);
            irqs = irqs | bits;
            vblank_start = vblank_start || vb;
            hblank_start = hblank_start || hb;
            n = n + 1;
        }
        TickOutput { irqs, vblank_start, hblank_start }
    }

    /// One dot: timing, the HBlank render of a visible line, and the events.
    fn tick_one(&mut self, vram: &[u8], palette: &[u8], oam: &[u8]) -> (r: (u16, bool, bool))
        requires
            ppu_wf(old(self)@),
        ensures
            ppu_wf(final(self)@),
            final(self)@.regs == old(self)@.regs,
            ({
                let t = timing_step(old(self)@);
                &&& final(self)@.vcount == t.0 && final(self)@.dot == t.1
                &&& final(self)@.frame_ready == t.2
                &&& r.0 == t.3
                &&& r.1 == (t.0 == 160 && old(self)@.dot + 1 >= DOTS_PER_LINE)
                &&& r.2 == (old(self)@.dot + 1 == HDRAW_DOTS)
            }),
            r.0 & 0xFFF8 == 0,
            final(self)@.framebuffer == (if old(self)@.dot + 1 == HDRAW_DOTS && old(self)@.vcount
                < SCREEN_H {
                line_drawn(
                    old(self)@.framebuffer,
                    old(self)@.regs,
                    vram@,
                    palette@,
                    oam@,
                    old(self)@.vcount as int,
                )
            } else {
                old(self)@.framebuffer
            }),
            // The line finished at HBlank holds the composited picture.
            old(self)@.dot + 1 == HDRAW_DOTS && old(self)@.vcount < SCREEN_H ==> forall|x: int|
                0 <= x < SCREEN_W ==> #[trigger] final(self)@.framebuffer[old(self)@.vcount
                    * SCREEN_W + x] == composite_pixel(
                    old(self)@.regs,
                    vram@,
                    palette@,
                    oam@,
                    x,
                    old(self)@.vcount as int,
                ),
    {
        let d = self.regs[2];
        let ghost p0 = self@;
        self.dot = self.dot + 1;
        let hblank = self.dot == HDRAW_DOTS;
        let h_irq: u16 = if hblank && d & 0x10 != 0 { 0x0002 } else { 0 };
        if hblank {
            // Entering HBlank: the line is now fully "drawn".
            if self.vcount < SCREEN_H as u16 {
                self.render_scanline(self.vcount, vram, palette, oam);
                proof {
                    let ly = p0.vcount as int;
                    assert(self@.framebuffer =~= line_drawn(
                        p0.framebuffer,
                        p0.regs,
                        vram@,
                        palette@,
                        oam@,
                        ly,
                    )) by {
                        assert forall|i: int| 0 <= i < self@.framebuffer.len() implies self@.framebuffer[i]
                            == line_drawn(p0.framebuffer, p0.regs, vram@, palette@, oam@, ly)[i] by {
                            if ly * SCREEN_W <= i < ly * SCREEN_W + SCREEN_W {
                                let x = i - ly * SCREEN_W;
                                assert(self@.framebuffer[ly * SCREEN_W + x] == composite_pixel(
                                    p0.regs,
                                    vram@,
                                    palette@,
                                    oam@,
                                    x,
                                    ly,
                                ));
                            }
                        }
                    }
                }
            }
        }
        let mut vblank = false;
        let mut v_irq: u16 = 0;
        let mut c_irq: u16 = 0;
        if self.dot >= DOTS_PER_LINE {
            self.dot = 0;
            self.vcount = if self.vcount + 1 >= TOTAL_LINES { 0 } else { self.vcount + 1 };
            if self.vcount == SCREEN_H as u16 {
                vblank = true;
                self.frame_ready = true;
                if d & 0x08 != 0 {
                    v_irq = 0x0001;
                }
            }
            if self.vcount == d >> 8 && d & 0x20 != 0 {
                c_irq = 0x0004;
            }
        }
        let irqs = h_irq | v_irq | c_irq;
        assert(v_irq == 0 && c_irq == 0 ==> h_irq | v_irq | c_irq == h_irq) by {
            crate::bits::lemma_bit_facts();
        }
        assert((h_irq == 0 || h_irq == 2) && (v_irq == 0 || v_irq == 1) && (c_irq == 0 || c_irq
            == 4) ==> (h_irq | v_irq | c_irq) & 0xFFF8 == 0) by (bit_vector);
        (irqs, vblank, hblank)
    }

    // ---- rendering ----

    fn bg_coords(&self, bg: usize, x: usize, ly: usize) -> (r: (usize, usize))
        requires
            ppu_wf(self@),
            bg < 4,
            x < SCREEN_W,
            ly < SCREEN_H,
        ensures
            r.0 == text_bg_coords(self@.regs, bg as int, x as int, ly as int).0,
            r.1 == text_bg_coords(self@.regs, bg as int, x as int, ly as int).1,
            r.0 < 512 && r.1 < 512,
    {
        let cnt = self.regs[4 + bg];
        let size = (cnt >> 14) & 3;
        assert((cnt >> 14) & 3 <= 3) by {
            crate::bits::lemma_bit_facts();
        }
        assert(cnt == self@.regs[4 + bg]);
        let h = self.regs[8 + bg * 2];
        let v = self.regs[9 + bg * 2];
        assert(h & 0x1FF <= 0x1FF && v & 0x1FF <= 0x1FF) by {
            crate::bits::lemma_bit_facts();
        }
        let hofs = (h & 0x1FF) as usize;
        let vofs = (v & 0x1FF) as usize;
        let bgx = if size == 1 || size == 3 { (x + hofs) % 512 } else { (x + hofs) % 256 };
        let bgy = if size == 2 || size == 3 { (ly + vofs) % 512 } else { (ly + vofs) % 256 };
        (bgx, bgy)
    }

    fn map_entry(&self, bg: usize, bgx: usize, bgy: usize, vram: &[u8]) -> (r: u16)
        requires
            ppu_wf(self@),
            bg < 4,
            bgx < 512,
            bgy < 512,
        ensures
            r == text_map_entry(self@.regs, vram@, bg as int, bgx as int, bgy as int),
    {
        let cnt = self.regs[4 + bg];
        assert((cnt >> 8) & 0x1F <= 0x1F) by {
            crate::bits::lemma_bit_facts();
        }
        let screen_base = ((cnt >> 8) & 0x1F) as usize * 0x800;
        let size = (cnt >> 14) & 3;
        assert((cnt >> 14) & 3 <= 3) by {
            crate::bits::lemma_bit_facts();
        }
        let wide = size == 1 || size == 3;
        let ty = bgy / 8;
        let tx = bgx / 8;
        let sb = tx / 32 + if wide { (ty / 32) * 2 } else { ty / 32 };
        proof {
            let w_tiles = text_bg_tiles(size).0;
            assert(w_tiles / 32 == if wide { 2int } else { 1int });
            let q: int = (ty / 32) as int;
            assert(q * (w_tiles / 32) == if wide { q * 2 } else { q })
                by (nonlinear_arith)
                requires
                    w_tiles / 32 == if wide { 2int } else { 1int },
            ;
        }
        read_u16(vram, screen_base + sb * 0x800 + ((ty % 32) * 32 + tx % 32) * 2)
    }

    fn tile_index(&self, bg: usize, entry: u16, bgx: usize, bgy: usize, vram: &[u8]) -> (r: (usize, usize))
        requires
            ppu_wf(self@),
            bg < 4,
        ensures
            r.0 == text_tile_index(self@.regs, vram@, bg as int, entry, bgx as int, bgy as int).0,
            r.1 == text_tile_index(self@.regs, vram@, bg as int, entry, bgx as int, bgy as int).1,
            r.0 < 256,
            r.1 < 16,
    {
        let cnt = self.regs[4 + bg];
        assert((cnt >> 2) & 3 <= 3) by {
            crate::bits::lemma_bit_facts();
        }
        let char_base = ((cnt >> 2) & 3) as usize * 0x4000;
        assert(entry & 0x3FF <= 0x3FF && (entry >> 12) & 0xF <= 0xF) by {
            crate::bits::lemma_bit_facts();
        }
        let tile = (entry & 0x3FF) as usize;
        let fx = if entry & 0x400 != 0 { 7 - bgx % 8 } else { bgx % 8 };
        let fy = if entry & 0x800 != 0 { 7 - bgy % 8 } else { bgy % 8 };
        if cnt & 0x80 != 0 {
            (read_byte(vram, char_base + tile * 64 + fy * 8 + fx) as usize, 0)
        } else {
            let byte = read_byte(vram, char_base + tile * 32 + fy * 4 + fx / 2);
            assert(byte & 0xF <= 0xF && byte >> 4 <= 0xF) by {
                crate::bits::lemma_bit_facts();
            }
            ((if fx % 2 == 0 { byte & 0xF } else { byte >> 4 }) as usize, ((entry >> 12) & 0xF) as usize)
        }
    }

    fn text_bg_color(&self, bg: usize, x: usize, ly: usize, vram: &[u8], palette: &[u8]) -> (r: Option<u16>)
        requires
            ppu_wf(self@),
            bg < 4,
            x < SCREEN_W,
            ly < SCREEN_H,
        ensures
            r == text_bg_color(self@.regs, vram@, palette@, bg as int, x as int, ly as int),
    {
        let (bgx, bgy) = self.bg_coords(bg, x, ly);
        let entry = self.map_entry(bg, bgx, bgy, vram);
        let (idx, bank) = self.tile_index(bg, entry, bgx, bgy, vram);
        let color8 = self.regs[4 + bg] & 0x80 != 0;
        if idx == 0 {
            None
        } else if color8 {
            Some(read_u16(palette, idx * 2))
        } else {
            Some(read_u16(palette, (bank * 16 + idx) * 2))
        }
    }

    /// The front-most background pixel (color, priority) at (x, ly).
    fn bg_front(&self, x: usize, ly: usize, vram: &[u8], palette: &[u8]) -> (r: Option<(u16, usize)>)
        requires
            ppu_wf(self@),
            x < SCREEN_W,
            ly < SCREEN_H,
        ensures
            match r {
                Some((c, p)) => bg_front(self@.regs, vram@, palette@, x as int, ly as int) == Some(
                    (c, p as int),
                ),
                None => bg_front(self@.regs, vram@, palette@, x as int, ly as int) is None,
            },
    {
        let dispcnt = self.regs[0];
        let mode = dispcnt & 7;
        let mut prio: usize = 0;
        while prio < 4
            invariant
                prio <= 4,
                ppu_wf(self@),
                x < SCREEN_W,
                ly < SCREEN_H,
                dispcnt == self@.regs[0],
                mode == dispcnt & 7,
                bg_front(self@.regs, vram@, palette@, x as int, ly as int) == bg_front_from(
                    self@.regs,
                    vram@,
                    palette@,
                    x as int,
                    ly as int,
                    prio as int,
                    0,
                ),
            decreases 4 - prio,
        {
            let mut bg: usize = 0;
            while bg < 4
                invariant
                    prio < 4,
                    bg <= 4,
                    ppu_wf(self@),
                    x < SCREEN_W,
                    ly < SCREEN_H,
                    dispcnt == self@.regs[0],
                    mode == dispcnt & 7,
                    bg_front(self@.regs, vram@, palette@, x as int, ly as int) == bg_front_from(
                        self@.regs,
                        vram@,
                        palette@,
                        x as int,
                        ly as int,
                        prio as int,
                        bg as int,
                    ),
                decreases 4 - bg,
            {
                let enabled = dispcnt & (0x100u16 << (bg as u16)) != 0;
                let text = if mode == 0 {
                    bg < 4
                } else if mode == 1 {
                    bg < 2
                } else {
                    false
                };
                let cnt = self.regs[4 + bg];
                assert(cnt & 3 <= 3) by {
                    crate::bits::lemma_bit_facts();
                }
                if enabled && text && (cnt & 3) as usize == prio {
                    match self.text_bg_color(bg, x, ly, vram, palette) {
                        Some(c) => {
                            return Some((c, prio));
                        },
                        None => {},
                    }
                }
                bg = bg + 1;
            }
            prio = prio + 1;
        }
        None
    }

    /// Sprite `i`'s pixel (color, priority) at (x, ly), if it draws one.
    #[verifier::spinoff_prover]
    #[verifier::rlimit(40)]
    fn sprite_pixel(dispcnt: u16, i: usize, x: usize, ly: usize, vram: &[u8], palette: &[u8], oam: &[u8]) -> (r: Option<(u16, usize)>)
        requires
            i < 128,
            x < SCREEN_W,
            ly < SCREEN_H,
        ensures
            match r {
                Some((c, p)) => sprite_pixel(dispcnt, vram@, palette@, oam@, i as int, x as int, ly as int)
                    == Some((c, p as int)),
                None => sprite_pixel(dispcnt, vram@, palette@, oam@, i as int, x as int, ly as int) is None,
            },
    {
        let attr0 = read_u16(oam, i * 8);
        let attr1 = read_u16(oam, i * 8 + 2);
        let attr2 = read_u16(oam, i * 8 + 4);
        if attr0 & 0x100 != 0 || attr0 & 0x200 != 0 {
            return None;
        }
        let shape = attr0 >> 14;
        let size = attr1 >> 14;
        let (w, h): (usize, usize) = if shape == 0 {
            if size == 0 { (8, 8) } else if size == 1 { (16, 16) } else if size == 2 { (32, 32) } else { (64, 64) }
        } else if shape == 1 {
            if size == 0 { (16, 8) } else if size == 1 { (32, 8) } else if size == 2 { (32, 16) } else { (64, 32) }
        } else if shape == 2 {
            if size == 0 { (8, 16) } else if size == 1 { (8, 32) } else if size == 2 { (16, 32) } else { (32, 64) }
        } else {
            return None;
        };
        assert(attr0 & 0xFF <= 0xFF && attr1 & 0x1FF <= 0x1FF) by {
            crate::bits::lemma_bit_facts();
        }
        let sy = (attr0 & 0xFF) as usize;
        let sx = (attr1 & 0x1FF) as usize;
        // Wrapped distances into the sprite (mod 256 vertically, 512 across).
        let dy = (ly + 256 - sy) % 256;
        let dx = (x + 512 - sx) % 512;
        proof {
            vstd::arithmetic::div_mod::lemma_mod_add_multiples_vanish(ly - sy, 256);
            vstd::arithmetic::div_mod::lemma_mod_add_multiples_vanish(x - sx, 512);
        }
        if dy >= h || dx >= w {
            return None;
        }
        Self::sprite_texel(dispcnt, vram, palette, attr0, attr1, attr2, w, h, dx, dy)
    }

    fn sprite_texel(dispcnt: u16, vram: &[u8], palette: &[u8], attr0: u16, attr1: u16, attr2: u16, w: usize, h: usize, dx: usize, dy: usize) -> (r: Option<(u16, usize)>)
        requires
            8 <= w <= 64,
            8 <= h <= 64,
            dx < w,
            dy < h,
        ensures
            match r {
                Some((c, p)) => sprite_texel(dispcnt, vram@, palette@, attr0, attr1, attr2, w as int, h as int, dx as int, dy as int)
                    == Some((c, p as int)),
                None => sprite_texel(dispcnt, vram@, palette@, attr0, attr1, attr2, w as int, h as int, dx as int, dy as int) is None,
            },
    {
        let color8 = attr0 & 0x2000 != 0;
        let fx = if attr1 & 0x1000 != 0 { w - 1 - dx } else { dx };
        let fy = if attr1 & 0x2000 != 0 { h - 1 - dy } else { dy };
        let unit: usize = if color8 { 2 } else { 1 };
        let row_stride = if dispcnt & 0x40 != 0 { (w / 8) * unit } else { 32 };
        assert(attr2 & 0x3FF <= 0x3FF && (attr2 >> 10) & 3 <= 3 && attr2 >> 12 <= 0xF) by {
            crate::bits::lemma_bit_facts();
        }
        assert((fy / 8) * row_stride <= 8 * 32) by (nonlinear_arith)
            requires
                fy / 8 <= 8,
                row_stride <= 32,
        ;
        let tile = ((attr2 & 0x3FF) as usize + (fy / 8) * row_stride + (fx / 8) * unit) % 1024;
        let base = OBJ_VRAM_BASE + (tile * 32) % 0x8000;
        let idx: usize = if color8 {
            read_byte(vram, base + (fy % 8) * 8 + fx % 8) as usize
        } else {
            let byte = read_byte(vram, base + (fy % 8) * 4 + (fx % 8) / 2);
            assert(byte & 0xF <= 0xF && byte >> 4 <= 0xF) by {
                crate::bits::lemma_bit_facts();
            }
            (if fx % 2 == 0 { byte & 0xF } else { byte >> 4 }) as usize
        };
        if idx == 0 {
            return None;
        }
        let entry = if color8 { idx } else { ((attr2 >> 12) as usize) * 16 + idx };
        Some((read_u16(palette, OBJ_PALETTE_BASE + entry * 2), ((attr2 >> 10) & 3) as usize))
    }

    /// The front-most sprite pixel at (x, ly): the lowest OAM index wins.
    fn sprite_front(dispcnt: u16, x: usize, ly: usize, vram: &[u8], palette: &[u8], oam: &[u8]) -> (r: Option<(u16, usize)>)
        requires
            x < SCREEN_W,
            ly < SCREEN_H,
        ensures
            match r {
                Some((c, p)) => sprite_front_from(dispcnt, vram@, palette@, oam@, x as int, ly as int, 0)
                    == Some((c, p as int)),
                None => sprite_front_from(dispcnt, vram@, palette@, oam@, x as int, ly as int, 0) is None,
            },
    {
        let mut i: usize = 0;
        while i < 128
            invariant
                i <= 128,
                x < SCREEN_W,
                ly < SCREEN_H,
                sprite_front_from(dispcnt, vram@, palette@, oam@, x as int, ly as int, 0)
                    == sprite_front_from(dispcnt, vram@, palette@, oam@, x as int, ly as int, i as int),
            decreases 128 - i,
        {
            match Self::sprite_pixel(dispcnt, i, x, ly, vram, palette, oam) {
                Some(p) => {
                    return Some(p);
                },
                None => {},
            }
            i = i + 1;
        }
        None
    }

    fn composite(&self, x: usize, ly: usize, vram: &[u8], palette: &[u8], oam: &[u8]) -> (r: u16)
        requires
            ppu_wf(self@),
            x < SCREEN_W,
            ly < SCREEN_H,
        ensures
            r == composite_pixel(self@.regs, vram@, palette@, oam@, x as int, ly as int),
    {
        let dispcnt = self.regs[0];
        if dispcnt & 0x80 != 0 {
            return 0x7FFF;
        }
        let bg = self.bg_front(x, ly, vram, palette);
        let obj = if dispcnt & 0x1000 != 0 {
            Self::sprite_front(dispcnt, x, ly, vram, palette, oam)
        } else {
            None
        };
        match (obj, bg) {
            (Some((oc, op)), Some((bc, bp))) => if op <= bp { oc } else { bc },
            (Some((oc, _)), None) => oc,
            (None, Some((bc, _))) => bc,
            (None, None) => read_u16(palette, 0),
        }
    }

    /// Render scanline `ly` into the framebuffer.
    fn render_scanline(&mut self, ly: u16, vram: &[u8], palette: &[u8], oam: &[u8])
        requires
            ppu_wf(old(self)@),
            ly < SCREEN_H,
        ensures
            final(self)@ == (PpuView { framebuffer: final(self)@.framebuffer, ..old(self)@ }),
            final(self)@.framebuffer.len() == old(self)@.framebuffer.len(),
            forall|i: int|
                0 <= i < SCREEN_W * SCREEN_H && !(ly * SCREEN_W <= i < ly * SCREEN_W + SCREEN_W)
                    ==> #[trigger] final(self)@.framebuffer[i] == old(self)@.framebuffer[i],
            forall|x: int|
                0 <= x < SCREEN_W ==> #[trigger] final(self)@.framebuffer[ly * SCREEN_W + x]
                    == composite_pixel(old(self)@.regs, vram@, palette@, oam@, x, ly as int),
    {
        let base = ly as usize * SCREEN_W;
        let ghost s0 = self@;
        let mut x: usize = 0;
        while x < SCREEN_W
            invariant
                x <= SCREEN_W,
                base == ly * SCREEN_W,
                ly < SCREEN_H,
                ppu_wf(self@),
                self@ == (PpuView { framebuffer: self@.framebuffer, ..s0 }),
                self@.framebuffer.len() == s0.framebuffer.len(),
                forall|i: int|
                    0 <= i < SCREEN_W * SCREEN_H && !(base <= i < base + x) ==> #[trigger] self@.framebuffer[i]
                        == s0.framebuffer[i],
                forall|k: int|
                    0 <= k < x ==> #[trigger] self@.framebuffer[base + k] == composite_pixel(
                        s0.regs,
                        vram@,
                        palette@,
                        oam@,
                        k,
                        ly as int,
                    ),
            decreases SCREEN_W - x,
        {
            let c = self.composite(x, ly as usize, vram, palette, oam);
            self.framebuffer[base + x] = c;
            x = x + 1;
        }
    }
}

impl Default for Ppu {
    fn default() -> (r: Ppu)
        ensures
            ppu_wf(r@),
            r@.vcount == 0 && r@.dot == 0,
    {
        Ppu::new()
    }
}

// ---- laws of display timing ----

/// Position within the frame, in dots.
pub open spec fn frame_position(vcount: u16, dot: u32) -> int {
    vcount * DOTS_PER_LINE + dot
}

/// Each dot advances the beam by exactly one position, wrapping after the
/// 228 × 1232 dots of a frame.
pub proof fn lemma_timing_step_advances_one_dot(p: PpuView)
    requires
        ppu_wf(p),
    ensures
        ({
            let t = timing_step(p);
            &&& t.0 < TOTAL_LINES && t.1 < DOTS_PER_LINE
            &&& frame_position(t.0, t.1) == (frame_position(p.vcount, p.dot) + 1) % (
            TOTAL_LINES * DOTS_PER_LINE)
        }),
{
    let pos = frame_position(p.vcount, p.dot);
    assert(pos + 1 <= 280896);
    let t = timing_step(p);
    if pos + 1 < 280896 {
        vstd::arithmetic::div_mod::lemma_small_mod((pos + 1) as nat, 280896);
    } else {
        vstd::arithmetic::div_mod::lemma_mod_self_0(280896);
    }
}

/// Writes cannot set the read-only DISPSTAT status bits: after a write, the
/// status bits still report the beam position.
pub proof fn lemma_dispstat_status_read_only(p: PpuView, value: u16)
    requires
        ppu_wf(p),
    ensures
        ({
            let q = ppu_write16(p, 4, value);
            let s = ppu_read16(q, 4);
            &&& (s & 1 != 0) == (160 <= p.vcount < 227)
            &&& (s & 2 != 0) == (p.dot >= HDRAW_DOTS)
            &&& s & 0xFF38 == value & 0xFF38
        }),
{
    assert(4u32 & 0x3E == 4) by {
        crate::bits::lemma_bit_facts();
    }
    let d = p.regs[2];
    let nd = (d & !0xFF38u16) | (value & 0xFF38);
    let q = ppu_write16(p, 4, value);
    let vb: u16 = if 160 <= p.vcount < 227 { 1 } else { 0 };
    let hb: u16 = if p.dot >= HDRAW_DOTS { 2 } else { 0 };
    let vc: u16 = if p.vcount == nd >> 8 { 4 } else { 0 };
    assert(q.regs[2] == nd);
    let st = (nd & 0xFF38) | vb | hb | vc;
    assert(ppu_read16(q, 4) == st);
    assert((st & 1 != 0) == (vb == 1) && (st & 2 != 0) == (hb == 2) && st & 0xFF38 == value
        & 0xFF38) by (bit_vector)
        requires
            nd == (d & !0xFF38u16) | (value & 0xFF38),
            st == (nd & 0xFF38) | vb | hb | vc,
            vb == 0 || vb == 1,
            hb == 0 || hb == 2,
            vc == 0 || vc == 4,
    ;
}

} // verus!
