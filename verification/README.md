# gba-core

A Game Boy Advance emulator core whose behaviour is stated in Verus contracts
and proved: the ARM7TDMI CPU (ARM and Thumb), the memory map with its
waitstate model and open bus, the PPU (text backgrounds, sprites, display
timing), the APU (four PSG channels and Direct Sound), DMA, timers, the
interrupt controller, BIOS services and cartridge save memory.

- `src/` — the verified library. Each module models its hardware block as a
  ghost view (`CpuView`, `MemoryView`, `PpuView`, …) and states its operations
  over it; public `lemma_*` proof functions state the laws that span calls.
- `tests/` — executable tests of the library.
- `app/` — host glue that Verus does not see: loading images from disk and the
  WebAssembly bindings for a browser frontend.
