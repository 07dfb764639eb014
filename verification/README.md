# ferrugem

The platform logic of the Ferrugem hobby kernel (x86_64, RISC-V and AArch64;
QEMU, VirtualBox and Raspberry Pi 3 boards), written as a library whose
behaviour is stated in `requires`/`ensures` contracts and proved with Verus.

The kernel's platform decisions are functions here: page-table construction,
mapping and copying on all three ports (over a model of physical memory as a
sequence of 64-bit words), descriptor tables, interrupt controller routing,
trap classification, memory-map parsers (Multiboot e820 and the flattened
device tree), console state machines with scrollback, and the Raspberry Pi 3
mailbox, framebuffer and USB host stack (DWC2 register scripts, hub
enumeration, HID keyboards, bulk-only mass storage). Register accesses come
out as values (`MmioWrite`, `PortWrite`, `SbiCall`, ...) or as the next step
of a state machine that is fed what the hardware answered.

Layout:

- `src/` the verified library: `arch/` (per-port code and the
  architecture-neutral entry points), `boards/` (board support), `memory/`
  (physical memory and frame allocation model, memory maps), `text.rs`,
  `bytes.rs`, `mmio.rs`.
- `tests/` executable tests of the library.
- `app/` the unverified hardware side: volatile MMIO, I/O-port instructions,
  busy waits, and the loops that run the library's state machines against
  the devices. What stays outside the library: the assembly entry points
  (context switch, trap and system-call entry), glyph drawing (the font
  table is not part of this tree), and the scheduler and allocator that call
  into it.
