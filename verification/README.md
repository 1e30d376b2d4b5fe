# vmmon

A minimal KVM-based virtual machine monitor that boots a Limine kernel, from an
ISO image or directly from its ELF file, and attaches a disk image as a virtio
block device. The logic is a Verus library whose functions carry contracts proved
by Verus; the program around it (command line, KVM, files, the run loop) is
ordinary Rust.

Layout:

- `src/boot`: finding the kernel in an ISO 9660 image through the Limine
  configuration (`iso`), loading the ELF image (`elf`, parsing through goblin),
  the Limine responses and memory map (`limine`), and the real-mode stub, GDT and
  page tables that enter long mode (`long_mode`).
- `src/guest`: guest RAM (an anonymous `memmap2` mapping) and its layout.
- `src/devices`: the port I/O bus with the 16550 UART, the 8259 PICs, the CMOS
  clock and the 8237 DMA controllers; the PCI configuration mechanism and bus with
  a virtio-blk and a virtio-input function.
- `src/vmm`: errors, exit reasons, CPUID leaves for the guest, and the decision of
  what each vCPU exit means.
- `src/config.rs`, `src/text.rs`, `src/bytes.rs`: command-line checks, character
  and number text, byte-sequence helpers.
- `app/main.rs`: the `vmmon` program.
- `tests/`: tests of the library on concrete values.
