use vstd::prelude::*;
use vstd::bytes::{
    spec_u16_from_le_bytes, spec_u32_from_le_bytes, spec_u64_from_le_bytes, spec_u16_to_le_bytes,
    spec_u32_to_le_bytes, spec_u64_to_le_bytes, u16_to_le_bytes, u32_to_le_bytes, u64_to_le_bytes,
};

use crate::boot::elf::ElfLoadResult;
use crate::bytes::{splice, le64s, words_bytes};
use crate::guest::layout::GuestLayout;
use crate::guest::memory::GuestMemory;
use crate::vmm::errors::VmmonError;

verus! {

/// Where the real-mode bootstrap stub is placed.
pub const STUB_PHYS: u64 = 0x1000;
/// Length of the bootstrap stub in bytes.
pub const STUB_LEN: u64 = 108;
/// Offset in the stub of its 64-bit part, the far jump's target.
pub const STUB_LONG_MODE_OFF: u32 = 66;
/// Offset in the stub of the 6-byte GDT pointer that `lgdt` loads.
pub const STUB_GDT_PTR_OFF: u64 = 102;
/// The stack pointer and flags the vCPU starts with in real mode.
pub const REAL_MODE_RSP: u64 = 0x7000;
pub const REAL_MODE_RFLAGS: u64 = 0x2;

/// Page table entry flags: present, writable, 2 MiB page.
pub const PTE_PRESENT: u64 = 1;
pub const PTE_WRITABLE: u64 = 2;
pub const PTE_HUGE: u64 = 0x80;

/// Number of 8-byte entries in one page-table page.
pub const ENTRIES_PER_TABLE: u64 = 512;

/// The three descriptors of the boot GDT: null, 64-bit code (selector 0x08) and
/// data (selector 0x10).
pub const GDT_NULL: u64 = 0;
pub const GDT_CODE64: u64 = 0x00AF_9A00_0000_FFFF;
pub const GDT_DATA64: u64 = 0x00AF_9200_0000_FFFF;

/// A segment register's base and selector as the vCPU starts with them.
#[derive(Clone, Copy, Debug)]
pub struct SegmentSetup {
    pub base: u64,
    pub selector: u16,
}

/// The segment registers that the boot sets: CS, DS, ES and SS.
#[derive(Clone, Copy, Debug)]
pub struct BootSegments {
    pub cs: SegmentSetup,
    pub ds: SegmentSetup,
    pub es: SegmentSetup,
    pub ss: SegmentSetup,
}

/// The general registers that the boot sets.
#[derive(Clone, Copy, Debug)]
pub struct BootRegs {
    pub rip: u64,
    pub rsp: u64,
    pub rflags: u64,
}

/// The vCPU state in which the guest starts: real mode at the bootstrap stub.
#[derive(Clone, Copy, Debug)]
pub struct BootState {
    pub sregs: BootSegments,
    pub regs: BootRegs,
}

/// A page table entry pointing at `addr` (bits 12..52 kept) with `flags`.
pub open spec fn pte_spec(addr: u64, flags: u64) -> u64 {
    (addr & 0x000f_ffff_ffff_f000) | flags
}

fn pte(addr: u64, flags: u64) -> (r: u64)
    ensures
        r == pte_spec(addr, flags),
{
    (addr & 0x000f_ffff_ffff_f000) | flags
}

/// The three page-table pages at `pml4` as 8-byte words: the PML4 and the PDPT each
/// hold one entry pointing at the next page, and the page directory maps the first
/// GiB with 512 pages of 2 MiB, identity.
pub open spec fn paging_words(pml4: u64) -> Seq<u64> {
    Seq::new(
        3 * ENTRIES_PER_TABLE as nat,
        |i: int|
            if i == 0 {
                pte_spec((pml4 + 0x1000) as u64, PTE_PRESENT | PTE_WRITABLE)
            } else if i == ENTRIES_PER_TABLE {
                pte_spec((pml4 + 0x2000) as u64, PTE_PRESENT | PTE_WRITABLE)
            } else if i >= 2 * ENTRIES_PER_TABLE {
                pte_spec(((i - 2 * ENTRIES_PER_TABLE) * 0x20_0000) as u64, PTE_PRESENT | PTE_WRITABLE | PTE_HUGE)
            } else {
                0
            },
    )
}

/// The bytes of the three page-table pages.
pub open spec fn paging_bytes(pml4: u64) -> Seq<u8> {
    le64s(paging_words(pml4))
}

/// The bytes of the boot GDT.
pub open spec fn gdt_bytes() -> Seq<u8> {
    le64s(seq![GDT_NULL, GDT_CODE64, GDT_DATA64])
}

/// The real-mode bootstrap stub placed at `stub_phys`: it loads the GDT, enables
/// PAE, loads CR3, sets EFER.LME, enables paging and protection, far-jumps into its
/// 64-bit part, loads the data selectors, the stack pointer and jumps to `entry`.
/// The GDT pointer sits at the end of the stub.
pub open spec fn long_mode_stub(stub_phys: u64, gdt_phys: u64, cr3: u64, stack_top: u64, entry: u64) -> Seq<u8> {
    // cli; lgdt [disp16]
    seq![0xFAu8, 0x0F, 0x01, 0x16]
        + spec_u16_to_le_bytes((stub_phys + STUB_GDT_PTR_OFF) as u16)
        // mov eax, cr4; or eax, 0x20; mov cr4, eax; mov eax, imm32
        + seq![0x66u8, 0x0F, 0x20, 0xE0, 0x66, 0x83, 0xC8, 0x20, 0x66, 0x0F, 0x22, 0xE0, 0x66, 0xB8]
        + spec_u32_to_le_bytes(#[verifier::truncate] (cr3 as u32))
        // mov cr3, eax; mov ecx, EFER; rdmsr; or eax, LME; wrmsr;
        // mov eax, cr0; or eax, PG|PE; mov cr0, eax; jmp far
        + seq![
            0x66u8, 0x0F, 0x22, 0xD8, 0x66, 0xB9, 0x80, 0x00, 0x00, 0xC0, 0x0F, 0x32,
            0x66, 0x0D, 0x00, 0x01, 0x00, 0x00, 0x0F, 0x30, 0x66, 0x0F, 0x20, 0xC0,
            0x66, 0x0D, 0x01, 0x00, 0x00, 0x80, 0x66, 0x0F, 0x22, 0xC0, 0x66, 0xEA,
        ]
        + spec_u32_to_le_bytes((stub_phys as u32).wrapping_add(STUB_LONG_MODE_OFF))
        // selector 0x08; mov ax, 0x10; mov ds/es/fs/gs/ss, ax; mov rsp, imm64
        + seq![
            0x08u8, 0x00, 0x66, 0xB8, 0x10, 0x00, 0x8E, 0xD8, 0x8E, 0xC0, 0x8E, 0xE0,
            0x8E, 0xE8, 0x8E, 0xD0, 0x48, 0xBC,
        ]
        + spec_u64_to_le_bytes(stack_top)
        // mov rax, imm64
        + seq![0x48u8, 0xB8]
        + spec_u64_to_le_bytes(entry)
        // jmp rax; GDT pointer: limit, base
        + seq![0xFFu8, 0xE0]
        + spec_u16_to_le_bytes(23)
        + spec_u32_to_le_bytes(#[verifier::truncate] (gdt_phys as u32))
}

/// Guest memory once the boot state is in place: page tables, GDT, then the stub.
pub open spec fn boot_memory(m: Seq<u8>, layout: GuestLayout, entry: u64) -> Seq<u8> {
    let m1 = splice(m, layout.page_tables_phys as int, paging_bytes(layout.page_tables_phys));
    let m2 = splice(m1, layout.gdt_phys as int, gdt_bytes());
    splice(
        m2,
        STUB_PHYS as int,
        long_mode_stub(STUB_PHYS, layout.gdt_phys, layout.page_tables_phys, layout.boot_stack_top, entry),
    )
}

/// Whether guest memory of `len` bytes holds the page tables, the GDT and the stub.
pub open spec fn boot_fits(len: int, layout: GuestLayout) -> bool {
    &&& layout.page_tables_phys + 0x3000 <= len
    &&& layout.gdt_phys + 24 <= len
    &&& STUB_PHYS + STUB_LEN <= len
}

/// The vCPU state that the boot hands over: flat real-mode segments and the stub as
/// the first instruction.
pub open spec fn boot_state_spec() -> BootState {
    let flat = SegmentSetup { base: 0, selector: 0 };
    BootState {
        sregs: BootSegments { cs: flat, ds: flat, es: flat, ss: flat },
        regs: BootRegs { rip: STUB_PHYS, rsp: REAL_MODE_RSP, rflags: REAL_MODE_RFLAGS },
    }
}

/// The stub enters long mode in the order the processor requires. It loads the GDT
/// from the pointer at its own end (limit 23, base `gdt_phys`); sets CR4.PAE (bit 5)
/// by `mov eax, cr4; or eax, imm8; mov cr4, eax`; loads CR3 with `cr3`; sets
/// EFER.LME (bit 8) by `rdmsr; or eax, imm32; wrmsr` on MSR 0xC000_0080; only then
/// sets CR0.PG (bit 31) and CR0.PE (bit 0) by `mov eax, cr0; or eax, imm32;
/// mov cr0, eax`; far-jumps through code selector 0x08 to its 64-bit part at
/// offset 66; and there loads the stack pointer `stack_top` and jumps to `entry`
/// through `rax`.
pub proof fn law_stub_enters_long_mode(stub_phys: u64, gdt_phys: u64, cr3: u64, stack_top: u64, entry: u64)
    ensures
        ({
            let c = long_mode_stub(stub_phys, gdt_phys, cr3, stack_top, entry);
            &&& c.len() == STUB_LEN
            // cli; lgdt [stub + 102]
            &&& c.subrange(0, 4) == seq![0xFAu8, 0x0F, 0x01, 0x16]
            &&& spec_u16_from_le_bytes(c.subrange(4, 6)) == (stub_phys + 102) as u16
            &&& spec_u16_from_le_bytes(c.subrange(102, 104)) == 23
            &&& spec_u32_from_le_bytes(c.subrange(104, 108)) == gdt_phys as u32
            // CR4.PAE
            &&& c.subrange(6, 13) == seq![0x66u8, 0x0F, 0x20, 0xE0, 0x66, 0x83, 0xC8]
            &&& c[13] & 0x20u8 == 0x20u8
            &&& c.subrange(14, 18) == seq![0x66u8, 0x0F, 0x22, 0xE0]
            // CR3
            &&& c.subrange(18, 20) == seq![0x66u8, 0xB8]
            &&& spec_u32_from_le_bytes(c.subrange(20, 24)) == cr3 as u32
            &&& c.subrange(24, 28) == seq![0x66u8, 0x0F, 0x22, 0xD8]
            // EFER.LME
            &&& c.subrange(28, 38) == seq![0x66u8, 0xB9, 0x80, 0x00, 0x00, 0xC0, 0x0F, 0x32, 0x66, 0x0D]
            &&& c[39] & 0x01u8 == 0x01u8
            &&& c.subrange(42, 44) == seq![0x0Fu8, 0x30]
            // CR0.PG | CR0.PE, after all of the above
            &&& c.subrange(44, 50) == seq![0x66u8, 0x0F, 0x20, 0xC0, 0x66, 0x0D]
            &&& c[50] & 0x01u8 == 0x01u8
            &&& c[53] & 0x80u8 == 0x80u8
            &&& c.subrange(54, 58) == seq![0x66u8, 0x0F, 0x22, 0xC0]
            // far jump to the 64-bit part
            &&& c.subrange(58, 60) == seq![0x66u8, 0xEA]
            &&& spec_u32_from_le_bytes(c.subrange(60, 64)) == (stub_phys as u32).wrapping_add(66)
            &&& c.subrange(64, 66) == seq![0x08u8, 0x00]
            // stack and entry
            &&& c.subrange(80, 82) == seq![0x48u8, 0xBC]
            &&& spec_u64_from_le_bytes(c.subrange(82, 90)) == stack_top
            &&& c.subrange(90, 92) == seq![0x48u8, 0xB8]
            &&& spec_u64_from_le_bytes(c.subrange(92, 100)) == entry
            &&& c.subrange(100, 102) == seq![0xFFu8, 0xE0]
        }),
{
    vstd::bytes::lemma_auto_spec_u16_to_from_le_bytes();
    vstd::bytes::lemma_auto_spec_u32_to_from_le_bytes();
    vstd::bytes::lemma_auto_spec_u64_to_from_le_bytes();
    let c = long_mode_stub(stub_phys, gdt_phys, cr3, stack_top, entry);
    let a0 = seq![0xFAu8, 0x0F, 0x01, 0x16];
    let a1 = spec_u16_to_le_bytes((stub_phys + STUB_GDT_PTR_OFF) as u16);
    let a2 = seq![0x66u8, 0x0F, 0x20, 0xE0, 0x66, 0x83, 0xC8, 0x20, 0x66, 0x0F, 0x22, 0xE0, 0x66, 0xB8];
    let a3 = spec_u32_to_le_bytes(#[verifier::truncate] (cr3 as u32));
    let a4 = seq![
        0x66u8, 0x0F, 0x22, 0xD8, 0x66, 0xB9, 0x80, 0x00, 0x00, 0xC0, 0x0F, 0x32,
        0x66, 0x0D, 0x00, 0x01, 0x00, 0x00, 0x0F, 0x30, 0x66, 0x0F, 0x20, 0xC0,
        0x66, 0x0D, 0x01, 0x00, 0x00, 0x80, 0x66, 0x0F, 0x22, 0xC0, 0x66, 0xEA,
    ];
    let a5 = spec_u32_to_le_bytes((stub_phys as u32).wrapping_add(STUB_LONG_MODE_OFF));
    let a6 = seq![
        0x08u8, 0x00, 0x66, 0xB8, 0x10, 0x00, 0x8E, 0xD8, 0x8E, 0xC0, 0x8E, 0xE0,
        0x8E, 0xE8, 0x8E, 0xD0, 0x48, 0xBC,
    ];
    let a7 = spec_u64_to_le_bytes(stack_top);
    let a8 = seq![0x48u8, 0xB8];
    let a9 = spec_u64_to_le_bytes(entry);
    let a10 = seq![0xFFu8, 0xE0];
    let a11 = spec_u16_to_le_bytes(23);
    let a12 = spec_u32_to_le_bytes(#[verifier::truncate] (gdt_phys as u32));
    assert(c == a0 + a1 + a2 + a3 + a4 + a5 + a6 + a7 + a8 + a9 + a10 + a11 + a12);
    assert(c.subrange(0, 4) =~= a0);
    assert(c.subrange(4, 6) =~= a1);
    assert(c.subrange(6, 20) =~= a2);
    assert(c.subrange(20, 24) =~= a3);
    assert(c.subrange(24, 60) =~= a4);
    assert(c.subrange(60, 64) =~= a5);
    assert(c.subrange(64, 82) =~= a6);
    assert(c.subrange(82, 90) =~= a7);
    assert(c.subrange(90, 92) =~= a8);
    assert(c.subrange(92, 100) =~= a9);
    assert(c.subrange(100, 102) =~= a10);
    assert(c.subrange(102, 104) =~= a11);
    assert(c.subrange(104, 108) =~= a12);
    assert(c.subrange(6, 13) =~= a2.subrange(0, 7));
    assert(c.subrange(14, 18) =~= a2.subrange(8, 12));
    assert(c.subrange(18, 20) =~= a2.subrange(12, 14));
    assert(c[13] == a2[7]);
    assert(c.subrange(24, 28) =~= a4.subrange(0, 4));
    assert(c.subrange(28, 38) =~= a4.subrange(4, 14));
    assert(c[39] == a4[15]);
    assert(c.subrange(42, 44) =~= a4.subrange(18, 20));
    assert(c.subrange(44, 50) =~= a4.subrange(20, 26));
    assert(c[50] == a4[26]);
    assert(c[53] == a4[29]);
    assert(c.subrange(54, 58) =~= a4.subrange(30, 34));
    assert(c.subrange(58, 60) =~= a4.subrange(34, 36));
    assert(c.subrange(64, 66) =~= a6.subrange(0, 2));
    assert(c.subrange(80, 82) =~= a6.subrange(16, 18));
    assert(0x20u8 & 0x20u8 == 0x20u8) by (bit_vector);
    assert(0x01u8 & 0x01u8 == 0x01u8) by (bit_vector);
    assert(0x80u8 & 0x80u8 == 0x80u8) by (bit_vector);
}

/// The page directory maps the first GiB one to one: its entry `i` is a present,
/// writable 2 MiB page whose frame is at `i * 2 MiB`.
pub proof fn law_identity_map(pml4: u64, i: u64)
    requires
        i < ENTRIES_PER_TABLE,
    ensures
        paging_words(pml4)[2 * ENTRIES_PER_TABLE + i] & 0x000f_ffff_ffff_f000 == i * 0x20_0000,
        paging_words(pml4)[2 * ENTRIES_PER_TABLE + i] & (PTE_PRESENT | PTE_WRITABLE | PTE_HUGE)
            == PTE_PRESENT | PTE_WRITABLE | PTE_HUGE,
{
    let a = (i * 0x20_0000) as u64;
    assert(PTE_PRESENT | PTE_WRITABLE | PTE_HUGE == 0x83) by (bit_vector);
    assert(paging_words(pml4)[2 * ENTRIES_PER_TABLE + i] == pte_spec(a, PTE_PRESENT | PTE_WRITABLE | PTE_HUGE));
    assert(((a & 0x000f_ffff_ffff_f000) | 0x83) & 0x000f_ffff_ffff_f000 == a
        && ((a & 0x000f_ffff_ffff_f000) | 0x83) & 0x83 == 0x83) by (bit_vector)
        requires
            a == i * 0x20_0000,
            i < 512,
    ;
}

/// Whether guest memory holds the page tables, the GDT and the stub.
pub fn boot_state_fits(mem: &GuestMemory, layout: &GuestLayout) -> (r: bool)
    ensures
        r == boot_fits(mem@.len() as int, *layout),
{
    let len = mem.size_bytes() as u64;
    layout.page_tables_phys <= len && len - layout.page_tables_phys >= 0x3000
        && layout.gdt_phys <= len && len - layout.gdt_phys >= 24
        && STUB_PHYS + STUB_LEN <= len
}

/// Writes the page tables, the GDT and the bootstrap stub that takes the vCPU from
/// real mode to the kernel entry in long mode, and returns the vCPU state to start
/// from.
pub fn build_long_mode_boot_state(
    mem: &mut GuestMemory,
    layout: &GuestLayout,
    load: &ElfLoadResult,
) -> (r: Result<BootState, VmmonError>)
    requires
        boot_fits(old(mem)@.len() as int, *layout),
    ensures
        r matches Ok(s) && s == boot_state_spec(),
        final(mem)@ == boot_memory(old(mem)@, *layout, load.entry_virt),
{
    let cr3 = build_paging(mem, layout)?;
    build_gdt(mem, layout)?;
    write_long_mode_stub(mem, STUB_PHYS, layout.gdt_phys, cr3, layout.boot_stack_top, load.entry_virt)?;
    let flat = SegmentSetup { base: 0, selector: 0 };
    let sregs = BootSegments { cs: flat, ds: flat, es: flat, ss: flat };
    let regs = BootRegs { rip: STUB_PHYS, rsp: REAL_MODE_RSP, rflags: REAL_MODE_RFLAGS };
    Ok(BootState { sregs, regs })
}

fn build_gdt(mem: &mut GuestMemory, layout: &GuestLayout) -> (r: Result<(), VmmonError>)
    requires
        layout.gdt_phys + 24 <= old(mem)@.len(),
    ensures
        r is Ok,
        final(mem)@ == splice(old(mem)@, layout.gdt_phys as int, gdt_bytes()),
{
    let gdt: Vec<u64> = vec![GDT_NULL, GDT_CODE64, GDT_DATA64];
    let bytes = words_bytes(&gdt);
    assert(gdt@ =~= seq![GDT_NULL, GDT_CODE64, GDT_DATA64]);
    mem.write(layout.gdt_phys, bytes.as_slice());
    Ok(())
}

/// Builds the identity map of the first GiB and returns the address of the PML4.
fn build_paging(mem: &mut GuestMemory, layout: &GuestLayout) -> (r: Result<u64, VmmonError>)
    requires
        layout.page_tables_phys + 0x3000 <= old(mem)@.len(),
    ensures
        r == Ok::<u64, VmmonError>(layout.page_tables_phys),
        final(mem)@ == splice(old(mem)@, layout.page_tables_phys as int, paging_bytes(layout.page_tables_phys)),
{
    let _ = mem.size_bytes();
    let pml4_pa = layout.page_tables_phys;
    let pdpt_pa = pml4_pa + 0x1000;
    let pd_pa = pdpt_pa + 0x1000;
    let ghost target = paging_words(pml4_pa);
    let mut words: Vec<u64> = Vec::new();
    let mut i: u64 = 0;
    while i < 3 * ENTRIES_PER_TABLE
        invariant
            i <= 3 * ENTRIES_PER_TABLE,
            words@.len() == i,
            pdpt_pa == pml4_pa + 0x1000,
            pd_pa == pml4_pa + 0x2000,
            target == paging_words(pml4_pa),
            forall|j: int| 0 <= j < i ==> words@[j] == target[j],
        decreases 3 * ENTRIES_PER_TABLE - i,
    {
        let w = if i == 0 {
            pte(pdpt_pa, PTE_PRESENT | PTE_WRITABLE)
        } else if i == ENTRIES_PER_TABLE {
            pte(pd_pa, PTE_PRESENT | PTE_WRITABLE)
        } else if i >= 2 * ENTRIES_PER_TABLE {
            pte((i - 2 * ENTRIES_PER_TABLE) * 0x20_0000, PTE_PRESENT | PTE_WRITABLE | PTE_HUGE)
        } else {
            0
        };
        words.push(w);
        i += 1;
    }
    assert(words@ =~= target);
    let bytes = words_bytes(&words);
    mem.write(pml4_pa, bytes.as_slice());
    Ok(pml4_pa)
}

/// Appends `bytes` to `code`.
fn append_bytes(code: &mut Vec<u8>, bytes: &[u8])
    ensures
        final(code)@ == old(code)@ + bytes@,
{
    let n = bytes.len();
    let mut i: usize = 0;
    while i < n
        invariant
            n == bytes@.len(),
            0 <= i <= n,
            code@ == old(code)@ + bytes@.subrange(0, i as int),
        decreases n - i,
    {
        code.push(bytes[i]);
        assert(bytes@.subrange(0, i + 1) =~= bytes@.subrange(0, i as int).push(bytes@[i as int]));
        i += 1;
    }
    assert(bytes@.subrange(0, n as int) =~= bytes@);
}

/// Writes the bootstrap stub at `stub_phys`.
fn write_long_mode_stub(
    mem: &mut GuestMemory,
    stub_phys: u64,
    gdt_phys: u64,
    cr3: u64,
    stack_top: u64,
    kernel_entry: u64,
) -> (r: Result<(), VmmonError>)
    requires
        stub_phys + STUB_LEN <= old(mem)@.len(),
    ensures
        r is Ok,
        final(mem)@ == splice(old(mem)@, stub_phys as int, long_mode_stub(stub_phys, gdt_phys, cr3, stack_top, kernel_entry)),
{
    let _ = mem.size_bytes();
    let mut code: Vec<u8> = Vec::new();
    append_bytes(&mut code, &[0xFAu8, 0x0F, 0x01, 0x16]);
    let disp16 = #[verifier::truncate] ((stub_phys + STUB_GDT_PTR_OFF) as u16);
    append_bytes(&mut code, u16_to_le_bytes(disp16).as_slice());
    append_bytes(&mut code, &[0x66u8, 0x0F, 0x20, 0xE0, 0x66, 0x83, 0xC8, 0x20, 0x66, 0x0F, 0x22, 0xE0, 0x66, 0xB8]);
    append_bytes(&mut code, u32_to_le_bytes(#[verifier::truncate] (cr3 as u32)).as_slice());
    append_bytes(
        &mut code,
        &[
            0x66u8, 0x0F, 0x22, 0xD8, 0x66, 0xB9, 0x80, 0x00, 0x00, 0xC0, 0x0F, 0x32,
            0x66, 0x0D, 0x00, 0x01, 0x00, 0x00, 0x0F, 0x30, 0x66, 0x0F, 0x20, 0xC0,
            0x66, 0x0D, 0x01, 0x00, 0x00, 0x80, 0x66, 0x0F, 0x22, 0xC0, 0x66, 0xEA,
        ],
    );
    let long_abs = (#[verifier::truncate] (stub_phys as u32)).wrapping_add(STUB_LONG_MODE_OFF);
    append_bytes(&mut code, u32_to_le_bytes(long_abs).as_slice());
    append_bytes(
        &mut code,
        &[
            0x08u8, 0x00, 0x66, 0xB8, 0x10, 0x00, 0x8E, 0xD8, 0x8E, 0xC0, 0x8E, 0xE0,
            0x8E, 0xE8, 0x8E, 0xD0, 0x48, 0xBC,
        ],
    );
    append_bytes(&mut code, u64_to_le_bytes(stack_top).as_slice());
    append_bytes(&mut code, &[0x48u8, 0xB8]);
    append_bytes(&mut code, u64_to_le_bytes(kernel_entry).as_slice());
    append_bytes(&mut code, &[0xFFu8, 0xE0]);
    append_bytes(&mut code, u16_to_le_bytes(23).as_slice());
    append_bytes(&mut code, u32_to_le_bytes(#[verifier::truncate] (gdt_phys as u32)).as_slice());
    assert(code@ =~= long_mode_stub(stub_phys, gdt_phys, cr3, stack_top, kernel_entry));
    mem.write(stub_phys, code.as_slice());
    Ok(())
}

} // verus!
