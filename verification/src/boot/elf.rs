use vstd::prelude::*;
use vstd::bytes::spec_u64_to_le_bytes;

use crate::bytes::{splice, zeros, lemma_splice_len};
use crate::guest::layout::GuestLayout;
use crate::guest::memory::GuestMemory;
use crate::text::{decimal, hex_alt, push_decimal, push_hex_alt, str_chars, string_from_chars};
use crate::vmm::errors::VmmonError;

verus! {

/// Program header type of a loadable segment (ELF `PT_LOAD`).
pub const PT_LOAD: u32 = 1;
/// x86-64 relocation "base plus addend" (ELF `R_X86_64_RELATIVE`).
pub const R_X86_64_RELATIVE: u32 = 8;

/// Where the kernel image was placed: its entry point, the physical load base,
/// and each loaded segment.
#[derive(Clone, Debug)]
pub struct ElfLoadResult {
    pub entry_virt: u64,
    pub load_base: u64,
    pub segs: Vec<LoadedSeg>,
}

/// A loadable segment: its link-time address, size in memory and physical address.
#[derive(Clone, Copy, Debug)]
pub struct LoadedSeg {
    pub vaddr: u64,
    pub memsz: u64,
    pub paddr: u64,
}

/// The fields of a program header that loading reads.
#[derive(Clone, Copy, Debug)]
pub struct ProgramHeaderInfo {
    pub p_type: u32,
    pub p_offset: u64,
    pub p_vaddr: u64,
    pub p_filesz: u64,
    pub p_memsz: u64,
}

/// The fields of a dynamic relocation with addend that loading reads.
#[derive(Clone, Copy, Debug)]
pub struct RelaInfo {
    pub r_offset: u64,
    pub r_type: u32,
    pub r_addend: Option<i64>,
}

/// What loading needs of a parsed ELF file: its entry point, its program headers
/// and its dynamic relocations with addend, in file order.
#[derive(Clone, Debug)]
pub struct ElfImage {
    pub entry: u64,
    pub phdrs: Vec<ProgramHeaderInfo>,
    pub relas: Vec<RelaInfo>,
}

pub struct ElfImageView {
    pub entry: u64,
    pub phdrs: Seq<ProgramHeaderInfo>,
    pub relas: Seq<RelaInfo>,
}

impl View for ElfImage {
    type V = ElfImageView;

    open spec fn view(&self) -> ElfImageView {
        ElfImageView { entry: self.entry, phdrs: self.phdrs@, relas: self.relas@ }
    }
}

/// What `goblin::elf::Elf::parse` makes of `bytes`: the image, or its error's text.
pub uninterp spec fn goblin_elf_parse(bytes: Seq<u8>) -> Result<ElfImageView, Seq<char>>;

/// Calls `goblin::elf::Elf::parse` and keeps the entry point, the program headers
/// and the dynamic relocations with addend, field by field; on failure, the text of
/// goblin's error. The result is named, not described: it depends on `bytes` alone.
#[verifier::external_body]
fn parse_elf(bytes: &[u8]) -> (r: Result<ElfImage, String>)
    ensures
        match r {
            Ok(img) => goblin_elf_parse(bytes@) == Ok::<ElfImageView, Seq<char>>(img@),
            Err(e) => goblin_elf_parse(bytes@) == Err::<ElfImageView, Seq<char>>(e@),
        },
{
    let elf = match goblin::elf::Elf::parse(bytes) {
        Ok(elf) => elf,
        Err(e) => return Err(e.to_string()),
    };
    let phdrs = elf.program_headers.iter().map(|p| ProgramHeaderInfo {
        p_type: p.p_type, p_offset: p.p_offset, p_vaddr: p.p_vaddr, p_filesz: p.p_filesz, p_memsz: p.p_memsz,
    }).collect();
    let relas = elf.dynrelas.iter().map(|r| RelaInfo {
        r_offset: r.r_offset, r_type: r.r_type, r_addend: r.r_addend,
    }).collect();
    Ok(ElfImage { entry: elf.entry, phdrs, relas })
}

/// Whether the file holds the bytes that header `h` says the segment has.
pub open spec fn in_file(h: ProgramHeaderInfo, file_len: int) -> bool {
    h.p_offset + h.p_filesz <= file_len
}

/// Whether the segment of header `h`, placed at `base`, lies inside `len` bytes of memory.
pub open spec fn in_memory(h: ProgramHeaderInfo, base: u64, len: int) -> bool {
    &&& base + h.p_vaddr + h.p_filesz <= len
    &&& base + h.p_vaddr + h.p_memsz <= len
}

/// Why the segments stopped loading.
#[derive(Clone, Copy, Debug)]
pub enum LoadStop {
    /// A loadable segment's bytes run past the end of the file.
    OutsideFile,
    /// A loadable segment runs past the end of guest memory.
    OutsideMemory,
}

/// Why the relocations stopped.
#[derive(Clone, Copy, Debug)]
pub enum RelocStop {
    /// A relocation of a type other than `R_X86_64_RELATIVE`.
    Unsupported(RelaInfo),
    /// A relative relocation whose eight bytes run past the end of guest memory.
    OutsideMemory,
}

/// Guest memory, the loaded segments and what stopped the load, if anything, after
/// the first `ph.len()` program headers, in order: each loadable one copies its file
/// bytes to `base + p_vaddr` and zeroes the rest of its memory size; the first one
/// whose bytes lie outside the file, or else outside memory, stops the load, with
/// the earlier segments written.
pub open spec fn load_segments(m: Seq<u8>, file: Seq<u8>, base: u64, ph: Seq<ProgramHeaderInfo>) -> (Seq<u8>, Seq<LoadedSeg>, Option<LoadStop>)
    decreases ph.len(),
{
    if ph.len() == 0 {
        (m, Seq::empty(), None)
    } else {
        let prev = load_segments(m, file, base, ph.drop_last());
        let h = ph.last();
        if prev.2 is Some || h.p_type != PT_LOAD {
            prev
        } else if !in_file(h, file.len() as int) {
            (prev.0, prev.1, Some(LoadStop::OutsideFile))
        } else if !in_memory(h, base, m.len() as int) {
            (prev.0, prev.1, Some(LoadStop::OutsideMemory))
        } else {
            let paddr = base + h.p_vaddr;
            let m1 = splice(prev.0, paddr, file.subrange(h.p_offset as int, h.p_offset + h.p_filesz));
            let m2 = if h.p_memsz > h.p_filesz {
                splice(m1, paddr + h.p_filesz, zeros((h.p_memsz - h.p_filesz) as nat))
            } else {
                m1
            };
            (m2, prev.1.push(LoadedSeg { vaddr: h.p_vaddr, memsz: h.p_memsz, paddr: paddr as u64 }), None)
        }
    }
}

/// The value a relative relocation stores: the base plus the addend, wrapping.
pub open spec fn relative_value(base: u64, addend: Option<i64>) -> u64 {
    base.wrapping_add(addend.unwrap_or(0) as u64)
}

/// Guest memory after the relocations, in order, and what stopped them, if anything:
/// the first one of a type other than `R_X86_64_RELATIVE`, or the first relative one
/// whose target lies outside memory.
pub open spec fn apply_relocations(m: Seq<u8>, base: u64, rs: Seq<RelaInfo>) -> (Seq<u8>, Option<RelocStop>)
    decreases rs.len(),
{
    if rs.len() == 0 {
        (m, None)
    } else {
        let prev = apply_relocations(m, base, rs.drop_last());
        let r = rs.last();
        if prev.1 is Some {
            prev
        } else if r.r_type != R_X86_64_RELATIVE {
            (prev.0, Some(RelocStop::Unsupported(r)))
        } else if base + r.r_offset + 8 > m.len() {
            (prev.0, Some(RelocStop::OutsideMemory))
        } else {
            (splice(prev.0, base + r.r_offset, spec_u64_to_le_bytes(relative_value(base, r.r_addend))), None)
        }
    }
}

/// The text of the error for a relocation of unsupported type.
pub open spec fn unsupported_relocation_text(r_type: u32, r_offset: u64) -> Seq<char> {
    "unsupported relocation type "@ + decimal(r_type as nat) + " at r_offset="@ + hex_alt(r_offset as nat)
}

/// The text of the error for a segment or relocation outside guest memory.
pub open spec fn outside_memory_text() -> Seq<char> {
    "kernel image does not fit guest memory"@
}

/// The text of the error for an entry point that overflows 64 bits at the load base.
pub open spec fn entry_overflow_text() -> Seq<char> {
    "kernel entry point does not fit in 64 bits"@
}

/// How loading `img` from `file` at `base` into `m` ends: the memory afterwards,
/// holding every write made before the step that stopped the load, and the result.
pub open spec fn load_outcome(
    m: Seq<u8>,
    m2: Seq<u8>,
    file: Seq<u8>,
    base: u64,
    img: ElfImageView,
    r: Result<ElfLoadResult, VmmonError>,
) -> bool {
    let segs = load_segments(m, file, base, img.phdrs);
    let rel = apply_relocations(segs.0, base, img.relas);
    match segs.2 {
        Some(LoadStop::OutsideFile) => {
            &&& m2 == segs.0
            &&& r matches Err(VmmonError::Elf(msg)) && msg@ == "segment out of bounds"@
        },
        Some(LoadStop::OutsideMemory) => {
            &&& m2 == segs.0
            &&& r matches Err(VmmonError::Elf(msg)) && msg@ == outside_memory_text()
        },
        None => match rel.1 {
            Some(RelocStop::Unsupported(x)) => {
                &&& m2 == rel.0
                &&& r matches Err(VmmonError::Elf(msg)) && msg@ == unsupported_relocation_text(x.r_type, x.r_offset)
            },
            Some(RelocStop::OutsideMemory) => {
                &&& m2 == rel.0
                &&& r matches Err(VmmonError::Elf(msg)) && msg@ == outside_memory_text()
            },
            None => if base + img.entry > u64::MAX {
                &&& m2 == rel.0
                &&& r matches Err(VmmonError::Elf(msg)) && msg@ == entry_overflow_text()
            } else {
                &&& m2 == rel.0
                &&& r matches Ok(res) && res.entry_virt == base + img.entry && res.load_base == base
                    && res.segs@ == segs.1
            },
        },
    }
}

fn literal(s: &str) -> (r: String)
    ensures
        r@ == s@,
{
    String::from_str(s)
}

/// Copies the loadable segments of `img` from `file` into guest memory at `base`,
/// applies its relative relocations and reports where the kernel landed. Each step
/// is checked as it comes: a segment outside the file or outside memory, or a
/// relocation of another type or outside memory, stops the load with the earlier
/// writes made.
pub fn load_elf_image(
    mem: &mut GuestMemory,
    base: u64,
    file: &[u8],
    img: &ElfImage,
) -> (r: Result<ElfLoadResult, VmmonError>)
    ensures
        load_outcome(old(mem)@, final(mem)@, file@, base, img@, r),
{
    let len = mem.size_bytes();
    let mut segs: Vec<LoadedSeg> = Vec::new();
    let n = img.phdrs.len();
    let mut i: usize = 0;
    while i < n
        invariant
            n == img.phdrs@.len(),
            0 <= i <= n,
            len == mem@.len(),
            mem@.len() == old(mem)@.len(),
            mem@.len() <= usize::MAX,
            load_segments(old(mem)@, file@, base, img.phdrs@.subrange(0, i as int))
                == (mem@, segs@, None::<LoadStop>),
        decreases n - i,
    {
        let ph = img.phdrs[i];
        proof {
            assert(img.phdrs@.subrange(0, i + 1).drop_last() =~= img.phdrs@.subrange(0, i as int));
            assert(img.phdrs@.subrange(0, i + 1).last() == ph);
        }
        if ph.p_type == PT_LOAD {
            let vaddr = ph.p_vaddr;
            if (ph.p_offset as u128) + (ph.p_filesz as u128) > file.len() as u128 {
                proof {
                    lemma_segments_stop(old(mem)@, file@, base, img.phdrs@, i + 1);
                }
                return Err(VmmonError::elf(literal("segment out of bounds")));
            }
            let lo = (base as u128) + (vaddr as u128);
            if lo + (ph.p_filesz as u128) > len as u128 || lo + (ph.p_memsz as u128) > len as u128 {
                proof {
                    lemma_segments_stop(old(mem)@, file@, base, img.phdrs@, i + 1);
                }
                return Err(VmmonError::elf(literal("kernel image does not fit guest memory")));
            }
            let paddr = base + vaddr;
            let file_off = ph.p_offset as usize;
            let file_sz = ph.p_filesz as usize;
            mem.write(paddr, &file[file_off..file_off + file_sz]);
            assert(file@.subrange(file_off as int, file_off + file_sz) == file@.subrange(ph.p_offset as int, ph.p_offset + ph.p_filesz));
            if ph.p_memsz > ph.p_filesz {
                let mem_sz = ph.p_memsz as usize;
                mem.write_zeros(paddr + ph.p_filesz, mem_sz - file_sz);
            }
            segs.push(LoadedSeg { vaddr, memsz: ph.p_memsz, paddr });
        }
        i += 1;
    }
    proof {
        assert(img.phdrs@.subrange(0, n as int) =~= img.phdrs@);
    }
    let ghost after_segs = mem@;
    let m = img.relas.len();
    let mut k: usize = 0;
    while k < m
        invariant
            m == img.relas@.len(),
            0 <= k <= m,
            len == mem@.len(),
            mem@.len() == old(mem)@.len(),
            after_segs.len() == old(mem)@.len(),
            mem@.len() <= usize::MAX,
            apply_relocations(after_segs, base, img.relas@.subrange(0, k as int)) == (mem@, None::<RelocStop>),
            load_segments(old(mem)@, file@, base, img.phdrs@) == (after_segs, segs@, None::<LoadStop>),
        decreases m - k,
    {
        let rela = img.relas[k];
        proof {
            assert(img.relas@.subrange(0, k + 1).drop_last() =~= img.relas@.subrange(0, k as int));
            assert(img.relas@.subrange(0, k + 1).last() == rela);
        }
        if rela.r_type == R_X86_64_RELATIVE {
            if (base as u128) + (rela.r_offset as u128) + 8 > len as u128 {
                proof {
                    lemma_relocations_stop(after_segs, base, img.relas@, k as int + 1);
                }
                return Err(VmmonError::elf(literal("kernel image does not fit guest memory")));
            }
            let addend: i64 = match rela.r_addend {
                Some(a) => a,
                None => 0,
            };
            let where_gpa = base + rela.r_offset;
            let value = base.wrapping_add(#[verifier::truncate] (addend as u64));
            mem.write_u64(where_gpa, value);
            proof {
                vstd::bytes::lemma_auto_spec_u64_to_from_le_bytes();
                lemma_splice_len(old(mem)@, where_gpa as int, spec_u64_to_le_bytes(value));
            }
        } else {
            let mut msg = str_chars("unsupported relocation type ");
            push_decimal(&mut msg, rela.r_type as u64);
            let tail = str_chars(" at r_offset=");
            let mut msg2 = msg;
            crate::text::push_chars(&mut msg2, tail.as_slice());
            push_hex_alt(&mut msg2, rela.r_offset);
            proof {
                lemma_relocations_stop(after_segs, base, img.relas@, k as int + 1);
            }
            return Err(VmmonError::elf(string_from_chars(msg2.as_slice())));
        }
        k += 1;
    }
    proof {
        assert(img.relas@.subrange(0, m as int) =~= img.relas@);
    }
    if (base as u128) + (img.entry as u128) > u64::MAX as u128 {
        return Err(VmmonError::elf(literal("kernel entry point does not fit in 64 bits")));
    }
    let entry_virt = base + img.entry;
    Ok(ElfLoadResult { entry_virt, load_base: base, segs })
}

/// Once a relocation has stopped them, later ones change nothing.
proof fn lemma_relocations_stop(m: Seq<u8>, base: u64, rs: Seq<RelaInfo>, k: int)
    requires
        0 <= k <= rs.len(),
        apply_relocations(m, base, rs.subrange(0, k)).1 is Some,
    ensures
        apply_relocations(m, base, rs) == apply_relocations(m, base, rs.subrange(0, k)),
    decreases rs.len() - k,
{
    if k == rs.len() {
        assert(rs.subrange(0, k) =~= rs);
    } else {
        assert(rs.subrange(0, k + 1).drop_last() =~= rs.subrange(0, k));
        lemma_relocations_stop(m, base, rs, k + 1);
    }
}

/// Once a segment has stopped the load, later headers change nothing.
proof fn lemma_segments_stop(m: Seq<u8>, file: Seq<u8>, base: u64, ph: Seq<ProgramHeaderInfo>, k: int)
    requires
        0 <= k <= ph.len(),
        load_segments(m, file, base, ph.subrange(0, k)).2 is Some,
    ensures
        load_segments(m, file, base, ph) == load_segments(m, file, base, ph.subrange(0, k)),
    decreases ph.len() - k,
{
    if k == ph.len() {
        assert(ph.subrange(0, k) =~= ph);
    } else {
        assert(ph.subrange(0, k + 1).drop_last() =~= ph.subrange(0, k));
        lemma_segments_stop(m, file, base, ph, k + 1);
    }
}

/// Parses `elf_bytes` with goblin and loads the kernel at the layout's load base.
/// A parse failure is an `Elf` error with goblin's text and leaves memory as it was;
/// otherwise the load goes as `load_elf_image` says.
pub fn load_elf64(
    mem: &mut GuestMemory,
    layout: &GuestLayout,
    elf_bytes: &[u8],
) -> (r: Result<ElfLoadResult, VmmonError>)
    ensures
        match goblin_elf_parse(elf_bytes@) {
            Err(text) => final(mem)@ == old(mem)@ && (r matches Err(VmmonError::Elf(msg)) && msg@ == text),
            Ok(img) => load_outcome(old(mem)@, final(mem)@, elf_bytes@, layout.kernel_load_phys, img, r),
        },
{
    let img = match parse_elf(elf_bytes) {
        Ok(img) => img,
        Err(e) => return Err(VmmonError::elf(e)),
    };
    load_elf_image(mem, layout.kernel_load_phys, elf_bytes, &img)
}

} // verus!
