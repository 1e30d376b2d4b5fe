use vmmon::boot::elf::{load_elf64, load_elf_image, ElfImage, ProgramHeaderInfo, RelaInfo};
use vmmon::boot::iso::{
    extract_kernel_elf_from_limine_iso, kernel_from_boot_file, kernel_path_candidates, normalize_iso_name, normalize_limine_path,
    parse_dir_record, parse_file_identifier, parse_limine_kernel_path, push_unique, rd_u32_le, split_path,
    strip_iso_version_suffix, validate_pvd,
};
use vmmon::boot::limine::install::{
    align_down, align_up, build_memmap_entries, install_minimal_limine, kernel_fits_memory, GuestBump, Range,
};
use vmmon::boot::limine::spec::{
    LIMINE_COMMON_MAGIC0, LIMINE_COMMON_MAGIC1, LIMINE_HHDM_MAGIC2, LIMINE_HHDM_MAGIC3, LIMINE_MEMMAP_MAGIC2,
    LIMINE_MEMMAP_MAGIC3, LIMINE_MEMMAP_RESERVED, LIMINE_MEMMAP_USABLE, LIMINE_REQUEST_RESPONSE_OFF,
};
use vmmon::boot::long_mode::{boot_state_fits, build_long_mode_boot_state};
use vmmon::guest::layout::GuestLayout;
use vmmon::guest::memory::GuestMemory;
use vmmon::vmm::errors::VmmonError;

// ---------------------------------------------------------------------------
// ISO images built in memory
// ---------------------------------------------------------------------------

const SECTOR: usize = 2048;

fn dir_record(lba: u32, size: u32, is_dir: bool, ident: &[u8]) -> Vec<u8> {
    let mut len = 33 + ident.len();
    if len % 2 == 1 {
        len += 1;
    }
    let mut r = vec![0u8; len];
    r[0] = len as u8;
    r[2..6].copy_from_slice(&lba.to_le_bytes());
    r[10..14].copy_from_slice(&size.to_le_bytes());
    r[25] = if is_dir { 2 } else { 0 };
    r[32] = ident.len() as u8;
    r[33..33 + ident.len()].copy_from_slice(ident);
    r
}

struct IsoBuilder {
    data: Vec<u8>,
}

impl IsoBuilder {
    fn new(sectors: usize) -> Self {
        let mut data = vec![0u8; sectors * SECTOR];
        let pvd = 16 * SECTOR;
        data[pvd] = 1;
        data[pvd + 1..pvd + 6].copy_from_slice(b"CD001");
        data[pvd + 6] = 1;
        IsoBuilder { data }
    }

    fn set_root(&mut self, lba: u32, size: u32) {
        let rec = dir_record(lba, size, true, &[0]);
        let off = 16 * SECTOR + 156;
        self.data[off..off + rec.len()].copy_from_slice(&rec);
    }

    fn write_dir(&mut self, lba: u32, entries: &[(u32, u32, bool, &[u8])]) -> u32 {
        let mut off = lba as usize * SECTOR;
        let start = off;
        for rec in [dir_record(lba, SECTOR as u32, true, &[0]), dir_record(lba, SECTOR as u32, true, &[1])] {
            self.data[off..off + rec.len()].copy_from_slice(&rec);
            off += rec.len();
        }
        for (l, s, d, name) in entries {
            let rec = dir_record(*l, *s, *d, name);
            self.data[off..off + rec.len()].copy_from_slice(&rec);
            off += rec.len();
        }
        (off - start) as u32
    }

    fn write_file(&mut self, lba: u32, bytes: &[u8]) {
        let off = lba as usize * SECTOR;
        self.data[off..off + bytes.len()].copy_from_slice(bytes);
    }
}

/// An image with `/BOOT/LIMINE.CONF;1` holding `conf` and `/KERNEL.ELF;1` holding `kernel`.
fn iso_with_config(conf: &[u8], kernel: &[u8]) -> Vec<u8> {
    let mut b = IsoBuilder::new(24);
    let root_len = b.write_dir(
        20,
        &[(21, SECTOR as u32, true, b"BOOT"), (22, kernel.len() as u32, false, b"KERNEL.ELF;1")],
    );
    b.set_root(20, root_len);
    b.write_dir(21, &[(23, conf.len() as u32, false, b"LIMINE.CONF;1")]);
    b.write_file(22, kernel);
    b.write_file(23, conf);
    b.data
}

#[test]
fn iso_kernel_found_through_limine_config() {
    let kernel = b"\x7fELF-kernel-bytes";
    let iso = iso_with_config(b"# boot entry\n  KERNEL_PATH=boot:///kernel.elf\n", kernel);
    let got = extract_kernel_elf_from_limine_iso("test.iso", &iso).unwrap();
    assert_eq!(got, kernel.to_vec());
}

#[test]
fn boot_file_is_an_iso_or_the_kernel_itself() {
    let kernel = b"\x7fELF-kernel-bytes";
    let iso = iso_with_config(b"KERNEL_PATH=boot:///kernel.elf\n", kernel);
    assert_eq!(kernel_from_boot_file("boot.iso", &iso).unwrap(), kernel.to_vec());
    assert_eq!(kernel_from_boot_file("./kernel.elf", kernel).unwrap(), kernel.to_vec());
    assert!(kernel_from_boot_file("boot.iso", b"not an iso").is_err());
}

#[test]
fn iso_fallback_when_config_sets_nothing() {
    let kernel = b"payload";
    let iso = iso_with_config(b"kernel_path = '\"/KERNEL.ELF\"'\n", kernel);
    // The key must be followed directly by '=', so this line sets nothing and the
    // fallback path finds the kernel.
    let got = extract_kernel_elf_from_limine_iso("test.iso", &iso).unwrap();
    assert_eq!(got, kernel.to_vec());
}

#[test]
fn iso_configured_kernel_missing_is_an_error() {
    let iso = iso_with_config(b"KERNEL_PATH=boot:///nope.elf\n", b"k");
    match extract_kernel_elf_from_limine_iso("disk.iso", &iso) {
        Err(VmmonError::Boot(m)) => assert_eq!(
            m,
            "found KERNEL_PATH='/nope.elf' in '/boot/limine.conf' inside ISO 'disk.iso', but failed to read any of these resolved paths: /nope.elf, /boot/nope.elf"
        ),
        other => panic!("unexpected {:?}", other.map(|v| v.len())),
    }
}

#[test]
fn iso_without_kernel_lists_what_was_tried() {
    let mut b = IsoBuilder::new(22);
    let root_len = b.write_dir(20, &[]);
    b.set_root(20, root_len);
    match extract_kernel_elf_from_limine_iso("x.iso", &b.data) {
        Err(VmmonError::Boot(m)) => assert_eq!(
            m,
            "failed to resolve kernel ELF from ISO 'x.iso'; tried Limine configs (/boot/limine.conf, /limine.conf, /boot/limine.cfg, /limine.cfg) and fallback kernel paths (/boot/kernel.elf, /kernel.elf, /boot/micros64.elf, /micros64.elf, /boot/micros.elf, /micros.elf)"
        ),
        other => panic!("unexpected {:?}", other.map(|v| v.len())),
    }
}

#[test]
fn iso_too_short_is_an_io_error() {
    let data = vec![0u8; 10 * SECTOR];
    assert!(matches!(extract_kernel_elf_from_limine_iso("s.iso", &data), Err(VmmonError::Io(_))));
}

#[test]
fn iso_wrong_descriptor_type() {
    let mut b = IsoBuilder::new(20);
    b.data[16 * SECTOR] = 2;
    match extract_kernel_elf_from_limine_iso("s.iso", &b.data) {
        Err(VmmonError::Boot(m)) => {
            assert_eq!(m, "unexpected ISO volume descriptor type 2; expected primary volume descriptor")
        }
        _ => panic!("expected a boot error"),
    }
}

#[test]
fn iso_root_not_a_directory() {
    let mut b = IsoBuilder::new(22);
    let rec = dir_record(20, 100, false, &[0]);
    let off = 16 * SECTOR + 156;
    b.data[off..off + rec.len()].copy_from_slice(&rec);
    match extract_kernel_elf_from_limine_iso("s.iso", &b.data) {
        Err(VmmonError::Boot(m)) => assert_eq!(m, "ISO primary volume descriptor root record is not a directory"),
        _ => panic!("expected a boot error"),
    }
}

#[test]
fn pvd_errors() {
    assert!(matches!(validate_pvd(&[1u8; 100]), Err(VmmonError::Boot(m)) if m == "short read of ISO primary volume descriptor"));
    let mut pvd = vec![0u8; SECTOR];
    pvd[0] = 1;
    pvd[1..6].copy_from_slice(b"CD002");
    assert!(matches!(validate_pvd(&pvd), Err(VmmonError::Boot(m)) if m == "invalid ISO9660 standard identifier"));
    pvd[1..6].copy_from_slice(b"CD001");
    pvd[6] = 3;
    assert!(matches!(validate_pvd(&pvd), Err(VmmonError::Boot(m)) if m == "unsupported ISO volume descriptor version 3"));
    pvd[6] = 1;
    assert!(validate_pvd(&pvd).is_ok());
}

#[test]
fn directory_records_and_identifiers() {
    let rec = dir_record(0x1234, 0x800, true, b"DIR;1");
    let n = parse_dir_record(&rec).unwrap();
    assert_eq!((n.extent_lba, n.size, n.is_dir), (0x1234, 0x800, true));
    assert!(parse_dir_record(&rec[..33]).is_none());
    assert_eq!(parse_file_identifier(&rec).unwrap(), "DIR");
    assert_eq!(parse_file_identifier(&dir_record(1, 1, true, &[0])).unwrap(), ".");
    assert_eq!(parse_file_identifier(&dir_record(1, 1, true, &[1])).unwrap(), "..");
    assert!(parse_file_identifier(&dir_record(1, 1, false, &[0xff, 0xfe])).is_none());
    assert!(parse_file_identifier(&rec[..20]).is_none());
    assert_eq!(rd_u32_le(&[1, 2, 3, 4, 5], 1), Some(0x05040302));
    assert_eq!(rd_u32_le(&[1, 2, 3, 4, 5], 2), None);
    assert_eq!(rd_u32_le(&[1, 2, 3], usize::MAX), None);
}

#[test]
fn iso_names() {
    assert_eq!(strip_iso_version_suffix("KERNEL.ELF;1"), "KERNEL.ELF");
    assert_eq!(strip_iso_version_suffix("A;B"), "A;B");
    assert_eq!(strip_iso_version_suffix(";1"), ";1");
    assert_eq!(strip_iso_version_suffix("X;"), "X");
    assert_eq!(normalize_iso_name(" /Boot/ ;12"), "boot");
    assert_eq!(normalize_iso_name("Kernel.ELF;1"), "kernel.elf");
    assert_eq!(split_path("//boot///limine.conf/"), vec!["boot", "limine.conf"]);
    assert!(split_path("///").is_empty());
}

#[test]
fn limine_paths() {
    assert_eq!(normalize_limine_path("  boot:///boot/kernel.elf "), "/boot/kernel.elf");
    assert_eq!(normalize_limine_path("file://x"), "/x");
    assert_eq!(normalize_limine_path("boot:/"), "");
    assert_eq!(normalize_limine_path("///a/b"), "/a/b");
    assert_eq!(normalize_limine_path(""), "");
    // Making a path absolute twice changes nothing.
    for p in ["boot:///a", " /x/y ", "file:/z", "", "//"] {
        let once = normalize_limine_path(p);
        assert_eq!(normalize_limine_path(&once), once);
    }
    // The result is empty or one slash, then a rest that starts with no slash and
    // ends in no whitespace.
    for p in ["boot:////a/b\t", "  file:///x ", "///", "a"] {
        let n: Vec<char> = normalize_limine_path(p).chars().collect();
        if !n.is_empty() {
            assert!(n.len() >= 2 && n[0] == '/' && n[1] != '/');
            assert!(!n[n.len() - 1].is_whitespace());
        }
    }
}

#[test]
fn kernel_candidates() {
    assert_eq!(kernel_path_candidates("/kernel.elf"), vec!["/kernel.elf", "/boot/kernel.elf"]);
    assert_eq!(
        kernel_path_candidates("boot:///sys/k.elf"),
        vec!["/sys/k.elf", "/boot/sys/k.elf", "/boot/k.elf"]
    );
    assert_eq!(kernel_path_candidates("/boot/k"), vec!["/boot/k", "/boot/boot/k"]);
}

#[test]
fn push_unique_ignores_case_and_empty() {
    let mut v: Vec<String> = Vec::new();
    push_unique(&mut v, "/A".to_string());
    push_unique(&mut v, "/a".to_string());
    push_unique(&mut v, String::new());
    push_unique(&mut v, "/b".to_string());
    assert_eq!(v, vec!["/A".to_string(), "/b".to_string()]);
}

#[test]
fn limine_config_parsing() {
    assert_eq!(parse_limine_kernel_path(b"KERNEL_PATH=boot:///k.elf").unwrap(), "/k.elf");
    assert_eq!(parse_limine_kernel_path(b"# KERNEL_PATH=/a\r\nkErNeL_pAtH= \"'/b'\" \r\n").unwrap(), "/b");
    assert!(parse_limine_kernel_path(b"KERNEL_PATH=\nKERNEL_PATH=boot:///").is_none());
    assert!(parse_limine_kernel_path(b"").is_none());
    assert!(parse_limine_kernel_path(&[0xff, 0x00]).is_none());
}

// ---------------------------------------------------------------------------
// ELF loading
// ---------------------------------------------------------------------------

const MIB: usize = 1024 * 1024;

fn tiny_elf(entry: u64, vaddr: u64, filesz: u64, memsz: u64, offset: u64) -> Vec<u8> {
    let mut f = vec![0u8; 128];
    f[0..4].copy_from_slice(b"\x7fELF");
    f[4] = 2;
    f[5] = 1;
    f[6] = 1;
    f[16..18].copy_from_slice(&2u16.to_le_bytes());
    f[18..20].copy_from_slice(&0x3eu16.to_le_bytes());
    f[20..24].copy_from_slice(&1u32.to_le_bytes());
    f[24..32].copy_from_slice(&entry.to_le_bytes());
    f[32..40].copy_from_slice(&64u64.to_le_bytes());
    f[52..54].copy_from_slice(&64u16.to_le_bytes());
    f[54..56].copy_from_slice(&56u16.to_le_bytes());
    f[56..58].copy_from_slice(&1u16.to_le_bytes());
    let ph = 64;
    f[ph..ph + 4].copy_from_slice(&1u32.to_le_bytes());
    f[ph + 4..ph + 8].copy_from_slice(&5u32.to_le_bytes());
    f[ph + 8..ph + 16].copy_from_slice(&offset.to_le_bytes());
    f[ph + 16..ph + 24].copy_from_slice(&vaddr.to_le_bytes());
    f[ph + 24..ph + 32].copy_from_slice(&vaddr.to_le_bytes());
    f[ph + 32..ph + 40].copy_from_slice(&filesz.to_le_bytes());
    f[ph + 40..ph + 48].copy_from_slice(&memsz.to_le_bytes());
    f[ph + 48..ph + 56].copy_from_slice(&0x1000u64.to_le_bytes());
    for (i, b) in f[120..128].iter_mut().enumerate() {
        *b = 0xA0 + i as u8;
    }
    f
}

#[test]
fn elf_segments_are_copied_and_zero_filled() {
    let mut mem = GuestMemory::new(8 * MIB).unwrap();
    mem.write(0x201000 + 128, &[0xEE; 64]);
    let layout = GuestLayout::default_layout(8 * MIB);
    let elf = tiny_elf(0x1040, 0x1000, 128, 192, 0);
    let r = load_elf64(&mut mem, &layout, &elf).unwrap();
    assert_eq!(r.load_base, 0x200000);
    assert_eq!(r.entry_virt, 0x201040);
    assert_eq!(r.segs.len(), 1);
    assert_eq!((r.segs[0].vaddr, r.segs[0].memsz, r.segs[0].paddr), (0x1000, 192, 0x201000));
    assert_eq!(mem.slice(0x201000, 128), &elf[..]);
    assert_eq!(mem.slice(0x201000 + 128, 64), &[0u8; 64][..]);
}

#[test]
fn elf_parse_failure_is_an_elf_error() {
    let mut mem = GuestMemory::new(4 * MIB).unwrap();
    let layout = GuestLayout::default_layout(4 * MIB);
    assert!(matches!(load_elf64(&mut mem, &layout, b"not an elf file at all"), Err(VmmonError::Elf(_))));
}

#[test]
fn elf_segment_outside_file() {
    let mut mem = GuestMemory::new(8 * MIB).unwrap();
    let layout = GuestLayout::default_layout(8 * MIB);
    let img = ElfImage {
        entry: 0,
        phdrs: vec![ProgramHeaderInfo { p_type: 1, p_offset: 100, p_vaddr: 0, p_filesz: 100, p_memsz: 100 }],
        relas: vec![],
    };
    let file = vec![0u8; 150];
    match load_elf_image(&mut mem, layout.kernel_load_phys, &file, &img) {
        Err(VmmonError::Elf(m)) => assert_eq!(m, "segment out of bounds"),
        _ => panic!("expected an elf error"),
    }
}

#[test]
fn elf_image_too_large_for_memory() {
    let mut mem = GuestMemory::new(4 * MIB).unwrap();
    let layout = GuestLayout::default_layout(4 * MIB);
    let elf = tiny_elf(0, 0x300000, 128, 0x200000, 0);
    match load_elf64(&mut mem, &layout, &elf) {
        Err(VmmonError::Elf(m)) => assert_eq!(m, "kernel image does not fit guest memory"),
        _ => panic!("expected an elf error"),
    }
}

#[test]
fn elf_errors_come_in_load_order() {
    let mut mem = GuestMemory::new(4 * MIB).unwrap();
    let base = 0x200000u64;
    let file: Vec<u8> = (0..64u8).collect();
    // The first segment loads, the second runs past the file: its error comes
    // first, though a relocation beyond memory follows, and the first stays written.
    let img = ElfImage {
        entry: 0,
        phdrs: vec![
            ProgramHeaderInfo { p_type: 1, p_offset: 0, p_vaddr: 0, p_filesz: 16, p_memsz: 16 },
            ProgramHeaderInfo { p_type: 1, p_offset: 32, p_vaddr: 0x100, p_filesz: 64, p_memsz: 64 },
        ],
        relas: vec![RelaInfo { r_offset: 0x10_0000_0000, r_type: 8, r_addend: None }],
    };
    match load_elf_image(&mut mem, base, &file, &img) {
        Err(VmmonError::Elf(m)) => assert_eq!(m, "segment out of bounds"),
        _ => panic!("expected an elf error"),
    }
    assert_eq!(mem.slice(base, 16), &file[..16]);

    // A relocation of another type before one beyond memory: the type is reported.
    let img2 = ElfImage {
        entry: 0,
        phdrs: vec![],
        relas: vec![
            RelaInfo { r_offset: 0x8, r_type: 8, r_addend: Some(5) },
            RelaInfo { r_offset: 0x30, r_type: 1, r_addend: None },
            RelaInfo { r_offset: 0x10_0000_0000, r_type: 8, r_addend: None },
        ],
    };
    match load_elf_image(&mut mem, base, &[], &img2) {
        Err(VmmonError::Elf(m)) => assert_eq!(m, "unsupported relocation type 1 at r_offset=0x30"),
        _ => panic!("expected an elf error"),
    }
    assert_eq!(mem.read_u64(base + 8), 0x200005);

    // A relative relocation beyond memory.
    let img3 = ElfImage {
        entry: 0,
        phdrs: vec![],
        relas: vec![RelaInfo { r_offset: 0x10_0000_0000, r_type: 8, r_addend: None }],
    };
    match load_elf_image(&mut mem, base, &[], &img3) {
        Err(VmmonError::Elf(m)) => assert_eq!(m, "kernel image does not fit guest memory"),
        _ => panic!("expected an elf error"),
    }

    // An entry point that overflows 64 bits at the load base.
    let img4 = ElfImage { entry: u64::MAX, phdrs: vec![], relas: vec![] };
    match load_elf_image(&mut mem, base, &[], &img4) {
        Err(VmmonError::Elf(m)) => assert_eq!(m, "kernel entry point does not fit in 64 bits"),
        _ => panic!("expected an elf error"),
    }
}

#[test]
fn elf_relative_relocations_and_unsupported_type() {
    let mut mem = GuestMemory::new(4 * MIB).unwrap();
    let base = 0x200000u64;
    let img = ElfImage {
        entry: 0x10,
        phdrs: vec![ProgramHeaderInfo { p_type: 6, p_offset: 0, p_vaddr: 0, p_filesz: 0, p_memsz: 0 }],
        relas: vec![
            RelaInfo { r_offset: 0x100, r_type: 8, r_addend: Some(0x40) },
            RelaInfo { r_offset: 0x108, r_type: 8, r_addend: Some(-0x10) },
            RelaInfo { r_offset: 0x110, r_type: 8, r_addend: None },
        ],
    };
    let r = load_elf_image(&mut mem, base, &[], &img).unwrap();
    assert_eq!(r.entry_virt, 0x200010);
    assert!(r.segs.is_empty());
    assert_eq!(mem.read_u64(base + 0x100), 0x200040);
    assert_eq!(mem.read_u64(base + 0x108), 0x1ffff0);
    assert_eq!(mem.read_u64(base + 0x110), 0x200000);

    let bad = ElfImage {
        entry: 0,
        phdrs: vec![],
        relas: vec![
            RelaInfo { r_offset: 0x100, r_type: 8, r_addend: Some(1) },
            RelaInfo { r_offset: 0x2a, r_type: 7, r_addend: None },
        ],
    };
    match load_elf_image(&mut mem, base, &[], &bad) {
        Err(VmmonError::Elf(m)) => assert_eq!(m, "unsupported relocation type 7 at r_offset=0x2a"),
        _ => panic!("expected an elf error"),
    }
    assert_eq!(mem.read_u64(base + 0x100), 0x200001);
}

// ---------------------------------------------------------------------------
// Long mode and Limine
// ---------------------------------------------------------------------------

#[test]
fn long_mode_boot_state() {
    let mut mem = GuestMemory::new(8 * MIB).unwrap();
    let layout = GuestLayout::default_layout(8 * MIB);
    assert!(boot_state_fits(&mem, &layout));
    let load = vmmon::boot::elf::ElfLoadResult { entry_virt: 0x201040, load_base: 0x200000, segs: vec![] };
    let s = build_long_mode_boot_state(&mut mem, &layout, &load).unwrap();
    assert_eq!((s.regs.rip, s.regs.rsp, s.regs.rflags), (0x1000, 0x7000, 0x2));
    assert_eq!((s.sregs.cs.base, s.sregs.cs.selector, s.sregs.ss.selector), (0, 0, 0));
    // The stub: cli; lgdt [0x1066]; ...; and the GDT pointer at its end.
    assert_eq!(mem.slice(0x1000, 6), &[0xFA, 0x0F, 0x01, 0x16, 0x66, 0x10][..]);
    assert_eq!(mem.read_u32(0x1000 + 20), 0x400000);
    assert_eq!(mem.read_u32(0x1000 + 60), 0x1042);
    assert_eq!(mem.read_u64(0x1000 + 82), 0x800000);
    assert_eq!(mem.read_u64(0x1000 + 92), 0x201040);
    assert_eq!(mem.read_u16(0x1000 + 102), 23);
    assert_eq!(mem.read_u32(0x1000 + 104), 0x3f0000);
    // The GDT.
    assert_eq!(mem.read_u64(0x3f0008), 0x00AF_9A00_0000_FFFF);
    assert_eq!(mem.read_u64(0x3f0010), 0x00AF_9200_0000_FFFF);
    // Page tables: PML4 -> PDPT -> PD, and an identity map of 2 MiB pages.
    assert_eq!(mem.read_u64(0x400000), 0x401003);
    assert_eq!(mem.read_u64(0x401000), 0x402003);
    assert_eq!(mem.read_u64(0x402000), 0x83);
    assert_eq!(mem.read_u64(0x402008), 0x200083);
    assert_eq!(mem.read_u64(0x402000 + 511 * 8), 511 * 0x200000 + 0x83);
    assert_eq!(mem.read_u64(0x400008), 0);
}

#[test]
fn boot_state_needs_room() {
    let mem = GuestMemory::new(2 * MIB).unwrap();
    let layout = GuestLayout::default_layout(2 * MIB);
    assert!(!boot_state_fits(&mem, &layout));
}

#[test]
fn memmap_for_guest() {
    let kernel = Range { base: 0x200000, len: 0x100000 };
    let bootinfo = Range { base: 0x900000, len: 0x200000 };
    let es = build_memmap_entries(0x1000000, kernel, bootinfo, Some(Range { base: 0xb00000, len: 0x1d4c00 }));
    let got: Vec<(u64, u64, u64)> = es.iter().map(|e| (e.base, e.length, e.typ)).collect();
    assert_eq!(
        got,
        vec![
            (0, 0x100000, LIMINE_MEMMAP_RESERVED),
            (0x100000, 0x100000, LIMINE_MEMMAP_USABLE),
            (0x300000, 0x600000, LIMINE_MEMMAP_USABLE),
            (0xcd4c00, 0x32b400, LIMINE_MEMMAP_USABLE),
            (0x200000, 0x100000, 6),
            (0x900000, 0x200000, 5),
            (0xb00000, 0x1d4c00, 7),
        ]
    );
}

#[test]
fn memmap_when_memory_ends_inside_the_framebuffer() {
    // The gaps between reserved ranges are listed whole, also past the top of
    // memory, and no usable tail follows.
    let kernel = Range { base: 0x200000, len: 0x100000 };
    let bootinfo = Range { base: 0x900000, len: 0x200000 };
    let es = build_memmap_entries(0xc00000, kernel, bootinfo, Some(Range { base: 0xb00000, len: 0x1d4c00 }));
    let got: Vec<(u64, u64, u64)> = es.iter().map(|e| (e.base, e.length, e.typ)).collect();
    assert_eq!(
        got,
        vec![
            (0, 0x100000, LIMINE_MEMMAP_RESERVED),
            (0x100000, 0x100000, LIMINE_MEMMAP_USABLE),
            (0x300000, 0x600000, LIMINE_MEMMAP_USABLE),
            (0x200000, 0x100000, 6),
            (0x900000, 0x200000, 5),
            (0xb00000, 0x1d4c00, 7),
        ]
    );
    let es2 = build_memmap_entries(0x800000, kernel, bootinfo, None);
    let got2: Vec<(u64, u64, u64)> = es2.iter().map(|e| (e.base, e.length, e.typ)).collect();
    assert_eq!(
        got2,
        vec![
            (0, 0x100000, LIMINE_MEMMAP_RESERVED),
            (0x100000, 0x100000, LIMINE_MEMMAP_USABLE),
            (0x300000, 0x600000, LIMINE_MEMMAP_USABLE),
            (0x200000, 0x100000, 6),
            (0x900000, 0x200000, 5),
        ]
    );
}

#[test]
fn alignment_and_bump_allocation() {
    assert_eq!(align_down(0x1234, 0x1000), 0x1000);
    assert_eq!(align_up(0x1234, 0x1000), 0x2000);
    assert_eq!(align_up(0x2000, 0x1000), 0x2000);
    let mut b = GuestBump::new(0x1003, 0x100);
    let a1 = b.allocate(10, 8).unwrap();
    let a2 = b.allocate(4, 8).unwrap();
    assert_eq!((a1, a2), (0x1008, 0x1018));
    assert!(a1 + 10 <= a2);
    assert!(matches!(b.allocate(0x1000, 8), Err(VmmonError::Boot(m)) if m == "limine bump out of space"));
}

fn put_request(mem: &mut GuestMemory, at: u64, magic2: u64, magic3: u64) {
    for (i, w) in [LIMINE_COMMON_MAGIC0, LIMINE_COMMON_MAGIC1, magic2, magic3].iter().enumerate() {
        mem.write_u64(at + 8 * i as u64, *w);
    }
}

#[test]
fn limine_responses_are_installed() {
    let mut mem = GuestMemory::new(16 * MIB).unwrap();
    let layout = GuestLayout::default_layout(16 * MIB);
    put_request(&mut mem, 0x200100, LIMINE_MEMMAP_MAGIC2, LIMINE_MEMMAP_MAGIC3);
    put_request(&mut mem, 0x200200, LIMINE_HHDM_MAGIC2, LIMINE_HHDM_MAGIC3);
    let load = vmmon::boot::elf::ElfLoadResult {
        entry_virt: 0x200000,
        load_base: 0x200000,
        segs: vec![vmmon::boot::elf::LoadedSeg { vaddr: 0, memsz: 0x1000, paddr: 0x200000 }],
    };
    assert!(kernel_fits_memory(&mem, &load));
    install_minimal_limine(&mut mem, &layout, &load, 16 * MIB as u64).unwrap();
    let mm_resp = mem.read_u64(0x200100 + LIMINE_REQUEST_RESPONSE_OFF);
    assert_ne!(mm_resp, 0);
    let count = mem.read_u64(mm_resp + 8);
    let entries = mem.read_u64(mm_resp + 16);
    let first = mem.read_u64(entries);
    assert_eq!(mem.read_u64(first), 0);
    assert_eq!(mem.read_u64(first + 8), 0x100000);
    assert_eq!(mem.read_u64(first + 16), LIMINE_MEMMAP_RESERVED);
    assert!(count >= 3);
    let hhdm_resp = mem.read_u64(0x200200 + LIMINE_REQUEST_RESPONSE_OFF);
    assert_eq!(mem.read_u64(hhdm_resp + 8), 0xffff_8000_0000_0000);
}

#[test]
fn limine_without_memmap_request_fails() {
    let mut mem = GuestMemory::new(16 * MIB).unwrap();
    let layout = GuestLayout::default_layout(16 * MIB);
    let load = vmmon::boot::elf::ElfLoadResult {
        entry_virt: 0x200000,
        load_base: 0x200000,
        segs: vec![vmmon::boot::elf::LoadedSeg { vaddr: 0, memsz: 0x1000, paddr: 0x200000 }],
    };
    match install_minimal_limine(&mut mem, &layout, &load, 16 * MIB as u64) {
        Err(VmmonError::Boot(m)) => assert_eq!(m, "failed to find Limine MemoryMapRequest in guest"),
        _ => panic!("expected a boot error"),
    }
}

#[test]
fn limine_without_hhdm_request_fails_and_writes_nothing() {
    let mut mem = GuestMemory::new(16 * MIB).unwrap();
    let layout = GuestLayout::default_layout(16 * MIB);
    put_request(&mut mem, 0x200100, LIMINE_MEMMAP_MAGIC2, LIMINE_MEMMAP_MAGIC3);
    let load = vmmon::boot::elf::ElfLoadResult {
        entry_virt: 0x200000,
        load_base: 0x200000,
        segs: vec![vmmon::boot::elf::LoadedSeg { vaddr: 0, memsz: 0x1000, paddr: 0x200000 }],
    };
    match install_minimal_limine(&mut mem, &layout, &load, 16 * MIB as u64) {
        Err(VmmonError::Boot(m)) => assert_eq!(m, "failed to find Limine HHDMRequest in guest"),
        _ => panic!("expected a boot error"),
    }
    assert_eq!(mem.read_u64(0x200100 + LIMINE_REQUEST_RESPONSE_OFF), 0);
}

#[test]
fn limine_responses_outside_small_memory_fail() {
    let mut mem = GuestMemory::new(4 * MIB).unwrap();
    let layout = GuestLayout::default_layout(4 * MIB);
    put_request(&mut mem, 0x200100, LIMINE_MEMMAP_MAGIC2, LIMINE_MEMMAP_MAGIC3);
    put_request(&mut mem, 0x200200, LIMINE_HHDM_MAGIC2, LIMINE_HHDM_MAGIC3);
    let load = vmmon::boot::elf::ElfLoadResult {
        entry_virt: 0x200000,
        load_base: 0x200000,
        segs: vec![vmmon::boot::elf::LoadedSeg { vaddr: 0, memsz: 0x1000, paddr: 0x200000 }],
    };
    match install_minimal_limine(&mut mem, &layout, &load, 4 * MIB as u64) {
        Err(VmmonError::Boot(m)) => assert_eq!(m, "limine responses do not fit in guest memory"),
        _ => panic!("expected a boot error"),
    }
}
