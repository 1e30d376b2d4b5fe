use vmmon::config::{has_ext, CliArgs, VmConfig};
use vmmon::devices::devices::Devices;
use vmmon::guest::memory::GuestMemory;
use vmmon::text::{is_whitespace, to_ascii_lower, to_ascii_upper};
use vmmon::vmm::cpuid::{adjust_cpuid, adjust_cpuid_entry, CpuidEntry};
use vmmon::vmm::errors::VmmonError;
use vmmon::vmm::exit::{VmExitInfo, VmExitReason};
use vmmon::vmm::vmmon::{rip_offset, ExitAction, VcpuEvent, Vmmon};

fn args(iso: &str, img: &str, mem: usize) -> CliArgs {
    CliArgs { boot_iso: iso.to_string(), disk_img: img.to_string(), mem_mib: mem }
}

#[test]
fn config_accepts_iso_and_img() {
    let c = VmConfig::from_cli(args("/tmp/boot.ISO", "disk.img", 512)).unwrap();
    assert_eq!(c.boot_iso_path, "/tmp/boot.ISO");
    assert_eq!(c.disk_img_path, "disk.img");
    assert_eq!(c.mem_size_bytes, 512 * 1024 * 1024);
}

#[test]
fn config_accepts_kernel_elf() {
    let c = VmConfig::from_cli(args("./kernel.elf", "disk.img", 1024)).unwrap();
    assert_eq!(c.boot_iso_path, "./kernel.elf");
    assert_eq!(c.mem_size_bytes, 1073741824);
}

#[test]
fn config_rejects_small_memory() {
    match VmConfig::from_cli(args("a.iso", "b.img", 63)) {
        Err(VmmonError::Config(m)) => assert_eq!(m, "mem_mib must be >= 64"),
        _ => panic!("expected a config error"),
    }
    assert!(VmConfig::from_cli(args("a.iso", "b.img", 64)).is_ok());
}

#[test]
fn config_rejects_wrong_extensions() {
    match VmConfig::from_cli(args("a.img", "b.img", 128)) {
        Err(VmmonError::Config(m)) => assert_eq!(m, "boot_iso must be an .iso or .elf file, got 'a.img'"),
        _ => panic!("expected a config error"),
    }
    match VmConfig::from_cli(args("a.iso", "b.raw", 128)) {
        Err(VmmonError::Config(m)) => assert_eq!(m, "disk_img must be an .img file, got 'b.raw'"),
        _ => panic!("expected a config error"),
    }
}

#[test]
fn extensions_as_path_gives_them() {
    assert!(has_ext("dir/x.iso", "iso"));
    assert!(has_ext("x.tar.ISO", "iso"));
    assert!(has_ext("x.iso/", "iso"));
    assert!(has_ext("x.iso/.", "iso"));
    assert!(!has_ext(".iso", "iso"));
    assert!(!has_ext("x.iso/..", "iso"));
    assert!(!has_ext("iso", "iso"));
    assert!(!has_ext("x.", "iso"));
    assert!(has_ext("x.", ""));
    assert!(!has_ext("", "iso"));
    assert!(!has_ext("a.iso.d/file", "iso"));
}

#[test]
fn characters() {
    assert!(is_whitespace(' '));
    assert!(is_whitespace('\u{3000}'));
    assert!(!is_whitespace('x'));
    assert_eq!(to_ascii_lower('Q'), 'q');
    assert_eq!(to_ascii_upper('q'), 'Q');
    assert_eq!(to_ascii_lower('é'), 'é');
}

#[test]
fn exit_descriptions() {
    assert_eq!(VmExitInfo::hlt().describe(), "hlt");
    assert_eq!(VmExitInfo::shutdown().describe(), "shutdown");
    assert_eq!(VmExitReason::InternalError.describe(), "internal-error");
    assert_eq!(VmExitReason::Unhandled("x".to_string()).describe(), "unhandled: x");
    assert!(matches!(VmExitInfo::hlt().reason, VmExitReason::Hlt));
}

#[test]
fn cpuid_leaves_for_the_guest() {
    let mut e = CpuidEntry { function: 1, index: 0, eax: 1, ebx: 2, ecx: 0xffff_ffff, edx: 4 };
    adjust_cpuid_entry(&mut e);
    assert_eq!(e.ecx, 0xffff_ffff & !((1 << 12) | (1 << 17) | (1 << 21) | (1 << 27) | (1 << 28) | (1 << 29) | (1 << 30)));
    assert_eq!((e.eax, e.ebx, e.edx), (1, 2, 4));
    let mut z = CpuidEntry { function: 1, index: 0, eax: 0, ebx: 0, ecx: 0, edx: 0 };
    adjust_cpuid_entry(&mut z);
    assert_eq!(z.ecx, 0x8000_0000);
    let mut v = vec![
        CpuidEntry { function: 7, index: 0, eax: 0, ebx: 0xffff_ffff, ecx: 0xffff_ffff, edx: 0 },
        CpuidEntry { function: 0xd, index: 3, eax: 5, ebx: 6, ecx: 7, edx: 8 },
        CpuidEntry { function: 0x8000_0001, index: 0, eax: 0, ebx: 0, ecx: 0xff, edx: 0 },
        CpuidEntry { function: 7, index: 1, eax: 0, ebx: 0xffff_ffff, ecx: 0, edx: 0 },
    ];
    adjust_cpuid(&mut v);
    assert_eq!(v[0].ebx, 0x03e3_fb7f);
    assert_eq!(v[0].ecx, 0xfffe_ffff);
    assert_eq!((v[1].eax, v[1].ebx, v[1].ecx, v[1].edx), (0, 0, 0, 0));
    assert_eq!(v[2].ecx, 0xfb);
    assert_eq!(v[3].ebx, 0xffff_ffff);
    // Adjusting again changes nothing.
    let before: Vec<u32> = v.iter().map(|e| e.ebx ^ e.ecx).collect();
    adjust_cpuid(&mut v);
    let after: Vec<u32> = v.iter().map(|e| e.ebx ^ e.ecx).collect();
    assert_eq!(before, after);
}

fn monitor() -> Vmmon {
    let mut devices = Devices::new(16);
    devices.register_default_platform();
    Vmmon { guest: GuestMemory::new(4096).unwrap(), devices, kernel_entry: 0x201000, kernel_load_base: 0x200000 }
}

fn stop_text(a: ExitAction) -> String {
    match a {
        ExitAction::Stop(i) => i.describe(),
        _ => panic!("expected the run to stop"),
    }
}

#[test]
fn exits_that_end_the_run() {
    let mut m = monitor();
    assert_eq!(stop_text(m.handle_exit(VcpuEvent::Hlt)), "hlt");
    assert_eq!(stop_text(m.handle_exit(VcpuEvent::Shutdown)), "shutdown");
    assert_eq!(stop_text(m.handle_exit(VcpuEvent::InternalError)), "internal-error");
    assert_eq!(stop_text(m.handle_exit(VcpuEvent::Other("FailEntry".to_string()))), "unhandled: FailEntry");
}

#[test]
fn port_exits() {
    let mut m = monitor();
    match m.handle_exit(VcpuEvent::IoOut { port: 0xE9, data: b"ok".to_vec() }) {
        ExitAction::Debugcon(b) => assert_eq!(b, b"ok".to_vec()),
        _ => panic!("expected debug console output"),
    }
    assert!(matches!(m.handle_exit(VcpuEvent::IoOut { port: 0x3F8, data: vec![b'x'] }), ExitAction::Resume));
    assert_eq!(m.devices.take_console_output(), b"x".to_vec());
    match m.handle_exit(VcpuEvent::IoIn { port: 0x3FD, len: 1 }) {
        ExitAction::ResumeWith(b) => assert_eq!(b, vec![0x60]),
        _ => panic!("expected data"),
    }
    assert_eq!(
        stop_text(m.handle_exit(VcpuEvent::IoOut { port: 0x1234, data: vec![1, 2] })),
        "unhandled: io out port=0x1234 len=2"
    );
    assert_eq!(stop_text(m.handle_exit(VcpuEvent::IoIn { port: 0x60, len: 1 })), "unhandled: io in port=0x60 len=1");
}

#[test]
fn mmio_exits() {
    let mut m = monitor();
    match m.handle_exit(VcpuEvent::MmioRead { addr: 0xfeb0_0012, len: 2 }) {
        ExitAction::ResumeWith(b) => assert_eq!(b, vec![1, 0]),
        _ => panic!("expected data"),
    }
    assert!(matches!(
        m.handle_exit(VcpuEvent::MmioWrite { addr: 0xfeb0_3000, data: vec![0, 0] }),
        ExitAction::Notify { device: 0, queue: 0 }
    ));
    assert!(matches!(
        m.handle_exit(VcpuEvent::MmioWrite { addr: 0xfeb0_0016, data: vec![0, 0] }),
        ExitAction::Resume
    ));
    assert_eq!(
        stop_text(m.handle_exit(VcpuEvent::MmioRead { addr: 0xdead_0000, len: 4 })),
        "unhandled: mmio read addr=0xdead0000 len=4"
    );
    assert_eq!(
        stop_text(m.handle_exit(VcpuEvent::MmioWrite { addr: 0x10, data: vec![0] })),
        "unhandled: mmio write addr=0x10 len=1"
    );
}

#[test]
fn rip_offsets() {
    assert_eq!(rip_offset(0x201234, 0x200000), Some(0x1234));
    assert_eq!(rip_offset(0x1000, 0x200000), None);
    assert_eq!(rip_offset(0x200000, 0x200000), Some(0));
}
