use vmmon::devices::pci::bus::PciBus;
use vmmon::devices::pci::virtio::VirtioInputState;
use vmmon::guest::layout::GuestLayout;
use vmmon::guest::memory::GuestMemory;
use vmmon::vmm::errors::VmmonError;

#[test]
fn memory_size_and_bounds() {
    let m = GuestMemory::new(8192).unwrap();
    assert_eq!(m.size_bytes(), 8192);
    assert!(m.contains(8000, 192));
    assert!(!m.contains(8000, 193));
    assert!(!m.contains(u64::MAX, 2));
    assert_ne!(m.as_ptr_u64(), 0);
}

#[test]
fn memory_reads_back_writes() {
    let mut m = GuestMemory::new(4096).unwrap();
    m.write(10, &[1, 2, 3]);
    let mut out = [0u8; 5];
    m.read(9, &mut out);
    assert_eq!(out, [0, 1, 2, 3, 0]);
    m.write_u8(100, 0xAB);
    assert_eq!(m.read_u8(100), 0xAB);
    m.write_u16(200, 0xBEEF);
    assert_eq!(m.read_u16(200), 0xBEEF);
    assert_eq!(m.read_u8(200), 0xEF);
    m.write_u32(300, 0xDEAD_BEEF);
    assert_eq!(m.read_u32(300), 0xDEAD_BEEF);
    m.write_u64(400, 0x0123_4567_89AB_CDEF);
    assert_eq!(m.read_u64(400), 0x0123_4567_89AB_CDEF);
    m.write_zeros(401, 6);
    assert_eq!(m.read_u64(400), 0x0100_0000_0000_00EF);
    assert_eq!(m.slice(10, 3), &[1, 2, 3][..]);
}

#[test]
fn memory_slice_mut_writes_in_place() {
    let mut m = GuestMemory::new(4096).unwrap();
    m.write(50, &[7, 8, 9]);
    {
        let s = m.slice_mut(50, 3);
        assert_eq!(s, &[7, 8, 9][..]);
        s[1] = 42;
    }
    assert_eq!(m.slice(49, 5), &[0, 7, 42, 9, 0][..]);
}

#[test]
fn default_layout() {
    let l = GuestLayout::default_layout(512 * 1024 * 1024);
    assert_eq!((l.kernel_load_phys, l.page_tables_phys, l.gdt_phys, l.boot_stack_top), (0x200000, 0x400000, 0x3f0000, 0x800000));
}

#[test]
fn error_texts_and_conversions() {
    assert_eq!(VmmonError::config("x".to_string()).describe(), "config error: x");
    assert_eq!(VmmonError::elf("e".to_string()).describe(), "elf error: e");
    assert_eq!(VmmonError::boot("b".to_string()).describe(), "boot error: b");
    assert_eq!(VmmonError::unsupported("u".to_string()).describe(), "unsupported: u");
    let io: VmmonError = std::io::Error::new(std::io::ErrorKind::Other, "disk gone").into();
    assert!(matches!(io, VmmonError::Io(_)));
    assert_eq!(io.describe(), "io error: disk gone");
}

#[test]
fn input_queue_selection() {
    let mut s = VirtioInputState::new();
    s.write_common_cfg(0x16, &[1, 0]);
    assert_eq!(s.selected_queue_index(), 1);
    assert_eq!(s.selected_queue().notify_off, 1);
    s.selected_queue_mut().enable = 1;
    assert_eq!(s.queues[1].enable, 1);
    s.write_common_cfg(0x16, &[9, 0]);
    assert_eq!(s.selected_queue_index(), 1);
    s.write_common_cfg(0x16, &[0, 0]);
    assert_eq!(s.selected_queue().notify_off, 0);
}

#[test]
fn input_status_queue_is_served_until_caught_up() {
    let mut s = VirtioInputState::new();
    let mut mem = GuestMemory::new(0x8000).unwrap();
    {
        let q = &mut s.queues[1];
        q.enable = 1;
        q.desc_addr = 0x1000;
        q.driver_addr = 0x2000;
        q.device_addr = 0x3000;
    }
    mem.write_u16(0x2002, 2);
    mem.write_u16(0x2004, 7);
    mem.write_u16(0x2006, 9);
    assert_eq!(s.process_available(&mut mem, 1), Ok(2));
    assert_eq!(s.queues[1].last_avail_idx, 2);
    assert_eq!(mem.read_u16(0x3002), 2);
    assert_eq!((mem.read_u32(0x3004), mem.read_u32(0x3008)), (7, 0));
    assert_eq!((mem.read_u32(0x300c), mem.read_u32(0x3010)), (9, 0));
    assert_eq!(s.isr_status, 1);
    // Caught up: nothing more to take; the event queue is never served.
    assert_eq!(s.process_available(&mut mem, 1), Ok(0));
    assert_eq!(s.process_available(&mut mem, 0), Ok(0));
    // One step at a time.
    mem.write_u16(0x2002, 3);
    mem.write_u16(0x2008, 4);
    assert_eq!(s.serve_one(&mut mem, 1), Ok(true));
    assert_eq!(s.serve_one(&mut mem, 1), Ok(false));
    assert_eq!(s.queues[1].last_avail_idx, 3);
}

/// Sets up queue 1 of the input function with its rings in guest memory and
/// `avail` entries made available.
fn input_ready(bus: &mut PciBus, mem: &mut GuestMemory, avail: u16) {
    let base = 0xfeb0_4000u64;
    let w = |bus: &mut PciBus, mem: &mut GuestMemory, off: u64, v: &[u8]| {
        bus.mmio_write(mem, base + off, v);
    };
    w(bus, mem, 0x16, &[1, 0]);
    w(bus, mem, 0x20, &0x1000u32.to_le_bytes());
    w(bus, mem, 0x28, &0x2000u32.to_le_bytes());
    w(bus, mem, 0x30, &0x3000u32.to_le_bytes());
    w(bus, mem, 0x1c, &[1, 0]);
    mem.write_u16(0x2002, avail);
    for i in 0..avail {
        mem.write_u16(0x2004 + 2 * i as u64, i);
    }
}

#[test]
fn input_queue_is_drained() {
    let mut bus = PciBus::new(0);
    let mut mem = GuestMemory::new(0x8000).unwrap();
    input_ready(&mut bus, &mut mem, 3);
    assert_eq!(bus.input_process_queue(&mut mem, 1, 1), Ok(3));
    assert_eq!(mem.read_u16(0x3002), 3);
    assert_eq!(mem.read_u32(0x3004 + 8), 1);
    assert_eq!(bus.input_process_queue(&mut mem, 1, 1), Ok(0));
    assert_eq!(bus.input_process_queue(&mut mem, 0, 1), Ok(0));
}
