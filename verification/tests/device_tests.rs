use vmmon::devices::bus::pio::{PioBus, PioSlot};
use vmmon::devices::devices::Devices;
use vmmon::devices::legacy::dma8237::Dma8237;
use vmmon::devices::legacy::pic8259::Pic8259;
use vmmon::devices::pci::bus::{MmioWriteOutcome, PciBus};
use vmmon::devices::pci::virtio::{
    negotiated_status, read_value_from_buf, set_bit, trim_trailing_zeros, write_value_to_buf, VirtioBlkState,
    VirtioInputState,
};
use vmmon::devices::rtc::cmos::{civil_from_days, CmosRtc};
use vmmon::devices::serial::uart16550::Uart16550;
use vmmon::guest::memory::GuestMemory;

fn platform() -> Devices {
    let mut d = Devices::new(2048);
    d.register_default_platform();
    d
}

fn cfg_addr(dev: u32, reg: u32) -> [u8; 4] {
    (0x8000_0000u32 | (dev << 11) | reg).to_le_bytes()
}

fn cfg_read(d: &mut Devices, dev: u32, reg: u32) -> u32 {
    assert!(d.io_out(0xCF8, &cfg_addr(dev, reg)));
    let mut b = [0u8; 4];
    assert!(d.io_in(0xCFC, &mut b));
    u32::from_le_bytes(b)
}

fn cfg_write(d: &mut Devices, dev: u32, reg: u32, v: u32) {
    assert!(d.io_out(0xCF8, &cfg_addr(dev, reg)));
    assert!(d.io_out(0xCFC, &v.to_le_bytes()));
}

#[test]
fn serial_output_reaches_the_console_in_order() {
    let mut d = platform();
    assert!(d.io_out(0x3F8, b"h"));
    assert!(d.io_out(0x3F8, b"i"));
    assert_eq!(d.take_console_output(), b"hi".to_vec());
    assert!(d.take_console_output().is_empty());
}

#[test]
fn uart_registers() {
    let mut u = Uart16550::new(0x3F8);
    u.io_out(0x3FF, &[0x5A]);
    let mut b = [0u8; 1];
    u.io_in(0x3FF, &mut b);
    assert_eq!(b[0], 0x5A);
    u.io_out(0x3FB, &[0x80]);
    u.io_out(0x3F8, &[0x0C]);
    u.io_out(0x3F9, &[0x01]);
    u.io_in(0x3F8, &mut b);
    assert_eq!(b[0], 0x0C);
    u.io_in(0x3F9, &mut b);
    assert_eq!(b[0], 0x01);
    u.io_in(0x3FD, &mut b);
    assert_eq!(b[0], 0x60);
    u.io_in(0x3FA, &mut b);
    assert_eq!(b[0], 0x01);
    assert!(u.take_output().is_empty());
    assert!(u.handles_port(0x3FF));
    assert!(!u.handles_port(0x400));
}

#[test]
fn pic_mask_reads_back() {
    let mut p = Pic8259::new();
    p.io_out(0x21, &[0xFB]);
    p.io_out(0xA1, &[0xFF]);
    let mut b = [0u8; 2];
    p.io_in(0x21, &mut b);
    assert_eq!(b, [0xFB, 0xFB]);
    p.io_in(0xA1, &mut b);
    assert_eq!(b, [0xFF, 0xFF]);
    p.io_in(0x20, &mut b);
    assert_eq!(b, [0, 0]);
    assert!(Pic8259::is_port(0xA0));
    assert!(!Pic8259::is_port(0x22));
}

#[test]
fn dma_registers_keep_the_last_byte() {
    let mut m = Dma8237::new();
    m.io_out(0x02, &[1, 2, 3]);
    m.io_out(0xC4, &[9]);
    let mut b = [0u8; 1];
    m.io_in(0x02, &mut b);
    assert_eq!(b[0], 3);
    m.io_in(0xC4, &mut b);
    assert_eq!(b[0], 9);
    m.io_in(0x81, &mut b);
    assert_eq!(b[0], 0);
    assert!(Dma8237::handles(0x8F));
    assert!(!Dma8237::handles(0x10));
}

#[test]
fn cmos_index_and_registers() {
    let mut c = CmosRtc::new();
    c.io_out(0x70, &[0x8A]);
    let mut b = [0u8; 1];
    c.io_in(0x70, &mut b);
    assert_eq!(b[0], 0x0A);
    c.io_in(0x71, &mut b);
    assert_eq!(b[0], 0x26);
    assert_eq!(CmosRtc::to_bcd(59), 0x59);
    assert_eq!(CmosRtc::to_bcd(7), 0x07);
    // 2024-02-29 12:34:56 UTC.
    let secs = 1_709_210_096u64;
    assert_eq!(CmosRtc::read_reg_at(0x00, secs), 0x56);
    assert_eq!(CmosRtc::read_reg_at(0x02, secs), 0x34);
    assert_eq!(CmosRtc::read_reg_at(0x04, secs), 0x12);
    assert_eq!(CmosRtc::read_reg_at(0x07, secs), 0x29);
    assert_eq!(CmosRtc::read_reg_at(0x08, secs), 0x02);
    assert_eq!(CmosRtc::read_reg_at(0x09, secs), 0x24);
    assert_eq!(CmosRtc::read_reg_at(0x32, secs), 0x20);
    assert_eq!(CmosRtc::read_reg_at(0x0D, secs), 0x80);
}

#[test]
fn civil_dates() {
    assert_eq!(civil_from_days(0), (1970, 1, 1));
    assert_eq!(civil_from_days(19723), (2024, 1, 1));
    assert_eq!(civil_from_days(-1), (1969, 12, 31));
    assert_eq!(civil_from_days(11016), (2000, 2, 29));
}

#[test]
fn pio_bus_first_device_wins() {
    let mut bus = PioBus::new();
    bus.register(PioSlot::Pic(Pic8259::new()));
    bus.register(PioSlot::Cmos(CmosRtc::new()));
    assert!(bus.io_out(0x21, &[0x12]));
    let mut b = [0u8; 1];
    assert!(bus.io_in(0x21, &mut b));
    assert_eq!(b[0], 0x12);
    assert!(!bus.io_out(0x3F8, &[1]));
    assert!(!bus.io_in(0x1234, &mut b));
}

#[test]
fn pci_config_ids_and_absent_functions() {
    let mut d = platform();
    assert_eq!(cfg_read(&mut d, 4, 0x00), 0x1042_1af4);
    assert_eq!(cfg_read(&mut d, 5, 0x00), 0x1052_1af4);
    assert_eq!(cfg_read(&mut d, 6, 0x00), 0xffff_ffff);
    assert_eq!(cfg_read(&mut d, 4, 0x34) & 0xff, 0x40);
}

#[test]
fn pci_config_write_reads_back() {
    let mut d = platform();
    cfg_write(&mut d, 4, 0x3c, 0x1234_5678);
    assert_eq!(cfg_read(&mut d, 4, 0x3c), 0x1234_5678);
    cfg_write(&mut d, 4, 0x04, 0xdead_0007);
    assert_eq!(cfg_read(&mut d, 4, 0x04) & 0xffff, 0x0007);
}

#[test]
fn pci_bar_sizing_and_programming() {
    let mut d = platform();
    assert_eq!(cfg_read(&mut d, 4, 0x20), 0xfeb0_0004);
    cfg_write(&mut d, 4, 0x20, 0xffff_ffff);
    assert_eq!(cfg_read(&mut d, 4, 0x20), 0xffff_c004);
    assert_eq!(cfg_read(&mut d, 4, 0x20), 0xfeb0_0004);
    cfg_write(&mut d, 4, 0x24, 0xffff_ffff);
    assert_eq!(cfg_read(&mut d, 4, 0x24), 0);
    cfg_write(&mut d, 4, 0x20, 0xe000_000f);
    assert_eq!(cfg_read(&mut d, 4, 0x20), 0xe000_0004);
    let mut mem = GuestMemory::new(4096).unwrap();
    let mut b = [0u8; 2];
    assert!(d.mmio_read(&mut mem, 0xe000_0012, &mut b));
    assert_eq!(u16::from_le_bytes(b), 1);
    assert!(!d.mmio_read(&mut mem, 0xfeb0_0012, &mut b));
}

#[test]
fn virtio_common_config_through_mmio() {
    let mut bus = PciBus::new(4096);
    let mut mem = GuestMemory::new(4096).unwrap();
    let base = 0xfeb0_0000u64;
    assert_eq!(bus.mmio_write(&mut mem, base + 0x20, &0x1000u32.to_le_bytes()), MmioWriteOutcome::Handled);
    assert_eq!(bus.mmio_write(&mut mem, base + 0x24, &0x2u32.to_le_bytes()), MmioWriteOutcome::Handled);
    let mut b = [0u8; 4];
    assert!(bus.mmio_read(&mut mem, base + 0x20, &mut b));
    assert_eq!(u32::from_le_bytes(b), 0x1000);
    assert!(bus.mmio_read(&mut mem, base + 0x24, &mut b));
    assert_eq!(u32::from_le_bytes(b), 2);
    assert_eq!(
        bus.mmio_write(&mut mem, base + 0x3000, &[0, 0]),
        MmioWriteOutcome::Notify { device: 0, queue: 0 }
    );
    assert_eq!(bus.mmio_write(&mut mem, 0x1000, &[0]), MmioWriteOutcome::Unhandled);
    let mut cap = [0u8; 8];
    assert!(bus.mmio_read(&mut mem, base + 0x2000, &mut cap));
    assert_eq!(u64::from_le_bytes(cap), 4096);
}

#[test]
fn virtio_status_negotiation() {
    let mut s = VirtioBlkState::new(8);
    s.write_common_cfg(0x14, &[1]);
    let mut b = [0u8; 1];
    s.read_common_cfg(0x14, &mut b);
    assert_eq!(b[0], 1);
    s.write_common_cfg(0x08, &[0, 0, 0, 0]);
    s.write_common_cfg(0x0c, &[1, 0, 0, 0]);
    assert!(!s.driver_features_accepted());
    s.write_device_status(0x0B);
    s.read_common_cfg(0x14, &mut b);
    assert_eq!(b[0], 0x83);
    s.read_common_cfg(0x15, &mut b);
    let generation = b[0];
    s.write_common_cfg(0x14, &[0]);
    s.read_common_cfg(0x14, &mut b);
    assert_eq!(b[0], 0);
    s.read_common_cfg(0x15, &mut b);
    assert_eq!(b[0], generation.wrapping_add(1));
    assert_eq!(negotiated_status(0x0B, true), 0x0B);
    assert_eq!(negotiated_status(0x0B, false), 0x83);
}

#[test]
fn virtio_value_buffers() {
    let mut d = [0xAAu8; 10];
    write_value_to_buf(0x1122_3344_5566_7788, &mut d);
    assert_eq!(d, [0x88, 0x77, 0x66, 0x55, 0x44, 0x33, 0x22, 0x11, 0xAA, 0xAA]);
    assert_eq!(read_value_from_buf(&d), 0x1122_3344_5566_7788);
    assert_eq!(read_value_from_buf(&[0x34, 0x12]), 0x1234);
    let mut short = [0u8; 2];
    write_value_to_buf(0xABCD_EF01, &mut short);
    assert_eq!(short, [0x01, 0xEF]);
}

#[test]
fn virtio_input_config() {
    let mut s = VirtioInputState::new();
    s.write_device_cfg(0, &[0x11]);
    s.write_device_cfg(1, &[0x01]);
    let ev = s.build_ev_bits_payload();
    assert!(!ev.is_empty());
    let mut bits = vec![0u8; 4];
    set_bit(&mut bits, 9);
    assert_eq!(bits, vec![0, 2, 0, 0]);
    assert_eq!(trim_trailing_zeros(vec![1, 0, 2, 0, 0]), vec![1, 0, 2]);
    assert!(trim_trailing_zeros(vec![0, 0]).is_empty());
}
