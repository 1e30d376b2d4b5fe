use vstd::prelude::*;
use vstd::bytes::{
    spec_u16_from_le_bytes, spec_u16_to_le_bytes, spec_u32_from_le_bytes, spec_u32_to_le_bytes,
    u16_from_le_bytes, u16_to_le_bytes, u32_from_le_bytes, u32_to_le_bytes,
};

use crate::bytes::{splice, zeros, lemma_splice_len};
use crate::guest::memory::GuestMemory;
use crate::devices::pci::virtio::{
    VirtioBlkState, VirtioInputState, blk_initial, input_initial, blk_after_common_write,
    input_after_common_write, input_after_device_cfg_write, common_cfg_value, blk_device_cfg_value,
    input_device_cfg_read, stored_value, buf_value, selected_queue, function_wf_queues,
    NUM_QUEUES_BLK, NUM_QUEUES_INPUT, GuestFault, BlkStep, blk_avail_snapshot, blk_step_spec,
    blk_read_done_spec, blk_write_done_spec, input_drain, INPUT_DRAIN_LIMIT,
};

verus! {

broadcast use vstd::array::group_array_axioms;

pub const PCI_VENDOR_ID_REDHAT_QUMRANET: u16 = 0x1af4;
pub const PCI_CAP_ID_VENDOR_SPECIFIC: u8 = 0x09;
pub const PCI_STATUS_CAP_LIST: u16 = 0x10;

pub const VIRTIO_PCI_CAP_COMMON_CFG: u8 = 1;
pub const VIRTIO_PCI_CAP_NOTIFY_CFG: u8 = 2;
pub const VIRTIO_PCI_CAP_ISR_CFG: u8 = 3;
pub const VIRTIO_PCI_CAP_DEVICE_CFG: u8 = 4;

pub const VIRTIO_PCI_DEVICE_ID_BLOCK: u16 = 0x1042;
pub const VIRTIO_PCI_DEVICE_ID_INPUT: u16 = 0x1052;

pub const BAR4_MMIO_BASE_BLK: u32 = 0xfeb0_0000;
pub const BAR4_MMIO_BASE_INPUT: u32 = 0xfeb0_4000;
pub const BAR4_MMIO_SIZE: u32 = 0x4000;

pub const COMMON_CFG_OFF: u32 = 0x0000;
pub const ISR_CFG_OFF: u32 = 0x1000;
pub const DEVICE_CFG_OFF: u32 = 0x2000;
pub const NOTIFY_CFG_OFF: u32 = 0x3000;
pub const REGION_LEN: u32 = 0x1000;

/// Size of a PCI function's configuration space.
pub const CONFIG_SPACE_LEN: usize = 256;

// ---------------------------------------------------------------------------
// Little-endian fields of a configuration space
// ---------------------------------------------------------------------------

/// The `u16` at `off` of `buf`, if the whole field lies inside `buf`.
pub open spec fn buf_u16(buf: Seq<u8>, off: int) -> Option<u16> {
    if off + 2 <= buf.len() {
        Some(spec_u16_from_le_bytes(buf.subrange(off, off + 2)))
    } else {
        None
    }
}

/// The `u32` at `off` of `buf`, if the whole field lies inside `buf`.
pub open spec fn buf_u32(buf: Seq<u8>, off: int) -> Option<u32> {
    if off + 4 <= buf.len() {
        Some(spec_u32_from_le_bytes(buf.subrange(off, off + 4)))
    } else {
        None
    }
}

pub fn read_u16(buf: &[u8], off: usize) -> (r: Option<u16>)
    requires
        off + 2 <= usize::MAX,
    ensures
        r == buf_u16(buf@, off as int),
{
    if off + 2 <= buf.len() {
        let s = vstd::slice::slice_subrange(buf, off, off + 2);
        Some(u16_from_le_bytes(s))
    } else {
        None
    }
}

pub fn read_u32(buf: &[u8], off: usize) -> (r: Option<u32>)
    requires
        off + 4 <= usize::MAX,
    ensures
        r == buf_u32(buf@, off as int),
{
    if off + 4 <= buf.len() {
        let s = vstd::slice::slice_subrange(buf, off, off + 4);
        Some(u32_from_le_bytes(s))
    } else {
        None
    }
}

fn copy_into(buf: &mut [u8], off: usize, b: &[u8])
    requires
        off + b@.len() <= old(buf)@.len(),
    ensures
        final(buf)@ == splice(old(buf)@, off as int, b@),
{
    let n = b.len();
    let len = buf.len();
    let mut i: usize = 0;
    while i < n
        invariant
            n == b@.len(),
            len == buf@.len(),
            off + n <= buf@.len(),
            buf@.len() == old(buf)@.len(),
            0 <= i <= n,
            forall|j: int| 0 <= j < off ==> #[trigger] buf@[j] == old(buf)@[j],
            forall|j: int| off <= j < off + i ==> #[trigger] buf@[j] == b@[j - off],
            forall|j: int| off + i <= j < buf@.len() ==> #[trigger] buf@[j] == old(buf)@[j],
        decreases n - i,
    {
        buf[off + i] = b[i];
        i += 1;
    }
    assert(buf@ =~= splice(old(buf)@, off as int, b@));
}

pub fn write_u16(buf: &mut [u8], off: usize, v: u16)
    requires
        off + 2 <= old(buf)@.len(),
    ensures
        final(buf)@ == splice(old(buf)@, off as int, spec_u16_to_le_bytes(v)),
{
    let b = u16_to_le_bytes(v);
    copy_into(buf, off, b.as_slice());
}

pub fn write_u32(buf: &mut [u8], off: usize, v: u32)
    requires
        off + 4 <= old(buf)@.len(),
    ensures
        final(buf)@ == splice(old(buf)@, off as int, spec_u32_to_le_bytes(v)),
{
    let b = u32_to_le_bytes(v);
    copy_into(buf, off, b.as_slice());
}

// ---------------------------------------------------------------------------
// PCI functions
// ---------------------------------------------------------------------------

#[derive(Clone, Copy, Debug)]
pub enum PciFunctionKind {
    VirtioBlk(VirtioBlkState),
    VirtioInput(VirtioInputState),
}

/// A function on the PCI bus: its configuration space, its BAR4 window of MMIO
/// registers, and the state of the virtio device behind it.
#[derive(Clone, Copy, Debug)]
pub struct PciFunction {
    pub bus: u8,
    pub dev: u8,
    pub func: u8,
    pub config: [u8; 256],
    pub bar4_addr: u32,
    pub bar4_size: u32,
    pub bar_probe_mask_low: bool,
    pub bar_probe_mask_high: bool,
    pub kind: PciFunctionKind,
}

/// The mathematical value of a `PciFunction`: its configuration space as a sequence.
pub struct PciFunctionView {
    pub bus: u8,
    pub dev: u8,
    pub func: u8,
    pub config: Seq<u8>,
    pub bar4_addr: u32,
    pub bar4_size: u32,
    pub bar_probe_mask_low: bool,
    pub bar_probe_mask_high: bool,
    pub kind: PciFunctionKind,
}

impl View for PciFunction {
    type V = PciFunctionView;

    open spec fn view(&self) -> PciFunctionView {
        PciFunctionView {
            bus: self.bus,
            dev: self.dev,
            func: self.func,
            config: self.config@,
            bar4_addr: self.bar4_addr,
            bar4_size: self.bar4_size,
            bar_probe_mask_low: self.bar_probe_mask_low,
            bar_probe_mask_high: self.bar_probe_mask_high,
            kind: self.kind,
        }
    }
}

/// A vendor-specific virtio capability of 16 bytes: it points at `len` bytes at
/// offset `off` of BAR `bar` and links to the capability at `next`.
pub open spec fn cap16_bytes(next: u8, cfg_type: u8, bar: u8, off: u32, len: u32) -> Seq<u8> {
    seq![PCI_CAP_ID_VENDOR_SPECIFIC, next, 16u8, cfg_type, bar, 0u8, 0u8, 0u8]
        + spec_u32_to_le_bytes(off) + spec_u32_to_le_bytes(len)
}

/// The 20-byte notify capability, which adds the notify offset multiplier.
pub open spec fn cap20_bytes(next: u8, cfg_type: u8, bar: u8, off: u32, len: u32, mult: u32) -> Seq<u8> {
    seq![PCI_CAP_ID_VENDOR_SPECIFIC, next, 20u8, cfg_type, bar, 0u8, 0u8, 0u8]
        + spec_u32_to_le_bytes(off) + spec_u32_to_le_bytes(len) + spec_u32_to_le_bytes(mult)
}

/// The header of a virtio PCI function: vendor and device id, a status that
/// announces a capability list at 0x40, BAR4 as a 32-bit memory BAR, and the
/// subsystem ids. Every other byte is zero.
#[verifier::opaque]
pub open spec fn base_config(vendor_id: u16, device_id: u16, bar4_addr: u32) -> Seq<u8> {
    let c0 = splice(zeros(256), 0x00, spec_u16_to_le_bytes(vendor_id));
    let c1 = splice(c0, 0x02, spec_u16_to_le_bytes(device_id));
    let c2 = splice(c1, 0x06, spec_u16_to_le_bytes(PCI_STATUS_CAP_LIST));
    let c3 = splice(c2, 0x34, seq![0x40u8]);
    let c4 = splice(c3, 0x2c, spec_u16_to_le_bytes(PCI_VENDOR_ID_REDHAT_QUMRANET));
    let c5 = splice(c4, 0x2e, spec_u16_to_le_bytes(device_id));
    splice(c5, 0x20, spec_u32_to_le_bytes((bar4_addr & 0xffff_fff0) | 0x4))
}

/// `c` with the four virtio capabilities chained from 0x40: common, notify, ISR
/// and device configuration, each a 4 KiB region of BAR4.
#[verifier::opaque]
pub open spec fn with_virtio_caps(c: Seq<u8>) -> Seq<u8> {
    let c0 = splice(c, 0x40, cap16_bytes(0x50, VIRTIO_PCI_CAP_COMMON_CFG, 4, COMMON_CFG_OFF, REGION_LEN));
    let c1 = splice(c0, 0x50, cap20_bytes(0x64, VIRTIO_PCI_CAP_NOTIFY_CFG, 4, NOTIFY_CFG_OFF, REGION_LEN, 4));
    let c2 = splice(c1, 0x64, cap16_bytes(0x74, VIRTIO_PCI_CAP_ISR_CFG, 4, ISR_CFG_OFF, REGION_LEN));
    splice(c2, 0x74, cap16_bytes(0x00, VIRTIO_PCI_CAP_DEVICE_CFG, 4, DEVICE_CFG_OFF, REGION_LEN))
}

/// The configuration space of a freshly created virtio function.
pub open spec fn virtio_config_space(device_id: u16, bar4_addr: u32) -> Seq<u8> {
    with_virtio_caps(base_config(PCI_VENDOR_ID_REDHAT_QUMRANET, device_id, bar4_addr))
}

/// The value that BAR sizing reads back after all ones were written: the size
/// mask of a 32-bit non-prefetchable memory BAR.
pub open spec fn bar_size_mask(size: u32) -> u32 {
    ((!((size - 1) as u32)) & 0xffff_fff0) | 0x4
}

/// A configuration read of the dword register `reg`: the function after the read
/// and the value read.
pub open spec fn config_dword_read(f: PciFunctionView, reg: u16) -> (PciFunctionView, u32) {
    if reg == 0x20 && f.bar_probe_mask_low {
        (PciFunctionView { bar_probe_mask_low: false, ..f }, bar_size_mask(f.bar4_size))
    } else if reg == 0x24 && f.bar_probe_mask_high {
        (PciFunctionView { bar_probe_mask_high: false, ..f }, 0)
    } else {
        (f, match buf_u32(f.config, reg as int) { Some(v) => v, None => 0xffff_ffffu32 })
    }
}

/// `f` with its configuration bytes replaced by `c`.
pub open spec fn with_config(f: PciFunctionView, c: Seq<u8>) -> PciFunctionView {
    PciFunctionView { config: c, ..f }
}

/// A configuration write of `val` to the dword register `reg`.
pub open spec fn config_dword_write(f: PciFunctionView, reg: u16, val: u32) -> PciFunctionView {
    if reg == 0x04 {
        with_config(f, splice(f.config, 4, spec_u16_to_le_bytes((val & 0xffff) as u16)))
    } else if reg == 0x20 {
        if val == 0xffff_ffff {
            PciFunctionView { bar_probe_mask_low: true, ..f }
        } else {
            PciFunctionView {
                bar4_addr: val & 0xffff_fff0,
                ..with_config(f, splice(f.config, 0x20, spec_u32_to_le_bytes((val & 0xffff_fff0) | 0x4)))
            }
        }
    } else if reg == 0x24 {
        if val == 0xffff_ffff {
            PciFunctionView { bar_probe_mask_high: true, ..f }
        } else {
            with_config(f, splice(f.config, 0x24, spec_u32_to_le_bytes(0)))
        }
    } else if reg + 4 <= CONFIG_SPACE_LEN {
        with_config(f, splice(f.config, reg as int, spec_u32_to_le_bytes(val)))
    } else {
        f
    }
}


/// What a read of `len` bytes at offset `off` of a function's BAR4 window gives,
/// and the function after it. The window holds four 4 KiB regions: common
/// configuration, ISR status (cleared by the read), device configuration, notify.
pub open spec fn function_mmio_read(f: PciFunctionView, off: u32, len: nat) -> (PciFunctionView, Seq<u8>) {
    match f.kind {
        PciFunctionKind::VirtioBlk(b) => {
            if off < ISR_CFG_OFF {
                (f, stored_value(zeros(len), common_cfg_value(b.common, b.queue, NUM_QUEUES_BLK, off)))
            } else if off < DEVICE_CFG_OFF {
                if len > 0 {
                    (
                        PciFunctionView { kind: PciFunctionKind::VirtioBlk(VirtioBlkState { isr_status: 0, ..b }), ..f },
                        zeros(len).update(0, b.isr_status),
                    )
                } else {
                    (f, zeros(len))
                }
            } else if off < NOTIFY_CFG_OFF {
                (f, stored_value(zeros(len), blk_device_cfg_value(b, (off - DEVICE_CFG_OFF) as u32)))
            } else {
                (f, zeros(len))
            }
        },
        PciFunctionKind::VirtioInput(s) => {
            if off < ISR_CFG_OFF {
                (f, stored_value(zeros(len), common_cfg_value(s.common, s.queues[selected_queue(s.common)], NUM_QUEUES_INPUT, off)))
            } else if off < DEVICE_CFG_OFF {
                if len > 0 {
                    (
                        PciFunctionView { kind: PciFunctionKind::VirtioInput(VirtioInputState { isr_status: 0, ..s }), ..f },
                        zeros(len).update(0, s.isr_status),
                    )
                } else {
                    (f, zeros(len))
                }
            } else if off < NOTIFY_CFG_OFF {
                (f, input_device_cfg_read(s, (off - DEVICE_CFG_OFF) as u32, len))
            } else {
                (f, zeros(len))
            }
        },
    }
}

/// The queue that a write at offset `off` of the notify region names.
pub open spec fn notified_queue(f: PciFunctionView, off: u32) -> usize {
    match f.kind {
        PciFunctionKind::VirtioBlk(_) => 0,
        PciFunctionKind::VirtioInput(_) => if (off - NOTIFY_CFG_OFF) / 4 < 1 { ((off - NOTIFY_CFG_OFF) / 4) as usize } else { 1 },
    }
}

/// A write of the bytes `data` at offset `off` of a function's BAR4 window: the
/// function after it, and the queue whose notification it was, if it was one.
pub open spec fn function_mmio_write(f: PciFunctionView, off: u32, data: Seq<u8>) -> (PciFunctionView, Option<usize>) {
    if off < ISR_CFG_OFF {
        match f.kind {
            PciFunctionKind::VirtioBlk(b) =>
                (PciFunctionView { kind: PciFunctionKind::VirtioBlk(blk_after_common_write(b, off, buf_value(data))), ..f }, None),
            PciFunctionKind::VirtioInput(s) =>
                (PciFunctionView { kind: PciFunctionKind::VirtioInput(input_after_common_write(s, off, buf_value(data))), ..f }, None),
        }
    } else if NOTIFY_CFG_OFF <= off {
        (f, Some(notified_queue(f, off)))
    } else if DEVICE_CFG_OFF <= off {
        match f.kind {
            PciFunctionKind::VirtioBlk(_) => (f, None),
            PciFunctionKind::VirtioInput(s) =>
                (PciFunctionView {
                    kind: PciFunctionKind::VirtioInput(input_after_device_cfg_write(s, (off - DEVICE_CFG_OFF) as u32, buf_value(data))),
                    ..f
                }, None),
        }
    } else {
        (f, None)
    }
}

/// The invariant of a function on the bus: its BAR4 window is 16 KiB and its
/// queues have their fixed size.
pub open spec fn function_wf(f: PciFunctionView) -> bool {
    &&& f.bar4_size == BAR4_MMIO_SIZE
    &&& f.config.len() == CONFIG_SPACE_LEN
    &&& function_wf_queues(f.kind)
}

impl PciFunction {
    pub fn new_base(bus: u8, dev: u8, func: u8, vendor_id: u16, device_id: u16, bar4_addr: u32) -> (r: Self)
        ensures
            r@ == (PciFunctionView {
                bus,
                dev,
                func,
                config: base_config(vendor_id, device_id, bar4_addr),
                bar4_addr,
                bar4_size: BAR4_MMIO_SIZE,
                bar_probe_mask_low: false,
                bar_probe_mask_high: false,
                kind: PciFunctionKind::VirtioBlk(blk_initial(0)),
            }),
    {
        let mut config: [u8; 256] = [0u8; 256];
        assert(config@ =~= zeros(256));
        write_u16(&mut config, 0x00, vendor_id);
        write_u16(&mut config, 0x02, device_id);
        write_u16(&mut config, 0x06, PCI_STATUS_CAP_LIST);
        let ghost c2 = config@;
        config[0x34] = 0x40;
        assert(config@ =~= splice(c2, 0x34, seq![0x40u8]));
        write_u16(&mut config, 0x2c, PCI_VENDOR_ID_REDHAT_QUMRANET);
        write_u16(&mut config, 0x2e, device_id);
        write_u32(&mut config, 0x20, (bar4_addr & 0xffff_fff0) | 0x4);
        proof { reveal(base_config); }
        PciFunction {
            bus,
            dev,
            func,
            config,
            bar4_addr,
            bar4_size: BAR4_MMIO_SIZE,
            bar_probe_mask_low: false,
            bar_probe_mask_high: false,
            kind: PciFunctionKind::VirtioBlk(VirtioBlkState::new(0)),
        }
    }

    pub fn write_cap16(&mut self, off: usize, next: u8, cfg_type: u8, bar: u8, cap_off: u32, cap_len: u32)
        requires
            off + 16 <= CONFIG_SPACE_LEN,
        ensures
            final(self)@ == with_config(old(self)@, splice(old(self)@.config, off as int, cap16_bytes(next, cfg_type, bar, cap_off, cap_len))),
    {
        let mut bytes: Vec<u8> = vec![PCI_CAP_ID_VENDOR_SPECIFIC, next, 16, cfg_type, bar, 0, 0, 0];
        let mut a = u32_to_le_bytes(cap_off);
        let mut b = u32_to_le_bytes(cap_len);
        bytes.append(&mut a);
        bytes.append(&mut b);
        assert(bytes@ =~= cap16_bytes(next, cfg_type, bar, cap_off, cap_len));
        copy_into(&mut self.config, off, bytes.as_slice());
    }

    pub fn write_cap20(
        &mut self,
        off: usize,
        next: u8,
        cfg_type: u8,
        bar: u8,
        cap_off: u32,
        cap_len: u32,
        notify_off_multiplier: u32,
    )
        requires
            off + 20 <= CONFIG_SPACE_LEN,
        ensures
            final(self)@ == with_config(
                old(self)@,
                splice(old(self)@.config, off as int, cap20_bytes(next, cfg_type, bar, cap_off, cap_len, notify_off_multiplier)),
            ),
    {
        let mut bytes: Vec<u8> = vec![PCI_CAP_ID_VENDOR_SPECIFIC, next, 20, cfg_type, bar, 0, 0, 0];
        let mut a = u32_to_le_bytes(cap_off);
        let mut b = u32_to_le_bytes(cap_len);
        let mut m = u32_to_le_bytes(notify_off_multiplier);
        bytes.append(&mut a);
        bytes.append(&mut b);
        bytes.append(&mut m);
        assert(bytes@ =~= cap20_bytes(next, cfg_type, bar, cap_off, cap_len, notify_off_multiplier));
        copy_into(&mut self.config, off, bytes.as_slice());
    }

    pub fn write_virtio_caps(&mut self)
        ensures
            final(self)@ == with_config(old(self)@, with_virtio_caps(old(self)@.config)),
    {
        self.write_cap16(0x40, 0x50, VIRTIO_PCI_CAP_COMMON_CFG, 4, COMMON_CFG_OFF, REGION_LEN);
        self.write_cap20(0x50, 0x64, VIRTIO_PCI_CAP_NOTIFY_CFG, 4, NOTIFY_CFG_OFF, REGION_LEN, 4);
        self.write_cap16(0x64, 0x74, VIRTIO_PCI_CAP_ISR_CFG, 4, ISR_CFG_OFF, REGION_LEN);
        self.write_cap16(0x74, 0x00, VIRTIO_PCI_CAP_DEVICE_CFG, 4, DEVICE_CFG_OFF, REGION_LEN);
        proof { reveal(with_virtio_caps); }
    }

    pub fn new_virtio_blk(bus: u8, dev: u8, func: u8, bar4_addr: u32, capacity_sectors: u64) -> (r: Self)
        ensures
            r@ == (PciFunctionView {
                bus,
                dev,
                func,
                config: virtio_config_space(VIRTIO_PCI_DEVICE_ID_BLOCK, bar4_addr),
                bar4_addr,
                bar4_size: BAR4_MMIO_SIZE,
                bar_probe_mask_low: false,
                bar_probe_mask_high: false,
                kind: PciFunctionKind::VirtioBlk(blk_initial(capacity_sectors)),
            }),
    {
        let mut this = Self::new_base(bus, dev, func, PCI_VENDOR_ID_REDHAT_QUMRANET, VIRTIO_PCI_DEVICE_ID_BLOCK, bar4_addr);
        this.write_virtio_caps();
        this.kind = PciFunctionKind::VirtioBlk(VirtioBlkState::new(capacity_sectors));
        this
    }

    pub fn new_virtio_input(bus: u8, dev: u8, func: u8, bar4_addr: u32) -> (r: Self)
        ensures
            r@ == (PciFunctionView {
                bus,
                dev,
                func,
                config: virtio_config_space(VIRTIO_PCI_DEVICE_ID_INPUT, bar4_addr),
                bar4_addr,
                bar4_size: BAR4_MMIO_SIZE,
                bar_probe_mask_low: false,
                bar_probe_mask_high: false,
                kind: PciFunctionKind::VirtioInput(input_initial()),
            }),
    {
        let mut this = Self::new_base(bus, dev, func, PCI_VENDOR_ID_REDHAT_QUMRANET, VIRTIO_PCI_DEVICE_ID_INPUT, bar4_addr);
        this.write_virtio_caps();
        this.kind = PciFunctionKind::VirtioInput(VirtioInputState::new());
        this
    }

    pub fn read_config(&mut self, reg: u16) -> (r: u32)
        requires
            old(self)@.bar4_size > 0,
        ensures
            (final(self)@, r) == config_dword_read(old(self)@, reg),
    {
        if reg == 0x20 && self.bar_probe_mask_low {
            self.bar_probe_mask_low = false;
            return (!(self.bar4_size - 1) & 0xffff_fff0) | 0x4;
        }
        if reg == 0x24 && self.bar_probe_mask_high {
            self.bar_probe_mask_high = false;
            return 0;
        }
        match read_u32(&self.config, reg as usize) {
            Some(v) => v,
            None => 0xffff_ffff,
        }
    }

    pub fn write_config(&mut self, reg: u16, val: u32)
        ensures
            final(self)@ == config_dword_write(old(self)@, reg, val),
    {
        if reg == 0x04 {
            write_u16(&mut self.config, 0x04, (val & 0xffff) as u16);
            let ghost c1 = self.config@;
            let status = match read_u16(&self.config, 0x06) { Some(v) => v, None => 0 };
            write_u16(&mut self.config, 0x06, status);
            proof {
                vstd::bytes::lemma_auto_spec_u16_to_from_le_bytes();
                assert(spec_u16_to_le_bytes(status) == c1.subrange(6, 8));
                assert(self.config@ =~= c1);
            }
        } else if reg == 0x20 {
            if val == 0xffff_ffff {
                self.bar_probe_mask_low = true;
            } else {
                let addr = val & 0xffff_fff0;
                self.bar4_addr = addr;
                write_u32(&mut self.config, 0x20, (addr & 0xffff_fff0) | 0x4);
                assert((val & 0xffff_fff0) & 0xffff_fff0 == val & 0xffff_fff0) by (bit_vector);
            }
        } else if reg == 0x24 {
            if val == 0xffff_ffff {
                self.bar_probe_mask_high = true;
            } else {
                write_u32(&mut self.config, 0x24, 0);
            }
        } else if (reg as usize) + 4 <= CONFIG_SPACE_LEN {
            write_u32(&mut self.config, reg as usize, val);
        }
    }

    pub fn mmio_read(&mut self, off: u32, data: &mut [u8])
        requires
            off < BAR4_MMIO_SIZE,
        ensures
            (final(self)@, final(data)@) == function_mmio_read(old(self)@, off, old(data)@.len()),
    {
        let n = data.len();
        let mut i: usize = 0;
        while i < n
            invariant
                n == data@.len(),
                0 <= i <= n,
                forall|j: int| 0 <= j < i ==> #[trigger] data@[j] == 0u8,
            decreases n - i,
        {
            data[i] = 0;
            i += 1;
        }
        assert(data@ =~= zeros(n as nat));
        match &mut self.kind {
            PciFunctionKind::VirtioBlk(blk) => {
                if off < ISR_CFG_OFF {
                    blk.read_common_cfg(off - COMMON_CFG_OFF, data);
                } else if off < DEVICE_CFG_OFF {
                    if n > 0 {
                        data[0] = blk.isr_status;
                        blk.isr_status = 0;
                    }
                } else if off < NOTIFY_CFG_OFF {
                    blk.read_device_cfg(off - DEVICE_CFG_OFF, data);
                }
            },
            PciFunctionKind::VirtioInput(input) => {
                if off < ISR_CFG_OFF {
                    input.read_common_cfg(off - COMMON_CFG_OFF, data);
                } else if off < DEVICE_CFG_OFF {
                    if n > 0 {
                        data[0] = input.isr_status;
                        input.isr_status = 0;
                    }
                } else if off < NOTIFY_CFG_OFF {
                    input.read_device_cfg(off - DEVICE_CFG_OFF, data);
                }
            },
        }
    }

    pub fn mmio_write(&mut self, off: u32, data: &[u8]) -> (r: Option<usize>)
        requires
            off < BAR4_MMIO_SIZE,
        ensures
            (final(self)@, r) == function_mmio_write(old(self)@, off, data@),
    {
        match &mut self.kind {
            PciFunctionKind::VirtioBlk(blk) => {
                if off < ISR_CFG_OFF {
                    blk.write_common_cfg(off - COMMON_CFG_OFF, data);
                    None
                } else if NOTIFY_CFG_OFF <= off {
                    Some(0)
                } else {
                    None
                }
            },
            PciFunctionKind::VirtioInput(input) => {
                if off < ISR_CFG_OFF {
                    input.write_common_cfg(off - COMMON_CFG_OFF, data);
                    None
                } else if NOTIFY_CFG_OFF <= off {
                    let q = (off - NOTIFY_CFG_OFF) / 4;
                    Some(if q < 1 { q as usize } else { 1 })
                } else if DEVICE_CFG_OFF <= off {
                    input.write_device_cfg(off - DEVICE_CFG_OFF, data);
                    None
                } else {
                    None
                }
            },
        }
    }
}


// ---------------------------------------------------------------------------
// The bus
// ---------------------------------------------------------------------------

/// The first index of `s` whose element satisfies `p`, if there is one.
pub open spec fn is_first(s: Seq<PciFunctionView>, p: spec_fn(PciFunctionView) -> bool, i: int) -> bool {
    &&& 0 <= i < s.len()
    &&& p(s[i])
    &&& forall|j: int| 0 <= j < i ==> !p(#[trigger] s[j])
}

pub open spec fn first_index(s: Seq<PciFunctionView>, p: spec_fn(PciFunctionView) -> bool) -> Option<int> {
    if exists|i: int| is_first(s, p, i) {
        Some(choose|i: int| is_first(s, p, i))
    } else {
        None
    }
}

pub proof fn lemma_first_index_some(s: Seq<PciFunctionView>, p: spec_fn(PciFunctionView) -> bool, i: int)
    requires
        is_first(s, p, i),
    ensures
        first_index(s, p) == Some(i),
{
    let k = choose|k: int| is_first(s, p, k);
    assert(is_first(s, p, k));
    if k < i {
        assert(!p(s[k]));
    } else if i < k {
        assert(!p(s[i]));
    }
}

pub proof fn lemma_first_index_none(s: Seq<PciFunctionView>, p: spec_fn(PciFunctionView) -> bool)
    requires
        forall|j: int| 0 <= j < s.len() ==> !p(#[trigger] s[j]),
    ensures
        first_index(s, p) is None,
{
    if exists|i: int| is_first(s, p, i) {
        let k = choose|k: int| is_first(s, p, k);
        assert(p(s[k]));
    }
}

/// Functions addressed by bus, device and function number.
pub open spec fn bdf_is(bus: u8, dev: u8, func: u8) -> spec_fn(PciFunctionView) -> bool {
    |f: PciFunctionView| f.bus == bus && f.dev == dev && f.func == func
}

/// Functions whose BAR4 window holds the 32-bit address `addr`.
pub open spec fn window_holds(addr: u32) -> spec_fn(PciFunctionView) -> bool {
    |f: PciFunctionView| f.bar4_addr <= addr && addr - f.bar4_addr < f.bar4_size
}

/// A configuration read through the bus: the functions after it and the value.
pub open spec fn bus_config_read(s: Seq<PciFunctionView>, bus: u8, dev: u8, func: u8, reg: u16) -> (Seq<PciFunctionView>, u32) {
    match first_index(s, bdf_is(bus, dev, func)) {
        None => (s, 0xffff_ffffu32),
        Some(i) => (s.update(i, config_dword_read(s[i], reg).0), config_dword_read(s[i], reg).1),
    }
}

/// A configuration write through the bus.
pub open spec fn bus_config_write(s: Seq<PciFunctionView>, bus: u8, dev: u8, func: u8, reg: u16, val: u32) -> Seq<PciFunctionView> {
    match first_index(s, bdf_is(bus, dev, func)) {
        None => s,
        Some(i) => s.update(i, config_dword_write(s[i], reg, val)),
    }
}

/// What a BAR4 write asks of the host after the registers are updated.
#[derive(Clone, Copy, Debug, PartialEq, Eq)]
pub enum MmioWriteOutcome {
    /// No function's window holds the address.
    Unhandled,
    /// A register was written (or the write was ignored by the device).
    Handled,
    /// The driver notified queue `queue` of function `device`: its available
    /// ring should now be processed.
    Notify { device: usize, queue: usize },
}

/// The PCI bus of the guest: a virtio-blk function at 00:04.0 and a virtio-input
/// function at 00:05.0.
pub struct PciBus {
    devices: Vec<PciFunction>,
}

impl View for PciBus {
    type V = Seq<PciFunctionView>;

    closed spec fn view(&self) -> Seq<PciFunctionView> {
        self.devices@.map_values(|f: PciFunction| f@)
    }
}

impl PciBus {
    pub open spec fn wf(&self) -> bool {
        forall|i: int| 0 <= i < self@.len() ==> function_wf(#[trigger] self@[i])
    }

    /// The functions of a new bus: virtio-blk at 00:04.0 and virtio-input at 00:05.0.
    pub open spec fn new_spec(capacity_sectors: u64) -> Seq<PciFunctionView> {
    seq![
                    PciFunctionView {
                        bus: 0,
                        dev: 4,
                        func: 0,
                        config: virtio_config_space(VIRTIO_PCI_DEVICE_ID_BLOCK, BAR4_MMIO_BASE_BLK),
                        bar4_addr: BAR4_MMIO_BASE_BLK,
                        bar4_size: BAR4_MMIO_SIZE,
                        bar_probe_mask_low: false,
                        bar_probe_mask_high: false,
                        kind: PciFunctionKind::VirtioBlk(blk_initial(capacity_sectors)),
                    },
                    PciFunctionView {
                        bus: 0,
                        dev: 5,
                        func: 0,
                        config: virtio_config_space(VIRTIO_PCI_DEVICE_ID_INPUT, BAR4_MMIO_BASE_INPUT),
                        bar4_addr: BAR4_MMIO_BASE_INPUT,
                        bar4_size: BAR4_MMIO_SIZE,
                        bar_probe_mask_low: false,
                        bar_probe_mask_high: false,
                        kind: PciFunctionKind::VirtioInput(input_initial()),
                    },
                ]
    }

    pub fn new(capacity_sectors: u64) -> (r: Self)
        ensures
            r.wf(),
            r@ == Self::new_spec(capacity_sectors),
    {
        let blk = PciFunction::new_virtio_blk(0, 4, 0, BAR4_MMIO_BASE_BLK, capacity_sectors);
        let input = PciFunction::new_virtio_input(0, 5, 0, BAR4_MMIO_BASE_INPUT);
        let mut devices: Vec<PciFunction> = Vec::new();
        devices.push(blk);
        devices.push(input);
        let r = PciBus { devices };
        assert(r@ =~= seq![blk@, input@]);
        assert(function_wf(blk@));
        assert(function_wf(input@));
        r
    }

    /// The index of the first function with the given bus, device and function number.
    pub fn find_mut(&self, bus: u8, dev: u8, func: u8) -> (r: Option<usize>)
        ensures
            r matches Some(i) ==> first_index(self@, bdf_is(bus, dev, func)) == Some(i as int),
            r is None ==> first_index(self@, bdf_is(bus, dev, func)) is None,
    {
        let n = self.devices.len();
        let mut i: usize = 0;
        while i < n
            invariant
                n == self@.len(),
                0 <= i <= n,
                forall|j: int| 0 <= j < i ==> !bdf_is(bus, dev, func)(#[trigger] self@[j]),
            decreases n - i,
        {
            let d = &self.devices[i];
            if d.bus == bus && d.dev == dev && d.func == func {
                proof { lemma_first_index_some(self@, bdf_is(bus, dev, func), i as int); }
                return Some(i);
            }
            i += 1;
        }
        proof { lemma_first_index_none(self@, bdf_is(bus, dev, func)); }
        None
    }

    /// A 32-bit configuration read; an absent function reads as all ones.
    pub fn read_config_dword(&mut self, bus: u8, dev: u8, func: u8, reg: u16) -> (r: u32)
        requires
            old(self).wf(),
        ensures
            final(self).wf(),
            (final(self)@, r) == bus_config_read(old(self)@, bus, dev, func, reg),
    {
        match self.find_mut(bus, dev, func) {
            None => 0xffff_ffff,
            Some(i) => {
                let mut f = self.devices[i];
                proof { assert(function_wf(self@[i as int])); }
                let r = f.read_config(reg);
                self.devices.set(i, f);
                proof {
                    assert(self@ =~= old(self)@.update(i as int, f@));
                }
                r
            },
        }
    }

    /// A 32-bit configuration write; writes to an absent function are dropped.
    pub fn write_config_dword(&mut self, bus: u8, dev: u8, func: u8, reg: u16, val: u32)
        requires
            old(self).wf(),
        ensures
            final(self).wf(),
            final(self)@ == bus_config_write(old(self)@, bus, dev, func, reg, val),
    {
        match self.find_mut(bus, dev, func) {
            None => {},
            Some(i) => {
                let mut f = self.devices[i];
                f.write_config(reg, val);
                self.devices.set(i, f);
                proof {
                    assert(self@ =~= old(self)@.update(i as int, f@));
                }
            },
        }
    }

    /// The index of the first function whose BAR4 window holds `addr`.
    fn find_window(&self, addr: u32) -> (r: Option<usize>)
        ensures
            r matches Some(i) ==> first_index(self@, window_holds(addr)) == Some(i as int),
            r is None ==> first_index(self@, window_holds(addr)) is None,
    {
        let n = self.devices.len();
        let mut i: usize = 0;
        while i < n
            invariant
                n == self@.len(),
                0 <= i <= n,
                forall|j: int| 0 <= j < i ==> !window_holds(addr)(#[trigger] self@[j]),
            decreases n - i,
        {
            let d = &self.devices[i];
            if d.bar4_addr <= addr && addr - d.bar4_addr < d.bar4_size {
                proof { lemma_first_index_some(self@, window_holds(addr), i as int); }
                return Some(i);
            }
            i += 1;
        }
        proof { lemma_first_index_none(self@, window_holds(addr)); }
        None
    }

    /// The function whose BAR4 window holds `addr`, if any.
    pub open spec fn window_of(s: Seq<PciFunctionView>, addr: u64) -> Option<int> {
        if addr > u32::MAX { None } else { first_index(s, window_holds(addr as u32)) }
    }

    /// An MMIO read at `addr` that took the bus from `s0` to `s1`, `data` from
    /// `d0` to `d1`, and returned `r`.
    pub open spec fn mmio_read_effect(s0: Seq<PciFunctionView>, s1: Seq<PciFunctionView>, addr: u64, d0: Seq<u8>, d1: Seq<u8>, r: bool) -> bool {
        match Self::window_of(s0, addr) {
            Some(i) => {
                let off = (addr - s0[i].bar4_addr) as u32;
                &&& r
                &&& (s1[i], d1) == function_mmio_read(s0[i], off, d0.len())
                &&& s1 == s0.update(i, s1[i])
            },
            None => !r && s1 == s0 && d1 == d0,
        }
    }

    /// An MMIO write of `data` at `addr` that took the bus from `s0` to `s1` and returned `r`.
    pub open spec fn mmio_write_effect(s0: Seq<PciFunctionView>, s1: Seq<PciFunctionView>, addr: u64, data: Seq<u8>, r: MmioWriteOutcome) -> bool {
        match Self::window_of(s0, addr) {
            Some(i) => {
                let off = (addr - s0[i].bar4_addr) as u32;
                let (f, notify) = function_mmio_write(s0[i], off, data);
                &&& s1 == s0.update(i, f)
                &&& r == (match notify {
                    Some(q) => MmioWriteOutcome::Notify { device: i as usize, queue: q },
                    None => MmioWriteOutcome::Handled,
                })
            },
            None => r == MmioWriteOutcome::Unhandled && s1 == s0,
        }
    }

    /// An MMIO read at guest physical `addr`. Returns whether a function's BAR4
    /// window held the address; that function answers, and `data` is left alone
    /// otherwise.
    pub fn mmio_read(&mut self, mem: &mut GuestMemory, addr: u64, data: &mut [u8]) -> (r: bool)
        requires
            old(self).wf(),
        ensures
            final(self).wf(),
            *final(mem) == *old(mem),
            Self::mmio_read_effect(old(self)@, final(self)@, addr, old(data)@, final(data)@, r),
    {
        let _ = mem;
        if addr > 0xffff_ffff {
            return false;
        }
        let addr32 = addr as u32;
        match self.find_window(addr32) {
            None => false,
            Some(i) => {
                let mut f = self.devices[i];
                proof { assert(function_wf(self@[i as int])); }
                let off = addr32 - f.bar4_addr;
                f.mmio_read(off, data);
                self.devices.set(i, f);
                proof {
                    assert(self@ =~= old(self)@.update(i as int, f@));
                }
                true
            },
        }
    }

    /// An MMIO write at guest physical `addr`.
    pub fn mmio_write(&mut self, mem: &mut GuestMemory, addr: u64, data: &[u8]) -> (r: MmioWriteOutcome)
        requires
            old(self).wf(),
        ensures
            final(self).wf(),
            *final(mem) == *old(mem),
            Self::mmio_write_effect(old(self)@, final(self)@, addr, data@, r),
    {
        let _ = mem;
        if addr > 0xffff_ffff {
            return MmioWriteOutcome::Unhandled;
        }
        let addr32 = addr as u32;
        match self.find_window(addr32) {
            None => MmioWriteOutcome::Unhandled,
            Some(i) => {
                let mut f = self.devices[i];
                proof { assert(function_wf(self@[i as int])); }
                let off = addr32 - f.bar4_addr;
                let notify = f.mmio_write(off, data);
                self.devices.set(i, f);
                proof {
                    assert(self@ =~= old(self)@.update(i as int, f@));
                }
                match notify {
                    Some(q) => MmioWriteOutcome::Notify { device: i, queue: q },
                    None => MmioWriteOutcome::Handled,
                }
            },
        }
    }

    /// The block device behind function `device`, if it is one.
    pub open spec fn blk_at(&self, device: int) -> Option<VirtioBlkState> {
        if 0 <= device < self@.len() {
            match self@[device].kind {
                PciFunctionKind::VirtioBlk(b) => Some(b),
                _ => None,
            }
        } else {
            None
        }
    }

    /// The input device behind function `device`, if it is one.
    pub open spec fn input_at(&self, device: int) -> Option<VirtioInputState> {
        if 0 <= device < self@.len() {
            match self@[device].kind {
                PciFunctionKind::VirtioInput(s) => Some(s),
                _ => None,
            }
        } else {
            None
        }
    }

    /// The bus with the device state of function `device` replaced.
    pub open spec fn with_kind(&self, device: int, kind: PciFunctionKind) -> Seq<PciFunctionView> {
        self@.update(device, PciFunctionView { kind, ..self@[device] })
    }

    /// After a notification of the block device behind `device`: the available
    /// index to process up to (`None` if the queue is not live or it is no block device).
    pub fn blk_available(&self, mem: &GuestMemory, device: usize) -> (r: Result<Option<u16>, GuestFault>)
        ensures
            match self.blk_at(device as int) {
                Some(b) => match blk_avail_snapshot(b, mem@) {
                    Some(v) => r == Ok::<Option<u16>, GuestFault>(v),
                    None => r is Err,
                },
                None => r == Ok::<Option<u16>, GuestFault>(None),
            },
    {
        if device >= self.devices.len() {
            return Ok(None);
        }
        match &self.devices[device].kind {
            PciFunctionKind::VirtioBlk(b) => b.available_idx(mem),
            _ => Ok(None),
        }
    }

    /// One step of processing the block device behind `device` up to `avail_idx`.
    pub fn blk_step(&mut self, mem: &mut GuestMemory, device: usize, avail_idx: u16) -> (r: Result<BlkStep, GuestFault>)
        requires
            old(self).wf(),
        ensures
            final(self).wf(),
            match old(self).blk_at(device as int) {
                Some(b) => match blk_step_spec(b, old(mem)@, avail_idx) {
                    Some((b2, m, step)) => r == Ok::<BlkStep, GuestFault>(step) && final(mem)@ == m
                        && final(self)@ == old(self).with_kind(device as int, PciFunctionKind::VirtioBlk(b2)),
                    None => r is Err,
                },
                None => r == Ok::<BlkStep, GuestFault>(BlkStep::Idle) && final(self)@ == old(self)@ && final(mem)@ == old(mem)@,
            },
    {
        if device >= self.devices.len() {
            return Ok(BlkStep::Idle);
        }
        let mut f = self.devices[device];
        proof { assert(function_wf(self@[device as int])); }
        match &mut f.kind {
            PciFunctionKind::VirtioBlk(b) => {
                let r = b.process_one_request(mem, avail_idx);
                self.devices.set(device, f);
                proof { assert(self@ =~= old(self)@.update(device as int, f@)); }
                r
            },
            _ => Ok(BlkStep::Idle),
        }
    }

    /// Completes a read request of the block device behind `device` with the
    /// bytes that the disk gave.
    pub fn blk_complete_read(
        &mut self,
        mem: &mut GuestMemory,
        device: usize,
        head: u16,
        data_addr: u64,
        status_addr: u64,
        data: &[u8],
    ) -> (r: Result<(), GuestFault>)
        requires
            old(self).wf(),
        ensures
            final(self).wf(),
            match old(self).blk_at(device as int) {
                Some(b) => match blk_read_done_spec(b, old(mem)@, head, data_addr, status_addr, data@) {
                    Some((b2, m)) => r is Ok && final(mem)@ == m
                        && final(self)@ == old(self).with_kind(device as int, PciFunctionKind::VirtioBlk(b2)),
                    None => r is Err,
                },
                None => r is Ok && final(self)@ == old(self)@ && final(mem)@ == old(mem)@,
            },
    {
        if device >= self.devices.len() {
            return Ok(());
        }
        let mut f = self.devices[device];
        proof { assert(function_wf(self@[device as int])); }
        match &mut f.kind {
            PciFunctionKind::VirtioBlk(b) => {
                let r = b.complete_read(mem, head, data_addr, status_addr, data);
                self.devices.set(device, f);
                proof { assert(self@ =~= old(self)@.update(device as int, f@)); }
                r
            },
            _ => Ok(()),
        }
    }

    /// Completes a write request of the block device behind `device`.
    pub fn blk_complete_write(&mut self, mem: &mut GuestMemory, device: usize, head: u16, status_addr: u64) -> (r: Result<(), GuestFault>)
        requires
            old(self).wf(),
        ensures
            final(self).wf(),
            match old(self).blk_at(device as int) {
                Some(b) => match blk_write_done_spec(b, old(mem)@, head, status_addr) {
                    Some((b2, m)) => r is Ok && final(mem)@ == m
                        && final(self)@ == old(self).with_kind(device as int, PciFunctionKind::VirtioBlk(b2)),
                    None => r is Err,
                },
                None => r is Ok && final(self)@ == old(self)@ && final(mem)@ == old(mem)@,
            },
    {
        if device >= self.devices.len() {
            return Ok(());
        }
        let mut f = self.devices[device];
        proof { assert(function_wf(self@[device as int])); }
        match &mut f.kind {
            PciFunctionKind::VirtioBlk(b) => {
                let r = b.complete_write(mem, head, status_addr);
                self.devices.set(device, f);
                proof { assert(self@ =~= old(self)@.update(device as int, f@)); }
                r
            },
            _ => Ok(()),
        }
    }

    /// Serves queue `queue` of the input function `device` until it has caught up
    /// (at most `INPUT_DRAIN_LIMIT` entries) and returns how many entries it took;
    /// any other function is left alone.
    pub fn input_process_queue(&mut self, mem: &mut GuestMemory, device: usize, queue: usize) -> (r: Result<u32, GuestFault>)
        requires
            old(self).wf(),
            queue < 2,
        ensures
            final(self).wf(),
            match old(self).input_at(device as int) {
                Some(s) => match input_drain(s, old(mem)@, queue as int, INPUT_DRAIN_LIMIT as nat) {
                    Some((s2, m, k)) => r == Ok::<u32, GuestFault>(k as u32) && final(mem)@ == m
                        && final(self)@ == old(self).with_kind(device as int, PciFunctionKind::VirtioInput(s2)),
                    None => r is Err,
                },
                None => r == Ok::<u32, GuestFault>(0) && final(self)@ == old(self)@ && final(mem)@ == old(mem)@,
            },
    {
        if device >= self.devices.len() {
            return Ok(0);
        }
        let mut f = self.devices[device];
        proof { assert(function_wf(self@[device as int])); }
        match &mut f.kind {
            PciFunctionKind::VirtioInput(s) => {
                let r = s.process_available(mem, queue);
                self.devices.set(device, f);
                proof { assert(self@ =~= old(self)@.update(device as int, f@)); }
                r
            },
            _ => Ok(0),
        }
    }
}

// ---------------------------------------------------------------------------
// Laws of the configuration space
// ---------------------------------------------------------------------------

/// A dword written to a plain configuration register (any but the command
/// register and BAR4/BAR5) reads back as written.
pub proof fn law_config_write_then_read(f: PciFunctionView, reg: u16, val: u32)
    requires
        function_wf(f),
        reg + 4 <= CONFIG_SPACE_LEN,
        reg != 0x04,
        reg != 0x20,
        reg != 0x24,
    ensures
        config_dword_read(config_dword_write(f, reg, val), reg)
            == (config_dword_write(f, reg, val), val),
{
    vstd::bytes::lemma_auto_spec_u32_to_from_le_bytes();
    lemma_splice_len(f.config, reg as int, spec_u32_to_le_bytes(val));
}

/// Through the bus: a dword written to a plain register of a present function
/// reads back as written.
pub proof fn law_bus_config_write_then_read(s: Seq<PciFunctionView>, bus: u8, dev: u8, func: u8, reg: u16, val: u32)
    requires
        forall|i: int| 0 <= i < s.len() ==> function_wf(#[trigger] s[i]),
        first_index(s, bdf_is(bus, dev, func)) is Some,
        reg + 4 <= CONFIG_SPACE_LEN,
        reg != 0x04,
        reg != 0x20,
        reg != 0x24,
    ensures
        bus_config_read(bus_config_write(s, bus, dev, func, reg, val), bus, dev, func, reg).1 == val,
{
    let p = bdf_is(bus, dev, func);
    let k = choose|k: int| is_first(s, p, k);
    assert(is_first(s, p, k));
    lemma_first_index_some(s, p, k);
    let f2 = config_dword_write(s[k], reg, val);
    let s2 = s.update(k, f2);
    assert(is_first(s2, p, k)) by {
        assert forall|j: int| 0 <= j < k implies !p(#[trigger] s2[j]) by {
            assert(s2[j] == s[j]);
        }
    }
    lemma_first_index_some(s2, p, k);
    law_config_write_then_read(s[k], reg, val);
}

/// BAR sizing: after all ones are written to BAR4, the next read gives the size
/// mask of the 16 KiB window, and the read after it the programmed BAR again.
pub proof fn law_bar_probe(f: PciFunctionView)
    requires
        function_wf(f),
    ensures
        config_dword_read(config_dword_write(f, 0x20, 0xffff_ffff), 0x20).1 == bar_size_mask(BAR4_MMIO_SIZE),
        config_dword_read(config_dword_read(config_dword_write(f, 0x20, 0xffff_ffff), 0x20).0, 0x20).1
            == spec_u32_from_le_bytes(f.config.subrange(0x20, 0x24)),
        bar_size_mask(BAR4_MMIO_SIZE) == 0xffff_c004,
{
    assert(((!((0x4000u32 - 1) as u32)) & 0xffff_fff0u32) | 0x4u32 == 0xffff_c004u32) by (bit_vector);
}

/// Programming BAR4 with an address moves the window there and reads back as
/// the address with the memory-BAR flags.
pub proof fn law_bar_program(f: PciFunctionView, addr: u32)
    requires
        function_wf(f),
        addr != 0xffff_ffff,
        !f.bar_probe_mask_low,
    ensures
        config_dword_write(f, 0x20, addr).bar4_addr == addr & 0xffff_fff0,
        config_dword_read(config_dword_write(f, 0x20, addr), 0x20).1 == (addr & 0xffff_fff0) | 0x4,
{
    vstd::bytes::lemma_auto_spec_u32_to_from_le_bytes();
    lemma_splice_len(f.config, 0x20, spec_u32_to_le_bytes((addr & 0xffff_fff0) | 0x4));
}

} // verus!
