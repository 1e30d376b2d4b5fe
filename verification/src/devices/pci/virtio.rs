use vstd::prelude::*;
use vstd::bytes::{spec_u64_from_le_bytes, spec_u64_to_le_bytes, u64_from_le_bytes, u64_to_le_bytes};

use vstd::bytes::{spec_u16_to_le_bytes, spec_u32_to_le_bytes};
use crate::bytes::splice;
use crate::guest::memory::{GuestMemory, mem_u16, mem_u32, mem_u64};

verus! {

broadcast use vstd::array::group_array_axioms;

pub const QUEUE_SIZE: u16 = 128;
pub const NUM_QUEUES_BLK: u16 = 1;
pub const NUM_QUEUES_INPUT: u16 = 2;

pub const VIRTIO_STATUS_FEATURES_OK: u8 = 8;
pub const VIRTIO_STATUS_FAILED: u8 = 128;

pub const VIRTIO_INPUT_CFG_UNSET: u8 = 0x00;
pub const VIRTIO_INPUT_CFG_ID_NAME: u8 = 0x01;
pub const VIRTIO_INPUT_CFG_ID_SERIAL: u8 = 0x02;
pub const VIRTIO_INPUT_CFG_ID_DEVIDS: u8 = 0x03;
pub const VIRTIO_INPUT_CFG_PROP_BITS: u8 = 0x10;
pub const VIRTIO_INPUT_CFG_EV_BITS: u8 = 0x11;
pub const VIRTIO_INPUT_CFG_ABS_INFO: u8 = 0x12;

pub const EV_SYN: usize = 0;
pub const EV_KEY: usize = 1;
pub const EV_REL: usize = 2;
pub const REL_X: usize = 0;
pub const REL_Y: usize = 1;
pub const REL_WHEEL: usize = 8;
pub const BTN_LEFT: usize = 0x110;
pub const BTN_RIGHT: usize = 0x111;
pub const BTN_MIDDLE: usize = 0x112;

/// Size of the virtio-input device configuration structure.
pub const INPUT_CFG_LEN: usize = 136;

/// The virtio common configuration registers that are not per queue.
#[derive(Clone, Copy, Debug)]
pub struct VirtioCommonCfgState {
    pub device_feature_select: u32,
    pub driver_feature_select: u32,
    pub driver_features: [u32; 2],
    pub msix_config: u16,
    pub device_status: u8,
    pub config_generation: u8,
    pub queue_select: u16,
}

/// The per-queue registers of a virtqueue, and the device's position in its available ring.
#[derive(Clone, Copy, Debug)]
pub struct VirtioQueueState {
    pub size: u16,
    pub msix_vector: u16,
    pub enable: u16,
    pub notify_off: u16,
    pub desc_addr: u64,
    pub driver_addr: u64,
    pub device_addr: u64,
    pub last_avail_idx: u16,
}

/// A common configuration with every register zero, except the given generation.
pub open spec fn common_with_generation(generation: u8) -> VirtioCommonCfgState {
    VirtioCommonCfgState {
        device_feature_select: 0,
        driver_feature_select: 0,
        driver_features: [0u32, 0u32],
        msix_config: 0,
        device_status: 0,
        config_generation: generation,
        queue_select: 0,
    }
}

/// A queue as the device offers it after reset: 128 entries, no MSI-X vector, disabled.
pub open spec fn default_queue() -> VirtioQueueState {
    VirtioQueueState {
        size: QUEUE_SIZE,
        msix_vector: 0xffff,
        enable: 0,
        notify_off: 0,
        desc_addr: 0,
        driver_addr: 0,
        device_addr: 0,
        last_avail_idx: 0,
    }
}

impl VirtioCommonCfgState {
    pub fn with_generation(generation: u8) -> (r: Self)
        ensures
            r == common_with_generation(generation),
    {
        VirtioCommonCfgState {
            device_feature_select: 0,
            driver_feature_select: 0,
            driver_features: [0u32, 0u32],
            msix_config: 0,
            device_status: 0,
            config_generation: generation,
            queue_select: 0,
        }
    }
}

impl Default for VirtioCommonCfgState {
    fn default() -> (r: Self)
        ensures
            r == common_with_generation(0),
    {
        VirtioCommonCfgState::with_generation(0)
    }
}

impl Default for VirtioQueueState {
    fn default() -> (r: Self)
        ensures
            r == default_queue(),
    {
        VirtioQueueState {
            size: QUEUE_SIZE,
            msix_vector: 0xffff,
            enable: 0,
            notify_off: 0,
            desc_addr: 0,
            driver_addr: 0,
            device_addr: 0,
            last_avail_idx: 0,
        }
    }
}

// ---------------------------------------------------------------------------
// Register access through a byte buffer of any width
// ---------------------------------------------------------------------------

/// The value that a write of the bytes `data` stores: the first (at most eight)
/// bytes taken as a little-endian number.
pub open spec fn buf_value(data: Seq<u8>) -> u64 {
    spec_u64_from_le_bytes(
        Seq::new(8, |i: int| if i < data.len() { data[i] } else { 0u8 }),
    )
}

/// `data` after the little-endian bytes of `value` are stored over its first
/// (at most eight) bytes.
pub open spec fn stored_value(data: Seq<u8>, value: u64) -> Seq<u8> {
    Seq::new(data.len(), |i: int| if i < 8 { spec_u64_to_le_bytes(value)[i] } else { data[i] })
}

/// Fills `data` with the little-endian bytes of `value`; bytes past the eighth keep
/// their value.
pub fn write_value_to_buf(value: u64, data: &mut [u8])
    ensures
        final(data)@ == stored_value(old(data)@, value),
{
    let bytes = u64_to_le_bytes(value);
    proof { vstd::bytes::lemma_auto_spec_u64_to_from_le_bytes(); }
    let n = if data.len() < 8 { data.len() } else { 8 };
    let mut i: usize = 0;
    while i < n
        invariant
            n <= 8,
            n <= data@.len(),
            n == data@.len() || n == 8,
            data@.len() == old(data)@.len(),
            bytes@ == spec_u64_to_le_bytes(value),
            bytes@.len() == 8,
            0 <= i <= n,
            forall|j: int| 0 <= j < i ==> #[trigger] data@[j] == bytes@[j],
            forall|j: int| i <= j < data@.len() ==> #[trigger] data@[j] == old(data)@[j],
        decreases n - i,
    {
        data[i] = bytes[i];
        i += 1;
    }
    assert(data@ =~= stored_value(old(data)@, value));
}

/// Reads the value written through `data`: up to eight bytes, little-endian.
pub fn read_value_from_buf(data: &[u8]) -> (r: u64)
    ensures
        r == buf_value(data@),
{
    let mut bytes: [u8; 8] = [0u8; 8];
    let n = if data.len() < 8 { data.len() } else { 8 };
    let mut i: usize = 0;
    while i < n
        invariant
            n <= 8,
            n <= data@.len(),
            n == data@.len() || n == 8,
            0 <= i <= n,
            bytes@.len() == 8,
            forall|j: int| 0 <= j < i ==> #[trigger] bytes@[j] == data@[j],
            forall|j: int| i <= j < 8 ==> #[trigger] bytes@[j] == 0u8,
        decreases n - i,
    {
        bytes[i] = data[i];
        i += 1;
    }
    let r = u64_from_le_bytes(bytes.as_slice());
    assert(bytes@ =~= Seq::new(8, |i: int| if i < data@.len() { data@[i] } else { 0u8 }));
    r
}

// ---------------------------------------------------------------------------
// Common configuration registers
// ---------------------------------------------------------------------------

pub open spec fn low32(x: u64) -> u64 {
    x % 0x1_0000_0000
}

pub open spec fn high32(x: u64) -> u64 {
    x / 0x1_0000_0000
}

/// `old` with its low 32 bits replaced by the low 32 bits of `v`.
pub open spec fn with_low32(old: u64, v: u64) -> u64 {
    (high32(old) * 0x1_0000_0000 + low32(v)) as u64
}

/// `old` with its high 32 bits replaced by the low 32 bits of `v`.
pub open spec fn with_high32(old: u64, v: u64) -> u64 {
    (low32(v) * 0x1_0000_0000 + low32(old)) as u64
}

/// The index of the driver feature word that `driver_feature_select` addresses.
pub open spec fn feature_word(select: u32) -> int {
    if select < 1 { select as int } else { 1 }
}

/// What the common configuration register at byte offset `off` reads as, for a
/// device with `num_queues` queues whose selected queue is `q`.
pub open spec fn common_cfg_value(
    c: VirtioCommonCfgState,
    q: VirtioQueueState,
    num_queues: u16,
    off: u32,
) -> u64 {
    if off == 0x00 {
        c.device_feature_select as u64
    } else if off == 0x04 {
        0
    } else if off == 0x08 {
        c.driver_feature_select as u64
    } else if off == 0x0c {
        c.driver_features[feature_word(c.driver_feature_select)] as u64
    } else if off == 0x10 {
        c.msix_config as u64
    } else if off == 0x12 {
        num_queues as u64
    } else if off == 0x14 {
        c.device_status as u64
    } else if off == 0x15 {
        c.config_generation as u64
    } else if off == 0x16 {
        c.queue_select as u64
    } else if off == 0x18 {
        q.size as u64
    } else if off == 0x1a {
        q.msix_vector as u64
    } else if off == 0x1c {
        q.enable as u64
    } else if off == 0x1e {
        q.notify_off as u64
    } else if off == 0x20 {
        low32(q.desc_addr)
    } else if off == 0x24 {
        high32(q.desc_addr)
    } else if off == 0x28 {
        low32(q.driver_addr)
    } else if off == 0x2c {
        high32(q.driver_addr)
    } else if off == 0x30 {
        low32(q.device_addr)
    } else if off == 0x34 {
        high32(q.device_addr)
    } else {
        0
    }
}

/// The device offers no feature bits in any feature word.
pub fn device_feature(select: u32) -> (r: u32)
    ensures
        r == 0,
{
    let _ = select;
    0
}

proof fn lemma_halves(x: u64)
    ensures
        x & 0xffff_ffff == low32(x),
        x >> 32 == high32(x),
        high32(x) < 0x1_0000_0000,
{
    assert(x & 0xffff_ffff == x % 0x1_0000_0000) by (bit_vector);
    assert(x >> 32 == x / 0x1_0000_0000) by (bit_vector);
}

pub fn common_cfg_read_value(
    c: &VirtioCommonCfgState,
    q: &VirtioQueueState,
    num_queues: u16,
    off: u32,
) -> (r: u64)
    ensures
        r == common_cfg_value(*c, *q, num_queues, off),
{
    proof {
        lemma_halves(q.desc_addr);
        lemma_halves(q.driver_addr);
        lemma_halves(q.device_addr);
    }
    if off == 0x00 {
        c.device_feature_select as u64
    } else if off == 0x04 {
        device_feature(c.device_feature_select) as u64
    } else if off == 0x08 {
        c.driver_feature_select as u64
    } else if off == 0x0c {
        let idx: usize = if c.driver_feature_select < 1 { c.driver_feature_select as usize } else { 1 };
        c.driver_features[idx] as u64
    } else if off == 0x10 {
        c.msix_config as u64
    } else if off == 0x12 {
        num_queues as u64
    } else if off == 0x14 {
        c.device_status as u64
    } else if off == 0x15 {
        c.config_generation as u64
    } else if off == 0x16 {
        c.queue_select as u64
    } else if off == 0x18 {
        q.size as u64
    } else if off == 0x1a {
        q.msix_vector as u64
    } else if off == 0x1c {
        q.enable as u64
    } else if off == 0x1e {
        q.notify_off as u64
    } else if off == 0x20 {
        q.desc_addr & 0xffff_ffff
    } else if off == 0x24 {
        q.desc_addr >> 32
    } else if off == 0x28 {
        q.driver_addr & 0xffff_ffff
    } else if off == 0x2c {
        q.driver_addr >> 32
    } else if off == 0x30 {
        q.device_addr & 0xffff_ffff
    } else if off == 0x34 {
        q.device_addr >> 32
    } else {
        0
    }
}

/// The queue register that a common configuration write at `off` changes, if any.
pub open spec fn queue_after_write(q: VirtioQueueState, off: u32, value: u64) -> VirtioQueueState {
    if off == 0x1a {
        VirtioQueueState { msix_vector: value as u16, ..q }
    } else if off == 0x1c {
        VirtioQueueState { enable: value as u16, ..q }
    } else if off == 0x20 {
        VirtioQueueState { desc_addr: with_low32(q.desc_addr, value), ..q }
    } else if off == 0x24 {
        VirtioQueueState { desc_addr: with_high32(q.desc_addr, value), ..q }
    } else if off == 0x28 {
        VirtioQueueState { driver_addr: with_low32(q.driver_addr, value), ..q }
    } else if off == 0x2c {
        VirtioQueueState { driver_addr: with_high32(q.driver_addr, value), ..q }
    } else if off == 0x30 {
        VirtioQueueState { device_addr: with_low32(q.device_addr, value), ..q }
    } else if off == 0x34 {
        VirtioQueueState { device_addr: with_high32(q.device_addr, value), ..q }
    } else {
        q
    }
}

/// The non-queue common registers after a write of `value` at `off` (the device
/// status register, at 0x14, is handled separately).
pub open spec fn common_after_write(c: VirtioCommonCfgState, off: u32, value: u64) -> VirtioCommonCfgState {
    if off == 0x00 {
        VirtioCommonCfgState { device_feature_select: value as u32, ..c }
    } else if off == 0x08 {
        VirtioCommonCfgState { driver_feature_select: value as u32, ..c }
    } else if off == 0x0c {
        VirtioCommonCfgState {
            driver_features: if feature_word(c.driver_feature_select) == 0 {
                [value as u32, c.driver_features[1]]
            } else {
                [c.driver_features[0], value as u32]
            },
            ..c
        }
    } else if off == 0x10 {
        VirtioCommonCfgState { msix_config: value as u16, ..c }
    } else if off == 0x16 {
        VirtioCommonCfgState { queue_select: value as u16, ..c }
    } else {
        c
    }
}

proof fn lemma_set_halves(old: u64, value: u64)
    ensures
        (old & 0xffff_ffff_0000_0000) | ((value as u32) as u64) == with_low32(old, value),
        (old & 0x0000_0000_ffff_ffff) | (((value as u32) as u64) << 32) == with_high32(old, value),
{
    assert((old & 0xffff_ffff_0000_0000) | ((value as u32) as u64)
        == ((old / 0x1_0000_0000) * 0x1_0000_0000 + value % 0x1_0000_0000) as u64) by (bit_vector);
    assert((old & 0x0000_0000_ffff_ffff) | (((value as u32) as u64) << 32)
        == ((value % 0x1_0000_0000) * 0x1_0000_0000 + old % 0x1_0000_0000) as u64) by (bit_vector);
}

pub fn queue_write(q: &mut VirtioQueueState, off: u32, value: u64)
    ensures
        *final(q) == queue_after_write(*old(q), off, value),
{
    proof {
        lemma_set_halves(q.desc_addr, value);
        lemma_set_halves(q.driver_addr, value);
        lemma_set_halves(q.device_addr, value);
    }
    if off == 0x1a {
        q.msix_vector = value as u16;
    } else if off == 0x1c {
        q.enable = value as u16;
    } else if off == 0x20 {
        q.desc_addr = (q.desc_addr & 0xffff_ffff_0000_0000) | (value as u32 as u64);
    } else if off == 0x24 {
        q.desc_addr = (q.desc_addr & 0x0000_0000_ffff_ffff) | ((value as u32 as u64) << 32);
    } else if off == 0x28 {
        q.driver_addr = (q.driver_addr & 0xffff_ffff_0000_0000) | (value as u32 as u64);
    } else if off == 0x2c {
        q.driver_addr = (q.driver_addr & 0x0000_0000_ffff_ffff) | ((value as u32 as u64) << 32);
    } else if off == 0x30 {
        q.device_addr = (q.device_addr & 0xffff_ffff_0000_0000) | (value as u32 as u64);
    } else if off == 0x34 {
        q.device_addr = (q.device_addr & 0x0000_0000_ffff_ffff) | ((value as u32 as u64) << 32);
    }
}

pub fn common_write(c: &mut VirtioCommonCfgState, off: u32, value: u64)
    ensures
        *final(c) == common_after_write(*old(c), off, value),
{
    if off == 0x00 {
        c.device_feature_select = value as u32;
    } else if off == 0x08 {
        c.driver_feature_select = value as u32;
    } else if off == 0x0c {
        let df = c.driver_features;
        let v = value as u32;
        c.driver_features = if c.driver_feature_select < 1 { [v, df[1]] } else { [df[0], v] };
    } else if off == 0x10 {
        c.msix_config = value as u16;
    } else if off == 0x16 {
        c.queue_select = value as u16;
    }
}

/// The device status that a driver's write of `new_status` (other than zero) leaves:
/// FEATURES_OK is refused, and FAILED set, when the driver asked for features.
pub open spec fn status_after_write(new_status: u8, accepted: bool) -> u8 {
    if new_status & VIRTIO_STATUS_FEATURES_OK != 0 && !accepted {
        (new_status & !VIRTIO_STATUS_FEATURES_OK) | VIRTIO_STATUS_FAILED
    } else {
        new_status
    }
}

/// The device accepts only a driver that asks for no feature at all.
pub open spec fn features_accepted(c: VirtioCommonCfgState) -> bool {
    c.driver_features[0] == 0 && c.driver_features[1] == 0
}

pub fn negotiated_status(new_status: u8, accepted: bool) -> (r: u8)
    ensures
        r == status_after_write(new_status, accepted),
{
    let mut status = new_status;
    if (new_status & VIRTIO_STATUS_FEATURES_OK) != 0 {
        if !accepted {
            status &= !VIRTIO_STATUS_FEATURES_OK;
            status |= VIRTIO_STATUS_FAILED;
        }
    }
    status
}


/// The generation counter after one more reset.
pub open spec fn next_generation(g: u8) -> u8 {
    ((g + 1) % 256) as u8
}

// ---------------------------------------------------------------------------
// virtio-blk
// ---------------------------------------------------------------------------

/// Register state of a virtio block device (the disk image itself is the host's).
#[derive(Clone, Copy, Debug)]
pub struct VirtioBlkState {
    pub common: VirtioCommonCfgState,
    pub queue: VirtioQueueState,
    pub isr_status: u8,
    pub capacity_sectors: u64,
}

pub open spec fn blk_initial(capacity_sectors: u64) -> VirtioBlkState {
    VirtioBlkState {
        common: common_with_generation(1),
        queue: default_queue(),
        isr_status: 0,
        capacity_sectors,
    }
}

pub open spec fn blk_after_reset(s: VirtioBlkState) -> VirtioBlkState {
    VirtioBlkState {
        common: common_with_generation(next_generation(s.common.config_generation)),
        queue: default_queue(),
        isr_status: 0,
        capacity_sectors: s.capacity_sectors,
    }
}

pub open spec fn blk_after_status_write(s: VirtioBlkState, new_status: u8) -> VirtioBlkState {
    if new_status == 0 {
        blk_after_reset(s)
    } else {
        VirtioBlkState {
            common: VirtioCommonCfgState {
                device_status: status_after_write(new_status, features_accepted(s.common)),
                ..s.common
            },
            ..s
        }
    }
}

pub open spec fn blk_after_common_write(s: VirtioBlkState, off: u32, value: u64) -> VirtioBlkState {
    if off == 0x14 {
        blk_after_status_write(s, value as u8)
    } else {
        VirtioBlkState {
            common: common_after_write(s.common, off, value),
            queue: queue_after_write(s.queue, off, value),
            ..s
        }
    }
}

/// The block device configuration register at `off`: the capacity in sectors at 0.
pub open spec fn blk_device_cfg_value(s: VirtioBlkState, off: u32) -> u64 {
    if off == 0 { s.capacity_sectors } else { 0 }
}

impl VirtioBlkState {
    pub fn new(capacity_sectors: u64) -> (r: Self)
        ensures
            r == blk_initial(capacity_sectors),
    {
        VirtioBlkState {
            common: VirtioCommonCfgState::with_generation(1),
            queue: VirtioQueueState::default(),
            isr_status: 0,
            capacity_sectors,
        }
    }

    pub fn reset(&mut self)
        ensures
            *final(self) == blk_after_reset(*old(self)),
    {
        self.common = VirtioCommonCfgState::with_generation(self.common.config_generation.wrapping_add(1));
        self.queue = VirtioQueueState::default();
        self.isr_status = 0;
    }

    pub fn read_common_cfg(&mut self, off: u32, data: &mut [u8])
        ensures
            *final(self) == *old(self),
            final(data)@ == stored_value(old(data)@, common_cfg_value(old(self).common, old(self).queue, NUM_QUEUES_BLK, off)),
    {
        let value = common_cfg_read_value(&self.common, &self.queue, NUM_QUEUES_BLK, off);
        write_value_to_buf(value, data);
    }

    pub fn write_common_cfg(&mut self, off: u32, data: &[u8])
        ensures
            *final(self) == blk_after_common_write(*old(self), off, buf_value(data@)),
    {
        let value = read_value_from_buf(data);
        if off == 0x14 {
            self.write_device_status(value as u8);
        } else {
            common_write(&mut self.common, off, value);
            queue_write(&mut self.queue, off, value);
        }
    }

    pub fn read_device_cfg(&self, off: u32, data: &mut [u8])
        ensures
            final(data)@ == stored_value(old(data)@, blk_device_cfg_value(*self, off)),
    {
        let value = if off == 0 { self.capacity_sectors } else { 0 };
        write_value_to_buf(value, data);
    }

    pub fn device_feature(&self, select: u32) -> (r: u32)
        ensures
            r == 0,
    {
        device_feature(select)
    }

    pub fn write_device_status(&mut self, new_status: u8)
        ensures
            *final(self) == blk_after_status_write(*old(self), new_status),
    {
        if new_status == 0 {
            self.reset();
            return;
        }
        let accepted = self.driver_features_accepted();
        self.common.device_status = negotiated_status(new_status, accepted);
    }

    pub fn driver_features_accepted(&self) -> (r: bool)
        ensures
            r == features_accepted(self.common),
    {
        self.common.driver_features[0] == 0 && self.common.driver_features[1] == 0
    }
}

// ---------------------------------------------------------------------------
// virtio-input
// ---------------------------------------------------------------------------

/// Register state of a virtio input device with an event queue (0) and a status queue (1).
#[derive(Clone, Copy, Debug)]
pub struct VirtioInputState {
    pub common: VirtioCommonCfgState,
    pub queues: [VirtioQueueState; 2],
    pub isr_status: u8,
    pub config_select: u8,
    pub config_subsel: u8,
}

/// The two queues after reset; each queue's notify offset is its index.
pub open spec fn input_default_queues() -> [VirtioQueueState; 2] {
    [default_queue(), VirtioQueueState { notify_off: 1, ..default_queue() }]
}

pub open spec fn input_initial() -> VirtioInputState {
    VirtioInputState {
        common: common_with_generation(1),
        queues: input_default_queues(),
        isr_status: 0,
        config_select: VIRTIO_INPUT_CFG_UNSET,
        config_subsel: 0,
    }
}

pub open spec fn input_after_reset(s: VirtioInputState) -> VirtioInputState {
    VirtioInputState {
        common: common_with_generation(next_generation(s.common.config_generation)),
        ..input_initial()
    }
}

/// The queue that the per-queue registers address: `queue_select`, capped at the last queue.
pub open spec fn selected_queue(c: VirtioCommonCfgState) -> int {
    if c.queue_select < 1 { c.queue_select as int } else { 1 }
}

pub open spec fn with_queue(qs: [VirtioQueueState; 2], i: int, q: VirtioQueueState) -> [VirtioQueueState; 2] {
    if i == 0 { [q, qs[1]] } else { [qs[0], q] }
}

pub open spec fn input_after_status_write(s: VirtioInputState, new_status: u8) -> VirtioInputState {
    if new_status == 0 {
        input_after_reset(s)
    } else {
        VirtioInputState {
            common: VirtioCommonCfgState {
                device_status: status_after_write(new_status, features_accepted(s.common)),
                ..s.common
            },
            ..s
        }
    }
}

pub open spec fn input_after_common_write(s: VirtioInputState, off: u32, value: u64) -> VirtioInputState {
    if off == 0x14 {
        input_after_status_write(s, value as u8)
    } else {
        let sel = selected_queue(s.common);
        VirtioInputState {
            common: common_after_write(s.common, off, value),
            queues: with_queue(s.queues, sel, queue_after_write(s.queues[sel], off, value)),
            ..s
        }
    }
}

/// The configuration payload for a select / subselect pair: name and serial strings,
/// device ids, and the event-type and event-code bitmaps of a relative mouse.
pub open spec fn input_config_payload(select: u8, subsel: u8) -> Seq<u8> {
    if select == VIRTIO_INPUT_CFG_ID_NAME {
        // "vmmon virtio input"
        seq![118u8, 109, 109, 111, 110, 32, 118, 105, 114, 116, 105, 111, 32, 105, 110, 112, 117, 116]
    } else if select == VIRTIO_INPUT_CFG_ID_SERIAL {
        // "vmmon-virtio-input"
        seq![118u8, 109, 109, 111, 110, 45, 118, 105, 114, 116, 105, 111, 45, 105, 110, 112, 117, 116]
    } else if select == VIRTIO_INPUT_CFG_ID_DEVIDS {
        // bustype 0x0006, vendor 0x1af4, product 0x1052, version 0x0001, little-endian
        seq![0x06u8, 0x00, 0xf4, 0x1a, 0x52, 0x10, 0x01, 0x00]
    } else if select == VIRTIO_INPUT_CFG_EV_BITS {
        ev_bits_payload(subsel)
    } else {
        Seq::empty()
    }
}

/// The event bitmaps: event types SYN, KEY, REL (subselect 0); buttons LEFT,
/// RIGHT, MIDDLE (codes 0x110..0x112, for EV_KEY); axes X, Y, WHEEL (codes 0, 1, 8,
/// for EV_REL); bit `b` is bit `b % 8` of byte `b / 8`, trailing zero bytes dropped.
pub open spec fn ev_bits_payload(subsel: u8) -> Seq<u8> {
    if subsel == 0 {
        seq![0x07u8]
    } else if subsel == 1 {
        Seq::new(35, |i: int| if i == 34 { 0x07u8 } else { 0u8 })
    } else if subsel == 2 {
        seq![0x03u8, 0x01]
    } else {
        Seq::empty()
    }
}

/// The 136-byte virtio-input configuration structure: select, subselect, payload
/// size, five reserved bytes, then the payload.
pub open spec fn input_cfg_bytes(s: VirtioInputState) -> Seq<u8> {
    let p = input_config_payload(s.config_select, s.config_subsel);
    Seq::new(
        INPUT_CFG_LEN as nat,
        |i: int|
            if i == 0 {
                s.config_select
            } else if i == 1 {
                s.config_subsel
            } else if i == 2 {
                p.len() as u8
            } else if 8 <= i < 8 + p.len() {
                p[i - 8]
            } else {
                0u8
            },
    )
}

/// A read of `len` bytes at offset `off` of the configuration structure; bytes past
/// its end read as zero.
pub open spec fn input_device_cfg_read(s: VirtioInputState, off: u32, len: nat) -> Seq<u8> {
    Seq::new(len, |i: int| if off + i < INPUT_CFG_LEN { input_cfg_bytes(s)[off + i] } else { 0u8 })
}

pub open spec fn input_after_device_cfg_write(s: VirtioInputState, off: u32, value: u64) -> VirtioInputState {
    if off == 0 {
        VirtioInputState { config_select: value as u8, ..s }
    } else if off == 1 {
        VirtioInputState { config_subsel: value as u8, ..s }
    } else {
        s
    }
}

/// Sets bit `bit` of the little-endian bitmap `bits`, if the bitmap reaches that far.
pub fn set_bit(bits: &mut [u8], bit: usize)
    ensures
        final(bits)@ == (if bit / 8 < old(bits)@.len() {
            old(bits)@.update((bit / 8) as int, old(bits)@[(bit / 8) as int] | (1u8 << ((bit % 8) as u8)))
        } else {
            old(bits)@
        }),
{
    let byte = bit / 8;
    let mask = 1u8 << ((bit % 8) as u8);
    if byte < bits.len() {
        bits[byte] = bits[byte] | mask;
    }
}

/// `v` without its trailing zero bytes.
pub fn trim_trailing_zeros(v: Vec<u8>) -> (r: Vec<u8>)
    ensures
        r@.len() <= v@.len(),
        r@ == v@.subrange(0, r@.len() as int),
        r@.len() == 0 || r@[r@.len() - 1] != 0,
        forall|i: int| r@.len() <= i < v@.len() ==> v@[i] == 0,
{
    let mut v = v;
    let ghost orig = v@;
    while v.len() > 0 && v[v.len() - 1] == 0
        invariant
            v@.len() <= orig.len(),
            v@ == orig.subrange(0, v@.len() as int),
            forall|i: int| v@.len() <= i < orig.len() ==> orig[i] == 0,
        decreases v@.len(),
    {
        v.pop();
    }
    v
}

proof fn lemma_ev_bytes()
    ensures
        (0u8 | (1u8 << 0u8)) | (1u8 << 1u8) | (1u8 << 2u8) == 7u8,
        ((0u8 | (1u8 << 0u8)) | (1u8 << 1u8)) == 3u8,
        0u8 | (1u8 << 0u8) == 1u8,
{
    assert((0u8 | (1u8 << 0u8)) | (1u8 << 1u8) | (1u8 << 2u8) == 7u8) by (bit_vector);
    assert(((0u8 | (1u8 << 0u8)) | (1u8 << 1u8)) == 3u8) by (bit_vector);
    assert(0u8 | (1u8 << 0u8) == 1u8) by (bit_vector);
}

impl VirtioInputState {
    pub fn new() -> (r: Self)
        ensures
            r == input_initial(),
    {
        let q0 = VirtioQueueState::default();
        let mut q1 = VirtioQueueState::default();
        q1.notify_off = 1;
        let queues = [q0, q1];
        assert(q1 == VirtioQueueState { notify_off: 1, ..default_queue() });
        assert(queues@ =~= input_default_queues()@);
        assert(queues == input_default_queues());
        VirtioInputState {
            common: VirtioCommonCfgState::with_generation(1),
            queues,
            isr_status: 0,
            config_select: VIRTIO_INPUT_CFG_UNSET,
            config_subsel: 0,
        }
    }

    pub fn reset(&mut self)
        ensures
            *final(self) == input_after_reset(*old(self)),
    {
        let q0 = VirtioQueueState::default();
        let mut q1 = VirtioQueueState::default();
        q1.notify_off = 1;
        self.common = VirtioCommonCfgState::with_generation(self.common.config_generation.wrapping_add(1));
        let queues = [q0, q1];
        assert(q1 == VirtioQueueState { notify_off: 1, ..default_queue() });
        assert(queues@ =~= input_default_queues()@);
        assert(queues == input_default_queues());
        self.queues = queues;
        self.isr_status = 0;
        self.config_select = VIRTIO_INPUT_CFG_UNSET;
        self.config_subsel = 0;
    }

    pub fn selected_queue_index(&self) -> (r: usize)
        ensures
            r == selected_queue(self.common),
    {
        if self.common.queue_select < 1 { self.common.queue_select as usize } else { 1 }
    }

    /// The queue that `queue_select` names (the last one for larger values).
    pub fn selected_queue(&self) -> (r: &VirtioQueueState)
        ensures
            *r == self.queues[selected_queue(self.common)],
    {
        let idx = self.selected_queue_index();
        &self.queues[idx]
    }

    /// The queue that `queue_select` names, for writing.
    pub fn selected_queue_mut(&mut self) -> (r: &mut VirtioQueueState)
        ensures
            *r == old(self).queues[selected_queue(old(self).common)],
            *final(self) == (VirtioInputState {
                queues: vstd::array::spec_array_update(old(self).queues, selected_queue(old(self).common), *final(r)),
                ..*old(self)
            }),
    {
        let idx = self.selected_queue_index();
        &mut self.queues[idx]
    }

    pub fn read_common_cfg(&mut self, off: u32, data: &mut [u8])
        ensures
            *final(self) == *old(self),
            final(data)@ == stored_value(
                old(data)@,
                common_cfg_value(old(self).common, old(self).queues[selected_queue(old(self).common)], NUM_QUEUES_INPUT, off),
            ),
    {
        let idx = self.selected_queue_index();
        let value = common_cfg_read_value(&self.common, &self.queues[idx], NUM_QUEUES_INPUT, off);
        write_value_to_buf(value, data);
    }

    pub fn write_common_cfg(&mut self, off: u32, data: &[u8])
        ensures
            *final(self) == input_after_common_write(*old(self), off, buf_value(data@)),
    {
        let value = read_value_from_buf(data);
        if off == 0x14 {
            self.write_device_status(value as u8);
        } else {
            let idx = self.selected_queue_index();
            let mut q = self.queues[idx];
            queue_write(&mut q, off, value);
            common_write(&mut self.common, off, value);
            let qs = self.queues;
            self.queues = if idx == 0 { [q, qs[1]] } else { [qs[0], q] };
        }
    }

    pub fn build_config_payload(&self) -> (r: Vec<u8>)
        ensures
            r@ == input_config_payload(self.config_select, self.config_subsel),
    {
        let r = if self.config_select == VIRTIO_INPUT_CFG_ID_NAME {
            vec![118u8, 109, 109, 111, 110, 32, 118, 105, 114, 116, 105, 111, 32, 105, 110, 112, 117, 116]
        } else if self.config_select == VIRTIO_INPUT_CFG_ID_SERIAL {
            vec![118u8, 109, 109, 111, 110, 45, 118, 105, 114, 116, 105, 111, 45, 105, 110, 112, 117, 116]
        } else if self.config_select == VIRTIO_INPUT_CFG_ID_DEVIDS {
            vec![0x06u8, 0x00, 0xf4, 0x1a, 0x52, 0x10, 0x01, 0x00]
        } else if self.config_select == VIRTIO_INPUT_CFG_EV_BITS {
            self.build_ev_bits_payload()
        } else {
            Vec::new()
        };
        proof {
            let p = input_config_payload(self.config_select, self.config_subsel);
            assert(r@ =~= p);
        }
        r
    }

    pub fn build_ev_bits_payload(&self) -> (r: Vec<u8>)
        ensures
            r@ == ev_bits_payload(self.config_subsel),
    {
        proof { lemma_ev_bytes(); }
        if self.config_subsel == 0 {
            let mut bits = vec![0u8; 1];
            set_bit(bits.as_mut_slice(), EV_SYN);
            set_bit(bits.as_mut_slice(), EV_KEY);
            set_bit(bits.as_mut_slice(), EV_REL);
            assert(bits@ =~= ev_bits_payload(self.config_subsel));
            bits
        } else if self.config_subsel as usize == EV_KEY {
            let mut bits = vec![0u8; (BTN_MIDDLE / 8) + 1];
            set_bit(bits.as_mut_slice(), BTN_LEFT);
            set_bit(bits.as_mut_slice(), BTN_RIGHT);
            set_bit(bits.as_mut_slice(), BTN_MIDDLE);
            assert(bits@ =~= ev_bits_payload(self.config_subsel));
            let r = trim_trailing_zeros(bits);
            assert(r@.len() == 35) by {
                if r@.len() < 35 {
                    assert(bits@[34] == 0x07u8);
                }
            }
            assert(r@ =~= ev_bits_payload(self.config_subsel));
            r
        } else if self.config_subsel as usize == EV_REL {
            let mut bits = vec![0u8; (REL_WHEEL / 8) + 1];
            set_bit(bits.as_mut_slice(), REL_X);
            set_bit(bits.as_mut_slice(), REL_Y);
            set_bit(bits.as_mut_slice(), REL_WHEEL);
            assert(bits@ =~= ev_bits_payload(self.config_subsel));
            let r = trim_trailing_zeros(bits);
            assert(r@.len() == 2) by {
                if r@.len() < 2 {
                    assert(bits@[1] == 0x01u8);
                }
            }
            assert(r@ =~= ev_bits_payload(self.config_subsel));
            r
        } else {
            Vec::new()
        }
    }

    pub fn read_device_cfg(&self, off: u32, data: &mut [u8])
        ensures
            final(data)@ == input_device_cfg_read(*self, off, old(data)@.len()),
    {
        let payload = self.build_config_payload();
        let mut cfg: [u8; 136] = [0u8; 136];
        cfg[0] = self.config_select;
        cfg[1] = self.config_subsel;
        cfg[2] = payload.len() as u8;
        let plen = payload.len();
        let mut k: usize = 0;
        while k < plen
            invariant
                plen == payload@.len(),
                plen <= 35,
                0 <= k <= plen,
                cfg@.len() == 136,
                forall|i: int| 0 <= i < 8 ==> #[trigger] cfg@[i] == input_cfg_bytes(*self)[i],
                forall|i: int| 8 <= i < 8 + k ==> #[trigger] cfg@[i] == input_cfg_bytes(*self)[i],
                forall|i: int| 8 + k <= i < 136 ==> #[trigger] cfg@[i] == 0u8,
                payload@ == input_config_payload(self.config_select, self.config_subsel),
            decreases plen - k,
        {
            cfg[8 + k] = payload[k];
            k += 1;
        }
        assert(cfg@ =~= input_cfg_bytes(*self));
        let start = off as usize;
        let n = data.len();
        let mut i: usize = 0;
        while i < n
            invariant
                n == data@.len(),
                n == old(data)@.len(),
                0 <= i <= n,
                start == off,
                cfg@ == input_cfg_bytes(*self),
                forall|j: int| 0 <= j < i ==> #[trigger] data@[j] == input_device_cfg_read(*self, off, n as nat)[j],
            decreases n - i,
        {
            if start < 136 && i < 136 - start {
                data[i] = cfg[start + i];
            } else {
                data[i] = 0;
            }
            i += 1;
        }
        assert(data@ =~= input_device_cfg_read(*self, off, old(data)@.len()));
    }

    pub fn write_device_cfg(&mut self, off: u32, data: &[u8])
        ensures
            *final(self) == input_after_device_cfg_write(*old(self), off, buf_value(data@)),
    {
        let value = read_value_from_buf(data) as u8;
        if off == 0x00 {
            self.config_select = value;
        } else if off == 0x01 {
            self.config_subsel = value;
        }
    }

    pub fn device_feature(&self, select: u32) -> (r: u32)
        ensures
            r == 0,
    {
        device_feature(select)
    }

    pub fn write_device_status(&mut self, new_status: u8)
        ensures
            *final(self) == input_after_status_write(*old(self), new_status),
    {
        if new_status == 0 {
            self.reset();
            return;
        }
        let accepted = self.driver_features_accepted();
        self.common.device_status = negotiated_status(new_status, accepted);
    }

    pub fn driver_features_accepted(&self) -> (r: bool)
        ensures
            r == features_accepted(self.common),
    {
        self.common.driver_features[0] == 0 && self.common.driver_features[1] == 0
    }
}


/// The queues of a device keep their fixed size.
pub open spec fn function_wf_queues(kind: super::bus::PciFunctionKind) -> bool {
    match kind {
        super::bus::PciFunctionKind::VirtioBlk(b) => b.queue.size == QUEUE_SIZE,
        super::bus::PciFunctionKind::VirtioInput(s) => s.queues[0].size == QUEUE_SIZE && s.queues[1].size == QUEUE_SIZE,
    }
}


// ---------------------------------------------------------------------------
// Virtqueues in guest memory
// ---------------------------------------------------------------------------

pub const VIRTQ_DESC_F_NEXT: u16 = 1;
pub const VIRTQ_DESC_F_WRITE: u16 = 2;
pub const VIRTIO_BLK_T_IN: u32 = 0;
pub const VIRTIO_BLK_T_OUT: u32 = 1;
pub const VIRTIO_BLK_S_OK: u8 = 0;
pub const VIRTIO_BLK_S_IOERR: u8 = 1;

/// A guest memory access that falls outside guest RAM (or whose address does not
/// fit in 64 bits). Processing stops there: the device cannot go on.
#[derive(Clone, Copy, Debug, PartialEq, Eq)]
pub struct GuestFault {
    pub gpa: u64,
    pub len: u64,
}

/// A descriptor of a virtqueue's descriptor table.
#[derive(Clone, Copy, Debug)]
pub struct VirtqDesc {
    pub addr: u64,
    pub len: u32,
    pub flags: u16,
    pub next: u16,
}

/// Whether `n` bytes from `a` lie inside `m`.
pub open spec fn fits(m: Seq<u8>, a: int, n: int) -> bool {
    0 <= a && a + n <= m.len()
}

/// Descriptor `idx` of the table at `desc_addr`: 16 bytes holding address,
/// length, flags and next index.
pub open spec fn desc_at(m: Seq<u8>, desc_addr: u64, idx: u16) -> Option<VirtqDesc> {
    let base = desc_addr + idx * 16;
    if fits(m, base, 16) {
        Some(VirtqDesc {
            addr: mem_u64(m, base),
            len: mem_u32(m, base + 8),
            flags: mem_u16(m, base + 12),
            next: mem_u16(m, base + 14),
        })
    } else {
        None
    }
}

/// The address of slot `i` of the available ring at `driver_addr`.
pub open spec fn avail_slot_addr(q: VirtioQueueState, i: u16) -> int {
    q.driver_addr + 4 + (i % q.size) * 2
}

/// Memory after the device puts (`head`, `used_len`) into the used ring of `q` and
/// advances the ring's index; `None` if the ring lies outside guest RAM.
pub open spec fn used_push(q: VirtioQueueState, m: Seq<u8>, head: u16, used_len: u32) -> Option<Seq<u8>> {
    let d = q.device_addr as int;
    if !fits(m, d, 4) {
        None
    } else {
        let used_idx = mem_u16(m, d + 2);
        let elem = d + 4 + (used_idx % q.size) * 8;
        if !fits(m, elem, 8) {
            None
        } else {
            let m1 = splice(m, elem, spec_u32_to_le_bytes(head as u32));
            let m2 = splice(m1, elem + 4, spec_u32_to_le_bytes(used_len));
            Some(splice(m2, d + 2, spec_u16_to_le_bytes(((used_idx + 1) % 0x10000) as u16)))
        }
    }
}

/// `a + b`, or a fault if it does not fit in 64 bits.
fn add_addr(a: u64, b: u64, len: u64) -> (r: Result<u64, GuestFault>)
    ensures
        r matches Ok(v) ==> v == a + b,
        r is Err ==> a + b > u64::MAX,
{
    match a.checked_add(b) {
        Some(v) => Ok(v),
        None => Err(GuestFault { gpa: a, len }),
    }
}

/// Checks that `len` bytes from `gpa` lie inside guest RAM.
fn check_range(mem: &GuestMemory, gpa: u64, len: u64) -> (r: Result<(), GuestFault>)
    ensures
        r is Ok <==> fits(mem@, gpa as int, len as int),
        mem@.len() <= usize::MAX,
{
    let _ = mem.size_bytes();
    if mem.contains(gpa, len) { Ok(()) } else { Err(GuestFault { gpa, len }) }
}

/// Reads descriptor `idx` of the table at `desc_addr`.
pub fn read_desc(mem: &GuestMemory, desc_addr: u64, idx: u16) -> (r: Result<VirtqDesc, GuestFault>)
    ensures
        match desc_at(mem@, desc_addr, idx) {
            Some(d) => r == Ok::<VirtqDesc, GuestFault>(d),
            None => r is Err,
        },
{
    let _ = mem.size_bytes();
    let base = add_addr(desc_addr, idx as u64 * 16, 16)?;
    check_range(mem, base, 16)?;
    Ok(VirtqDesc {
        addr: mem.read_u64(base),
        len: mem.read_u32(base + 8),
        flags: mem.read_u16(base + 12),
        next: mem.read_u16(base + 14),
    })
}

/// Puts (`head`, `used_len`) into the used ring of `q` and advances the ring's index.
pub fn push_used(q: &VirtioQueueState, mem: &mut GuestMemory, head: u16, used_len: u32) -> (r: Result<(), GuestFault>)
    requires
        q.size > 0,
    ensures
        match used_push(*q, old(mem)@, head, used_len) {
            Some(m) => r is Ok && final(mem)@ == m,
            None => r is Err,
        },
{
    check_range(mem, q.device_addr, 4)?;
    let used_idx = mem.read_u16(q.device_addr + 2);
    let slot = (used_idx % q.size) as u64;
    let elem = add_addr(q.device_addr + 4, slot * 8, 8)?;
    check_range(mem, elem, 8)?;
    mem.write_u32(elem, head as u32);
    mem.write_u32(elem + 4, used_len);
    mem.write_u16(q.device_addr + 2, used_idx.wrapping_add(1));
    Ok(())
}

/// What the device does next with a virtio-blk request queue.
#[derive(Clone, Copy, Debug, PartialEq, Eq)]
pub enum BlkStep {
    /// The device has caught up with the snapshot of the available index.
    Idle,
    /// A request was answered without the disk (a malformed chain, or an
    /// unsupported request type) and the device moved past it.
    Completed,
    /// Read `len` bytes of the disk at byte `sector_off` into guest memory at
    /// `data_addr`, then complete request `head` with its status byte at `status_addr`.
    Read { head: u16, sector_off: u64, len: u32, data_addr: u64, status_addr: u64 },
    /// Write the `len` bytes of guest memory at `data_addr` to the disk at byte
    /// `sector_off`, then complete request `head` with its status at `status_addr`.
    Write { head: u16, sector_off: u64, len: u32, data_addr: u64, status_addr: u64 },
}

/// The byte offset of a sector, saturated at the largest `u64`.
pub open spec fn sector_offset(sector: u64) -> u64 {
    if sector * 512 <= u64::MAX { (sector * 512) as u64 } else { u64::MAX }
}

/// `s` after the device moved past one available entry and raised its interrupt.
pub open spec fn blk_advanced(s: VirtioBlkState) -> VirtioBlkState {
    VirtioBlkState {
        queue: VirtioQueueState { last_avail_idx: ((s.queue.last_avail_idx + 1) % 0x10000) as u16, ..s.queue },
        isr_status: 1,
        ..s
    }
}

/// Whether the block queue is live: enabled, with all three ring addresses set.
pub open spec fn queue_live(q: VirtioQueueState) -> bool {
    q.enable != 0 && q.desc_addr != 0 && q.driver_addr != 0 && q.device_addr != 0
}

/// The available index that a notification of the block queue is processed up to:
/// `Some(None)` when the queue is not live, `None` on a fault.
pub open spec fn blk_avail_snapshot(s: VirtioBlkState, m: Seq<u8>) -> Option<Option<u16>> {
    if !queue_live(s.queue) {
        Some(None)
    } else if !fits(m, s.queue.driver_addr as int, 4) {
        None
    } else {
        Some(Some(mem_u16(m, s.queue.driver_addr + 2)))
    }
}

/// One step of processing the block queue up to `avail_idx`: the state and memory
/// after it and what the host must do; `None` on a fault.
pub open spec fn blk_step_spec(s: VirtioBlkState, m: Seq<u8>, avail_idx: u16) -> Option<(VirtioBlkState, Seq<u8>, BlkStep)> {
    let q = s.queue;
    if q.last_avail_idx == avail_idx {
        Some((s, m, BlkStep::Idle))
    } else if !fits(m, avail_slot_addr(q, q.last_avail_idx), 2) {
        None
    } else {
        let head = mem_u16(m, avail_slot_addr(q, q.last_avail_idx));
        match desc_at(m, q.desc_addr, head) {
            None => None,
            Some(d0) =>
                if d0.flags & VIRTQ_DESC_F_NEXT == 0 {
                    match used_push(q, m, head, 0) {
                        None => None,
                        Some(m1) => Some((blk_advanced(s), m1, BlkStep::Completed)),
                    }
                } else {
                    match desc_at(m, q.desc_addr, d0.next) {
                        None => None,
                        Some(d1) =>
                            if d1.flags & VIRTQ_DESC_F_NEXT == 0 {
                                match used_push(q, m, head, 0) {
                                    None => None,
                                    Some(m1) => Some((blk_advanced(s), m1, BlkStep::Completed)),
                                }
                            } else {
                                match desc_at(m, q.desc_addr, d1.next) {
                                    None => None,
                                    Some(d2) => blk_request_spec(s, m, head, d0, d1, d2),
                                }
                            },
                    }
                },
        }
    }
}

/// The request of a well-formed three-descriptor chain: header, data, status.
pub open spec fn blk_request_spec(
    s: VirtioBlkState,
    m: Seq<u8>,
    head: u16,
    d0: VirtqDesc,
    d1: VirtqDesc,
    d2: VirtqDesc,
) -> Option<(VirtioBlkState, Seq<u8>, BlkStep)> {
    if !fits(m, d0.addr as int, 16) {
        None
    } else {
        let req_type = mem_u32(m, d0.addr as int);
        let sector_off = sector_offset(mem_u64(m, d0.addr + 8));
        if req_type == VIRTIO_BLK_T_IN {
            Some((s, m, BlkStep::Read { head, sector_off, len: d1.len, data_addr: d1.addr, status_addr: d2.addr }))
        } else if req_type == VIRTIO_BLK_T_OUT {
            if fits(m, d1.addr as int, d1.len as int) {
                Some((s, m, BlkStep::Write { head, sector_off, len: d1.len, data_addr: d1.addr, status_addr: d2.addr }))
            } else {
                None
            }
        } else if !fits(m, d2.addr as int, 1) {
            None
        } else {
            match used_push(s.queue, m.update(d2.addr as int, VIRTIO_BLK_S_IOERR), head, 1) {
                None => None,
                Some(m1) => Some((blk_advanced(s), m1, BlkStep::Completed)),
            }
        }
    }
}

/// Completion of a read: the data and an OK status go to the guest and the chain
/// is returned with the data length plus the status byte; `None` on a fault.
pub open spec fn blk_read_done_spec(
    s: VirtioBlkState,
    m: Seq<u8>,
    head: u16,
    data_addr: u64,
    status_addr: u64,
    data: Seq<u8>,
) -> Option<(VirtioBlkState, Seq<u8>)> {
    if !fits(m, data_addr as int, data.len() as int) {
        None
    } else {
        let m1 = splice(m, data_addr as int, data);
        if !fits(m1, status_addr as int, 1) || data.len() + 1 > u32::MAX {
            None
        } else {
            match used_push(s.queue, m1.update(status_addr as int, VIRTIO_BLK_S_OK), head, (data.len() + 1) as u32) {
                None => None,
                Some(m2) => Some((blk_advanced(s), m2)),
            }
        }
    }
}

/// Completion of a write: an OK status and a used entry of length one.
pub open spec fn blk_write_done_spec(s: VirtioBlkState, m: Seq<u8>, head: u16, status_addr: u64) -> Option<(VirtioBlkState, Seq<u8>)> {
    if !fits(m, status_addr as int, 1) {
        None
    } else {
        match used_push(s.queue, m.update(status_addr as int, VIRTIO_BLK_S_OK), head, 1) {
            None => None,
            Some(m1) => Some((blk_advanced(s), m1)),
        }
    }
}

impl VirtioBlkState {
    /// The available index to process up to, read when the driver notifies.
    pub fn available_idx(&self, mem: &GuestMemory) -> (r: Result<Option<u16>, GuestFault>)
        ensures
            match blk_avail_snapshot(*self, mem@) {
                Some(v) => r == Ok::<Option<u16>, GuestFault>(v),
                None => r is Err,
            },
    {
        let q = &self.queue;
        if q.enable == 0 || q.desc_addr == 0 || q.driver_addr == 0 || q.device_addr == 0 {
            return Ok(None);
        }
        check_range(mem, q.driver_addr, 4)?;
        Ok(Some(mem.read_u16(q.driver_addr + 2)))
    }

    fn advance(&mut self)
        ensures
            *final(self) == blk_advanced(*old(self)),
    {
        self.queue.last_avail_idx = self.queue.last_avail_idx.wrapping_add(1);
        self.isr_status = 1;
    }

    /// Returns a chain to the driver without touching the disk.
    pub fn fail_request(&mut self, mem: &mut GuestMemory, head: u16, used_len: u32) -> (r: Result<(), GuestFault>)
        requires
            old(self).queue.size > 0,
        ensures
            final(self).queue.size == old(self).queue.size,
            match used_push(old(self).queue, old(mem)@, head, used_len) {
                Some(m) => r is Ok && final(mem)@ == m && *final(self) == blk_advanced(*old(self)),
                None => r is Err,
            },
    {
        push_used(&self.queue, mem, head, used_len)?;
        self.advance();
        Ok(())
    }

    /// Takes the next available request (if the device has not caught up with
    /// `avail_idx`) and either answers it or says what disk access it needs.
    pub fn process_one_request(&mut self, mem: &mut GuestMemory, avail_idx: u16) -> (r: Result<BlkStep, GuestFault>)
        requires
            old(self).queue.size > 0,
        ensures
            final(self).queue.size == old(self).queue.size,
            match blk_step_spec(*old(self), old(mem)@, avail_idx) {
                Some((s, m, step)) => r == Ok::<BlkStep, GuestFault>(step) && *final(self) == s && final(mem)@ == m,
                None => r is Err,
            },
    {
        let _ = mem.size_bytes();
        if self.queue.last_avail_idx == avail_idx {
            return Ok(BlkStep::Idle);
        }
        let slot = (self.queue.last_avail_idx % self.queue.size) as u64;
        let slot_addr = add_addr(self.queue.driver_addr, 4 + slot * 2, 2)?;
        check_range(mem, slot_addr, 2)?;
        let head = mem.read_u16(slot_addr);
        let d0 = read_desc(mem, self.queue.desc_addr, head)?;
        if d0.flags & VIRTQ_DESC_F_NEXT == 0 {
            self.fail_request(mem, head, 0)?;
            return Ok(BlkStep::Completed);
        }
        let d1 = read_desc(mem, self.queue.desc_addr, d0.next)?;
        if d1.flags & VIRTQ_DESC_F_NEXT == 0 {
            self.fail_request(mem, head, 0)?;
            return Ok(BlkStep::Completed);
        }
        let d2 = read_desc(mem, self.queue.desc_addr, d1.next)?;
        check_range(mem, d0.addr, 16)?;
        let req_type = mem.read_u32(d0.addr);
        let sector = mem.read_u64(d0.addr + 8);
        let sector_off = match sector.checked_mul(512) {
            Some(v) => v,
            None => u64::MAX,
        };
        if req_type == VIRTIO_BLK_T_IN {
            Ok(BlkStep::Read { head, sector_off, len: d1.len, data_addr: d1.addr, status_addr: d2.addr })
        } else if req_type == VIRTIO_BLK_T_OUT {
            check_range(mem, d1.addr, d1.len as u64)?;
            Ok(BlkStep::Write { head, sector_off, len: d1.len, data_addr: d1.addr, status_addr: d2.addr })
        } else {
            check_range(mem, d2.addr, 1)?;
            mem.write_u8(d2.addr, VIRTIO_BLK_S_IOERR);
            self.fail_request(mem, head, 1)?;
            Ok(BlkStep::Completed)
        }
    }

    /// Finishes a read request with the bytes read from the disk.
    pub fn complete_read(
        &mut self,
        mem: &mut GuestMemory,
        head: u16,
        data_addr: u64,
        status_addr: u64,
        data: &[u8],
    ) -> (r: Result<(), GuestFault>)
        requires
            old(self).queue.size > 0,
        ensures
            final(self).queue.size == old(self).queue.size,
            match blk_read_done_spec(*old(self), old(mem)@, head, data_addr, status_addr, data@) {
                Some((s, m)) => r is Ok && *final(self) == s && final(mem)@ == m,
                None => r is Err,
            },
    {
        check_range(mem, data_addr, data.len() as u64)?;
        mem.write(data_addr, data);
        check_range(mem, status_addr, 1)?;
        if data.len() >= 0xffff_ffff {
            return Err(GuestFault { gpa: data_addr, len: data.len() as u64 });
        }
        mem.write_u8(status_addr, VIRTIO_BLK_S_OK);
        self.fail_request(mem, head, data.len() as u32 + 1)
    }

    /// Finishes a write request once the disk has the data.
    pub fn complete_write(&mut self, mem: &mut GuestMemory, head: u16, status_addr: u64) -> (r: Result<(), GuestFault>)
        requires
            old(self).queue.size > 0,
        ensures
            final(self).queue.size == old(self).queue.size,
            match blk_write_done_spec(*old(self), old(mem)@, head, status_addr) {
                Some((s, m)) => r is Ok && *final(self) == s && final(mem)@ == m,
                None => r is Err,
            },
    {
        check_range(mem, status_addr, 1)?;
        mem.write_u8(status_addr, VIRTIO_BLK_S_OK);
        self.fail_request(mem, head, 1)
    }
}

/// One step of processing queue `qi` of the input device: the state and memory
/// after it and whether an entry was consumed; `None` on a fault. The event queue
/// (0) has no events to deliver; entries of the status queue (1) are returned
/// empty.
pub open spec fn input_step_spec(s: VirtioInputState, m: Seq<u8>, qi: int) -> Option<(VirtioInputState, Seq<u8>, bool)> {
    let q = s.queues[qi];
    if !queue_live(q) {
        Some((s, m, false))
    } else if !fits(m, q.driver_addr as int, 4) {
        None
    } else if q.last_avail_idx == mem_u16(m, q.driver_addr + 2) {
        Some((s, m, false))
    } else if !fits(m, avail_slot_addr(q, q.last_avail_idx), 2) {
        None
    } else if qi != 1 {
        Some((s, m, false))
    } else {
        let head = mem_u16(m, avail_slot_addr(q, q.last_avail_idx));
        match used_push(q, m, head, 0) {
            None => None,
            Some(m1) => Some((
                VirtioInputState {
                    queues: with_queue(
                        s.queues,
                        1,
                        VirtioQueueState { last_avail_idx: ((q.last_avail_idx + 1) % 0x10000) as u16, ..q },
                    ),
                    isr_status: 1,
                    ..s
                },
                m1,
                true,
            )),
        }
    }
}

/// The input function `s` after its queue `qi` is served entry after entry until
/// it has caught up, for at most `fuel` entries: the state, the memory and how many
/// entries were consumed; `None` if an access falls outside guest memory.
pub open spec fn input_drain(s: VirtioInputState, m: Seq<u8>, qi: int, fuel: nat) -> Option<(VirtioInputState, Seq<u8>, nat)>
    decreases fuel,
{
    if fuel == 0 {
        Some((s, m, 0))
    } else {
        match input_step_spec(s, m, qi) {
            None => None,
            Some((s2, m2, progressed)) => if !progressed {
                Some((s2, m2, 0))
            } else {
                match input_drain(s2, m2, qi, (fuel - 1) as nat) {
                    None => None,
                    Some((s3, m3, k)) => Some((s3, m3, k + 1)),
                }
            },
        }
    }
}

/// How many entries one notification serves at most: the whole space of ring indices.
pub const INPUT_DRAIN_LIMIT: u32 = 0x1_0000;

/// The drain of `fuel` steps after `done` steps were taken from the start.
pub open spec fn drain_after(r: Option<(VirtioInputState, Seq<u8>, nat)>, done: nat) -> Option<(VirtioInputState, Seq<u8>, nat)> {
    match r {
        None => None,
        Some((s, m, k)) => Some((s, m, k + done)),
    }
}

impl VirtioInputState {
    /// Serves queue `queue_idx` until it has caught up with the driver's available
    /// index (at most `INPUT_DRAIN_LIMIT` entries), one `serve_one` step after
    /// another, and returns how many entries it took.
    pub fn process_available(&mut self, mem: &mut GuestMemory, queue_idx: usize) -> (r: Result<u32, GuestFault>)
        requires
            queue_idx < 2,
            old(self).queues[0].size > 0,
            old(self).queues[1].size > 0,
        ensures
            final(self).queues[0].size == old(self).queues[0].size,
            final(self).queues[1].size == old(self).queues[1].size,
            match input_drain(*old(self), old(mem)@, queue_idx as int, INPUT_DRAIN_LIMIT as nat) {
                Some((s, m, k)) => r == Ok::<u32, GuestFault>(k as u32) && *final(self) == s && final(mem)@ == m,
                None => r is Err,
            },
    {
        let ghost s0 = *self;
        let ghost m0 = mem@;
        let mut count: u32 = 0;
        while count < INPUT_DRAIN_LIMIT
            invariant
                queue_idx < 2,
                s0 == *old(self),
                m0 == old(mem)@,
                self.queues[0].size == s0.queues[0].size,
                self.queues[1].size == s0.queues[1].size,
                s0.queues[0].size > 0,
                s0.queues[1].size > 0,
                count <= INPUT_DRAIN_LIMIT,
                input_drain(s0, m0, queue_idx as int, INPUT_DRAIN_LIMIT as nat) == drain_after(
                    input_drain(*self, mem@, queue_idx as int, (INPUT_DRAIN_LIMIT - count) as nat),
                    count as nat,
                ),
            decreases INPUT_DRAIN_LIMIT - count,
        {
            let progressed = match self.serve_one(mem, queue_idx) {
                Ok(p) => p,
                Err(e) => return Err(e),
            };
            if !progressed {
                return Ok(count);
            }
            count += 1;
        }
        Ok(count)
    }

    /// Serves at most one available entry of queue `queue_idx`; returns whether it
    /// consumed one.
    pub fn serve_one(&mut self, mem: &mut GuestMemory, queue_idx: usize) -> (r: Result<bool, GuestFault>)
        requires
            queue_idx < 2,
            old(self).queues[0].size > 0,
            old(self).queues[1].size > 0,
        ensures
            final(self).queues[0].size == old(self).queues[0].size,
            final(self).queues[1].size == old(self).queues[1].size,
            match input_step_spec(*old(self), old(mem)@, queue_idx as int) {
                Some((s, m, progressed)) => r == Ok::<bool, GuestFault>(progressed) && *final(self) == s && final(mem)@ == m,
                None => r is Err,
            },
    {
        let _ = mem.size_bytes();
        let q = self.queues[queue_idx];
        if q.enable == 0 || q.desc_addr == 0 || q.driver_addr == 0 || q.device_addr == 0 {
            return Ok(false);
        }
        check_range(mem, q.driver_addr, 4)?;
        let avail_idx = mem.read_u16(q.driver_addr + 2);
        if q.last_avail_idx == avail_idx {
            return Ok(false);
        }
        let slot = (q.last_avail_idx % q.size) as u64;
        let slot_addr = add_addr(q.driver_addr, 4 + slot * 2, 2)?;
        check_range(mem, slot_addr, 2)?;
        let head = mem.read_u16(slot_addr);
        if queue_idx != 1 {
            return Ok(false);
        }
        self.push_used_for_queue(mem, queue_idx, head, 0)?;
        let mut q1 = self.queues[1];
        q1.last_avail_idx = q1.last_avail_idx.wrapping_add(1);
        let q0 = self.queues[0];
        self.queues = [q0, q1];
        Ok(true)
    }

    pub fn push_used_for_queue(&mut self, mem: &mut GuestMemory, queue_idx: usize, head: u16, used_len: u32) -> (r: Result<(), GuestFault>)
        requires
            queue_idx < 2,
            old(self).queues[queue_idx as int].size > 0,
        ensures
            final(self).queues[0].size == old(self).queues[0].size,
            final(self).queues[1].size == old(self).queues[1].size,
            match used_push(old(self).queues[queue_idx as int], old(mem)@, head, used_len) {
                Some(m) => r is Ok && final(mem)@ == m && *final(self) == (VirtioInputState { isr_status: 1, ..*old(self) }),
                None => r is Err,
            },
    {
        let q = self.queues[queue_idx];
        push_used(&q, mem, head, used_len)?;
        self.isr_status = 1;
        Ok(())
    }
}

// ---------------------------------------------------------------------------
// Laws of the common configuration
// ---------------------------------------------------------------------------

/// A queue address set through its two 32-bit halves (low at 0x20, high at 0x24)
/// is the address the device uses, and each half reads back as written.
pub proof fn law_queue_address_halves(s: VirtioBlkState, lo: u64, hi: u64)
    requires
        lo < 0x1_0000_0000,
        hi < 0x1_0000_0000,
    ensures
        ({
            let s2 = blk_after_common_write(blk_after_common_write(s, 0x20, lo), 0x24, hi);
            &&& s2.queue.desc_addr == hi * 0x1_0000_0000 + lo
            &&& common_cfg_value(s2.common, s2.queue, NUM_QUEUES_BLK, 0x20) == lo
            &&& common_cfg_value(s2.common, s2.queue, NUM_QUEUES_BLK, 0x24) == hi
        }),
{
    let q = s.queue;
    let a1 = with_low32(q.desc_addr, lo);
    assert(a1 == high32(q.desc_addr) * 0x1_0000_0000 + lo) by (nonlinear_arith)
        requires
            a1 == (high32(q.desc_addr) * 0x1_0000_0000 + low32(lo)) as u64,
            low32(lo) == lo % 0x1_0000_0000,
            lo < 0x1_0000_0000,
            high32(q.desc_addr) == q.desc_addr / 0x1_0000_0000,
    ;
    assert(low32(a1) == lo && high32(a1) == high32(q.desc_addr)) by (nonlinear_arith)
        requires
            a1 == high32(q.desc_addr) * 0x1_0000_0000 + lo,
            lo < 0x1_0000_0000,
            low32(a1) == a1 % 0x1_0000_0000,
            high32(a1) == a1 / 0x1_0000_0000,
    ;
    let a2 = with_high32(a1, hi);
    assert(a2 == hi * 0x1_0000_0000 + lo) by (nonlinear_arith)
        requires
            a2 == (low32(hi) * 0x1_0000_0000 + low32(a1)) as u64,
            low32(hi) == hi % 0x1_0000_0000,
            hi < 0x1_0000_0000,
            low32(a1) == lo,
            lo < 0x1_0000_0000,
    ;
    assert(low32(a2) == lo && high32(a2) == hi) by (nonlinear_arith)
        requires
            a2 == hi * 0x1_0000_0000 + lo,
            lo < 0x1_0000_0000,
            low32(a2) == a2 % 0x1_0000_0000,
            high32(a2) == a2 / 0x1_0000_0000,
    ;
}

/// Writing zero to the device status resets the device: status zero, the default
/// queue, no interrupt pending, and a new configuration generation.
pub proof fn law_status_zero_resets(s: VirtioBlkState)
    ensures
        blk_after_common_write(s, 0x14, 0) == blk_after_reset(s),
        blk_after_reset(s).common.device_status == 0,
        blk_after_reset(s).queue == default_queue(),
        blk_after_reset(s).common.config_generation != s.common.config_generation,
{
}

/// A driver that asked for features cannot set FEATURES_OK: the status it writes
/// reads back with FEATURES_OK clear and FAILED set.
pub proof fn law_features_ok_refused(s: VirtioBlkState, new_status: u8)
    requires
        new_status != 0,
        new_status & VIRTIO_STATUS_FEATURES_OK != 0,
        !features_accepted(s.common),
    ensures
        blk_after_common_write(s, 0x14, new_status as u64).common.device_status & VIRTIO_STATUS_FEATURES_OK == 0,
        blk_after_common_write(s, 0x14, new_status as u64).common.device_status & VIRTIO_STATUS_FAILED != 0,
{
    assert(((new_status & !8u8) | 128u8) & 8u8 == 0) by (bit_vector);
    assert(((new_status & !8u8) | 128u8) & 128u8 != 0) by (bit_vector);
    assert((new_status as u64) as u8 == new_status);
}

/// A register value written through a buffer of at least eight bytes is the
/// value read back from it.
pub proof fn law_value_roundtrip(data: Seq<u8>, value: u64)
    requires
        data.len() >= 8,
    ensures
        buf_value(stored_value(data, value)) == value,
{
    vstd::bytes::lemma_auto_spec_u64_to_from_le_bytes();
    let st = stored_value(data, value);
    assert(Seq::new(8, |i: int| if i < st.len() { st[i] } else { 0u8 }) =~= spec_u64_to_le_bytes(value));
}


/// The direction of a block request follows the type in its header: a request of
/// type 0 (`VIRTIO_BLK_T_IN`) reads the disk into the guest, and only such a
/// request does; one of type 1 (`VIRTIO_BLK_T_OUT`) whose data buffer lies in guest
/// memory writes the guest's buffer to the disk, and only such a request does.
/// Either way the step moves the bytes of the chain's second (data) descriptor,
/// reports to its third (status) descriptor, at the byte offset of the header's
/// sector, and leaves the device state and guest memory as they were.
pub proof fn law_blk_request_direction(
    s: VirtioBlkState,
    m: Seq<u8>,
    head: u16,
    d0: VirtqDesc,
    d1: VirtqDesc,
    d2: VirtqDesc,
)
    requires
        fits(m, d0.addr as int, 16),
    ensures
        ({
            let t = mem_u32(m, d0.addr as int);
            let off = sector_offset(mem_u64(m, d0.addr + 8));
            match blk_request_spec(s, m, head, d0, d1, d2) {
                Some((s2, m2, BlkStep::Read { head: h, sector_off, len, data_addr, status_addr })) => {
                    &&& t == 0
                    &&& s2 == s && m2 == m
                    &&& h == head && sector_off == off && len == d1.len && data_addr == d1.addr && status_addr == d2.addr
                },
                Some((s2, m2, BlkStep::Write { head: h, sector_off, len, data_addr, status_addr })) => {
                    &&& t == 1
                    &&& d1.addr + d1.len <= m.len()
                    &&& s2 == s && m2 == m
                    &&& h == head && sector_off == off && len == d1.len && data_addr == d1.addr && status_addr == d2.addr
                },
                _ => t != 0 && (t == 1 ==> !fits(m, d1.addr as int, d1.len as int)),
            }
        }),
{
}

/// Whether bit `b` of a little-endian bitmap is set: bit `b % 8` of byte `b / 8`.
pub open spec fn bitmap_has(p: Seq<u8>, b: int) -> bool {
    0 <= b && b / 8 < p.len() && (p[b / 8] >> ((b % 8) as u8)) & 1u8 == 1u8
}

proof fn lemma_byte_bits(x: u8)
    ensures
        x == 0x00u8 ==> forall|k: u8| k < 8 ==> (#[trigger] (x >> k) & 1u8) != 1u8,
        x == 0x01u8 ==> forall|k: u8| k < 8 ==> ((#[trigger] (x >> k) & 1u8) == 1u8 <==> k == 0),
        x == 0x03u8 ==> forall|k: u8| k < 8 ==> ((#[trigger] (x >> k) & 1u8) == 1u8 <==> k < 2),
        x == 0x07u8 ==> forall|k: u8| k < 8 ==> ((#[trigger] (x >> k) & 1u8) == 1u8 <==> k < 3),
{
    assert(forall|k: u8| k < 8 ==> (#[trigger] (0x00u8 >> k) & 1u8) != 1u8) by (bit_vector);
    assert(forall|k: u8| k < 8 ==> ((#[trigger] (0x01u8 >> k) & 1u8) == 1u8 <==> k == 0)) by (bit_vector);
    assert(forall|k: u8| k < 8 ==> ((#[trigger] (0x03u8 >> k) & 1u8) == 1u8 <==> k < 2)) by (bit_vector);
    assert(forall|k: u8| k < 8 ==> ((#[trigger] (0x07u8 >> k) & 1u8) == 1u8 <==> k < 3)) by (bit_vector);
}

/// The event bitmaps that the input device reports (configuration select 0x11,
/// `VIRTIO_INPUT_CFG_EV_BITS`) are those of a three-button wheel mouse: for event
/// type 0 it lists the types SYN, KEY and REL (0, 1, 2); for type KEY (1) the
/// buttons LEFT, RIGHT and MIDDLE (0x110, 0x111, 0x112); for type REL (2) the axes
/// X, Y and WHEEL (0, 1, 8); and nothing else.
pub proof fn law_ev_bits_mouse(b: int)
    ensures
        bitmap_has(input_config_payload(0x11, 0), b) <==> (b == 0 || b == 1 || b == 2),
        bitmap_has(input_config_payload(0x11, 1), b) <==> (b == 0x110 || b == 0x111 || b == 0x112),
        bitmap_has(input_config_payload(0x11, 2), b) <==> (b == 0 || b == 1 || b == 8),
{
    lemma_byte_bits(0x00u8);
    lemma_byte_bits(0x01u8);
    lemma_byte_bits(0x03u8);
    lemma_byte_bits(0x07u8);
    if 0 <= b {
        let k = (b % 8) as u8;
        assert(k < 8);
        let p0 = input_config_payload(0x11, 0);
        let p1 = input_config_payload(0x11, 1);
        let p2 = input_config_payload(0x11, 2);
        assert(p0 =~= seq![0x07u8]);
        assert(p2 =~= seq![0x03u8, 0x01]);
        assert(p1.len() == 35);
        if b / 8 < 35 {
            if b / 8 == 34 {
                assert(p1[b / 8] == 0x07u8);
            } else {
                assert(p1[b / 8] == 0x00u8);
            }
        }
        if b / 8 == 0 {
            assert(p0[b / 8] == 0x07u8);
            assert(p2[b / 8] == 0x03u8);
        }
        if b / 8 == 1 {
            assert(p2[b / 8] == 0x01u8);
        }
    }
}

} // verus!
