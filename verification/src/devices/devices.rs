use vstd::prelude::*;

use crate::devices::bus::pio::{PioBus, PioSlot, PioSlotView, first_handler, slot_after_out, slot_in_value};
use crate::devices::legacy::dma8237::Dma8237;
use crate::devices::legacy::pic8259::Pic8259;
use crate::devices::pci::bus::{PciBus, MmioWriteOutcome};
use crate::devices::pci::config_io::{PciConfigIo, config_io_port};
use crate::devices::rtc::cmos::CmosRtc;
use crate::devices::serial::uart16550::{Uart16550, UartView};
use crate::guest::memory::GuestMemory;

verus! {

/// The guest's platform: legacy port I/O devices, the PCI configuration
/// mechanism and the PCI bus behind it.
pub struct Devices {
    pub pio: PioBus,
    pub pci_cfg: PciConfigIo,
    pub pci: PciBus,
}

/// The legacy devices of the default platform, in the order they are registered:
/// COM1, the interrupt controllers, the real-time clock, the DMA controllers.
pub open spec fn default_platform_slots() -> Seq<PioSlotView> {
    seq![
        PioSlotView::Uart(UartView { base_port: 0x3F8, ier: 0, lcr: 0, mcr: 0, fcr: 0, scr: 0, dll: 1, dlm: 0, tx: Seq::empty() }),
        PioSlotView::Pic(Pic8259 { pic1_imr: 0, pic2_imr: 0 }),
        PioSlotView::Cmos(CmosRtc { index: 0 }),
        PioSlotView::Dma(Dma8237 {
            dma1: vstd::array::spec_array_fill_for_copy_type::<u8, 16>(0u8),
            dma2: vstd::array::spec_array_fill_for_copy_type::<u8, 32>(0u8),
        }),
    ]
}

impl Devices {
    pub open spec fn wf(&self) -> bool {
        self.pio.wf() && self.pci.wf()
    }

    /// The platform with an empty port bus and a PCI bus whose block device has
    /// `capacity_sectors` sectors.
    pub fn new(capacity_sectors: u64) -> (r: Self)
        ensures
            r.wf(),
            r.pio@ == Seq::<PioSlotView>::empty(),
            r.pci_cfg.addr == 0,
            r.pci@ == PciBus::new_spec(capacity_sectors),
    {
        Devices { pio: PioBus::new(), pci_cfg: PciConfigIo::new(), pci: PciBus::new(capacity_sectors) }
    }

    pub fn register_default_platform(&mut self)
        requires
            old(self).wf(),
        ensures
            final(self).wf(),
            final(self).pio@ == old(self).pio@ + default_platform_slots(),
            final(self).pci@ == old(self).pci@,
            final(self).pci_cfg == old(self).pci_cfg,
    {
        self.pio.register(PioSlot::Uart(Uart16550::new(0x3F8)));
        self.pio.register(PioSlot::Pic(Pic8259::new()));
        self.pio.register(PioSlot::Cmos(CmosRtc::new()));
        let dma = Dma8237::new();
        assert(dma.dma1 =~= vstd::array::spec_array_fill_for_copy_type::<u8, 16>(0u8));
        assert(dma.dma2 =~= vstd::array::spec_array_fill_for_copy_type::<u8, 32>(0u8));
        self.pio.register(PioSlot::Dma(dma));
        assert(self.pio@ =~= old(self).pio@ + default_platform_slots());
    }

    /// A port write of `data` to `port` that took the platform from `d0` to `d1`
    /// and returned `r`: the first legacy device that claims the port takes it;
    /// otherwise the PCI configuration ports do, if the port is theirs.
    pub open spec fn io_out_effect(d0: Devices, d1: Devices, port: u16, data: Seq<u8>, r: bool) -> bool {
        &&& (exists|i: int| first_handler(d0.pio@, port, i)) ==> r
            && d1.pci@ == d0.pci@ && d1.pci_cfg == d0.pci_cfg
            && forall|i: int| first_handler(d0.pio@, port, i) ==>
                d1.pio@ == d0.pio@.update(i, slot_after_out(d0.pio@[i], port, data))
        &&& !(exists|i: int| first_handler(d0.pio@, port, i)) ==> d1.pio@ == d0.pio@
            && r == config_io_port(port)
            && (r ==> PciConfigIo::io_out_effect(d0.pci_cfg, d1.pci_cfg, d0.pci@, d1.pci@, port, data))
            && (!r ==> d1.pci@ == d0.pci@ && d1.pci_cfg == d0.pci_cfg)
    }

    /// A port read from `port` into a buffer that went from `b0` to `b1`, taking the
    /// platform from `d0` to `d1` and returning `r`.
    pub open spec fn io_in_effect(d0: Devices, d1: Devices, port: u16, b0: Seq<u8>, b1: Seq<u8>, r: bool) -> bool {
        &&& d1.pio@ == d0.pio@
        &&& d1.pci_cfg == d0.pci_cfg
        &&& (exists|i: int| first_handler(d0.pio@, port, i)) ==> r && d1.pci@ == d0.pci@
            && forall|i: int| first_handler(d0.pio@, port, i) ==> exists|secs: u64|
                b1 == crate::devices::bus::pio::filled(b0.len(), #[trigger] slot_in_value(d0.pio@[i], port, secs))
        &&& !(exists|i: int| first_handler(d0.pio@, port, i)) ==> r == config_io_port(port)
            && (r ==> PciConfigIo::io_in_effect(d0.pci_cfg, d0.pci@, d1.pci@, port, b0, b1))
            && (!r ==> d1.pci@ == d0.pci@ && b1 == b0)
    }

    /// A port write: the legacy devices first, then the PCI configuration ports.
    pub fn io_out(&mut self, port: u16, data: &[u8]) -> (r: bool)
        requires
            old(self).wf(),
        ensures
            final(self).wf(),
            Self::io_out_effect(*old(self), *final(self), port, data@, r),
    {
        if self.pio.io_out(port, data) {
            return true;
        }
        if self.pci_cfg.handles_port(port) {
            self.pci_cfg.io_out(&mut self.pci, port, data);
            return true;
        }
        false
    }

    /// A port read: the legacy devices first, then the PCI configuration ports.
    pub fn io_in(&mut self, port: u16, data: &mut [u8]) -> (r: bool)
        requires
            old(self).wf(),
        ensures
            final(self).wf(),
            Self::io_in_effect(*old(self), *final(self), port, old(data)@, final(data)@, r),
    {
        if self.pio.io_in(port, data) {
            return true;
        }
        if self.pci_cfg.handles_port(port) {
            self.pci_cfg.io_in(&mut self.pci, port, data);
            return true;
        }
        false
    }

    pub fn mmio_read(&mut self, mem: &mut GuestMemory, addr: u64, data: &mut [u8]) -> (r: bool)
        requires
            old(self).wf(),
        ensures
            final(self).wf(),
            final(self).pio@ == old(self).pio@,
            final(self).pci_cfg == old(self).pci_cfg,
            PciBus::mmio_read_effect(old(self).pci@, final(self).pci@, addr, old(data)@, final(data)@, r),
            *final(mem) == *old(mem),
    {
        self.pci.mmio_read(mem, addr, data)
    }

    pub fn mmio_write(&mut self, mem: &mut GuestMemory, addr: u64, data: &[u8]) -> (r: MmioWriteOutcome)
        requires
            old(self).wf(),
        ensures
            final(self).wf(),
            final(self).pio@ == old(self).pio@,
            final(self).pci_cfg == old(self).pci_cfg,
            PciBus::mmio_write_effect(old(self).pci@, final(self).pci@, addr, data@, r),
            *final(mem) == *old(mem),
    {
        self.pci.mmio_write(mem, addr, data)
    }

    /// Takes the serial output that the guest produced since the last call.
    pub fn take_console_output(&mut self) -> (r: Vec<u8>)
        requires
            old(self).wf(),
        ensures
            final(self).wf(),
            r@ == crate::devices::bus::pio::console_of(old(self).pio@),
            final(self).pci@ == old(self).pci@,
            final(self).pci_cfg == old(self).pci_cfg,
    {
        self.pio.take_console_output()
    }
}

} // verus!
