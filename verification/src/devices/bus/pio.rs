use vstd::prelude::*;

use crate::devices::legacy::dma8237::{Dma8237, dma_port, dma_after_out, dma_in_value};
use crate::devices::legacy::pic8259::{Pic8259, pic_port, pic_after_out, pic_in_value};
use crate::devices::rtc::cmos::{CmosRtc, cmos_port, cmos_after_out, cmos_in_value};
use crate::devices::serial::uart16550::{Uart16550, UartView, uart_port, uart_after_out, uart_in_value};

verus! {

/// A device on the port I/O bus.
pub trait PioDevice {
    fn handles_port(&self, port: u16) -> bool;

    fn io_in(&mut self, port: u16, data: &mut [u8]);

    fn io_out(&mut self, port: u16, data: &[u8]);
}

/// `len` copies of the byte `v`.
pub open spec fn filled(len: nat, v: u8) -> Seq<u8> {
    Seq::new(len, |i: int| v)
}

/// Sets every byte of `data` to `v`.
pub fn fill(data: &mut [u8], v: u8)
    ensures
        final(data)@ == filled(old(data)@.len(), v),
{
    let n = data.len();
    let mut i: usize = 0;
    while i < n
        invariant
            n == data@.len(),
            0 <= i <= n,
            forall|j: int| 0 <= j < i ==> #[trigger] data@[j] == v,
        decreases n - i,
    {
        data[i] = v;
        i += 1;
    }
    assert(data@ =~= filled(old(data)@.len(), v));
}

/// The legacy devices that can sit on the port I/O bus.
#[derive(Debug)]
pub enum PioSlot {
    Uart(Uart16550),
    Pic(Pic8259),
    Cmos(CmosRtc),
    Dma(Dma8237),
}

pub enum PioSlotView {
    Uart(UartView),
    Pic(Pic8259),
    Cmos(CmosRtc),
    Dma(Dma8237),
}

impl View for PioSlot {
    type V = PioSlotView;

    open spec fn view(&self) -> PioSlotView {
        match self {
            PioSlot::Uart(u) => PioSlotView::Uart(u@),
            PioSlot::Pic(p) => PioSlotView::Pic(*p),
            PioSlot::Cmos(c) => PioSlotView::Cmos(*c),
            PioSlot::Dma(m) => PioSlotView::Dma(*m),
        }
    }
}

pub open spec fn slot_handles(d: PioSlotView, port: u16) -> bool {
    match d {
        PioSlotView::Uart(u) => uart_port(u, port),
        PioSlotView::Pic(_) => pic_port(port),
        PioSlotView::Cmos(_) => cmos_port(port),
        PioSlotView::Dma(_) => dma_port(port),
    }
}

/// The device after a write of `data` to `port` (a port it decodes).
pub open spec fn slot_after_out(d: PioSlotView, port: u16, data: Seq<u8>) -> PioSlotView {
    match d {
        PioSlotView::Uart(u) => PioSlotView::Uart(uart_after_out(u, port, data)),
        PioSlotView::Pic(p) => PioSlotView::Pic(pic_after_out(p, port, data)),
        PioSlotView::Cmos(c) => PioSlotView::Cmos(cmos_after_out(c, port, data)),
        PioSlotView::Dma(m) => PioSlotView::Dma(dma_after_out(m, port, data)),
    }
}

/// The byte that every byte of a read of `port` gives, at wall-clock time `secs`
/// (only the real-time clock depends on it).
pub open spec fn slot_in_value(d: PioSlotView, port: u16, secs: u64) -> u8 {
    match d {
        PioSlotView::Uart(u) => uart_in_value(u, port),
        PioSlotView::Pic(p) => pic_in_value(p, port),
        PioSlotView::Cmos(c) => cmos_in_value(c, port, secs),
        PioSlotView::Dma(m) => dma_in_value(m, port),
    }
}

/// Whether `s[i]` is the first device of `s` that decodes `port`.
pub open spec fn first_handler(s: Seq<PioSlotView>, port: u16, i: int) -> bool {
    &&& 0 <= i < s.len()
    &&& slot_handles(s[i], port)
    &&& forall|j: int| 0 <= j < i ==> !slot_handles(#[trigger] s[j], port)
}

pub open spec fn slot_wf(d: PioSlotView) -> bool {
    match d {
        PioSlotView::Uart(u) => u.base_port <= 0xfff8,
        _ => true,
    }
}

/// The serial output waiting in the devices of `s`, in device order.
pub open spec fn console_of(s: Seq<PioSlotView>) -> Seq<u8>
    decreases s.len(),
{
    if s.len() == 0 {
        Seq::empty()
    } else {
        console_of(s.drop_last()) + match s.last() {
            PioSlotView::Uart(u) => u.tx,
            _ => Seq::empty(),
        }
    }
}

/// A device with its serial output taken.
pub open spec fn drained(d: PioSlotView) -> PioSlotView {
    match d {
        PioSlotView::Uart(u) => PioSlotView::Uart(UartView { tx: Seq::empty(), ..u }),
        _ => d,
    }
}

/// The port I/O bus: an access goes to the first registered device that decodes its port.
pub struct PioBus {
    devices: Vec<PioSlot>,
}

impl View for PioBus {
    type V = Seq<PioSlotView>;

    closed spec fn view(&self) -> Seq<PioSlotView> {
        self.devices@.map_values(|d: PioSlot| d@)
    }
}

impl PioBus {
    pub open spec fn wf(&self) -> bool {
        forall|i: int| 0 <= i < self@.len() ==> slot_wf(#[trigger] self@[i])
    }

    pub fn new() -> (r: Self)
        ensures
            r@ == Seq::<PioSlotView>::empty(),
            r.wf(),
    {
        let r = PioBus { devices: Vec::new() };
        assert(r@ =~= Seq::<PioSlotView>::empty());
        r
    }

    pub fn register(&mut self, dev: PioSlot)
        requires
            old(self).wf(),
            slot_wf(dev@),
        ensures
            final(self)@ == old(self)@.push(dev@),
            final(self).wf(),
    {
        self.devices.push(dev);
        assert(self@ =~= old(self)@.push(dev@));
    }

    fn find(&self, port: u16) -> (r: Option<usize>)
        requires
            self.wf(),
        ensures
            r matches Some(i) ==> first_handler(self@, port, i as int),
            r is None ==> forall|j: int| 0 <= j < self@.len() ==> !slot_handles(#[trigger] self@[j], port),
    {
        let n = self.devices.len();
        let mut i: usize = 0;
        while i < n
            invariant
                n == self@.len(),
                0 <= i <= n,
                self.wf(),
                forall|j: int| 0 <= j < i ==> !slot_handles(#[trigger] self@[j], port),
            decreases n - i,
        {
            proof { assert(slot_wf(self@[i as int])); }
            let h = match &self.devices[i] {
                PioSlot::Uart(u) => u.handles_port(port),
                PioSlot::Pic(p) => p.handles_port(port),
                PioSlot::Cmos(c) => c.handles_port(port),
                PioSlot::Dma(m) => m.handles_port(port),
            };
            if h {
                return Some(i);
            }
            i += 1;
        }
        None
    }

    /// A port write. Returns whether a device took it.
    pub fn io_out(&mut self, port: u16, data: &[u8]) -> (r: bool)
        requires
            old(self).wf(),
        ensures
            final(self).wf(),
            r == exists|i: int| first_handler(old(self)@, port, i),
            forall|i: int| first_handler(old(self)@, port, i) ==>
                final(self)@ == old(self)@.update(i, slot_after_out(old(self)@[i], port, data@)),
            !r ==> final(self)@ == old(self)@,
    {
        match self.find(port) {
            None => false,
            Some(i) => {
                let mut d = self.devices.remove(i);
                match &mut d {
                    PioSlot::Uart(u) => u.io_out(port, data),
                    PioSlot::Pic(p) => p.io_out(port, data),
                    PioSlot::Cmos(c) => c.io_out(port, data),
                    PioSlot::Dma(m) => m.io_out(port, data),
                }
                self.devices.insert(i, d);
                proof {
                    assert(self.devices@ =~= old(self).devices@.update(i as int, d));
                    assert(self@ =~= old(self)@.update(i as int, slot_after_out(old(self)@[i as int], port, data@)));
                    assert(slot_wf(old(self)@[i as int]));
                    if let PioSlotView::Uart(u) = old(self)@[i as int] {
                        crate::devices::serial::uart16550::lemma_write_all_keeps_base(u, (port - u.base_port) as u16, data@);
                    }
                    assert(slot_wf(self@[i as int]));
                    assert forall|k: int| first_handler(old(self)@, port, k) implies k == i by {
                        if k < i {
                            assert(!slot_handles(old(self)@[k], port));
                        } else if k > i {
                            assert(!slot_handles(old(self)@[i as int], port));
                        }
                    }
                }
                true
            },
        }
    }

    /// A port read. Returns whether a device took it; the device fills `data`.
    pub fn io_in(&mut self, port: u16, data: &mut [u8]) -> (r: bool)
        requires
            old(self).wf(),
        ensures
            final(self).wf(),
            final(self)@ == old(self)@,
            r == exists|i: int| first_handler(old(self)@, port, i),
            forall|i: int| first_handler(old(self)@, port, i) ==> exists|secs: u64|
                final(data)@ == filled(old(data)@.len(), #[trigger] slot_in_value(old(self)@[i], port, secs)),
            !r ==> final(data)@ == old(data)@,
    {
        match self.find(port) {
            None => false,
            Some(i) => {
                let mut d = self.devices.remove(i);
                let ghost dv = d@;
                assert(dv == old(self)@[i as int]);
                match &mut d {
                    PioSlot::Uart(u) => u.io_in(port, data),
                    PioSlot::Pic(p) => p.io_in(port, data),
                    PioSlot::Cmos(c) => c.io_in(port, data),
                    PioSlot::Dma(m) => m.io_in(port, data),
                }
                self.devices.insert(i, d);
                proof {
                    let len = old(data)@.len();
                    match dv {
                        PioSlotView::Cmos(c) => {
                            let secs = choose|secs: u64| data@ == filled(len, #[trigger] crate::devices::rtc::cmos::cmos_in_value(c, port, secs));
                            assert(data@ == filled(len, slot_in_value(dv, port, secs)));
                        },
                        _ => {
                            assert(data@ == filled(len, slot_in_value(dv, port, 0)));
                        },
                    }
                    assert(self.devices@ =~= old(self).devices@.update(i as int, d));
                    assert(self@ =~= old(self)@);
                    assert forall|k: int| first_handler(old(self)@, port, k) implies k == i by {
                        if k < i {
                            assert(!slot_handles(old(self)@[k], port));
                        } else if k > i {
                            assert(!slot_handles(old(self)@[i as int], port));
                        }
                    }
                }
                true
            },
        }
    }

    /// Takes the bytes that the serial ports transmitted since the last call.
    pub fn take_console_output(&mut self) -> (r: Vec<u8>)
        requires
            old(self).wf(),
        ensures
            final(self).wf(),
            r@ == console_of(old(self)@),
            final(self)@ == old(self)@.map_values(|d: PioSlotView| drained(d)),
    {
        let mut out: Vec<u8> = Vec::new();
        let n = self.devices.len();
        let mut i: usize = 0;
        while i < n
            invariant
                n == self@.len(),
                n == old(self)@.len(),
                0 <= i <= n,
                self.wf(),
                out@ == console_of(old(self)@.subrange(0, i as int)),
                forall|k: int| 0 <= k < i ==> #[trigger] self@[k] == drained(old(self)@[k]),
                forall|k: int| i <= k < n ==> #[trigger] self@[k] == old(self)@[k],
            decreases n - i,
        {
            let ghost pre = self.devices@;
            let ghost prev_view = self@;
            assert(pre[i as int]@ == self@[i as int]);
            assert(self@[i as int] == old(self)@[i as int]);
            assert(slot_wf(self@[i as int]));
            let mut d = self.devices.remove(i);
            let ghost dv = d@;
            assert(dv == old(self)@[i as int]);
            if let PioSlot::Uart(u) = &mut d {
                let mut t = u.take_output();
                out.append(&mut t);
            }
            self.devices.insert(i, d);
            proof {
                assert(d@ == drained(dv));
                assert(self.devices@ =~= pre.update(i as int, d));
                assert(self@ =~= prev_view.update(i as int, drained(dv)));
                let s = old(self)@.subrange(0, i + 1);
                assert(s.drop_last() =~= old(self)@.subrange(0, i as int));
                assert(self@[i as int] == drained(old(self)@[i as int]));
                assert(slot_wf(drained(dv))) by { assert(slot_wf(dv)); }
            }
            i += 1;
        }
        assert(old(self)@.subrange(0, n as int) =~= old(self)@);
        assert(self@ =~= old(self)@.map_values(|d: PioSlotView| drained(d)));
        out
    }
}

} // verus!
