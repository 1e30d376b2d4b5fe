use vstd::prelude::*;

use crate::devices::bus::pio::PioDevice;

verus! {

/// A 16550 UART with no receive path. Bytes written to the transmit holding
/// register are queued in `tx` for the host's console.
#[derive(Debug)]
pub struct Uart16550 {
    pub base_port: u16,
    pub ier: u8,
    pub lcr: u8,
    pub mcr: u8,
    pub fcr: u8,
    pub scr: u8,
    pub dll: u8,
    pub dlm: u8,
    pub tx: Vec<u8>,
}

pub struct UartView {
    pub base_port: u16,
    pub ier: u8,
    pub lcr: u8,
    pub mcr: u8,
    pub fcr: u8,
    pub scr: u8,
    pub dll: u8,
    pub dlm: u8,
    pub tx: Seq<u8>,
}

impl View for Uart16550 {
    type V = UartView;

    open spec fn view(&self) -> UartView {
        UartView {
            base_port: self.base_port,
            ier: self.ier,
            lcr: self.lcr,
            mcr: self.mcr,
            fcr: self.fcr,
            scr: self.scr,
            dll: self.dll,
            dlm: self.dlm,
            tx: self.tx@,
        }
    }
}

/// Bit 7 of the line control register switches registers 0 and 1 to the divisor latch.
pub open spec fn dlab(u: UartView) -> bool {
    u.lcr & 0x80 != 0
}

pub open spec fn uart_port(u: UartView, port: u16) -> bool {
    u.base_port <= port <= u.base_port + 7
}

/// The UART after `val` is written to register `off`.
pub open spec fn uart_write_reg(u: UartView, off: u16, val: u8) -> UartView {
    if off == 0 {
        if dlab(u) { UartView { dll: val, ..u } } else { UartView { tx: u.tx.push(val), ..u } }
    } else if off == 1 {
        if dlab(u) { UartView { dlm: val, ..u } } else { UartView { ier: val, ..u } }
    } else if off == 2 {
        UartView { fcr: val, ..u }
    } else if off == 3 {
        UartView { lcr: val, ..u }
    } else if off == 4 {
        UartView { mcr: val, ..u }
    } else if off == 7 {
        UartView { scr: val, ..u }
    } else {
        u
    }
}

/// The UART after the bytes `data` are written, one after the other, to register `off`.
pub open spec fn uart_write_all(u: UartView, off: u16, data: Seq<u8>) -> UartView
    decreases data.len(),
{
    if data.len() == 0 {
        u
    } else {
        uart_write_reg(uart_write_all(u, off, data.drop_last()), off, data.last())
    }
}

/// What register `off` reads as: no received data, transmitter always empty, no
/// interrupt pending.
pub open spec fn uart_read_reg(u: UartView, off: u16) -> u8 {
    if off == 0 {
        if dlab(u) { u.dll } else { 0 }
    } else if off == 1 {
        if dlab(u) { u.dlm } else { u.ier }
    } else if off == 2 {
        0x01
    } else if off == 3 {
        u.lcr
    } else if off == 4 {
        u.mcr
    } else if off == 5 {
        0x60
    } else if off == 6 {
        0x00
    } else if off == 7 {
        u.scr
    } else {
        0
    }
}

pub proof fn lemma_write_all_keeps_base(u: UartView, off: u16, data: Seq<u8>)
    ensures
        uart_write_all(u, off, data).base_port == u.base_port,
    decreases data.len(),
{
    if data.len() > 0 {
        lemma_write_all_keeps_base(u, off, data.drop_last());
    }
}

pub open spec fn uart_after_out(u: UartView, port: u16, data: Seq<u8>) -> UartView {
    uart_write_all(u, (port - u.base_port) as u16, data)
}

pub open spec fn uart_in_value(u: UartView, port: u16) -> u8 {
    uart_read_reg(u, (port - u.base_port) as u16)
}

/// The scratch register reads back what was written to it.
pub proof fn law_scratch_roundtrip(u: UartView, v: u8)
    ensures
        uart_read_reg(uart_write_reg(u, 7, v), 7) == v,
{
}

/// With the divisor latch selected, the divisor's two bytes read back as written.
pub proof fn law_divisor_roundtrip(u: UartView, lo: u8, hi: u8)
    requires
        dlab(u),
    ensures
        uart_read_reg(uart_write_reg(uart_write_reg(u, 0, lo), 1, hi), 0) == lo,
        uart_read_reg(uart_write_reg(uart_write_reg(u, 0, lo), 1, hi), 1) == hi,
{
}

/// With the divisor latch not selected, the bytes written to the transmit register
/// are queued for the console in order, and nothing else changes.
pub proof fn law_transmit_in_order(u: UartView, data: Seq<u8>)
    requires
        !dlab(u),
    ensures
        uart_write_all(u, 0, data) == (UartView { tx: u.tx + data, ..u }),
    decreases data.len(),
{
    if data.len() == 0 {
        assert(u.tx + data =~= u.tx);
    } else {
        law_transmit_in_order(u, data.drop_last());
        let prev = uart_write_all(u, 0, data.drop_last());
        assert(!dlab(prev));
        assert((u.tx + data.drop_last()).push(data.last()) =~= u.tx + data);
    }
}

impl Uart16550 {
    pub fn new(base_port: u16) -> (r: Self)
        ensures
            r@ == (UartView { base_port, ier: 0, lcr: 0, mcr: 0, fcr: 0, scr: 0, dll: 1, dlm: 0, tx: Seq::empty() }),
    {
        Uart16550 { base_port, ier: 0, lcr: 0, mcr: 0, fcr: 0, scr: 0, dll: 1, dlm: 0, tx: Vec::new() }
    }

    pub fn handles_port(&self, port: u16) -> (r: bool)
        requires
            self.base_port <= 0xfff8,
        ensures
            r == uart_port(self@, port),
    {
        port >= self.base_port && port <= self.base_port + 7
    }

    pub fn offset(&self, port: u16) -> (r: u16)
        requires
            port >= self.base_port,
        ensures
            r == port - self.base_port,
    {
        port - self.base_port
    }

    pub fn dlab(&self) -> (r: bool)
        ensures
            r == dlab(self@),
    {
        (self.lcr & 0x80) != 0
    }

    pub fn io_out(&mut self, port: u16, data: &[u8])
        requires
            port >= old(self).base_port,
        ensures
            final(self)@ == uart_after_out(old(self)@, port, data@),
    {
        let off = self.offset(port);
        let n = data.len();
        let mut i: usize = 0;
        while i < n
            invariant
                n == data@.len(),
                0 <= i <= n,
                off == port - old(self)@.base_port,
                self.base_port == old(self).base_port,
                self@ == uart_write_all(old(self)@, off, data@.subrange(0, i as int)),
            decreases n - i,
        {
            let b = data[i];
            self.write_reg(off, b);
            assert(data@.subrange(0, i + 1).drop_last() =~= data@.subrange(0, i as int));
            i += 1;
        }
        assert(data@.subrange(0, n as int) =~= data@);
    }

    pub fn io_in(&mut self, port: u16, data: &mut [u8])
        requires
            port >= old(self).base_port,
        ensures
            final(self)@ == old(self)@,
            final(data)@ == crate::devices::bus::pio::filled(old(data)@.len(), uart_in_value(old(self)@, port)),
    {
        let off = self.offset(port);
        let v = self.read_reg(off);
        crate::devices::bus::pio::fill(data, v);
    }

    pub fn write_reg(&mut self, off: u16, val: u8)
        ensures
            final(self)@ == uart_write_reg(old(self)@, off, val),
    {
        if off == 0 {
            if self.dlab() {
                self.dll = val;
            } else {
                self.tx.push(val);
            }
        } else if off == 1 {
            if self.dlab() {
                self.dlm = val;
            } else {
                self.ier = val;
            }
        } else if off == 2 {
            self.fcr = val;
        } else if off == 3 {
            self.lcr = val;
        } else if off == 4 {
            self.mcr = val;
        } else if off == 7 {
            self.scr = val;
        }
    }

    pub fn read_reg(&mut self, off: u16) -> (r: u8)
        ensures
            final(self)@ == old(self)@,
            r == uart_read_reg(old(self)@, off),
    {
        if off == 0 {
            if self.dlab() { self.dll } else { 0 }
        } else if off == 1 {
            if self.dlab() { self.dlm } else { self.ier }
        } else if off == 2 {
            0x01
        } else if off == 3 {
            self.lcr
        } else if off == 4 {
            self.mcr
        } else if off == 5 {
            0x60
        } else if off == 6 {
            0x00
        } else if off == 7 {
            self.scr
        } else {
            0
        }
    }

    /// Takes the transmitted bytes that are waiting for the console.
    pub fn take_output(&mut self) -> (r: Vec<u8>)
        ensures
            r@ == old(self)@.tx,
            final(self)@ == (UartView { tx: Seq::empty(), ..old(self)@ }),
    {
        let mut out: Vec<u8> = Vec::new();
        std::mem::swap(&mut out, &mut self.tx);
        out
    }
}

impl PioDevice for Uart16550 {
    fn handles_port(&self, port: u16) -> (r: bool)
        ensures
            r == uart_port(self@, port),
    {
        port >= self.base_port && port - self.base_port <= 7
    }

    /// A read of a port at or above the base reads its register; a port below the
    /// base is not the UART's and leaves the buffer alone.
    fn io_in(&mut self, port: u16, data: &mut [u8])
        ensures
            final(self)@ == old(self)@,
            port >= old(self).base_port ==> final(data)@
                == crate::devices::bus::pio::filled(old(data)@.len(), uart_in_value(old(self)@, port)),
            port < old(self).base_port ==> final(data)@ == old(data)@,
    {
        if port >= self.base_port {
            Uart16550::io_in(self, port, data)
        }
    }

    /// A write to a port at or above the base writes its register; a port below the
    /// base is not the UART's and changes nothing.
    fn io_out(&mut self, port: u16, data: &[u8])
        ensures
            port >= old(self).base_port ==> final(self)@ == uart_after_out(old(self)@, port, data@),
            port < old(self).base_port ==> final(self)@ == old(self)@,
    {
        if port >= self.base_port {
            Uart16550::io_out(self, port, data)
        }
    }
}

} // verus!
