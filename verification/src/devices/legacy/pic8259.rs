use vstd::prelude::*;

use crate::devices::bus::pio::PioDevice;

verus! {

/// The two cascaded 8259 interrupt controllers, reduced to their interrupt mask
/// registers: commands are accepted and ignored.
#[derive(Clone, Copy, Debug)]
pub struct Pic8259 {
    pub pic1_imr: u8,
    pub pic2_imr: u8,
}

pub open spec fn pic_port(port: u16) -> bool {
    port == 0x20 || port == 0x21 || port == 0xA0 || port == 0xA1
}

/// The controller after `data` is written to `port`: the first byte written to a
/// data port becomes that controller's mask.
pub open spec fn pic_after_out(s: Pic8259, port: u16, data: Seq<u8>) -> Pic8259 {
    if data.len() == 0 {
        s
    } else if port == 0x21 {
        Pic8259 { pic1_imr: data[0], ..s }
    } else if port == 0xA1 {
        Pic8259 { pic2_imr: data[0], ..s }
    } else {
        s
    }
}

/// The byte a read of `port` gives: the mask at a data port, zero otherwise.
pub open spec fn pic_in_value(s: Pic8259, port: u16) -> u8 {
    if port == 0x21 {
        s.pic1_imr
    } else if port == 0xA1 {
        s.pic2_imr
    } else {
        0
    }
}

/// A mask written to a controller's data port reads back from that port.
pub proof fn law_mask_roundtrip(s: Pic8259, port: u16, data: Seq<u8>)
    requires
        port == 0x21 || port == 0xA1,
        data.len() > 0,
    ensures
        pic_in_value(pic_after_out(s, port, data), port) == data[0],
{
}

impl Pic8259 {
    pub fn new() -> (r: Self)
        ensures
            r.pic1_imr == 0 && r.pic2_imr == 0,
    {
        Pic8259 { pic1_imr: 0, pic2_imr: 0 }
    }

    pub fn is_port(port: u16) -> (r: bool)
        ensures
            r == pic_port(port),
    {
        port == 0x20 || port == 0x21 || port == 0xA0 || port == 0xA1
    }

    pub fn handles_port(&self, port: u16) -> (r: bool)
        ensures
            r == pic_port(port),
    {
        Self::is_port(port)
    }

    pub fn io_out(&mut self, port: u16, data: &[u8])
        ensures
            *final(self) == pic_after_out(*old(self), port, data@),
    {
        if data.len() == 0 {
            return;
        }
        let v = data[0];
        if port == 0x21 {
            self.pic1_imr = v;
        } else if port == 0xA1 {
            self.pic2_imr = v;
        }
    }

    pub fn io_in(&mut self, port: u16, data: &mut [u8])
        ensures
            *final(self) == *old(self),
            final(data)@ == crate::devices::bus::pio::filled(old(data)@.len(), pic_in_value(*old(self), port)),
    {
        let v = if port == 0x21 {
            self.pic1_imr
        } else if port == 0xA1 {
            self.pic2_imr
        } else {
            0
        };
        crate::devices::bus::pio::fill(data, v);
    }
}

impl PioDevice for Pic8259 {
    fn handles_port(&self, port: u16) -> (r: bool)
        ensures
            r == pic_port(port),
    {
        Pic8259::handles_port(self, port)
    }

    fn io_in(&mut self, port: u16, data: &mut [u8])
        ensures
            *final(self) == *old(self),
            final(data)@ == crate::devices::bus::pio::filled(old(data)@.len(), pic_in_value(*old(self), port)),
    {
        Pic8259::io_in(self, port, data)
    }

    fn io_out(&mut self, port: u16, data: &[u8])
        ensures
            *final(self) == pic_after_out(*old(self), port, data@),
    {
        Pic8259::io_out(self, port, data)
    }
}

} // verus!
