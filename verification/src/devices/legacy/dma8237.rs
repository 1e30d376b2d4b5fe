use vstd::prelude::*;

use vstd::array::spec_array_update;

use crate::devices::bus::pio::PioDevice;

verus! {

broadcast use vstd::array::group_array_axioms;

/// The two 8237 DMA controllers as plain register files: the first at ports
/// 0x00..=0x0F, the second at 0xC0..=0xDF; the page registers at 0x80..=0x8F are
/// accepted and ignored.
#[derive(Clone, Copy, Debug)]
pub struct Dma8237 {
    pub dma1: [u8; 16],
    pub dma2: [u8; 32],
}

pub open spec fn dma_port(port: u16) -> bool {
    port <= 0x000F || (0x0080 <= port <= 0x008F) || (0x00C0 <= port <= 0x00DF)
}

/// The registers after one byte `b` is written to `port`.
pub open spec fn dma_after_byte(s: Dma8237, port: u16, b: u8) -> Dma8237 {
    if port <= 0x000F {
        Dma8237 { dma1: spec_array_update(s.dma1, port as int, b), ..s }
    } else if 0x00C0 <= port <= 0x00DF {
        Dma8237 { dma2: spec_array_update(s.dma2, port - 0x00C0, b), ..s }
    } else {
        s
    }
}

/// The registers after `data` is written to `port` byte by byte: the last byte stays.
pub open spec fn dma_after_out(s: Dma8237, port: u16, data: Seq<u8>) -> Dma8237 {
    if data.len() == 0 { s } else { dma_after_byte(s, port, data.last()) }
}

/// The byte a read of `port` gives.
pub open spec fn dma_in_value(s: Dma8237, port: u16) -> u8 {
    if port <= 0x000F {
        s.dma1[port as int]
    } else if 0x00C0 <= port <= 0x00DF {
        s.dma2[port - 0x00C0]
    } else {
        0
    }
}

/// A register port of either controller reads back the last byte written to it.
pub proof fn law_register_roundtrip(s: Dma8237, port: u16, data: Seq<u8>)
    requires
        port <= 0x000F || (0x00C0 <= port <= 0x00DF),
        data.len() > 0,
    ensures
        dma_in_value(dma_after_out(s, port, data), port) == data.last(),
{
}

impl Dma8237 {
    pub fn new() -> (r: Self)
        ensures
            forall|i: int| 0 <= i < 16 ==> r.dma1[i] == 0,
            forall|i: int| 0 <= i < 32 ==> r.dma2[i] == 0,
    {
        Dma8237 { dma1: [0u8; 16], dma2: [0u8; 32] }
    }

    pub fn handles(port: u16) -> (r: bool)
        ensures
            r == dma_port(port),
    {
        port <= 0x000F || (0x0080 <= port && port <= 0x008F) || (0x00C0 <= port && port <= 0x00DF)
    }

    pub fn handles_port(&self, port: u16) -> (r: bool)
        ensures
            r == dma_port(port),
    {
        Self::handles(port)
    }

    pub fn io_out(&mut self, port: u16, data: &[u8])
        ensures
            *final(self) == dma_after_out(*old(self), port, data@),
    {
        let n = data.len();
        let mut i: usize = 0;
        while i < n
            invariant
                n == data@.len(),
                0 <= i <= n,
                *self == (if i == 0 { *old(self) } else { dma_after_byte(*old(self), port, data@[i - 1]) }),
            decreases n - i,
        {
            let b = data[i];
            if port <= 0x000F {
                self.dma1[port as usize] = b;
            } else if 0x00C0 <= port && port <= 0x00DF {
                self.dma2[(port - 0x00C0) as usize] = b;
            }
            proof {
                if i > 0 {
                    let prev = dma_after_byte(*old(self), port, data@[i - 1]);
                    assert(dma_after_byte(prev, port, b) == dma_after_byte(*old(self), port, b)) by {
                        if port <= 0x000F {
                            assert(spec_array_update(prev.dma1, port as int, b) =~= spec_array_update(old(self).dma1, port as int, b));
                        } else if 0x00C0 <= port <= 0x00DF {
                            assert(spec_array_update(prev.dma2, port - 0x00C0, b) =~= spec_array_update(old(self).dma2, port - 0x00C0, b));
                        }
                    }
                }
            }
            i += 1;
        }
    }

    pub fn io_in(&mut self, port: u16, data: &mut [u8])
        ensures
            *final(self) == *old(self),
            final(data)@ == crate::devices::bus::pio::filled(old(data)@.len(), dma_in_value(*old(self), port)),
    {
        let v = if port <= 0x000F {
            self.dma1[port as usize]
        } else if 0x00C0 <= port && port <= 0x00DF {
            self.dma2[(port - 0x00C0) as usize]
        } else {
            0
        };
        crate::devices::bus::pio::fill(data, v);
    }
}

impl PioDevice for Dma8237 {
    fn handles_port(&self, port: u16) -> (r: bool)
        ensures
            r == dma_port(port),
    {
        Dma8237::handles_port(self, port)
    }

    fn io_in(&mut self, port: u16, data: &mut [u8])
        ensures
            *final(self) == *old(self),
            final(data)@ == crate::devices::bus::pio::filled(old(data)@.len(), dma_in_value(*old(self), port)),
    {
        Dma8237::io_in(self, port, data)
    }

    fn io_out(&mut self, port: u16, data: &[u8])
        ensures
            *final(self) == dma_after_out(*old(self), port, data@),
    {
        Dma8237::io_out(self, port, data)
    }
}

} // verus!
