use vstd::prelude::*;
use vstd::bytes::{spec_u32_from_le_bytes, spec_u32_to_le_bytes, u32_from_le_bytes, u32_to_le_bytes};

use crate::devices::pci::bus::{
    PciBus, PciFunctionView, bus_config_read, bus_config_write, bdf_is, first_index, is_first, function_wf,
    config_dword_read, law_bus_config_write_then_read, lemma_first_index_some,
};

verus! {

pub const PCI_CONFIG_ADDRESS_PORT: u16 = 0xCF8;
pub const PCI_CONFIG_DATA_PORT: u16 = 0xCFC;

/// Configuration mechanism #1: the address register at port 0xCF8 selects a
/// function and dword register, and ports 0xCFC..=0xCFF reach that register.
#[derive(Debug, Clone, Copy, PartialEq, Eq, Structural)]
pub struct PciConfigIo {
    pub addr: u32,
}

/// Bit 31 of the address register enables configuration cycles.
pub open spec fn addr_enabled(a: u32) -> bool {
    a & 0x8000_0000 != 0
}

pub open spec fn addr_bus(a: u32) -> u8 {
    ((a >> 16) & 0xff) as u8
}

pub open spec fn addr_dev(a: u32) -> u8 {
    ((a >> 11) & 0x1f) as u8
}

pub open spec fn addr_func(a: u32) -> u8 {
    ((a >> 8) & 0x07) as u8
}

/// The dword-aligned register number of the address register.
pub open spec fn addr_reg(a: u32) -> u16 {
    (a & 0xfc) as u16
}

/// The ports that the mechanism decodes.
pub open spec fn config_io_port(port: u16) -> bool {
    port == PCI_CONFIG_ADDRESS_PORT || (PCI_CONFIG_DATA_PORT <= port <= 0xCFF)
}

/// `cur` with the bytes `data` stored from byte `base` on; bytes past the fourth are dropped.
pub open spec fn merged_dword(cur: u32, base: int, data: Seq<u8>) -> u32 {
    spec_u32_from_le_bytes(
        Seq::new(4, |k: int| if base <= k < base + data.len() { data[k - base] } else { spec_u32_to_le_bytes(cur)[k] }),
    )
}

/// Bytes of the dword `val` seen from data port byte `base`; past the dword, all ones.
pub open spec fn dword_window(val: u32, base: int, len: nat) -> Seq<u8> {
    Seq::new(len, |i: int| if base + i < 4 { spec_u32_to_le_bytes(val)[base + i] } else { 0xffu8 })
}

/// The bus and the dword that a data port read sees.
pub open spec fn data_read(a: u32, s: Seq<super::bus::PciFunctionView>) -> (Seq<super::bus::PciFunctionView>, u32) {
    if addr_enabled(a) {
        bus_config_read(s, addr_bus(a), addr_dev(a), addr_func(a), addr_reg(a))
    } else {
        (s, 0xffff_ffffu32)
    }
}

/// The bus after a write of `data` at data port byte `base`: a read-modify-write of the dword.
pub open spec fn data_write(a: u32, s: Seq<super::bus::PciFunctionView>, base: int, data: Seq<u8>) -> Seq<super::bus::PciFunctionView> {
    if addr_enabled(a) {
        let (s1, cur) = bus_config_read(s, addr_bus(a), addr_dev(a), addr_func(a), addr_reg(a));
        bus_config_write(s1, addr_bus(a), addr_dev(a), addr_func(a), addr_reg(a), merged_dword(cur, base, data))
    } else {
        s
    }
}

/// Through the configuration ports: a dword written at the data port to a plain
/// register of a present function reads back at the data port.
pub proof fn law_data_port_roundtrip(a: u32, s: Seq<PciFunctionView>, data: Seq<u8>)
    requires
        addr_enabled(a),
        data.len() == 4,
        forall|i: int| 0 <= i < s.len() ==> function_wf(#[trigger] s[i]),
        first_index(s, bdf_is(addr_bus(a), addr_dev(a), addr_func(a))) is Some,
        addr_reg(a) != 0x04,
        addr_reg(a) != 0x20,
        addr_reg(a) != 0x24,
    ensures
        data_read(a, data_write(a, s, 0, data)).1 == spec_u32_from_le_bytes(data),
{
    let p = bdf_is(addr_bus(a), addr_dev(a), addr_func(a));
    let reg = addr_reg(a);
    assert(a & 0xfc <= 0xfc) by (bit_vector);
    let k = choose|k: int| is_first(s, p, k);
    assert(is_first(s, p, k));
    lemma_first_index_some(s, p, k);
    let (s1, cur) = bus_config_read(s, addr_bus(a), addr_dev(a), addr_func(a), reg);
    assert(config_dword_read(s[k], reg).0 == s[k]);
    assert(s1 =~= s);
    vstd::bytes::lemma_auto_spec_u32_to_from_le_bytes();
    assert(Seq::new(4, |q: int| if 0 <= q < 0 + data.len() { data[q - 0] } else { spec_u32_to_le_bytes(cur)[q] }) =~= data);
    law_bus_config_write_then_read(s, addr_bus(a), addr_dev(a), addr_func(a), reg, spec_u32_from_le_bytes(data));
}

/// What a read of the data port sees of the addressed dword `val`: four bytes read
/// at port 0xCFC are `val` itself, and a read of `len` bytes at byte `base` of the
/// port (0xCFC + `base`) sees, in position `i`, byte `base + i` of that four-byte
/// read, and all ones past the end of the dword.
pub proof fn law_data_window(val: u32, base: int, len: nat)
    requires
        0 <= base < 4,
    ensures
        spec_u32_from_le_bytes(dword_window(val, 0, 4)) == val,
        dword_window(val, base, len).len() == len,
        forall|i: int| 0 <= i < len ==> #[trigger] dword_window(val, base, len)[i]
            == if base + i < 4 { dword_window(val, 0, 4)[base + i] } else { 0xffu8 },
{
    vstd::bytes::lemma_auto_spec_u32_to_from_le_bytes();
    assert(dword_window(val, 0, 4) =~= spec_u32_to_le_bytes(val));
}

impl PciConfigIo {
    pub fn new() -> (r: Self)
        ensures
            r.addr == 0,
    {
        PciConfigIo { addr: 0 }
    }

    pub fn enabled(&self) -> (r: bool)
        ensures
            r == addr_enabled(self.addr),
    {
        (self.addr & 0x8000_0000) != 0
    }

    pub fn decode_bdf(&self) -> (r: (u8, u8, u8))
        ensures
            r == (addr_bus(self.addr), addr_dev(self.addr), addr_func(self.addr)),
    {
        let bus = ((self.addr >> 16) & 0xff) as u8;
        let dev = ((self.addr >> 11) & 0x1f) as u8;
        let func = ((self.addr >> 8) & 0x07) as u8;
        (bus, dev, func)
    }

    pub fn reg_dword_aligned(&self) -> (r: u16)
        ensures
            r == addr_reg(self.addr),
    {
        (self.addr & 0xfc) as u16
    }

    pub fn data_port_offset(port: u16) -> (r: u8)
        requires
            PCI_CONFIG_DATA_PORT <= port <= 0xCFF,
        ensures
            r == port - PCI_CONFIG_DATA_PORT,
    {
        (port - PCI_CONFIG_DATA_PORT) as u8
    }

    pub fn handles_port(&self, port: u16) -> (r: bool)
        ensures
            r == config_io_port(port),
    {
        port == PCI_CONFIG_ADDRESS_PORT || (PCI_CONFIG_DATA_PORT <= port && port <= 0xCFF)
    }

    pub fn read_data(&mut self, pci: &mut PciBus, port: u16, data: &mut [u8])
        requires
            old(pci).wf(),
            PCI_CONFIG_DATA_PORT <= port <= 0xCFF,
        ensures
            final(pci).wf(),
            *final(self) == *old(self),
            final(pci)@ == data_read(old(self).addr, old(pci)@).0,
            final(data)@ == dword_window(data_read(old(self).addr, old(pci)@).1, port - PCI_CONFIG_DATA_PORT, old(data)@.len()),
    {
        let val = if self.enabled() {
            let (bus, dev, func) = self.decode_bdf();
            let reg = self.reg_dword_aligned();
            pci.read_config_dword(bus, dev, func, reg)
        } else {
            0xffff_ffff
        };
        let out = u32_to_le_bytes(val);
        let base = Self::data_port_offset(port) as usize;
        let n = data.len();
        let mut i: usize = 0;
        while i < n
            invariant
                n == data@.len(),
                n == old(data)@.len(),
                0 <= i <= n,
                base == port - PCI_CONFIG_DATA_PORT,
                base < 4,
                out@ == spec_u32_to_le_bytes(val),
                out@.len() == 4,
                forall|j: int| 0 <= j < i ==> #[trigger] data@[j] == dword_window(val, base as int, n as nat)[j],
            decreases n - i,
        {
            data[i] = if i < 4 - base { out[base + i] } else { 0xff };
            i += 1;
        }
        assert(data@ =~= dword_window(val, base as int, n as nat));
    }

    pub fn write_data(&mut self, pci: &mut PciBus, port: u16, data: &[u8])
        requires
            old(pci).wf(),
            PCI_CONFIG_DATA_PORT <= port <= 0xCFF,
        ensures
            final(pci).wf(),
            *final(self) == *old(self),
            final(pci)@ == data_write(old(self).addr, old(pci)@, port - PCI_CONFIG_DATA_PORT, data@),
    {
        if !self.enabled() {
            return;
        }
        let (bus, dev, func) = self.decode_bdf();
        let reg = self.reg_dword_aligned();
        let cur = pci.read_config_dword(bus, dev, func, reg);
        let cur_bytes = u32_to_le_bytes(cur);
        let mut bytes: [u8; 4] = [cur_bytes[0], cur_bytes[1], cur_bytes[2], cur_bytes[3]];
        let base = Self::data_port_offset(port) as usize;
        let n = data.len();
        let mut i: usize = 0;
        while i < n
            invariant
                n == data@.len(),
                0 <= i <= n,
                base == port - PCI_CONFIG_DATA_PORT,
                base < 4,
                cur_bytes@ == spec_u32_to_le_bytes(cur),
                cur_bytes@.len() == 4,
                bytes@.len() == 4,
                forall|k: int| 0 <= k < 4 ==> #[trigger] bytes@[k] == (
                    if base <= k < base + i { data@[k - base] } else { cur_bytes@[k] }),
            decreases n - i,
        {
            if i < 4 - base {
                bytes[base + i] = data[i];
            }
            i += 1;
        }
        let ghost merged = Seq::new(4, |k: int| if base <= k < base + data@.len() { data@[k - base] } else { spec_u32_to_le_bytes(cur)[k] });
        assert(bytes@ =~= merged);
        let newv = u32_from_le_bytes(bytes.as_slice());
        pci.write_config_dword(bus, dev, func, reg, newv);
    }

    /// A read of `port` through the mechanism that took the bus from `s0` to `s1`
    /// and the buffer from `d0` to `d1`.
    pub open spec fn io_in_effect(cfg: PciConfigIo, s0: Seq<PciFunctionView>, s1: Seq<PciFunctionView>, port: u16, d0: Seq<u8>, d1: Seq<u8>) -> bool {
        if port == PCI_CONFIG_ADDRESS_PORT {
            s1 == s0 && d1 == Seq::new(d0.len(), |i: int| if i < 4 { spec_u32_to_le_bytes(cfg.addr)[i] } else { 0u8 })
        } else if PCI_CONFIG_DATA_PORT <= port <= 0xCFF {
            s1 == data_read(cfg.addr, s0).0 && d1 == dword_window(data_read(cfg.addr, s0).1, port - PCI_CONFIG_DATA_PORT, d0.len())
        } else {
            s1 == s0 && d1 == Seq::new(d0.len(), |i: int| 0xffu8)
        }
    }

    /// A write of `data` to `port` through the mechanism that took it from `c0` to
    /// `c1` and the bus from `s0` to `s1`.
    pub open spec fn io_out_effect(c0: PciConfigIo, c1: PciConfigIo, s0: Seq<PciFunctionView>, s1: Seq<PciFunctionView>, port: u16, data: Seq<u8>) -> bool {
        if port == PCI_CONFIG_ADDRESS_PORT {
            s1 == s0 && c1.addr == merged_dword(c0.addr, 0, data)
        } else if PCI_CONFIG_DATA_PORT <= port <= 0xCFF {
            c1 == c0 && s1 == data_write(c0.addr, s0, port - PCI_CONFIG_DATA_PORT, data)
        } else {
            s1 == s0 && c1 == c0
        }
    }

    pub fn io_in(&mut self, pci: &mut PciBus, port: u16, data: &mut [u8])
        requires
            old(pci).wf(),
        ensures
            final(pci).wf(),
            *final(self) == *old(self),
            Self::io_in_effect(*old(self), old(pci)@, final(pci)@, port, old(data)@, final(data)@),
    {
        if port == PCI_CONFIG_ADDRESS_PORT {
            let bytes = u32_to_le_bytes(self.addr);
            let n = data.len();
            let mut i: usize = 0;
            while i < n
                invariant
                    n == data@.len(),
                    0 <= i <= n,
                    bytes@ == spec_u32_to_le_bytes(self.addr),
                    bytes@.len() == 4,
                    forall|j: int| 0 <= j < i ==> #[trigger] data@[j] == (if j < 4 { bytes@[j] } else { 0u8 }),
                decreases n - i,
            {
                data[i] = if i < 4 { bytes[i] } else { 0 };
                i += 1;
            }
            assert(data@ =~= Seq::new(old(data)@.len(), |i: int| if i < 4 { spec_u32_to_le_bytes(old(self).addr)[i] } else { 0u8 }));
        } else if PCI_CONFIG_DATA_PORT <= port && port <= 0xCFF {
            self.read_data(pci, port, data);
        } else {
            let n = data.len();
            let mut i: usize = 0;
            while i < n
                invariant
                    n == data@.len(),
                    0 <= i <= n,
                    forall|j: int| 0 <= j < i ==> #[trigger] data@[j] == 0xffu8,
                decreases n - i,
            {
                data[i] = 0xff;
                i += 1;
            }
            assert(data@ =~= Seq::new(old(data)@.len(), |i: int| 0xffu8));
        }
    }

    pub fn io_out(&mut self, pci: &mut PciBus, port: u16, data: &[u8])
        requires
            old(pci).wf(),
        ensures
            final(pci).wf(),
            Self::io_out_effect(*old(self), *final(self), old(pci)@, final(pci)@, port, data@),
    {
        if port == PCI_CONFIG_ADDRESS_PORT {
            let cur = u32_to_le_bytes(self.addr);
            let mut bytes: [u8; 4] = [cur[0], cur[1], cur[2], cur[3]];
            let n = data.len();
            let mut i: usize = 0;
            while i < n
                invariant
                    n == data@.len(),
                    0 <= i <= n,
                    cur@ == spec_u32_to_le_bytes(old(self).addr),
                    cur@.len() == 4,
                    bytes@.len() == 4,
                    forall|k: int| 0 <= k < 4 ==> #[trigger] bytes@[k] == (if k < i { data@[k] } else { cur@[k] }),
                decreases n - i,
            {
                if i < 4 {
                    bytes[i] = data[i];
                }
                i += 1;
            }
            let ghost merged = Seq::new(4, |k: int| if 0 <= k < 0 + data@.len() { data@[k - 0] } else { spec_u32_to_le_bytes(old(self).addr)[k] });
            assert(bytes@ =~= merged);
            self.addr = u32_from_le_bytes(bytes.as_slice());
        } else if PCI_CONFIG_DATA_PORT <= port && port <= 0xCFF {
            self.write_data(pci, port, data);
        }
    }
}

} // verus!
