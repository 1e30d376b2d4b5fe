use vstd::prelude::*;

use crate::devices::devices::Devices;
use crate::devices::pci::bus::{PciBus, MmioWriteOutcome};
use crate::guest::memory::GuestMemory;
use crate::bytes::zeros;
use crate::text::{decimal, hex_alt, push_decimal, push_hex_alt, str_chars, string_from_chars, push_chars};
use crate::vmm::exit::{VmExitInfo, VmExitReason};

verus! {

/// The port whose writes go to the debug console.
pub const DEBUGCON_PORT: u16 = 0xE9;

/// Why the vCPU came back from running the guest, with what the exit carries.
#[derive(Clone, Debug)]
pub enum VcpuEvent {
    Hlt,
    Shutdown,
    InternalError,
    IoOut { port: u16, data: Vec<u8> },
    IoIn { port: u16, len: usize },
    MmioRead { addr: u64, len: usize },
    MmioWrite { addr: u64, data: Vec<u8> },
    /// Any other exit, by its debug text.
    Other(String),
}

/// What to do after an exit.
#[derive(Clone, Debug)]
pub enum ExitAction {
    /// Run the vCPU again.
    Resume,
    /// Hand these bytes to the vCPU as the result of its read, then run it again.
    ResumeWith(Vec<u8>),
    /// Print these bytes on the debug console, then run the vCPU again.
    Debugcon(Vec<u8>),
    /// Process queue `queue` of PCI function `device`, then run the vCPU again.
    Notify { device: usize, queue: usize },
    /// The run is over.
    Stop(VmExitInfo),
}

/// The text of an unhandled access: `what`, the address under `key` in `{:#x}` form,
/// and the length.
pub open spec fn unhandled_text(what: Seq<char>, key: Seq<char>, addr: u64, len: nat) -> Seq<char> {
    what + " "@ + key + "="@ + hex_alt(addr as nat) + " len="@ + decimal(len)
}

fn unhandled(what: &str, key: &str, addr: u64, len: usize) -> (r: VmExitInfo)
    ensures
        r.reason matches VmExitReason::Unhandled(m) && m@ == unhandled_text(what@, key@, addr, len as nat),
{
    let mut t = str_chars(what);
    let sp = str_chars(" ");
    push_chars(&mut t, sp.as_slice());
    let k = str_chars(key);
    push_chars(&mut t, k.as_slice());
    let eq = str_chars("=");
    push_chars(&mut t, eq.as_slice());
    push_hex_alt(&mut t, addr);
    let l = str_chars(" len=");
    push_chars(&mut t, l.as_slice());
    push_decimal(&mut t, len as u64);
    VmExitInfo { reason: VmExitReason::Unhandled(string_from_chars(t.as_slice())) }
}

/// A buffer of `len` zero bytes.
fn zeroed(len: usize) -> (r: Vec<u8>)
    ensures
        r@ == zeros(len as nat),
{
    let mut v: Vec<u8> = Vec::new();
    let mut i: usize = 0;
    while i < len
        invariant
            0 <= i <= len,
            v@ == Seq::new(i as nat, |k: int| 0u8),
        decreases len - i,
    {
        v.push(0);
        assert(v@ =~= Seq::new((i + 1) as nat, |k: int| 0u8));
        i += 1;
    }
    v
}

/// The offset of `rip` from the kernel's load base, if it lies at or above it.
pub fn rip_offset(rip: u64, load_base: u64) -> (r: Option<u64>)
    ensures
        r == (if rip >= load_base { Some((rip - load_base) as u64) } else { None::<u64> }),
{
    if rip >= load_base {
        Some(rip - load_base)
    } else {
        None
    }
}

/// The guest as the monitor runs it: its memory, its devices, and where the
/// kernel was loaded.
pub struct Vmmon {
    pub guest: GuestMemory,
    pub devices: Devices,
    pub kernel_entry: u64,
    pub kernel_load_base: u64,
}

impl Vmmon {
    /// Decides what an exit of the vCPU means: halts, shutdowns, internal errors and
    /// other exits end the run; debug-console writes are printed; port and MMIO
    /// accesses go to the devices and the run goes on, unless no device takes them.
    pub fn handle_exit(&mut self, ev: VcpuEvent) -> (a: ExitAction)
        requires
            old(self).devices.wf(),
        ensures
            final(self).devices.wf(),
            final(self).guest == old(self).guest,
            final(self).kernel_entry == old(self).kernel_entry,
            final(self).kernel_load_base == old(self).kernel_load_base,
            ev is Hlt ==> (a matches ExitAction::Stop(i) && i.reason is Hlt)
                && final(self).devices == old(self).devices,
            ev is Shutdown ==> (a matches ExitAction::Stop(i) && i.reason is Shutdown)
                && final(self).devices == old(self).devices,
            ev is InternalError ==> (a matches ExitAction::Stop(i) && i.reason is InternalError)
                && final(self).devices == old(self).devices,
            ev matches VcpuEvent::Other(s) ==> (a matches ExitAction::Stop(i)
                && i.reason matches VmExitReason::Unhandled(m) && m@ == s@)
                && final(self).devices == old(self).devices,
            ev matches VcpuEvent::IoOut { port, data } ==> if port == DEBUGCON_PORT {
                (a matches ExitAction::Debugcon(b) && b@ == data@) && final(self).devices == old(self).devices
            } else {
                exists|handled: bool| {
                    &&& #[trigger] Devices::io_out_effect(old(self).devices, final(self).devices, port, data@, handled)
                    &&& if handled {
                        a is Resume
                    } else {
                        a matches ExitAction::Stop(i) && i.reason matches VmExitReason::Unhandled(m)
                            && m@ == unhandled_text("io out"@, "port"@, port as u64, data@.len())
                    }
                }
            },
            ev matches VcpuEvent::IoIn { port, len } ==> exists|handled: bool, b: Seq<u8>| {
                &&& #[trigger] Devices::io_in_effect(old(self).devices, final(self).devices, port,
                    zeros(len as nat), b, handled)
                &&& if handled {
                    a matches ExitAction::ResumeWith(v) && v@ == b
                } else {
                    a matches ExitAction::Stop(i) && i.reason matches VmExitReason::Unhandled(m)
                        && m@ == unhandled_text("io in"@, "port"@, port as u64, len as nat)
                }
            },
            ev matches VcpuEvent::MmioRead { addr, len } ==> exists|handled: bool, b: Seq<u8>| {
                &&& #[trigger] PciBus::mmio_read_effect(old(self).devices.pci@, final(self).devices.pci@, addr,
                    zeros(len as nat), b, handled)
                &&& final(self).devices.pio@ == old(self).devices.pio@
                &&& final(self).devices.pci_cfg == old(self).devices.pci_cfg
                &&& if handled {
                    a matches ExitAction::ResumeWith(v) && v@ == b
                } else {
                    a matches ExitAction::Stop(i) && i.reason matches VmExitReason::Unhandled(m)
                        && m@ == unhandled_text("mmio read"@, "addr"@, addr, len as nat)
                }
            },
            ev matches VcpuEvent::MmioWrite { addr, data } ==> exists|o: MmioWriteOutcome| {
                &&& #[trigger] PciBus::mmio_write_effect(old(self).devices.pci@, final(self).devices.pci@, addr, data@, o)
                &&& final(self).devices.pio@ == old(self).devices.pio@
                &&& final(self).devices.pci_cfg == old(self).devices.pci_cfg
                &&& match o {
                    MmioWriteOutcome::Handled => a is Resume,
                    MmioWriteOutcome::Notify { device, queue } => a == (ExitAction::Notify { device, queue }),
                    MmioWriteOutcome::Unhandled => a matches ExitAction::Stop(i)
                        && i.reason matches VmExitReason::Unhandled(m)
                        && m@ == unhandled_text("mmio write"@, "addr"@, addr, data@.len()),
                }
            },
    {
        match ev {
            VcpuEvent::Hlt => ExitAction::Stop(VmExitInfo::hlt()),
            VcpuEvent::Shutdown => ExitAction::Stop(VmExitInfo::shutdown()),
            VcpuEvent::InternalError => ExitAction::Stop(VmExitInfo { reason: VmExitReason::InternalError }),
            VcpuEvent::Other(s) => ExitAction::Stop(VmExitInfo { reason: VmExitReason::Unhandled(s) }),
            VcpuEvent::IoOut { port, data } => {
                if port == DEBUGCON_PORT {
                    return ExitAction::Debugcon(data);
                }
                let handled = self.devices.io_out(port, data.as_slice());
                assert(Devices::io_out_effect(old(self).devices, self.devices, port, data@, handled));
                if handled {
                    ExitAction::Resume
                } else {
                    ExitAction::Stop(unhandled("io out", "port", port as u64, data.len()))
                }
            },
            VcpuEvent::IoIn { port, len } => {
                let mut buf = zeroed(len);
                let ghost b0 = buf@;
                let handled = self.devices.io_in(port, buf.as_mut_slice());
                assert(b0 == zeros(len as nat));
                assert(Devices::io_in_effect(old(self).devices, self.devices, port, zeros(len as nat), buf@, handled));
                if handled {
                    ExitAction::ResumeWith(buf)
                } else {
                    ExitAction::Stop(unhandled("io in", "port", port as u64, len))
                }
            },
            VcpuEvent::MmioRead { addr, len } => {
                let mut buf = zeroed(len);
                let handled = self.devices.mmio_read(&mut self.guest, addr, buf.as_mut_slice());
                if handled {
                    ExitAction::ResumeWith(buf)
                } else {
                    ExitAction::Stop(unhandled("mmio read", "addr", addr, len))
                }
            },
            VcpuEvent::MmioWrite { addr, data } => {
                let o = self.devices.mmio_write(&mut self.guest, addr, data.as_slice());
                match o {
                    MmioWriteOutcome::Handled => ExitAction::Resume,
                    MmioWriteOutcome::Notify { device, queue } => ExitAction::Notify { device, queue },
                    MmioWriteOutcome::Unhandled => ExitAction::Stop(unhandled("mmio write", "addr", addr, data.len())),
                }
            },
        }
    }
}

} // verus!
