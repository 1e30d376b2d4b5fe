use vstd::prelude::*;

verus! {

/// One CPUID leaf as the vCPU reports it: the leaf and subleaf it answers and the
/// four result registers.
#[derive(Clone, Copy, Debug)]
pub struct CpuidEntry {
    pub function: u32,
    pub index: u32,
    pub eax: u32,
    pub ebx: u32,
    pub ecx: u32,
    pub edx: u32,
}

/// Leaf 1 ECX features hidden from the guest: PCID (17), FMA (12), x2APIC (21),
/// OSXSAVE (27), AVX (28), F16C (29), RDRAND (30).
pub const LEAF1_ECX_HIDDEN: u32 = (1u32 << 12) | (1u32 << 17) | (1u32 << 21) | (1u32 << 27) | (1u32 << 28)
    | (1u32 << 29) | (1u32 << 30);
/// Leaf 1 ECX bit 31: a hypervisor is present.
pub const LEAF1_ECX_HYPERVISOR: u32 = 1u32 << 31;
/// Leaf 7 EBX features hidden from the guest: SMEP (7), INVPCID (10), RDSEED (18),
/// ADX (19), SMAP (20), AVX512PF (26), AVX512ER (27), AVX512CD (28), SHA (29),
/// AVX512BW (30), AVX512VL (31).
pub const LEAF7_EBX_HIDDEN: u32 = (1u32 << 7) | (1u32 << 10) | (1u32 << 18) | (1u32 << 19) | (1u32 << 20)
    | (1u32 << 26) | (1u32 << 27) | (1u32 << 28) | (1u32 << 29) | (1u32 << 30) | (1u32 << 31);
/// Leaf 7 ECX bit 16, hidden from the guest.
pub const LEAF7_ECX_HIDDEN: u32 = 1u32 << 16;
/// Leaf 0x8000_0001 ECX bit 2, hidden from the guest.
pub const EXT1_ECX_HIDDEN: u32 = 1u32 << 2;

/// The leaf as the guest sees it: some features of leaves 1, 7 and 0x8000_0001
/// hidden, the hypervisor bit set, and the XSAVE leaf 0xd emptied.
pub open spec fn adjusted(e: CpuidEntry) -> CpuidEntry {
    if e.function == 1 && e.index == 0 {
        CpuidEntry { ecx: (e.ecx & !LEAF1_ECX_HIDDEN) | LEAF1_ECX_HYPERVISOR, ..e }
    } else if e.function == 7 && e.index == 0 {
        CpuidEntry { ebx: e.ebx & !LEAF7_EBX_HIDDEN, ecx: e.ecx & !LEAF7_ECX_HIDDEN, ..e }
    } else if e.function == 0xd {
        CpuidEntry { eax: 0, ebx: 0, ecx: 0, edx: 0, ..e }
    } else if e.function == 0x8000_0001 && e.index == 0 {
        CpuidEntry { ecx: e.ecx & !EXT1_ECX_HIDDEN, ..e }
    } else {
        e
    }
}

/// Adjusting a leaf twice is adjusting it once.
pub proof fn law_adjust_idempotent(e: CpuidEntry)
    ensures
        adjusted(adjusted(e)) == adjusted(e),
{
    let c = e.ecx;
    let b = e.ebx;
    assert((((c & !LEAF1_ECX_HIDDEN) | LEAF1_ECX_HYPERVISOR) & !LEAF1_ECX_HIDDEN) | LEAF1_ECX_HYPERVISOR
        == (c & !LEAF1_ECX_HIDDEN) | LEAF1_ECX_HYPERVISOR) by (bit_vector);
    assert((b & !LEAF7_EBX_HIDDEN) & !LEAF7_EBX_HIDDEN == b & !LEAF7_EBX_HIDDEN) by (bit_vector);
    assert((c & !LEAF7_ECX_HIDDEN) & !LEAF7_ECX_HIDDEN == c & !LEAF7_ECX_HIDDEN) by (bit_vector);
    assert((c & !EXT1_ECX_HIDDEN) & !EXT1_ECX_HIDDEN == c & !EXT1_ECX_HIDDEN) by (bit_vector);
}

/// The guest always sees the hypervisor bit, and never the hidden features of leaf 1.
pub proof fn law_leaf1_hides(e: CpuidEntry)
    requires
        e.function == 1,
        e.index == 0,
    ensures
        adjusted(e).ecx & LEAF1_ECX_HYPERVISOR != 0,
        adjusted(e).ecx & LEAF1_ECX_HIDDEN == 0,
{
    let c = e.ecx;
    assert(((c & !LEAF1_ECX_HIDDEN) | LEAF1_ECX_HYPERVISOR) & LEAF1_ECX_HYPERVISOR != 0) by (bit_vector);
    assert(((c & !LEAF1_ECX_HIDDEN) | LEAF1_ECX_HYPERVISOR) & LEAF1_ECX_HIDDEN == 0) by (bit_vector);
}

/// Adjusts one leaf for the guest.
pub fn adjust_cpuid_entry(entry: &mut CpuidEntry)
    ensures
        *final(entry) == adjusted(*old(entry)),
{
    if entry.function == 0x0000_0001 && entry.index == 0 {
        let c0 = entry.ecx;
        let mut c = c0;
        c &= !(1u32 << 21);
        c &= !(1u32 << 27);
        c &= !(1u32 << 28);
        c |= 1u32 << 31;
        c &= !(1u32 << 17);
        c &= !(1u32 << 12);
        c &= !(1u32 << 29);
        c &= !(1u32 << 30);
        assert(c == (c0 & !LEAF1_ECX_HIDDEN) | LEAF1_ECX_HYPERVISOR) by (bit_vector)
            requires
                c == ((((((((c0 & !(1u32 << 21)) & !(1u32 << 27)) & !(1u32 << 28)) | (1u32 << 31))
                    & !(1u32 << 17)) & !(1u32 << 12)) & !(1u32 << 29)) & !(1u32 << 30));
        entry.ecx = c;
    } else if entry.function == 0x0000_0007 && entry.index == 0 {
        let b0 = entry.ebx;
        let mut b = b0;
        b &= !(1u32 << 7);
        b &= !(1u32 << 10);
        b &= !(1u32 << 18);
        b &= !(1u32 << 19);
        b &= !(1u32 << 20);
        b &= !(1u32 << 26);
        b &= !(1u32 << 27);
        b &= !(1u32 << 28);
        b &= !(1u32 << 29);
        b &= !(1u32 << 30);
        b &= !(1u32 << 31);
        assert(b == b0 & !LEAF7_EBX_HIDDEN) by (bit_vector)
            requires
                b == (((((((((((b0 & !(1u32 << 7)) & !(1u32 << 10)) & !(1u32 << 18)) & !(1u32 << 19))
                    & !(1u32 << 20)) & !(1u32 << 26)) & !(1u32 << 27)) & !(1u32 << 28)) & !(1u32 << 29))
                    & !(1u32 << 30)) & !(1u32 << 31));
        entry.ebx = b;
        entry.ecx = entry.ecx & !(1u32 << 16);
    } else if entry.function == 0x0000_000d {
        entry.eax = 0;
        entry.ebx = 0;
        entry.ecx = 0;
        entry.edx = 0;
    } else if entry.function == 0x8000_0001 && entry.index == 0 {
        entry.ecx = entry.ecx & !(1u32 << 2);
    }
}

/// Adjusts every leaf for the guest.
pub fn adjust_cpuid(entries: &mut Vec<CpuidEntry>)
    ensures
        final(entries)@.len() == old(entries)@.len(),
        forall|i: int| 0 <= i < old(entries)@.len() ==> final(entries)@[i] == adjusted(#[trigger] old(entries)@[i]),
{
    let n = entries.len();
    let mut i: usize = 0;
    while i < n
        invariant
            n == entries@.len(),
            n == old(entries)@.len(),
            0 <= i <= n,
            forall|k: int| 0 <= k < i ==> entries@[k] == adjusted(#[trigger] old(entries)@[k]),
            forall|k: int| i <= k < n ==> entries@[k] == old(entries)@[k],
        decreases n - i,
    {
        let mut e = entries[i];
        adjust_cpuid_entry(&mut e);
        entries.set(i, e);
        i += 1;
    }
}

} // verus!
