use vstd::prelude::*;
use vstd::bytes::{
    spec_u16_from_le_bytes, spec_u16_to_le_bytes, spec_u32_from_le_bytes, spec_u32_to_le_bytes,
    spec_u64_from_le_bytes, spec_u64_to_le_bytes, u16_from_le_bytes, u16_to_le_bytes,
    u32_from_le_bytes, u32_to_le_bytes, u64_from_le_bytes, u64_to_le_bytes,
};
use memmap2::MmapMut;

use crate::bytes::{splice, zeros, lemma_splice_len};
use crate::vmm::errors::VmmonError;

verus! {

/// An anonymous writable memory map of `memmap2`.
#[verifier::external_type_specification]
#[verifier::external_body]
pub struct ExMmapMut(MmapMut);

/// The bytes that a memory map currently holds, in address order.
pub uninterp spec fn mmap_bytes(m: MmapMut) -> Seq<u8>;

/// Calls `MmapMut::map_anon`. On success the map holds exactly `len` bytes
/// (memmap2 builds the map's slice from the requested length), all zero: memmap2
/// maps anonymous memory with `MAP_ANON`, which the kernel fills with zeros. On
/// failure the operating system's error is handed back.
#[verifier::external_body]
fn mmap_map_anon(len: usize) -> (r: Result<MmapMut, std::io::Error>)
    ensures
        r matches Ok(m) ==> mmap_bytes(m) == zeros(len as nat),
{
    MmapMut::map_anon(len)
}

/// Copies `bytes` into the map at `start` through `MmapMut`'s `DerefMut` to `[u8]`;
/// every other byte keeps its value. The range lies inside the map, so the copy
/// does not panic.
#[verifier::external_body]
fn mmap_write(m: &mut MmapMut, start: usize, bytes: &[u8])
    requires
        start + bytes@.len() <= mmap_bytes(*old(m)).len(),
    ensures
        mmap_bytes(*final(m)) == splice(mmap_bytes(*old(m)), start as int, bytes@),
    no_unwind
{
    m[start..start + bytes.len()].copy_from_slice(bytes);
}

/// Sets `len` bytes of the map from `start` to zero through `DerefMut` to `[u8]`.
/// The range lies inside the map, so the fill does not panic.
#[verifier::external_body]
fn mmap_fill_zero(m: &mut MmapMut, start: usize, len: usize)
    requires
        start + len <= mmap_bytes(*old(m)).len(),
    ensures
        mmap_bytes(*final(m)) == splice(mmap_bytes(*old(m)), start as int, zeros(len as nat)),
    no_unwind
{
    m[start..start + len].fill(0);
}

/// Borrows `len` bytes of the map from `start` through `MmapMut`'s `Deref` to `[u8]`.
#[verifier::external_body]
fn mmap_slice<'a>(m: &'a MmapMut, start: usize, len: usize) -> (r: &'a [u8])
    requires
        start + len <= mmap_bytes(*m).len(),
    ensures
        r@ == mmap_bytes(*m).subrange(start as int, start + len),
{
    &m[start..start + len]
}

/// Borrows `len` bytes of the map from `start` mutably through `MmapMut`'s
/// `DerefMut` to `[u8]`: the borrow starts with those bytes, and once it ends the
/// map holds whatever it was left with there, every other byte unchanged.
#[verifier::external_body]
fn mmap_slice_mut<'a>(m: &'a mut MmapMut, start: usize, len: usize) -> (r: &'a mut [u8])
    requires
        start + len <= mmap_bytes(*old(m)).len(),
    ensures
        r@ == mmap_bytes(*old(m)).subrange(start as int, start + len),
        final(r)@.len() == len,
        mmap_bytes(*final(m)) == splice(mmap_bytes(*old(m)), start as int, final(r)@),
    no_unwind
{
    &mut m[start..start + len]
}

/// Calls `MmapMut::as_ptr` and hands back the address as an integer. The address
/// is chosen by the operating system, so nothing is said of it.
#[verifier::external_body]
fn mmap_addr(m: &MmapMut) -> u64 {
    m.as_ptr() as u64
}

/// The guest's physical RAM: a host mapping whose byte `i` is guest physical address `i`.
pub struct GuestMemory {
    mmap: MmapMut,
    size: usize,
}

/// The little-endian `u16` at `gpa` of `m`.
pub open spec fn mem_u16(m: Seq<u8>, gpa: int) -> u16 {
    spec_u16_from_le_bytes(m.subrange(gpa, gpa + 2))
}

/// The little-endian `u32` at `gpa` of `m`.
pub open spec fn mem_u32(m: Seq<u8>, gpa: int) -> u32 {
    spec_u32_from_le_bytes(m.subrange(gpa, gpa + 4))
}

/// The little-endian `u64` at `gpa` of `m`.
pub open spec fn mem_u64(m: Seq<u8>, gpa: int) -> u64 {
    spec_u64_from_le_bytes(m.subrange(gpa, gpa + 8))
}

/// Reading back a write: the bytes written at `gpa` are there afterwards, every
/// other byte keeps its value, and the memory keeps its size.
pub proof fn law_write_then_read(m: Seq<u8>, gpa: int, bytes: Seq<u8>)
    requires
        0 <= gpa,
        gpa + bytes.len() <= m.len(),
    ensures
        splice(m, gpa, bytes).len() == m.len(),
        splice(m, gpa, bytes).subrange(gpa, gpa + bytes.len()) == bytes,
        forall|i: int| 0 <= i < m.len() && !(gpa <= i < gpa + bytes.len()) ==> #[trigger] splice(m, gpa, bytes)[i] == m[i],
{
    lemma_splice_len(m, gpa, bytes);
}

/// A `u64` written at `gpa` reads back as written.
pub proof fn law_u64_roundtrip(m: Seq<u8>, gpa: int, v: u64)
    requires
        0 <= gpa,
        gpa + 8 <= m.len(),
    ensures
        mem_u64(splice(m, gpa, spec_u64_to_le_bytes(v)), gpa) == v,
{
    vstd::bytes::lemma_auto_spec_u64_to_from_le_bytes();
    lemma_splice_len(m, gpa, spec_u64_to_le_bytes(v));
}

impl View for GuestMemory {
    type V = Seq<u8>;

    closed spec fn view(&self) -> Seq<u8> {
        mmap_bytes(self.mmap)
    }
}

impl GuestMemory {
    #[verifier::type_invariant]
    closed spec fn inv(self) -> bool {
        mmap_bytes(self.mmap).len() == self.size
    }

    /// Maps `size_bytes` bytes of anonymous host memory for the guest, all zero.
    pub fn new(size_bytes: usize) -> (r: Result<Self, VmmonError>)
        ensures
            r matches Ok(m) ==> m@ == zeros(size_bytes as nat),
            r matches Err(e) ==> e is Io,
    {
        match mmap_map_anon(size_bytes) {
            Ok(mmap) => Ok(GuestMemory { mmap, size: size_bytes }),
            Err(e) => Err(VmmonError::Io(e)),
        }
    }

    pub fn size_bytes(&self) -> (r: usize)
        ensures
            r == self@.len(),
    {
        proof { use_type_invariant(self); }
        self.size
    }

    /// The host address at which guest RAM is mapped.
    pub fn as_ptr_u64(&self) -> u64 {
        mmap_addr(&self.mmap)
    }

    /// Whether `len` bytes from `gpa` lie inside guest RAM.
    pub fn contains(&self, gpa: u64, len: u64) -> (r: bool)
        ensures
            r == (gpa + len <= self@.len()),
    {
        proof { use_type_invariant(self); }
        gpa <= self.size as u64 && len <= self.size as u64 - gpa
    }

    pub fn write(&mut self, gpa: u64, bytes: &[u8])
        requires
            gpa + bytes@.len() <= old(self)@.len(),
        ensures
            final(self)@ == splice(old(self)@, gpa as int, bytes@),
    {
        proof { use_type_invariant(&*self); }
        let start = gpa as usize;
        mmap_write(&mut self.mmap, start, bytes);
        proof { lemma_splice_len(old(self)@, gpa as int, bytes@); }
    }

    pub fn read(&self, gpa: u64, out: &mut [u8])
        requires
            gpa + old(out)@.len() <= self@.len(),
        ensures
            final(out)@ == self@.subrange(gpa as int, gpa + old(out)@.len()),
    {
        let src = self.slice(gpa, out.len());
        let n = out.len();
        let mut i: usize = 0;
        while i < n
            invariant
                n == out@.len(),
                src@.len() == n,
                0 <= i <= n,
                forall|j: int| 0 <= j < i ==> out@[j] == src@[j],
            decreases n - i,
        {
            out[i] = src[i];
            i += 1;
        }
        assert(out@ =~= src@);
    }

    pub fn write_zeros(&mut self, gpa: u64, len: usize)
        requires
            gpa + len <= old(self)@.len(),
        ensures
            final(self)@ == splice(old(self)@, gpa as int, zeros(len as nat)),
    {
        proof { use_type_invariant(&*self); }
        mmap_fill_zero(&mut self.mmap, gpa as usize, len);
        proof { lemma_splice_len(old(self)@, gpa as int, zeros(len as nat)); }
    }

    /// `len` bytes of guest memory from `gpa`, for writing in place.
    pub fn slice_mut(&mut self, gpa: u64, len: usize) -> (r: &mut [u8])
        requires
            gpa + len <= old(self)@.len(),
        ensures
            r@ == old(self)@.subrange(gpa as int, gpa + len),
            final(self)@ == splice(old(self)@, gpa as int, final(r)@),
    {
        proof { use_type_invariant(&*self); }
        let start = gpa as usize;
        let r = mmap_slice_mut(&mut self.mmap, start, len);
        proof { lemma_splice_len(old(self)@, gpa as int, final(r)@); }
        r
    }

    pub fn slice(&self, gpa: u64, len: usize) -> (r: &[u8])
        requires
            gpa + len <= self@.len(),
        ensures
            r@ == self@.subrange(gpa as int, gpa + len),
    {
        proof { use_type_invariant(self); }
        mmap_slice(&self.mmap, gpa as usize, len)
    }

    pub fn write_u8(&mut self, gpa: u64, v: u8)
        requires
            gpa + 1 <= old(self)@.len(),
        ensures
            final(self)@ == old(self)@.update(gpa as int, v),
    {
        let b: [u8; 1] = [v];
        self.write(gpa, &b);
        assert(splice(old(self)@, gpa as int, b@) =~= old(self)@.update(gpa as int, v));
    }

    pub fn read_u8(&self, gpa: u64) -> (r: u8)
        requires
            gpa + 1 <= self@.len(),
        ensures
            r == self@[gpa as int],
    {
        let s = self.slice(gpa, 1);
        s[0]
    }

    pub fn write_u16(&mut self, gpa: u64, v: u16)
        requires
            gpa + 2 <= old(self)@.len(),
        ensures
            final(self)@ == splice(old(self)@, gpa as int, spec_u16_to_le_bytes(v)),
    {
        let b = u16_to_le_bytes(v);
        self.write(gpa, b.as_slice());
    }

    pub fn read_u16(&self, gpa: u64) -> (r: u16)
        requires
            gpa + 2 <= self@.len(),
        ensures
            r == mem_u16(self@, gpa as int),
    {
        u16_from_le_bytes(self.slice(gpa, 2))
    }

    pub fn write_u32(&mut self, gpa: u64, v: u32)
        requires
            gpa + 4 <= old(self)@.len(),
        ensures
            final(self)@ == splice(old(self)@, gpa as int, spec_u32_to_le_bytes(v)),
    {
        let b = u32_to_le_bytes(v);
        self.write(gpa, b.as_slice());
    }

    pub fn read_u32(&self, gpa: u64) -> (r: u32)
        requires
            gpa + 4 <= self@.len(),
        ensures
            r == mem_u32(self@, gpa as int),
    {
        u32_from_le_bytes(self.slice(gpa, 4))
    }

    pub fn write_u64(&mut self, gpa: u64, v: u64)
        requires
            gpa + 8 <= old(self)@.len(),
        ensures
            final(self)@ == splice(old(self)@, gpa as int, spec_u64_to_le_bytes(v)),
    {
        let b = u64_to_le_bytes(v);
        self.write(gpa, b.as_slice());
    }

    pub fn read_u64(&self, gpa: u64) -> (r: u64)
        requires
            gpa + 8 <= self@.len(),
        ensures
            r == mem_u64(self@, gpa as int),
    {
        u64_from_le_bytes(self.slice(gpa, 8))
    }
}

} // verus!
