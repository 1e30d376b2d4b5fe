use vstd::prelude::*;

use vstd::bytes::{spec_u16_from_le_bytes, spec_u16_to_le_bytes, spec_u64_from_le_bytes, spec_u64_to_le_bytes, u64_to_le_bytes};

use crate::boot::elf::{ElfLoadResult, LoadedSeg};
use crate::bytes::{splice, zeros, le64s, words_bytes, lemma_le64s_word, lemma_le64s_len, lemma_splice_ranges, lemma_splice_len};
use crate::guest::layout::GuestLayout;
use crate::guest::memory::{GuestMemory, mem_u16, mem_u64};
use crate::vmm::errors::VmmonError;
use crate::boot::limine::spec::{
    LimineMemmapEntry, LIMINE_MEMMAP_USABLE, LIMINE_MEMMAP_RESERVED, LIMINE_MEMMAP_KERNEL_AND_MODULES,
    LIMINE_MEMMAP_BOOTLOADER_RECLAIMABLE, LIMINE_MEMMAP_FRAMEBUFFER, LIMINE_COMMON_MAGIC0,
    LIMINE_COMMON_MAGIC1, LIMINE_MEMMAP_MAGIC2, LIMINE_MEMMAP_MAGIC3, LIMINE_HHDM_MAGIC2, LIMINE_HHDM_MAGIC3,
    LIMINE_FRAMEBUFFER_MAGIC2, LIMINE_FRAMEBUFFER_MAGIC3, LIMINE_REQUEST_RESPONSE_OFF,
};

verus! {

/// The first MiB of guest memory, which the memory map always reserves.
pub const LOW_MEMORY_END: u64 = 0x10_0000;

/// A range of guest physical memory.
#[derive(Clone, Copy, Debug)]
pub struct Range {
    pub base: u64,
    pub len: u64,
}

/// The end of `r`, saturated at the largest address.
pub open spec fn rend(r: Range) -> int {
    if r.base + r.len <= u64::MAX { r.base + r.len } else { u64::MAX as int }
}

impl Range {
    pub fn end(self) -> (r: u64)
        ensures
            r == rend(self),
    {
        self.base.saturating_add(self.len)
    }
}

pub open spec fn covers(r: Range, a: int) -> bool {
    r.base <= a < rend(r)
}

/// Whether some range of `rs` holds address `a`.
pub open spec fn covered(rs: Seq<Range>, a: int) -> bool {
    exists|i: int| 0 <= i < rs.len() && covers(#[trigger] rs[i], a)
}

/// Whether `a` is where some range of `rs` begins.
pub open spec fn is_base(rs: Seq<Range>, a: int) -> bool {
    exists|i: int| 0 <= i < rs.len() && (#[trigger] rs[i]).base == a
}

/// Whether `a` is where some range of `rs` ends.
pub open spec fn is_end(rs: Seq<Range>, a: int) -> bool {
    exists|i: int| 0 <= i < rs.len() && rend(#[trigger] rs[i]) == a
}

/// Whether some range of `rs` begins above `a`.
pub open spec fn below_some_base(rs: Seq<Range>, a: int) -> bool {
    exists|i: int| 0 <= i < rs.len() && a < (#[trigger] rs[i]).base
}

/// The usable entries of a memory map for `mem` bytes of guest memory with the
/// ranges `rs` reserved. They are the free memory above the first MiB that lies
/// below the top of memory or below the start of some reserved range, cut into
/// maximal pieces at the edges of the reserved ranges, in increasing order:
/// every piece is free, every such free address is in a piece, no reserved range
/// begins inside a piece, and each piece starts at 1 MiB or where a reserved range
/// ends and ends at the top of memory or where a reserved range begins.
pub open spec fn usable_gaps(gaps: Seq<LimineMemmapEntry>, rs: Seq<Range>, mem: u64) -> bool {
    &&& forall|i: int| 0 <= i < gaps.len() ==> gap_ok(#[trigger] gaps[i], rs, mem)
    &&& forall|i: int, j: int| 0 <= i < j < gaps.len() ==> gaps[i].base + gaps[i].length <= gaps[j].base
    &&& forall|a: int| #![trigger covered(rs, a)]
        LOW_MEMORY_END <= a && (a < mem || below_some_base(rs, a)) && !covered(rs, a) ==>
        exists|i: int| 0 <= i < gaps.len() && #[trigger] in_entry(gaps[i], a)
}

/// One usable piece: free, above the first MiB, with no reserved range starting
/// inside it, starting at 1 MiB or at the end of a reserved range, and ending at
/// the top of memory or at the start of a reserved range.
#[verifier::opaque]
pub open spec fn gap_ok(g: LimineMemmapEntry, rs: Seq<Range>, mem: u64) -> bool {
    &&& g.typ == LIMINE_MEMMAP_USABLE
    &&& g.length > 0
    &&& LOW_MEMORY_END <= g.base
    &&& forall|a: int| in_entry(g, a) ==> !covered(rs, a)
    &&& forall|a: int| g.base < a < g.base + g.length ==> !is_base(rs, a)
    &&& (g.base == LOW_MEMORY_END || is_end(rs, g.base as int))
    &&& ((g.base + g.length == mem) || is_base(rs, g.base + g.length))
}

pub open spec fn in_entry(e: LimineMemmapEntry, a: int) -> bool {
    e.base <= a < e.base + e.length
}

/// The ranges the memory map keeps from the kernel: the first MiB, the kernel, the
/// boot information and the framebuffer.
pub open spec fn reserved_ranges(kernel: Range, bootinfo: Range, fb: Option<Range>) -> Seq<Range> {
    let base = seq![Range { base: 0, len: LOW_MEMORY_END }, kernel, bootinfo];
    match fb {
        Some(f) => base.push(f),
        None => base,
    }
}

/// The typed entries that close the memory map.
pub open spec fn typed_entries(kernel: Range, bootinfo: Range, fb: Option<Range>) -> Seq<LimineMemmapEntry> {
    let base = seq![
        LimineMemmapEntry { base: kernel.base, length: kernel.len, typ: LIMINE_MEMMAP_KERNEL_AND_MODULES },
        LimineMemmapEntry { base: bootinfo.base, length: bootinfo.len, typ: LIMINE_MEMMAP_BOOTLOADER_RECLAIMABLE },
    ];
    match fb {
        Some(f) => base.push(LimineMemmapEntry { base: f.base, length: f.len, typ: LIMINE_MEMMAP_FRAMEBUFFER }),
        None => base,
    }
}

/// Sorts `v` by base address (stably), keeping its elements.
fn sort_by_base(v: &mut Vec<Range>)
    ensures
        final(v)@.len() == old(v)@.len(),
        forall|i: int, j: int| 0 <= i <= j < final(v)@.len() ==> final(v)@[i].base <= final(v)@[j].base,
        forall|x: Range| final(v)@.contains(x) <==> old(v)@.contains(x),
{
    let n = v.len();
    let mut i: usize = 1;
    while i < n
        invariant
            n == v@.len(),
            n == old(v)@.len(),
            1 <= i || n == 0,
            i <= n || n == 0,
            forall|a: int, b: int| 0 <= a <= b < i && b < n ==> v@[a].base <= v@[b].base,
            forall|x: Range| v@.contains(x) <==> old(v)@.contains(x),
        decreases n - i,
    {
        let mut j = i;
        while j > 0 && v[j - 1].base > v[j].base
            invariant
                n == v@.len(),
                0 <= j <= i < n,
                forall|a: int, b: int| 0 <= a <= b <= i && a != j && b != j ==> v@[a].base <= v@[b].base,
                forall|b: int| j < b <= i ==> v@[j as int].base <= v@[b].base,
                forall|x: Range| v@.contains(x) <==> old(v)@.contains(x),
            decreases j,
        {
            let a = v[j - 1];
            let b = v[j];
            let ghost before = v@;
            v.set(j - 1, b);
            v.set(j, a);
            proof {
                assert(v@ =~= before.update(j - 1, b).update(j as int, a));
                assert forall|x: Range| v@.contains(x) <==> before.contains(x) by {
                    if v@.contains(x) {
                        let k = choose|k: int| 0 <= k < v@.len() && v@[k] == x;
                        if k == j - 1 { assert(before[j as int] == x); } else if k == j { assert(before[j - 1] == x); } else { assert(before[k] == x); }
                    }
                    if before.contains(x) {
                        let k = choose|k: int| 0 <= k < before.len() && before[k] == x;
                        if k == j - 1 { assert(v@[j as int] == x); } else if k == j { assert(v@[j - 1] == x); } else { assert(v@[k] == x); }
                    }
                }
            }
            j -= 1;
        }
        i += 1;
    }
}


/// `ms` is the merge of the ranges `rs`: increasing and separated by free
/// addresses, covering exactly what `rs` covers, with every edge an edge of `rs`
/// and every start of a range of `rs` inside or at an edge of `ms`.
#[verifier::opaque]
pub open spec fn merged_from(ms: Seq<Range>, rs: Seq<Range>) -> bool {
    &&& forall|j: int| 0 <= j < ms.len() - 1 ==> rend(#[trigger] ms[j]) < ms[j + 1].base
    &&& forall|a: int| covered(ms, a) <==> covered(rs, a)
    &&& forall|j: int| 0 <= j < ms.len() ==> is_base(rs, (#[trigger] ms[j]).base as int) && is_end(rs, rend(ms[j]))
    &&& forall|i: int| 0 <= i < rs.len() ==> {
        let b = (#[trigger] rs[i]).base as int;
        covered(ms, b) || is_base(ms, b) || is_end(ms, b)
    }
}

proof fn lemma_covered_push(s: Seq<Range>, r: Range, a: int)
    ensures
        covered(s.push(r), a) <==> (covered(s, a) || covers(r, a)),
{
    if covered(s, a) {
        let i = choose|i: int| 0 <= i < s.len() && covers(s[i], a);
        assert(s.push(r)[i] == s[i]);
    }
    if covers(r, a) {
        assert(s.push(r)[s.len() as int] == r);
    }
    if covered(s.push(r), a) {
        let i = choose|i: int| 0 <= i < s.push(r).len() && covers(s.push(r)[i], a);
        if i < s.len() {
            assert(s[i] == s.push(r)[i]);
        }
    }
}

proof fn lemma_increasing(ms: Seq<Range>, i: int, j: int)
    requires
        forall|k: int| 0 <= k < ms.len() - 1 ==> rend(#[trigger] ms[k]) < ms[k + 1].base,
        0 <= i < j < ms.len(),
    ensures
        rend(ms[i]) < ms[j].base,
    decreases j - i,
{
    if j > i + 1 {
        lemma_increasing(ms, i, j - 1);
        assert(rend(ms[j - 1]) < ms[j].base);
    }
}

#[verifier::spinoff_prover]
#[verifier::rlimit(40)]
proof fn lemma_merge_push(ms: Seq<Range>, p: Seq<Range>, r: Range)
    requires
        merged_from(ms, p),
        ms.len() > 0 ==> rend(ms.last()) < r.base,
    ensures
        merged_from(ms.push(r), p.push(r)),
{
    reveal(merged_from);
    let ms2 = ms.push(r);
    let p2 = p.push(r);
    assert forall|j: int| 0 <= j < ms2.len() - 1 implies rend(#[trigger] ms2[j]) < ms2[j + 1].base by {
        if j < ms.len() - 1 {
            assert(ms2[j] == ms[j] && ms2[j + 1] == ms[j + 1]);
        }
    }
    assert forall|a: int| covered(ms2, a) <==> covered(p2, a) by {
        lemma_covered_push(p, r, a);
        lemma_covered_push(ms, r, a);
    }
    assert forall|j: int| 0 <= j < ms2.len() implies is_base(p2, (#[trigger] ms2[j]).base as int) && is_end(p2, rend(ms2[j])) by {
        if j < ms.len() {
            assert(ms2[j] == ms[j]);
            assert(is_base(p, ms[j].base as int));
            let t = choose|t: int| 0 <= t < p.len() && (#[trigger] p[t]).base == ms[j].base;
            assert(p2[t] == p[t]);
            assert(is_end(p, rend(ms[j])));
            let u = choose|u: int| 0 <= u < p.len() && rend(#[trigger] p[u]) == rend(ms[j]);
            assert(p2[u] == p[u]);
        } else {
            assert(p2[p.len() as int] == r);
        }
    }
    assert forall|i: int| 0 <= i < p2.len() implies {
        let b = (#[trigger] p2[i]).base as int;
        covered(ms2, b) || is_base(ms2, b) || is_end(ms2, b)
    } by {
        let b = p2[i].base as int;
        if i == p.len() {
            assert(ms2[ms.len() as int] == r);
        } else {
            assert(p2[i] == p[i]);
            if covered(ms, b) {
                lemma_covered_push(ms, r, b);
            } else if is_base(ms, b) {
                let t = choose|t: int| 0 <= t < ms.len() && (#[trigger] ms[t]).base == b;
                assert(ms2[t] == ms[t]);
            } else {
                let t = choose|t: int| 0 <= t < ms.len() && rend(#[trigger] ms[t]) == b;
                assert(ms2[t] == ms[t]);
            }
        }
    }
}

#[verifier::spinoff_prover]
#[verifier::rlimit(40)]
proof fn lemma_merge_extend(ms: Seq<Range>, p: Seq<Range>, r: Range, nl: Range)
    requires
        merged_from(ms, p),
        ms.len() > 0,
        ms.last().base <= r.base <= rend(ms.last()),
        nl.base == ms.last().base,
        rend(nl) == (if rend(ms.last()) < rend(r) { rend(r) } else { rend(ms.last()) }),
    ensures
        merged_from(ms.update(ms.len() - 1, nl), p.push(r)),
{
    reveal(merged_from);
    let li = ms.len() - 1;
    let last = ms[li];
    let ms2 = ms.update(li, nl);
    let p2 = p.push(r);
    let new_end = rend(nl);
    assert forall|j: int| 0 <= j < ms2.len() - 1 implies rend(#[trigger] ms2[j]) < ms2[j + 1].base by {
        assert(ms2[j] == ms[j]);
        assert(rend(ms[j]) < ms[j + 1].base);
    }
    assert forall|a: int| covered(ms2, a) <==> covered(p2, a) by {
        lemma_covered_push(p, r, a);
        if covered(ms2, a) {
            let i = choose|i: int| 0 <= i < ms2.len() && covers(ms2[i], a);
            if i == li {
                if !covers(last, a) { assert(covers(r, a)); } else { assert(covered(ms, a)); }
            } else {
                assert(covers(ms[i], a));
                assert(covered(ms, a));
            }
        }
        if covered(p2, a) {
            if covers(r, a) {
                assert(covers(ms2[li], a));
            } else {
                assert(covered(ms, a));
                let i = choose|i: int| 0 <= i < ms.len() && covers(ms[i], a);
                if i == li { assert(covers(ms2[li], a)); } else { assert(ms2[i] == ms[i]); }
            }
        }
    }
    assert forall|j: int| 0 <= j < ms2.len() implies is_base(p2, (#[trigger] ms2[j]).base as int) && is_end(p2, rend(ms2[j])) by {
        assert(is_base(p, ms[j].base as int));
        let t = choose|t: int| 0 <= t < p.len() && (#[trigger] p[t]).base == ms[j].base;
        assert(p2[t] == p[t]);
        if j == li && rend(last) < rend(r) {
            assert(p2[p.len() as int] == r);
        } else {
            assert(is_end(p, rend(ms[j])));
            let u = choose|u: int| 0 <= u < p.len() && rend(#[trigger] p[u]) == rend(ms[j]);
            assert(p2[u] == p[u]);
        }
    }
    assert forall|i: int| 0 <= i < p2.len() implies {
        let b = (#[trigger] p2[i]).base as int;
        covered(ms2, b) || is_base(ms2, b) || is_end(ms2, b)
    } by {
        let b = p2[i].base as int;
        if i == p.len() {
            if b < new_end {
                assert(covers(ms2[li], b));
            } else {
                assert(rend(ms2[li]) == b);
            }
        } else {
            assert(p2[i] == p[i]);
            if covered(ms, b) {
                let t = choose|t: int| 0 <= t < ms.len() && covers(ms[t], b);
                if t == li { assert(covers(ms2[li], b)); } else { assert(covers(ms2[t], b)); }
            } else if is_base(ms, b) {
                let t = choose|t: int| 0 <= t < ms.len() && (#[trigger] ms[t]).base == b;
                assert(ms2[t].base == b);
            } else {
                let t = choose|t: int| 0 <= t < ms.len() && rend(#[trigger] ms[t]) == b;
                if t == li {
                    if b < new_end { assert(covers(ms2[li], b)); } else { assert(rend(ms2[li]) == b); }
                } else {
                    assert(rend(ms2[t]) == b);
                }
            }
        }
    }
}

/// Merges ranges that are sorted by base into separated, increasing ranges.
fn merge_ranges(sorted: &Vec<Range>) -> (ms: Vec<Range>)
    requires
        forall|i: int, j: int| 0 <= i <= j < sorted@.len() ==> sorted@[i].base <= sorted@[j].base,
    ensures
        merged_from(ms@, sorted@),
        ms@.len() <= sorted@.len(),
{
    let mut merged: Vec<Range> = Vec::new();
    let n = sorted.len();
    let mut k: usize = 0;
    proof {
        reveal(merged_from);
        assert(merged_from(merged@, sorted@.subrange(0, 0)));
    }
    while k < n
        invariant
            n == sorted@.len(),
            0 <= k <= n,
            forall|i: int, j: int| 0 <= i <= j < sorted@.len() ==> sorted@[i].base <= sorted@[j].base,
            merged_from(merged@, sorted@.subrange(0, k as int)),
            k > 0 ==> merged@.len() > 0,
            merged@.len() <= k,
        decreases n - k,
    {
        let r = sorted[k];
        let ghost p = sorted@.subrange(0, k as int);
        let ghost ms = merged@;
        proof {
            assert(sorted@.subrange(0, k + 1) =~= p.push(r));
        }
        if merged.len() > 0 && r.base <= merged[merged.len() - 1].end() {
            let li = merged.len() - 1;
            let last = merged[li];
            proof {
                reveal(merged_from);
                assert(is_base(p, last.base as int));
                let t = choose|t: int| 0 <= t < p.len() && (#[trigger] p[t]).base == last.base;
                assert(sorted@[t].base <= sorted@[k as int].base);
            }
            let e1 = last.end();
            let e2 = r.end();
            let new_end = if e1 < e2 { e2 } else { e1 };
            let nl = Range { base: last.base, len: new_end - last.base };
            merged.set(li, nl);
            proof {
                lemma_merge_extend(ms, p, r, nl);
                assert(merged@ =~= ms.update(li as int, nl));
            }
        } else {
            merged.push(r);
            proof {
                lemma_merge_push(ms, p, r);
            }
        }
        k += 1;
    }
    proof {
        assert(sorted@.subrange(0, n as int) =~= sorted@);
    }
    merged
}


/// The state of the gap search after the first `j` merged ranges: `cur` is the
/// first address not yet accounted for.
#[verifier::opaque]
pub open spec fn gap_inv(gaps: Seq<LimineMemmapEntry>, ms: Seq<Range>, rs: Seq<Range>, mem: u64, j: int, cur: int) -> bool {
    &&& LOW_MEMORY_END <= cur <= u64::MAX
    &&& 0 <= j <= ms.len()
    &&& gaps.len() <= j
    &&& forall|i: int| 0 <= i < j ==> rend(#[trigger] ms[i]) <= cur
    &&& (cur == LOW_MEMORY_END || is_end(rs, cur))
    &&& j < ms.len() ==> cur < ms[j].base || cur == LOW_MEMORY_END
    &&& forall|i: int| 0 <= i < gaps.len() ==> gap_ok(#[trigger] gaps[i], rs, mem) && gaps[i].base + gaps[i].length <= cur
    &&& forall|i: int, k: int| 0 <= i < k < gaps.len() ==> gaps[i].base + gaps[i].length <= gaps[k].base
    &&& forall|a: int| LOW_MEMORY_END <= a < cur && !covered(rs, a) ==>
        exists|i: int| 0 <= i < gaps.len() && #[trigger] in_entry(gaps[i], a)
}

pub open spec fn separated(ms: Seq<Range>) -> bool {
    forall|j: int| 0 <= j < ms.len() - 1 ==> rend(#[trigger] ms[j]) < ms[j + 1].base
}

proof fn lemma_merged_separated(ms: Seq<Range>, rs: Seq<Range>)
    requires
        merged_from(ms, rs),
    ensures
        separated(ms),
        forall|j: int| 0 <= j < ms.len() ==> is_base(rs, (#[trigger] ms[j]).base as int) && is_end(rs, rend(ms[j])),
{
    reveal(merged_from);
}

proof fn lemma_merged_cover(ms: Seq<Range>, rs: Seq<Range>, a: int)
    requires
        merged_from(ms, rs),
    ensures
        covered(ms, a) <==> covered(rs, a),
{
    reveal(merged_from);
}

proof fn lemma_merged_facts(ms: Seq<Range>, rs: Seq<Range>)
    requires
        merged_from(ms, rs),
    ensures
        separated(ms),
        forall|a: int| covered(ms, a) <==> covered(rs, a),
        forall|j: int| 0 <= j < ms.len() ==> is_base(rs, (#[trigger] ms[j]).base as int) && is_end(rs, rend(ms[j])),
        forall|i: int| 0 <= i < rs.len() ==> {
            let b = (#[trigger] rs[i]).base as int;
            covered(ms, b) || is_base(ms, b) || is_end(ms, b)
        },
{
    reveal(merged_from);
}

proof fn lemma_ms_not_covered(ms: Seq<Range>, j: int, lo: int, hi: int, a: int)
    requires
        separated(ms),
        0 <= j <= ms.len(),
        forall|i: int| 0 <= i < j ==> rend(#[trigger] ms[i]) <= lo,
        j < ms.len() ==> hi <= ms[j].base,
        lo <= a < hi,
    ensures
        !covered(ms, a),
        !is_base(ms, a) || a == lo,
        !is_end(ms, a) || a == lo,
{
    if covered(ms, a) {
        let i = choose|i: int| 0 <= i < ms.len() && covers(ms[i], a);
        if i > j {
            lemma_increasing(ms, j, i);
        }
    }
    if is_base(ms, a) && a != lo {
        let i = choose|i: int| 0 <= i < ms.len() && (#[trigger] ms[i]).base == a;
        if i > j {
            lemma_increasing(ms, j, i);
        }
    }
    if is_end(ms, a) && a != lo {
        let i = choose|i: int| 0 <= i < ms.len() && rend(#[trigger] ms[i]) == a;
        if i > j {
            lemma_increasing(ms, j, i);
        }
    }
}

proof fn lemma_not_covered_between(ms: Seq<Range>, rs: Seq<Range>, j: int, lo: int, hi: int, a: int)
    requires
        merged_from(ms, rs),
        0 <= j <= ms.len(),
        forall|i: int| 0 <= i < j ==> rend(#[trigger] ms[i]) <= lo,
        j < ms.len() ==> hi <= ms[j].base,
        lo <= a < hi,
    ensures
        !covered(rs, a),
        !is_base(rs, a) || a == lo,
{
    lemma_merged_facts(ms, rs);
    lemma_ms_not_covered(ms, j, lo, hi, a);
    if is_base(rs, a) && a != lo {
        let t = choose|t: int| 0 <= t < rs.len() && (#[trigger] rs[t]).base == a;
        assert(covered(ms, a) || is_base(ms, a) || is_end(ms, a));
    }
}

proof fn lemma_gap_skip(gaps: Seq<LimineMemmapEntry>, ms: Seq<Range>, rs: Seq<Range>, mem: u64, j: int, cur: int)
    requires
        merged_from(ms, rs),
        gap_inv(gaps, ms, rs, mem, j, cur),
        j < ms.len(),
        rend(ms[j]) <= LOW_MEMORY_END,
    ensures
        gap_inv(gaps, ms, rs, mem, j + 1, cur),
{
    lemma_merged_separated(ms, rs);
    reveal(gap_inv);
    if j + 1 < ms.len() {
        assert(rend(ms[j]) < ms[j + 1].base);
    }
}

proof fn lemma_gap_cover(gaps: Seq<LimineMemmapEntry>, ms: Seq<Range>, rs: Seq<Range>, mem: u64, j: int, cur: int)
    requires
        merged_from(ms, rs),
        gap_inv(gaps, ms, rs, mem, j, cur),
        j < ms.len(),
        LOW_MEMORY_END < rend(ms[j]),
        ms[j].base <= cur || ms[j].base <= LOW_MEMORY_END,
    ensures
        gap_inv(gaps, ms, rs, mem, j + 1, if cur < rend(ms[j]) { rend(ms[j]) } else { cur }),
{
    lemma_merged_separated(ms, rs);
    reveal(gap_inv);
    let r = ms[j];
    let cur2 = if cur < rend(r) { rend(r) } else { cur };
    assert(is_end(rs, rend(r)));
    if j + 1 < ms.len() {
        assert(rend(ms[j]) < ms[j + 1].base);
    }
    assert forall|a: int| LOW_MEMORY_END <= a < cur2 && !covered(rs, a) implies
        exists|i: int| 0 <= i < gaps.len() && #[trigger] in_entry(gaps[i], a) by {
        if a >= cur {
            assert(covers(r, a));
            assert(covered(ms, a));
            lemma_merged_cover(ms, rs, a);
        }
    }
    assert forall|i: int| 0 <= i < j + 1 implies rend(#[trigger] ms[i]) <= cur2 by {}
}

proof fn lemma_new_gap_ok(ms: Seq<Range>, rs: Seq<Range>, mem: u64, j: int, cur: int, g: LimineMemmapEntry)
    requires
        merged_from(ms, rs),
        LOW_MEMORY_END <= cur,
        cur == LOW_MEMORY_END || is_end(rs, cur),
        0 <= j <= ms.len(),
        forall|i: int| 0 <= i < j ==> rend(#[trigger] ms[i]) <= cur,
        j < ms.len() ==> g.base + g.length <= ms[j].base,
        g.base == cur,
        g.length > 0,
        g.typ == LIMINE_MEMMAP_USABLE,
        g.base + g.length == mem || is_base(rs, g.base + g.length),
    ensures
        gap_ok(g, rs, mem),
{
    reveal(gap_ok);
    let hi = g.base + g.length;
    assert forall|a: int| in_entry(g, a) implies !covered(rs, a) by {
        lemma_not_covered_between(ms, rs, j, cur, hi, a);
    }
    assert forall|a: int| g.base < a < g.base + g.length implies !is_base(rs, a) by {
        lemma_not_covered_between(ms, rs, j, cur, hi, a);
    }
}

proof fn lemma_gap_push(gaps: Seq<LimineMemmapEntry>, ms: Seq<Range>, rs: Seq<Range>, mem: u64, j: int, cur: int)
    requires
        merged_from(ms, rs),
        gap_inv(gaps, ms, rs, mem, j, cur),
        j < ms.len(),
        LOW_MEMORY_END < ms[j].base,
        cur < ms[j].base,
    ensures
        gap_inv(
            gaps.push(LimineMemmapEntry { base: cur as u64, length: (ms[j].base - cur) as u64, typ: LIMINE_MEMMAP_USABLE }),
            ms, rs, mem, j + 1, rend(ms[j]),
        ),
{
    lemma_merged_separated(ms, rs);
    reveal(gap_inv);
    let r = ms[j];
    let g = LimineMemmapEntry { base: cur as u64, length: (r.base - cur) as u64, typ: LIMINE_MEMMAP_USABLE };
    let gaps2 = gaps.push(g);
    let cur2 = rend(r);
    assert(is_base(rs, r.base as int));
    assert(is_end(rs, rend(r)));
    if j + 1 < ms.len() {
        assert(rend(ms[j]) < ms[j + 1].base);
    }
    lemma_new_gap_ok(ms, rs, mem, j, cur, g);
    assert forall|i: int| 0 <= i < gaps2.len() implies gap_ok(#[trigger] gaps2[i], rs, mem) && gaps2[i].base + gaps2[i].length <= cur2 by {
        if i < gaps.len() { assert(gaps2[i] == gaps[i]); }
    }
    assert forall|i: int, k: int| 0 <= i < k < gaps2.len() implies gaps2[i].base + gaps2[i].length <= gaps2[k].base by {
        if k < gaps.len() { assert(gaps2[i] == gaps[i] && gaps2[k] == gaps[k]); } else { assert(gaps2[i] == gaps[i]); }
    }
    assert forall|a: int| LOW_MEMORY_END <= a < cur2 && !covered(rs, a) implies
        exists|i: int| 0 <= i < gaps2.len() && #[trigger] in_entry(gaps2[i], a) by {
        if a < cur {
            let i = choose|i: int| 0 <= i < gaps.len() && #[trigger] in_entry(gaps[i], a);
            assert(gaps2[i] == gaps[i]);
        } else if a < r.base {
            assert(in_entry(gaps2[gaps.len() as int], a));
        } else {
            assert(covers(r, a));
            assert(covered(ms, a));
            lemma_merged_cover(ms, rs, a);
        }
    }
    assert forall|i: int| 0 <= i < j + 1 implies rend(#[trigger] ms[i]) <= cur2 by {
        if i < j { lemma_increasing(ms, i, j); }
    }
}

proof fn lemma_gap_ordered(gaps: Seq<LimineMemmapEntry>, ms: Seq<Range>, rs: Seq<Range>, mem: u64, j: int, cur: int)
    requires
        gap_inv(gaps, ms, rs, mem, j, cur),
        j < ms.len(),
    ensures
        cur < ms[j].base || cur == LOW_MEMORY_END,
        LOW_MEMORY_END <= cur <= u64::MAX,
{
    reveal(gap_inv);
}

proof fn lemma_gap_finish(gaps: Seq<LimineMemmapEntry>, ms: Seq<Range>, rs: Seq<Range>, mem: u64, cur: int)
    requires
        merged_from(ms, rs),
        gap_inv(gaps, ms, rs, mem, ms.len() as int, cur),
    ensures
        cur < mem ==> usable_gaps(gaps.push(LimineMemmapEntry { base: cur as u64, length: (mem - cur) as u64, typ: LIMINE_MEMMAP_USABLE }), rs, mem),
        cur >= mem ==> usable_gaps(gaps, rs, mem),
        gaps.len() <= ms.len(),
{
    reveal(gap_inv);
    lemma_bases_below(ms, rs, cur);
    if cur < mem {
        let g = LimineMemmapEntry { base: cur as u64, length: (mem - cur) as u64, typ: LIMINE_MEMMAP_USABLE };
        let gaps2 = gaps.push(g);
        lemma_new_gap_ok(ms, rs, mem, ms.len() as int, cur, g);
        assert forall|i: int| 0 <= i < gaps2.len() implies gap_ok(#[trigger] gaps2[i], rs, mem) by {
            if i < gaps.len() { assert(gaps2[i] == gaps[i]); }
        }
        assert forall|i: int, k: int| 0 <= i < k < gaps2.len() implies gaps2[i].base + gaps2[i].length <= gaps2[k].base by {
            if k < gaps.len() { assert(gaps2[i] == gaps[i] && gaps2[k] == gaps[k]); } else { assert(gaps2[i] == gaps[i]); }
        }
        assert forall|a: int| #![trigger covered(rs, a)]
            LOW_MEMORY_END <= a && (a < mem || below_some_base(rs, a)) && !covered(rs, a) implies
            exists|i: int| 0 <= i < gaps2.len() && #[trigger] in_entry(gaps2[i], a) by {
            if a < cur {
                let i = choose|i: int| 0 <= i < gaps.len() && #[trigger] in_entry(gaps[i], a);
                assert(gaps2[i] == gaps[i]);
            } else if a < mem {
                assert(in_entry(gaps2[gaps.len() as int], a));
            } else {
                let i = choose|i: int| 0 <= i < rs.len() && a < (#[trigger] rs[i]).base;
                assert(rs[i].base <= cur);
            }
        }
    } else {
        assert forall|a: int| #![trigger covered(rs, a)]
            LOW_MEMORY_END <= a && (a < mem || below_some_base(rs, a)) && !covered(rs, a) implies
            exists|i: int| 0 <= i < gaps.len() && #[trigger] in_entry(gaps[i], a) by {
            if !(a < mem) {
                let i = choose|i: int| 0 <= i < rs.len() && a < (#[trigger] rs[i]).base;
                assert(rs[i].base <= cur);
            }
        }
    }
}

/// Every reserved range begins at or below `cur` once every merged range ends there.
proof fn lemma_bases_below(ms: Seq<Range>, rs: Seq<Range>, cur: int)
    requires
        merged_from(ms, rs),
        forall|i: int| 0 <= i < ms.len() ==> rend(#[trigger] ms[i]) <= cur,
    ensures
        forall|i: int| 0 <= i < rs.len() ==> (#[trigger] rs[i]).base <= cur,
{
    lemma_merged_facts(ms, rs);
    assert forall|i: int| 0 <= i < rs.len() implies (#[trigger] rs[i]).base <= cur by {
        let b = rs[i].base as int;
        if covered(ms, b) {
            let k = choose|k: int| 0 <= k < ms.len() && covers(#[trigger] ms[k], b);
        } else if is_base(ms, b) {
            let k = choose|k: int| 0 <= k < ms.len() && (#[trigger] ms[k]).base == b;
            assert(rend(ms[k]) >= ms[k].base);
        } else {
            let k = choose|k: int| 0 <= k < ms.len() && rend(#[trigger] ms[k]) == b;
        }
    }
}

proof fn lemma_merged_same(ms: Seq<Range>, s1: Seq<Range>, s2: Seq<Range>)
    requires
        merged_from(ms, s1),
        forall|x: Range| s1.contains(x) <==> s2.contains(x),
    ensures
        merged_from(ms, s2),
{
    reveal(merged_from);
    lemma_same_elements(s1, s2);
    assert forall|i: int| 0 <= i < s2.len() implies {
        let b = (#[trigger] s2[i]).base as int;
        covered(ms, b) || is_base(ms, b) || is_end(ms, b)
    } by {
        assert(s2.contains(s2[i]));
        let k = choose|k: int| 0 <= k < s1.len() && s1[k] == s2[i];
    }
}

proof fn lemma_same_elements(s1: Seq<Range>, s2: Seq<Range>)
    requires
        forall|x: Range| s1.contains(x) <==> s2.contains(x),
    ensures
        forall|a: int| covered(s1, a) <==> covered(s2, a),
        forall|a: int| is_base(s1, a) <==> is_base(s2, a),
        forall|a: int| is_end(s1, a) <==> is_end(s2, a),
{
    assert forall|a: int| covered(s1, a) implies covered(s2, a) by {
        let i = choose|i: int| 0 <= i < s1.len() && covers(s1[i], a);
        assert(s1.contains(s1[i]));
        let k = choose|k: int| 0 <= k < s2.len() && s2[k] == s1[i];
    }
    assert forall|a: int| covered(s2, a) implies covered(s1, a) by {
        let i = choose|i: int| 0 <= i < s2.len() && covers(s2[i], a);
        assert(s2.contains(s2[i]));
        let k = choose|k: int| 0 <= k < s1.len() && s1[k] == s2[i];
    }
    assert forall|a: int| is_base(s1, a) implies is_base(s2, a) by {
        let i = choose|i: int| 0 <= i < s1.len() && (#[trigger] s1[i]).base == a;
        assert(s1.contains(s1[i]));
        let k = choose|k: int| 0 <= k < s2.len() && s2[k] == s1[i];
    }
    assert forall|a: int| is_base(s2, a) implies is_base(s1, a) by {
        let i = choose|i: int| 0 <= i < s2.len() && (#[trigger] s2[i]).base == a;
        assert(s2.contains(s2[i]));
        let k = choose|k: int| 0 <= k < s1.len() && s1[k] == s2[i];
    }
    assert forall|a: int| is_end(s1, a) implies is_end(s2, a) by {
        let i = choose|i: int| 0 <= i < s1.len() && rend(#[trigger] s1[i]) == a;
        assert(s1.contains(s1[i]));
        let k = choose|k: int| 0 <= k < s2.len() && s2[k] == s1[i];
    }
    assert forall|a: int| is_end(s2, a) implies is_end(s1, a) by {
        let i = choose|i: int| 0 <= i < s2.len() && rend(#[trigger] s2[i]) == a;
        assert(s2.contains(s2[i]));
        let k = choose|k: int| 0 <= k < s1.len() && s1[k] == s2[i];
    }
}

/// The memory map for `guest_mem_size` bytes with the kernel, boot information and
/// (optionally) framebuffer ranges: the first MiB reserved, then the usable memory
/// that no range covers, then the typed entries of the three ranges.
pub fn build_memmap_entries(
    guest_mem_size: u64,
    kernel_ranges: Range,
    bootinfo_ranges: Range,
    framebuffer_ranges: Option<Range>,
) -> (entries: Vec<LimineMemmapEntry>)
    ensures
        memmap_ok(entries@, guest_mem_size, kernel_ranges, bootinfo_ranges, framebuffer_ranges),
        entries@.len() <= 9,
{
    let ghost rs = reserved_ranges(kernel_ranges, bootinfo_ranges, framebuffer_ranges);
    let mut reserved: Vec<Range> = Vec::new();
    reserved.push(Range { base: 0, len: LOW_MEMORY_END });
    reserved.push(kernel_ranges);
    reserved.push(bootinfo_ranges);
    if let Some(fb) = framebuffer_ranges {
        reserved.push(fb);
    }
    assert(reserved@ =~= rs);
    sort_by_base(&mut reserved);
    let merged = merge_ranges(&reserved);
    proof {
        lemma_merged_same(merged@, reserved@, rs);
        reveal(gap_inv);
        assert(gap_inv(Seq::empty(), merged@, rs, guest_mem_size, 0, LOW_MEMORY_END as int)) by {
            reveal(merged_from);
            if merged@.len() > 0 && merged@[0].base <= LOW_MEMORY_END {
            }
        }
    }
    let mut entries: Vec<LimineMemmapEntry> = Vec::new();
    entries.push(LimineMemmapEntry { base: 0, length: LOW_MEMORY_END, typ: LIMINE_MEMMAP_RESERVED });
    let mut cur: u64 = LOW_MEMORY_END;
    let n = merged.len();
    let mut j: usize = 0;
    assert(entries@.subrange(1, entries@.len() as int) =~= Seq::<LimineMemmapEntry>::empty());
    while j < n
        invariant
            n == merged@.len(),
            merged_from(merged@, rs),
            entries@.len() >= 1,
            entries@[0] == (LimineMemmapEntry { base: 0, length: LOW_MEMORY_END, typ: LIMINE_MEMMAP_RESERVED }),
            gap_inv(entries@.subrange(1, entries@.len() as int), merged@, rs, guest_mem_size, j as int, cur as int),
        decreases n - j,
    {
        let r = merged[j];
        let ghost gaps = entries@.subrange(1, entries@.len() as int);
        if r.end() > LOW_MEMORY_END {
            let r0 = if r.base < LOW_MEMORY_END { LOW_MEMORY_END } else { r.base };
            proof { lemma_gap_ordered(gaps, merged@, rs, guest_mem_size, j as int, cur as int); }
            if cur < r0 {
                let g = LimineMemmapEntry { base: cur, length: r0 - cur, typ: LIMINE_MEMMAP_USABLE };
                proof {
                    lemma_gap_push(gaps, merged@, rs, guest_mem_size, j as int, cur as int);
                }
                entries.push(g);
                assert(entries@.subrange(1, entries@.len() as int) =~= gaps.push(g));
                cur = r.end();
            } else {
                proof { lemma_gap_cover(gaps, merged@, rs, guest_mem_size, j as int, cur as int); }
                let e = r.end();
                if cur < e {
                    cur = e;
                }
            }
        } else {
            proof { lemma_gap_skip(gaps, merged@, rs, guest_mem_size, j as int, cur as int); }
        }
        j += 1;
    }
    let ghost gaps = entries@.subrange(1, entries@.len() as int);
    proof { lemma_gap_finish(gaps, merged@, rs, guest_mem_size, cur as int); }
    if cur < guest_mem_size {
        let g = LimineMemmapEntry { base: cur, length: guest_mem_size - cur, typ: LIMINE_MEMMAP_USABLE };
        entries.push(g);
        assert(entries@.subrange(1, entries@.len() as int) =~= gaps.push(g));
    }
    let ghost mid = entries@;
    entries.push(LimineMemmapEntry { base: kernel_ranges.base, length: kernel_ranges.len, typ: LIMINE_MEMMAP_KERNEL_AND_MODULES });
    entries.push(LimineMemmapEntry {
        base: bootinfo_ranges.base,
        length: bootinfo_ranges.len,
        typ: LIMINE_MEMMAP_BOOTLOADER_RECLAIMABLE,
    });
    if let Some(fb) = framebuffer_ranges {
        entries.push(LimineMemmapEntry { base: fb.base, length: fb.len, typ: LIMINE_MEMMAP_FRAMEBUFFER });
    }
    proof {
        let t = typed_entries(kernel_ranges, bootinfo_ranges, framebuffer_ranges);
        let nn = entries@.len();
        assert(entries@ =~= mid + t);
        assert(entries@.subrange(nn - t.len(), nn as int) =~= t);
        assert(entries@.subrange(1, nn - t.len()) =~= mid.subrange(1, mid.len() as int));
        reveal(memmap_ok);
    }
    entries
}


/// Usable pieces from `lo` on: each a piece as `usable_gaps` describes it, in
/// increasing order, none starting below `lo`, and every address from `lo` on that
/// `usable_gaps` asks to be covered lies in one of them.
pub open spec fn gaps_from(gaps: Seq<LimineMemmapEntry>, rs: Seq<Range>, mem: u64, lo: int) -> bool {
    &&& forall|i: int| 0 <= i < gaps.len() ==> gap_ok(#[trigger] gaps[i], rs, mem)
    &&& forall|i: int, j: int| 0 <= i < j < gaps.len() ==> gaps[i].base + gaps[i].length <= gaps[j].base
    &&& forall|i: int| 0 <= i < gaps.len() ==> lo <= (#[trigger] gaps[i]).base
    &&& forall|a: int| #![trigger covered(rs, a)]
        lo <= a && LOW_MEMORY_END <= a && (a < mem || below_some_base(rs, a)) && !covered(rs, a) ==>
        exists|i: int| 0 <= i < gaps.len() && #[trigger] in_entry(gaps[i], a)
}

/// Every address of a usable piece is free, above 1 MiB, and below the top of
/// memory or below the start of a reserved range.
proof fn lemma_gap_points(g: LimineMemmapEntry, rs: Seq<Range>, mem: u64, a: int)
    requires
        gap_ok(g, rs, mem),
        in_entry(g, a),
    ensures
        LOW_MEMORY_END <= a,
        a < mem || below_some_base(rs, a),
        !covered(rs, a),
{
    reveal(gap_ok);
    if g.base + g.length != mem {
        let i = choose|i: int| 0 <= i < rs.len() && (#[trigger] rs[i]).base == g.base + g.length;
        assert(a < rs[i].base);
    }
}

/// Two lists of usable pieces from `lo` on are the same list.
proof fn lemma_gaps_from_unique(g: Seq<LimineMemmapEntry>, h: Seq<LimineMemmapEntry>, rs: Seq<Range>, mem: u64, lo: int)
    requires
        gaps_from(g, rs, mem, lo),
        gaps_from(h, rs, mem, lo),
    ensures
        g == h,
    decreases g.len() + h.len(),
{
    if g.len() == 0 || h.len() == 0 {
        reveal(gap_ok);
        if h.len() > 0 {
            assert(gap_ok(h[0], rs, mem));
            assert(in_entry(h[0], h[0].base as int));
            lemma_gap_points(h[0], rs, mem, h[0].base as int);
            assert(!covered(rs, h[0].base as int));
        }
        if g.len() > 0 {
            assert(gap_ok(g[0], rs, mem));
            assert(in_entry(g[0], g[0].base as int));
            lemma_gap_points(g[0], rs, mem, g[0].base as int);
            assert(!covered(rs, g[0].base as int));
        }
        assert(g =~= h);
    } else {
        let g0 = g[0];
        let h0 = h[0];
        lemma_first_gap_same(g, h, rs, mem, lo);
        lemma_first_gap_same(h, g, rs, mem, lo);
        reveal(gap_ok);
        let ge = g0.base + g0.length;
        let he = h0.base + h0.length;
        assert(g0.base == h0.base);
        lemma_end_inside(g, h, rs, mem, lo);
        lemma_end_inside(h, g, rs, mem, lo);
        assert(g0 == h0);
        let g1 = g.drop_first();
        let h1 = h.drop_first();
        assert forall|i: int| 0 <= i < g1.len() implies ge <= (#[trigger] g1[i]).base by {
            assert(g1[i] == g[i + 1]);
        }
        assert forall|i: int| 0 <= i < h1.len() implies ge <= (#[trigger] h1[i]).base by {
            assert(h1[i] == h[i + 1]);
        }
        assert forall|a: int| #![trigger covered(rs, a)]
            ge <= a && LOW_MEMORY_END <= a && (a < mem || below_some_base(rs, a)) && !covered(rs, a) implies
            exists|i: int| 0 <= i < g1.len() && #[trigger] in_entry(g1[i], a) by {
            let i = choose|i: int| 0 <= i < g.len() && #[trigger] in_entry(g[i], a);
            assert(i != 0);
            assert(g1[i - 1] == g[i]);
        }
        assert forall|a: int| #![trigger covered(rs, a)]
            ge <= a && LOW_MEMORY_END <= a && (a < mem || below_some_base(rs, a)) && !covered(rs, a) implies
            exists|i: int| 0 <= i < h1.len() && #[trigger] in_entry(h1[i], a) by {
            let i = choose|i: int| 0 <= i < h.len() && #[trigger] in_entry(h[i], a);
            assert(i != 0);
            assert(h1[i - 1] == h[i]);
        }
        assert forall|i: int, j: int| 0 <= i < j < g1.len() implies g1[i].base + g1[i].length <= g1[j].base by {
            assert(g1[i] == g[i + 1] && g1[j] == g[j + 1]);
        }
        assert forall|i: int, j: int| 0 <= i < j < h1.len() implies h1[i].base + h1[i].length <= h1[j].base by {
            assert(h1[i] == h[i + 1] && h1[j] == h[j + 1]);
        }
        assert forall|i: int| 0 <= i < g1.len() implies gap_ok(#[trigger] g1[i], rs, mem) by {
            assert(g1[i] == g[i + 1]);
        }
        assert forall|i: int| 0 <= i < h1.len() implies gap_ok(#[trigger] h1[i], rs, mem) by {
            assert(h1[i] == h[i + 1]);
        }
        lemma_gaps_from_unique(g1, h1, rs, mem, ge);
        assert(g =~= seq![g0] + g1);
        assert(h =~= seq![h0] + h1);
    }
}

/// The first pieces of two lists from `lo` on begin at the same address.
proof fn lemma_first_gap_same(g: Seq<LimineMemmapEntry>, h: Seq<LimineMemmapEntry>, rs: Seq<Range>, mem: u64, lo: int)
    requires
        gaps_from(g, rs, mem, lo),
        gaps_from(h, rs, mem, lo),
        g.len() > 0,
        h.len() > 0,
    ensures
        g[0].base <= h[0].base,
{
    let a = h[0].base as int;
    reveal(gap_ok);
    assert(gap_ok(h[0], rs, mem));
    assert(in_entry(h[0], a));
    lemma_gap_points(h[0], rs, mem, a);
    assert(!covered(rs, a));
    let i = choose|i: int| 0 <= i < g.len() && #[trigger] in_entry(g[i], a);
    if i > 0 {
        assert(g[0].base + g[0].length <= g[i].base);
    }
}

/// When the first pieces of two lists begin at the same address, that of `g` does
/// not end inside that of `h`.
proof fn lemma_end_inside(g: Seq<LimineMemmapEntry>, h: Seq<LimineMemmapEntry>, rs: Seq<Range>, mem: u64, lo: int)
    requires
        gaps_from(g, rs, mem, lo),
        gaps_from(h, rs, mem, lo),
        g.len() > 0,
        h.len() > 0,
        g[0].base == h[0].base,
    ensures
        g[0].base + g[0].length >= h[0].base + h[0].length,
{
    if g[0].base + g[0].length < h[0].base + h[0].length {
        lemma_end_inside_contra(g, h, rs, mem, lo);
    }
}

proof fn lemma_end_inside_contra(g: Seq<LimineMemmapEntry>, h: Seq<LimineMemmapEntry>, rs: Seq<Range>, mem: u64, lo: int)
    requires
        gaps_from(g, rs, mem, lo),
        gaps_from(h, rs, mem, lo),
        g.len() > 0,
        h.len() > 0,
        g[0].base == h[0].base,
        g[0].base + g[0].length < h[0].base + h[0].length,
    ensures
        g[0].base + g[0].length >= h[0].base + h[0].length,
{
    let g0 = g[0];
    let h0 = h[0];
    let y = g0.base + g0.length;
    reveal(gap_ok);
    assert(gap_ok(g0, rs, mem));
    assert(gap_ok(h0, rs, mem));
    assert(h0.base < y < h0.base + h0.length);
    if is_base(rs, y) {
        assert(!is_base(rs, y));
    }
    assert(y == mem);
    assert(in_entry(h0, y));
    lemma_gap_points(h0, rs, mem, y);
    assert(!covered(rs, y));
    let i = choose|i: int| 0 <= i < g.len() && #[trigger] in_entry(g[i], y);
    assert(i != 0);
    assert(g0.base + g0.length <= g[i].base);
    let gi = g[i];
    assert(gap_ok(gi, rs, mem));
    assert(gi.base == y);
    assert(is_end(rs, y));
    let k = choose|k: int| 0 <= k < rs.len() && rend(#[trigger] rs[k]) == y;
    if rs[k].base < y {
        assert(covers(rs[k], y - 1));
        assert(in_entry(g0, y - 1));
        assert(!covered(rs, y - 1));
    } else if rs[k].base == y {
        assert(is_base(rs, y));
    }
}

/// The usable pieces of a memory map are determined by the reserved ranges and
/// the size of memory: two lists that both fit the description are equal.
pub proof fn law_usable_gaps_unique(g: Seq<LimineMemmapEntry>, h: Seq<LimineMemmapEntry>, rs: Seq<Range>, mem: u64)
    requires
        usable_gaps(g, rs, mem),
        usable_gaps(h, rs, mem),
    ensures
        g == h,
{
    reveal(gap_ok);
    assert forall|i: int| 0 <= i < g.len() implies LOW_MEMORY_END <= (#[trigger] g[i]).base by {
        assert(gap_ok(g[i], rs, mem));
    }
    assert forall|i: int| 0 <= i < h.len() implies LOW_MEMORY_END <= (#[trigger] h[i]).base by {
        assert(gap_ok(h[i], rs, mem));
    }
    lemma_gaps_from_unique(g, h, rs, mem, LOW_MEMORY_END as int);
}

/// The memory map is determined by the size of memory and the kernel, boot
/// information and framebuffer ranges: two lists that both fit `memmap_ok` are
/// equal, so `build_memmap_entries` gives the one list that does.
pub proof fn law_memmap_unique(
    es1: Seq<LimineMemmapEntry>,
    es2: Seq<LimineMemmapEntry>,
    mem: u64,
    kernel: Range,
    bootinfo: Range,
    fb: Option<Range>,
)
    requires
        memmap_ok(es1, mem, kernel, bootinfo, fb),
        memmap_ok(es2, mem, kernel, bootinfo, fb),
    ensures
        es1 == es2,
{
    reveal(memmap_ok);
    let t = typed_entries(kernel, bootinfo, fb);
    let n1 = es1.len();
    let n2 = es2.len();
    let g1 = es1.subrange(1, n1 - t.len());
    let g2 = es2.subrange(1, n2 - t.len());
    law_usable_gaps_unique(g1, g2, reserved_ranges(kernel, bootinfo, fb), mem);
    assert(n1 == n2);
    assert forall|i: int| 0 <= i < n1 implies es1[i] == es2[i] by {
        if i == 0 {
        } else if i < n1 - t.len() {
            assert(es1[i] == g1[i - 1]);
            assert(es2[i] == g2[i - 1]);
        } else {
            assert(es1[i] == es1.subrange(n1 - t.len(), n1 as int)[i - (n1 - t.len())]);
            assert(es2[i] == es2.subrange(n2 - t.len(), n2 as int)[i - (n2 - t.len())]);
        }
    }
    assert(es1 =~= es2);
}

// ---------------------------------------------------------------------------
// Alignment and the boot-information allocator
// ---------------------------------------------------------------------------

pub open spec fn align_down_spec(x: u64, a: u64) -> u64 {
    x & !((a - 1) as u64)
}

pub open spec fn align_up_spec(x: u64, a: u64) -> u64 {
    ((x + (a - 1)) as u64) & !((a - 1) as u64)
}

pub fn align_down(x: u64, a: u64) -> (r: u64)
    requires
        a > 0,
    ensures
        r == align_down_spec(x, a),
{
    x & !(a - 1)
}

pub fn align_up(x: u64, a: u64) -> (r: u64)
    requires
        a > 0,
        x + (a - 1) <= u64::MAX,
    ensures
        r == align_up_spec(x, a),
{
    (x + (a - 1)) & !(a - 1)
}

/// Rounding to pages and to 8 bytes gives the nearest multiple at or below / at or above.
pub proof fn lemma_align_facts(x: u64)
    ensures
        align_down_spec(x, 0x1000) == x - x % 0x1000,
        x + 0xfff <= u64::MAX ==> align_up_spec(x, 0x1000) == x + 0xfff - (x + 0xfff) % 0x1000,
        x + 7 <= u64::MAX ==> align_up_spec(x, 8) == x + 7 - (x + 7) % 8,
{
    assert(x & !0xfffu64 == x - x % 0x1000) by (bit_vector);
    assert(x + 0xfff <= u64::MAX ==> ((x + 0xfff) as u64) & !0xfffu64 == x + 0xfff - (x + 0xfff) % 0x1000) by (bit_vector);
    assert(x + 7 <= u64::MAX ==> ((x + 7) as u64) & !7u64 == x + 7 - (x + 7) % 8) by (bit_vector);
}

/// A bump allocator over guest memory `[cur, end)`.
pub struct GuestBump {
    cur: u64,
    end: u64,
}

impl GuestBump {
    pub closed spec fn cur(&self) -> u64 {
        self.cur
    }

    pub closed spec fn end(&self) -> u64 {
        self.end
    }

    #[verifier::type_invariant]
    closed spec fn inv(self) -> bool {
        self.cur <= self.end
    }

    pub fn new(base: u64, size: u64) -> (r: Self)
        requires
            base + size <= u64::MAX,
        ensures
            r.cur() == base,
            r.end() == base + size,
    {
        GuestBump { cur: base, end: base + size }
    }

    /// Hands out `size` bytes aligned to `align` from the front of the free space.
    pub fn allocate(&mut self, size: u64, align: u64) -> (r: Result<u64, VmmonError>)
        requires
            align > 0,
            old(self).cur() + (align - 1) <= u64::MAX,
        ensures
            final(self).end() == old(self).end(),
            ({
                let a = align_up_spec(old(self).cur(), align);
                if a + size <= old(self).end() {
                    r == Ok::<u64, VmmonError>(a) && final(self).cur() == a + size
                } else if a + size > u64::MAX {
                    (r matches Err(VmmonError::Boot(m)) && m@ == "limine bump overflow"@)
                        && final(self).cur() == old(self).cur()
                } else {
                    (r matches Err(VmmonError::Boot(m)) && m@ == "limine bump out of space"@)
                        && final(self).cur() == old(self).cur()
                }
            }),
    {
        proof { use_type_invariant(&*self); }
        let aligned = align_up(self.cur, align);
        let next = match aligned.checked_add(size) {
            Some(n) => n,
            None => return Err(VmmonError::boot(String::from_str("limine bump overflow"))),
        };
        if next > self.end {
            return Err(VmmonError::boot(String::from_str("limine bump out of space")));
        }
        self.cur = next;
        Ok(aligned)
    }
}

/// An allocation never overlaps the one before it: both lie in the region, the
/// first ends where the free space of the second begins.
pub proof fn law_bump_disjoint(c0: u64, end: u64, s1: u64, a1: u64, s2: u64, a2: u64)
    requires
        a1 == align_up_spec(c0, 8),
        c0 + 7 <= u64::MAX,
        a1 + s1 <= end,
        (a1 + s1) + 7 <= u64::MAX,
        a2 == align_up_spec((a1 + s1) as u64, 8),
        a2 + s2 <= end,
    ensures
        c0 <= a1,
        a1 + s1 <= a2,
        a1 % 8 == 0,
        a2 % 8 == 0,
{
    lemma_align_facts(c0);
    lemma_align_facts((a1 + s1) as u64);
}


// ---------------------------------------------------------------------------
// The kernel's footprint
// ---------------------------------------------------------------------------

/// The lowest physical address of the segments (the largest address if there are none).
pub open spec fn segs_lo(s: Seq<LoadedSeg>) -> u64
    decreases s.len(),
{
    if s.len() == 0 {
        u64::MAX
    } else {
        let lo = segs_lo(s.drop_last());
        if s.last().paddr < lo { s.last().paddr } else { lo }
    }
}

/// The highest physical end of the segments (saturated), or zero.
pub open spec fn segs_hi(s: Seq<LoadedSeg>) -> u64
    decreases s.len(),
{
    if s.len() == 0 {
        0
    } else {
        let hi = segs_hi(s.drop_last());
        let e = rend(Range { base: s.last().paddr, len: s.last().memsz }) as u64;
        if hi < e { e } else { hi }
    }
}

/// The page-aligned physical span of the kernel's segments.
pub open spec fn kernel_span(s: Seq<LoadedSeg>) -> Range {
    let lo = if segs_lo(s) == u64::MAX { 0 } else { segs_lo(s) };
    let base = align_down_spec(lo, 0x1000);
    let end = align_up_spec(segs_hi(s), 0x1000);
    Range { base, len: (end - base) as u64 }
}

proof fn lemma_lo_hi(s: Seq<LoadedSeg>)
    ensures
        s.len() > 0 ==> segs_lo(s) <= segs_hi(s),
    decreases s.len(),
{
    if s.len() > 1 {
        lemma_lo_hi(s.drop_last());
    }
}

pub fn kernel_phys_span(load: &ElfLoadResult) -> (r: Range)
    requires
        segs_hi(load.segs@) + 0xfff <= u64::MAX,
    ensures
        r == kernel_span(load.segs@),
{
    let mut lo = u64::MAX;
    let mut hi = 0u64;
    let n = load.segs.len();
    let mut i: usize = 0;
    while i < n
        invariant
            n == load.segs@.len(),
            0 <= i <= n,
            lo == segs_lo(load.segs@.subrange(0, i as int)),
            hi == segs_hi(load.segs@.subrange(0, i as int)),
        decreases n - i,
    {
        let sg = load.segs[i];
        proof {
            assert(load.segs@.subrange(0, i + 1).drop_last() =~= load.segs@.subrange(0, i as int));
        }
        if sg.paddr < lo {
            lo = sg.paddr;
        }
        let e = sg.paddr.saturating_add(sg.memsz);
        if hi < e {
            hi = e;
        }
        i += 1;
    }
    proof {
        assert(load.segs@.subrange(0, n as int) =~= load.segs@);
        lemma_lo_hi(load.segs@);
        lemma_align_facts(if lo == u64::MAX { 0 } else { lo });
        lemma_align_facts(hi);
    }
    if lo == u64::MAX {
        lo = 0;
    }
    let base = align_down(lo, 0x1000);
    let end = align_up(hi, 0x1000);
    Range { base, len: end - base }
}

pub open spec fn seg_range(sg: LoadedSeg) -> Range {
    Range { base: sg.paddr, len: sg.memsz }
}

pub fn kernel_loaded_ranges(load: &ElfLoadResult) -> (r: Vec<Range>)
    ensures
        r@ == load.segs@.map_values(|sg: LoadedSeg| seg_range(sg)),
{
    let mut out: Vec<Range> = Vec::new();
    let n = load.segs.len();
    let mut i: usize = 0;
    while i < n
        invariant
            n == load.segs@.len(),
            0 <= i <= n,
            out@ == load.segs@.subrange(0, i as int).map_values(|sg: LoadedSeg| seg_range(sg)),
        decreases n - i,
    {
        let sg = load.segs[i];
        out.push(Range { base: sg.paddr, len: sg.memsz });
        assert(load.segs@.subrange(0, i + 1).map_values(|sg: LoadedSeg| seg_range(sg))
            =~= load.segs@.subrange(0, i as int).map_values(|sg: LoadedSeg| seg_range(sg)).push(seg_range(sg)));
        i += 1;
    }
    assert(load.segs@.subrange(0, n as int) =~= load.segs@);
    out
}

/// Whether the kernel's segments suit `install_minimal_limine`: their end, rounded
/// up to a page, fits in 64 bits, and every segment that could hold a request lies
/// in guest memory.
pub fn kernel_fits_memory(mem: &GuestMemory, load: &ElfLoadResult) -> (r: bool)
    ensures
        r == (segs_hi(load.segs@) + 0xfff <= u64::MAX
            && ranges_in_memory(mem@, load.segs@.map_values(|sg: LoadedSeg| seg_range(sg)))),
{
    let len = mem.size_bytes() as u64;
    let ghost rs = load.segs@.map_values(|sg: LoadedSeg| seg_range(sg));
    let mut hi = 0u64;
    let n = load.segs.len();
    let mut all_in = true;
    let mut i: usize = 0;
    while i < n
        invariant
            n == load.segs@.len(),
            0 <= i <= n,
            len == mem@.len(),
            rs == load.segs@.map_values(|sg: LoadedSeg| seg_range(sg)),
            hi == segs_hi(load.segs@.subrange(0, i as int)),
            all_in == (forall|k: int| 0 <= k < i && (#[trigger] rs[k]).len >= 32 ==> rs[k].base + rs[k].len <= mem@.len()),
        decreases n - i,
    {
        let sg = load.segs[i];
        proof {
            assert(load.segs@.subrange(0, i + 1).drop_last() =~= load.segs@.subrange(0, i as int));
            assert(rs[i as int] == seg_range(sg));
        }
        let e = sg.paddr.saturating_add(sg.memsz);
        if hi < e {
            hi = e;
        }
        if sg.memsz >= 32 && (sg.paddr as u128) + (sg.memsz as u128) > len as u128 {
            all_in = false;
        }
        i += 1;
    }
    proof {
        assert(load.segs@.subrange(0, n as int) =~= load.segs@);
    }
    hi <= u64::MAX - 0xfff && all_in
}

// ---------------------------------------------------------------------------
// Finding the kernel's requests
// ---------------------------------------------------------------------------

/// The 32 bytes that identify a request: its four magic words, little-endian.
pub open spec fn request_id(magic: [u64; 4]) -> Seq<u8> {
    spec_u64_to_le_bytes(magic[0]) + spec_u64_to_le_bytes(magic[1]) + spec_u64_to_le_bytes(magic[2])
        + spec_u64_to_le_bytes(magic[3])
}

/// Whether the identifier `id` lies at offset `off` of range `r` of memory `m`.
pub open spec fn id_at(m: Seq<u8>, r: Range, id: Seq<u8>, off: int) -> bool {
    &&& 0 <= off
    &&& off + id.len() <= r.len
    &&& m.subrange(r.base + off, r.base + off + id.len()) == id
}

/// Ranges that are searched lie in guest memory (ranges too short to hold a
/// request are skipped without being read).
pub open spec fn ranges_in_memory(m: Seq<u8>, ranges: Seq<Range>) -> bool {
    forall|i: int| 0 <= i < ranges.len() && (#[trigger] ranges[i]).len >= 32 ==> ranges[i].base + ranges[i].len <= m.len()
}

/// `a` is where the search finds `id`: its first place in the first range that
/// holds it.
pub open spec fn first_request(m: Seq<u8>, ranges: Seq<Range>, id: Seq<u8>, a: u64) -> bool {
    exists|ri: int, off: int| {
        &&& 0 <= ri < ranges.len()
        &&& #[trigger] id_at(m, ranges[ri], id, off)
        &&& a == ranges[ri].base + off
        &&& forall|rj: int, o: int| 0 <= rj < ri ==> !#[trigger] id_at(m, ranges[rj], id, o)
        &&& forall|o: int| 0 <= o < off ==> !#[trigger] id_at(m, ranges[ri], id, o)
    }
}

pub open spec fn no_request(m: Seq<u8>, ranges: Seq<Range>, id: Seq<u8>) -> bool {
    forall|ri: int, o: int| 0 <= ri < ranges.len() ==> !#[trigger] id_at(m, ranges[ri], id, o)
}

fn bytes_match(hay: &[u8], off: usize, needle: &[u8]) -> (r: bool)
    requires
        off + needle@.len() <= hay@.len(),
    ensures
        r == (hay@.subrange(off as int, off + needle@.len()) == needle@),
{
    let n = needle.len();
    let hl = hay.len();
    let mut i: usize = 0;
    while i < n
        invariant
            n == needle@.len(),
            hl == hay@.len(),
            off + n <= hay@.len(),
            0 <= i <= n,
            forall|k: int| 0 <= k < i ==> hay@[off + k] == needle@[k],
        decreases n - i,
    {
        if hay[off + i] != needle[i] {
            assert(hay@.subrange(off as int, off + n)[i as int] != needle@[i as int]);
            return false;
        }
        i += 1;
    }
    assert(hay@.subrange(off as int, off + n) =~= needle@);
    true
}

/// Searches the ranges, in order, for the request with the given magic words.
pub fn find_request_in_ranges(mem: &GuestMemory, ranges: &[Range], magic: [u64; 4]) -> (r: Option<u64>)
    requires
        ranges_in_memory(mem@, ranges@),
    ensures
        r matches Some(a) ==> first_request(mem@, ranges@, request_id(magic), a),
        r is None ==> no_request(mem@, ranges@, request_id(magic)),
{
    let mut needle: Vec<u8> = u64_to_le_bytes(magic[0]);
    let mut b1 = u64_to_le_bytes(magic[1]);
    let mut b2 = u64_to_le_bytes(magic[2]);
    let mut b3 = u64_to_le_bytes(magic[3]);
    needle.append(&mut b1);
    needle.append(&mut b2);
    needle.append(&mut b3);
    let ghost id = request_id(magic);
    proof { vstd::bytes::lemma_auto_spec_u64_to_from_le_bytes(); }
    assert(needle@ =~= id);
    let nr = ranges.len();
    let mut ri: usize = 0;
    while ri < nr
        invariant
            nr == ranges@.len(),
            0 <= ri <= nr,
            needle@ == id,
            id == request_id(magic),
            id.len() == 32,
            ranges_in_memory(mem@, ranges@),
            forall|rj: int, o: int| 0 <= rj < ri ==> !#[trigger] id_at(mem@, ranges@[rj], id, o),
        decreases nr - ri,
    {
        let r = ranges[ri];
        let msize = mem.size_bytes();
        if r.len >= 32 {
            assert(ranges@[ri as int].len >= 32);
            assert(r.base + r.len <= mem@.len());
            let len = r.len as usize;
            let hay = mem.slice(r.base, len);
            let last = len - 32;
            let mut off: usize = 0;
            while off <= last
                invariant
                    hay@ == mem@.subrange(r.base as int, r.base + r.len),
                    r.base + r.len <= mem@.len(),
                    mem@.len() == msize,
                    ri < nr,
                    nr == ranges@.len(),
                    forall|rj: int, o: int| 0 <= rj < ri ==> !#[trigger] id_at(mem@, ranges@[rj], id, o),
                    hay@.len() == len,
                    len == r.len,
                    last == len - 32,
                    needle@ == id,
                    id == request_id(magic),
                    id.len() == 32,
                    r == ranges@[ri as int],
                    0 <= off <= last + 1,
                    forall|o: int| 0 <= o < off ==> !#[trigger] id_at(mem@, r, id, o),
                decreases last + 1 - off,
            {
                if bytes_match(hay, off, needle.as_slice()) {
                    proof {
                        assert(hay@.subrange(off as int, off + 32) =~= mem@.subrange(r.base + off, r.base + off + 32));
                        assert(id_at(mem@, ranges@[ri as int], id, off as int));
                    }
                    let res = r.base + off as u64;
                    assert(res == ranges@[ri as int].base + off);
                    assert(first_request(mem@, ranges@, id, res));
                    return Some(res);
                }
                proof {
                    assert(hay@.subrange(off as int, off + 32) =~= mem@.subrange(r.base + off, r.base + off + 32));
                }
                off += 1;
            }
            proof {
                assert forall|o: int| !#[trigger] id_at(mem@, r, id, o) by {
                    if o > last {}
                }
            }
        }
        ri += 1;
    }
    None
}


// ---------------------------------------------------------------------------
// Installing the responses
// ---------------------------------------------------------------------------

/// Where the boot information (responses, memory map, framebuffer description) goes.
pub const BOOTINFO_BASE: u64 = 0x0090_0000;
pub const BOOTINFO_SIZE: u64 = 0x0020_0000;
/// The framebuffer: 800x600 at 32 bits per pixel.
pub const FB_BASE: u64 = 0x00b0_0000;
pub const FB_WIDTH: u64 = 800;
pub const FB_HEIGHT: u64 = 600;
pub const FB_PITCH: u64 = 3200;
pub const FB_SIZE: u64 = 1_920_000;
/// The offset of the higher-half direct map.
pub const HHDM_OFFSET: u64 = 0xffff_8000_0000_0000;

pub fn write_u64(mem: &mut GuestMemory, gpa: u64, v: u64)
    requires
        gpa + 8 <= old(mem)@.len(),
    ensures
        final(mem)@ == splice(old(mem)@, gpa as int, spec_u64_to_le_bytes(v)),
{
    mem.write_u64(gpa, v);
}

pub fn read_u64(mem: &GuestMemory, gpa: u64) -> (r: u64)
    requires
        gpa + 8 <= mem@.len(),
    ensures
        r == mem_u64(mem@, gpa as int),
{
    mem.read_u64(gpa)
}

/// A memory map entry as the kernel reads it: base, length, type.
pub open spec fn memmap_record(e: LimineMemmapEntry) -> Seq<u8> {
    spec_u64_to_le_bytes(e.base) + spec_u64_to_le_bytes(e.length) + spec_u64_to_le_bytes(e.typ)
}

/// The entries stored one after the other.
pub open spec fn memmap_records(es: Seq<LimineMemmapEntry>) -> Seq<u8>
    decreases es.len(),
{
    if es.len() == 0 { Seq::empty() } else { memmap_records(es.drop_last()) + memmap_record(es.last()) }
}

/// `n` pointers to records of `stride` bytes starting at `first`.
pub open spec fn pointer_table(first: int, stride: int, n: nat) -> Seq<u8>
    decreases n,
{
    if n == 0 { Seq::empty() } else { pointer_table(first, stride, (n - 1) as nat) + spec_u64_to_le_bytes((first + stride * (n - 1)) as u64) }
}

proof fn lemma_records_len(es: Seq<LimineMemmapEntry>)
    ensures
        memmap_records(es).len() == 24 * es.len(),
    decreases es.len(),
{
    vstd::bytes::lemma_auto_spec_u64_to_from_le_bytes();
    if es.len() > 0 {
        lemma_records_len(es.drop_last());
    }
}

proof fn lemma_table_len(first: int, stride: int, n: nat)
    ensures
        pointer_table(first, stride, n).len() == 8 * n,
    decreases n,
{
    vstd::bytes::lemma_auto_spec_u64_to_from_le_bytes();
    if n > 0 {
        lemma_table_len(first, stride, (n - 1) as nat);
    }
}

/// Builds the bytes of the entries.
fn records_bytes(es: &Vec<LimineMemmapEntry>) -> (r: Vec<u8>)
    ensures
        r@ == memmap_records(es@),
{
    let mut out: Vec<u8> = Vec::new();
    let n = es.len();
    let mut i: usize = 0;
    while i < n
        invariant
            n == es@.len(),
            0 <= i <= n,
            out@ == memmap_records(es@.subrange(0, i as int)),
        decreases n - i,
    {
        let e = es[i];
        let mut a = u64_to_le_bytes(e.base);
        let mut b = u64_to_le_bytes(e.length);
        let mut c = u64_to_le_bytes(e.typ);
        out.append(&mut a);
        out.append(&mut b);
        out.append(&mut c);
        proof {
            assert(es@.subrange(0, i + 1).drop_last() =~= es@.subrange(0, i as int));
            assert(out@ =~= memmap_records(es@.subrange(0, i as int)) + memmap_record(e));
        }
        i += 1;
    }
    assert(es@.subrange(0, n as int) =~= es@);
    out
}

/// Builds `n` pointers to records of `stride` bytes starting at `first`.
fn table_bytes(first: u64, stride: u64, n: usize) -> (r: Vec<u8>)
    requires
        first + stride * n <= u64::MAX,
    ensures
        r@ == pointer_table(first as int, stride as int, n as nat),
{
    let mut out: Vec<u8> = Vec::new();
    let mut i: usize = 0;
    while i < n
        invariant
            0 <= i <= n,
            first + stride * n <= u64::MAX,
            out@ == pointer_table(first as int, stride as int, i as nat),
        decreases n - i,
    {
        assert(stride * i <= stride * n) by (nonlinear_arith) requires i <= n;
        let mut p = u64_to_le_bytes(first + stride * i as u64);
        out.append(&mut p);
        i += 1;
    }
    out
}

/// The addresses that the boot information gets, for a memory map of `n` entries:
/// entries, pointer table, memory map response, HHDM response, framebuffer
/// description, its pointer table, and the framebuffer response, packed from
/// `BOOTINFO_BASE` on.
pub open spec fn entries_gpa() -> int { BOOTINFO_BASE as int }
pub open spec fn ptrs_gpa(n: nat) -> int { entries_gpa() + 24 * n }
pub open spec fn memmap_resp_gpa(n: nat) -> int { ptrs_gpa(n) + 8 * n }
pub open spec fn hhdm_resp_gpa(n: nat) -> int { memmap_resp_gpa(n) + 24 }
pub open spec fn fb_struct_gpa(n: nat) -> int { hhdm_resp_gpa(n) + 16 }
pub open spec fn fb_ptrs_gpa(n: nat) -> int { fb_struct_gpa(n) + 64 }
pub open spec fn fb_resp_gpa(n: nat) -> int { fb_ptrs_gpa(n) + 8 }

/// The framebuffer description: address, width, height, pitch, 32 bits per pixel,
/// RGB memory model with 8-bit channels at shifts 16, 8, 0, and no EDID. Bytes
/// 41..48 are left as they were.
pub open spec fn fb_installed(m: Seq<u8>, fb_req: u64, n: nat) -> Seq<u8> {
    let s = fb_struct_gpa(n);
    let m1 = splice(m, FB_BASE as int, zeros(FB_SIZE as nat));
    let m2 = splice(m1, s, le64s(seq![FB_BASE, FB_WIDTH, FB_HEIGHT, FB_PITCH]));
    let m3 = splice(m2, s + 32, spec_u16_to_le_bytes(32));
    let m4 = splice(m3, s + 34, seq![1u8, 8, 16, 8, 8, 8, 0]);
    let m5 = splice(m4, s + 48, le64s(seq![0u64, 0]));
    let m6 = splice(m5, fb_ptrs_gpa(n), spec_u64_to_le_bytes(s as u64));
    let m7 = splice(m6, fb_resp_gpa(n), le64s(seq![0u64, 1, fb_ptrs_gpa(n) as u64]));
    splice(m7, fb_req + LIMINE_REQUEST_RESPONSE_OFF, spec_u64_to_le_bytes(fb_resp_gpa(n) as u64))
}

/// What the kernel finds through its framebuffer request once the response is
/// installed: the response (at the address the request's response field holds)
/// counts one framebuffer, its pointer table leads to a description of a framebuffer
/// at 0xB0_0000 that is 800 pixels wide and 600 high at 32 bits per pixel, with a
/// pitch of width times bytes per pixel (3200). This holds whenever the request's
/// response field lies outside the boot-information area.
pub proof fn law_framebuffer_description(m: Seq<u8>, fb_req: u64, n: nat)
    requires
        n <= 16,
        BOOTINFO_BASE + BOOTINFO_SIZE <= m.len(),
        FB_BASE + FB_SIZE <= m.len(),
        fb_req + 48 <= m.len(),
        fb_req + 48 <= BOOTINFO_BASE || BOOTINFO_BASE + BOOTINFO_SIZE <= fb_req + 40,
    ensures
        ({
            let m2 = fb_installed(m, fb_req, n);
            let resp = mem_u64(m2, fb_req + 40);
            let table = mem_u64(m2, resp + 16);
            let fb = mem_u64(m2, table as int);
            &&& mem_u64(m2, resp + 8) == 1
            &&& mem_u64(m2, fb as int) == 0xB0_0000
            &&& mem_u64(m2, fb + 8) == 800
            &&& mem_u64(m2, fb + 16) == 600
            &&& mem_u16(m2, fb + 32) == 32
            &&& mem_u64(m2, fb + 24) == mem_u64(m2, fb + 8) * (mem_u16(m2, fb + 32) / 8)
        }),
{
    vstd::bytes::lemma_auto_spec_u64_to_from_le_bytes();
    vstd::bytes::lemma_auto_spec_u16_to_from_le_bytes();
    let st = fb_struct_gpa(n);
    let pt = fb_ptrs_gpa(n);
    let rp = fb_resp_gpa(n);
    let q = fb_req + LIMINE_REQUEST_RESPONSE_OFF;
    let w = le64s(seq![FB_BASE, FB_WIDTH, FB_HEIGHT, FB_PITCH]);
    let bpp = spec_u16_to_le_bytes(32);
    let fmt = seq![1u8, 8, 16, 8, 8, 8, 0];
    let edid = le64s(seq![0u64, 0]);
    let rsp = le64s(seq![0u64, 1, pt as u64]);
    lemma_le64s_word(seq![FB_BASE, FB_WIDTH, FB_HEIGHT, FB_PITCH], 0);
    lemma_le64s_word(seq![FB_BASE, FB_WIDTH, FB_HEIGHT, FB_PITCH], 1);
    lemma_le64s_word(seq![FB_BASE, FB_WIDTH, FB_HEIGHT, FB_PITCH], 2);
    lemma_le64s_word(seq![FB_BASE, FB_WIDTH, FB_HEIGHT, FB_PITCH], 3);
    lemma_le64s_word(seq![0u64, 0], 0);
    lemma_le64s_word(seq![0u64, 1, pt as u64], 1);
    lemma_le64s_word(seq![0u64, 1, pt as u64], 2);
    assert(rp + 24 <= BOOTINFO_BASE + BOOTINFO_SIZE);
    let m1 = splice(m, FB_BASE as int, zeros(FB_SIZE as nat));
    lemma_splice_len(m, FB_BASE as int, zeros(FB_SIZE as nat));
    let m2 = splice(m1, st, w);
    lemma_splice_len(m1, st, w);
    let m3 = splice(m2, st + 32, bpp);
    lemma_splice_len(m2, st + 32, bpp);
    let m4 = splice(m3, st + 34, fmt);
    lemma_splice_len(m3, st + 34, fmt);
    let m5 = splice(m4, st + 48, edid);
    lemma_splice_len(m4, st + 48, edid);
    let m6 = splice(m5, pt, spec_u64_to_le_bytes(st as u64));
    lemma_splice_len(m5, pt, spec_u64_to_le_bytes(st as u64));
    let m7 = splice(m6, rp, rsp);
    lemma_splice_len(m6, rp, rsp);
    let mf = splice(m7, q, spec_u64_to_le_bytes(rp as u64));
    lemma_splice_len(m7, q, spec_u64_to_le_bytes(rp as u64));
    assert(mf == fb_installed(m, fb_req, n));
    // The request's response field.
    lemma_splice_ranges(m7, q, spec_u64_to_le_bytes(rp as u64), q, q + 8);
    assert(mem_u64(mf, q) == rp);
    // The response: one framebuffer, then the pointer table.
    lemma_splice_ranges(m7, q, spec_u64_to_le_bytes(rp as u64), rp + 8, rp + 24);
    lemma_splice_ranges(m6, rp, rsp, rp + 8, rp + 24);
    assert(mf.subrange(rp + 8, rp + 16) =~= rsp.subrange(8, 16));
    assert(mf.subrange(rp + 16, rp + 24) =~= rsp.subrange(16, 24));
    assert(mem_u64(mf, rp + 8) == 1);
    assert(mem_u64(mf, rp + 16) == pt);
    // The pointer table leads to the description.
    lemma_splice_ranges(m7, q, spec_u64_to_le_bytes(rp as u64), pt, pt + 8);
    lemma_splice_ranges(m6, rp, rsp, pt, pt + 8);
    lemma_splice_ranges(m5, pt, spec_u64_to_le_bytes(st as u64), pt, pt + 8);
    assert(mem_u64(mf, pt) == st);
    // The description's head.
    lemma_splice_ranges(m7, q, spec_u64_to_le_bytes(rp as u64), st, st + 34);
    lemma_splice_ranges(m6, rp, rsp, st, st + 34);
    lemma_splice_ranges(m5, pt, spec_u64_to_le_bytes(st as u64), st, st + 34);
    lemma_splice_ranges(m4, st + 48, edid, st, st + 34);
    lemma_splice_ranges(m3, st + 34, fmt, st, st + 34);
    lemma_splice_ranges(m2, st + 32, bpp, st, st + 32);
    lemma_splice_ranges(m2, st + 32, bpp, st + 32, st + 34);
    lemma_splice_ranges(m1, st, w, st, st + 32);
    let head = mf.subrange(st, st + 34);
    assert(head == m3.subrange(st, st + 34));
    assert(m3.subrange(st, st + 32) =~= head.subrange(0, 32));
    assert(head.subrange(0, 32) == w);
    assert(head.subrange(32, 34) =~= m3.subrange(st + 32, st + 34));
    assert(mf.subrange(st, st + 8) =~= w.subrange(0, 8));
    assert(mf.subrange(st + 8, st + 16) =~= w.subrange(8, 16));
    assert(mf.subrange(st + 16, st + 24) =~= w.subrange(16, 24));
    assert(mf.subrange(st + 24, st + 32) =~= w.subrange(24, 32));
    assert(mf.subrange(st + 32, st + 34) =~= bpp);
    assert(mem_u64(mf, st) == FB_BASE);
    assert(mem_u64(mf, st + 8) == FB_WIDTH);
    assert(mem_u64(mf, st + 16) == FB_HEIGHT);
    assert(mem_u64(mf, st + 24) == FB_PITCH);
    assert(mem_u16(mf, st + 32) == 32);
}

/// The same for all the responses that `install_minimal_limine` writes for a
/// kernel that asks for a framebuffer: after the memory map and HHDM responses,
/// the framebuffer request leads to an 800 x 600 framebuffer at 0xB0_0000 with 32
/// bits per pixel and a pitch of width times bytes per pixel.
pub proof fn law_installed_framebuffer(m: Seq<u8>, es: Seq<LimineMemmapEntry>, mm_req: u64, hhdm_req: u64, fb_req: u64)
    requires
        es.len() <= 16,
        install_fits(m.len() as int, mm_req, hhdm_req, Some(fb_req)),
        fb_req + 48 <= BOOTINFO_BASE || BOOTINFO_BASE + BOOTINFO_SIZE <= fb_req + 40,
    ensures
        ({
            let m2 = limine_installed(m, es, mm_req, hhdm_req, Some(fb_req));
            let resp = mem_u64(m2, fb_req + 40);
            let table = mem_u64(m2, resp + 16);
            let fb = mem_u64(m2, table as int);
            &&& mem_u64(m2, resp + 8) == 1
            &&& mem_u64(m2, fb as int) == 0xB0_0000
            &&& mem_u64(m2, fb + 8) == 800
            &&& mem_u64(m2, fb + 16) == 600
            &&& mem_u16(m2, fb + 32) == 32
            &&& mem_u64(m2, fb + 24) == mem_u64(m2, fb + 8) * (mem_u16(m2, fb + 32) / 8)
        }),
{
    vstd::bytes::lemma_auto_spec_u64_to_from_le_bytes();
    let n = es.len();
    lemma_records_len(es);
    lemma_table_len(entries_gpa(), 24, n);
    lemma_le64s_len(seq![0u64, n as u64, ptrs_gpa(n) as u64]);
    lemma_le64s_len(seq![0u64, HHDM_OFFSET]);
    let a1 = splice(m, entries_gpa(), memmap_records(es));
    lemma_splice_len(m, entries_gpa(), memmap_records(es));
    let a2 = splice(a1, ptrs_gpa(n), pointer_table(entries_gpa(), 24, n));
    lemma_splice_len(a1, ptrs_gpa(n), pointer_table(entries_gpa(), 24, n));
    let a3 = splice(a2, memmap_resp_gpa(n), le64s(seq![0u64, n as u64, ptrs_gpa(n) as u64]));
    lemma_splice_len(a2, memmap_resp_gpa(n), le64s(seq![0u64, n as u64, ptrs_gpa(n) as u64]));
    let a4 = splice(a3, mm_req + LIMINE_REQUEST_RESPONSE_OFF, spec_u64_to_le_bytes(memmap_resp_gpa(n) as u64));
    lemma_splice_len(a3, mm_req + LIMINE_REQUEST_RESPONSE_OFF, spec_u64_to_le_bytes(memmap_resp_gpa(n) as u64));
    assert(a4 == memmap_installed(m, es, mm_req));
    let a5 = splice(a4, hhdm_resp_gpa(n), le64s(seq![0u64, HHDM_OFFSET]));
    lemma_splice_len(a4, hhdm_resp_gpa(n), le64s(seq![0u64, HHDM_OFFSET]));
    let a6 = splice(a5, hhdm_req + LIMINE_REQUEST_RESPONSE_OFF, spec_u64_to_le_bytes(hhdm_resp_gpa(n) as u64));
    lemma_splice_len(a5, hhdm_req + LIMINE_REQUEST_RESPONSE_OFF, spec_u64_to_le_bytes(hhdm_resp_gpa(n) as u64));
    assert(a6 == hhdm_installed(a4, n, hhdm_req));
    law_framebuffer_description(a6, fb_req, n);
}

/// The memory map installed: the entries, their pointer table and the response,
/// with the request pointing at the response.
pub open spec fn memmap_installed(m: Seq<u8>, es: Seq<LimineMemmapEntry>, mm_req: u64) -> Seq<u8> {
    let n = es.len();
    let m1 = splice(m, entries_gpa(), memmap_records(es));
    let m2 = splice(m1, ptrs_gpa(n), pointer_table(entries_gpa(), 24, n));
    let m3 = splice(m2, memmap_resp_gpa(n), le64s(seq![0u64, n as u64, ptrs_gpa(n) as u64]));
    splice(m3, mm_req + LIMINE_REQUEST_RESPONSE_OFF, spec_u64_to_le_bytes(memmap_resp_gpa(n) as u64))
}

/// The HHDM response installed, with the request pointing at it.
pub open spec fn hhdm_installed(m: Seq<u8>, n: nat, hhdm_req: u64) -> Seq<u8> {
    let m5 = splice(m, hhdm_resp_gpa(n), le64s(seq![0u64, HHDM_OFFSET]));
    splice(m5, hhdm_req + LIMINE_REQUEST_RESPONSE_OFF, spec_u64_to_le_bytes(hhdm_resp_gpa(n) as u64))
}

/// Guest memory after the responses are installed for the memory map `es` and
/// the requests at `mm_req`, `hhdm_req` and (if the kernel asks) `fb_req`.
pub open spec fn limine_installed(m: Seq<u8>, es: Seq<LimineMemmapEntry>, mm_req: u64, hhdm_req: u64, fb_req: Option<u64>) -> Seq<u8> {
    let m6 = hhdm_installed(memmap_installed(m, es, mm_req), es.len(), hhdm_req);
    match fb_req {
        None => m6,
        Some(f) => fb_installed(m6, f, es.len()),
    }
}

/// Whether everything that is written lies in guest memory of `len` bytes.
pub open spec fn install_fits(len: int, mm_req: u64, hhdm_req: u64, fb_req: Option<u64>) -> bool {
    &&& BOOTINFO_BASE + BOOTINFO_SIZE <= len
    &&& mm_req + 48 <= len
    &&& hhdm_req + 48 <= len
    &&& fb_req matches Some(f) ==> f + 48 <= len && FB_BASE + FB_SIZE <= len
}

/// A memory map for `mem` bytes with these ranges reserved: the first MiB
/// reserved, then the usable memory (see `usable_gaps`), then the typed entries of
/// the kernel, boot information and framebuffer.
#[verifier::opaque]
pub open spec fn memmap_ok(es: Seq<LimineMemmapEntry>, mem: u64, kernel: Range, bootinfo: Range, fb: Option<Range>) -> bool {
    let t = typed_entries(kernel, bootinfo, fb);
    let n = es.len();
    &&& n >= 1 + t.len()
    &&& n <= 2 + t.len() + reserved_ranges(kernel, bootinfo, fb).len()
    &&& es[0] == (LimineMemmapEntry { base: 0, length: LOW_MEMORY_END, typ: LIMINE_MEMMAP_RESERVED })
    &&& es.subrange(n - t.len(), n as int) == t
    &&& usable_gaps(es.subrange(1, n - t.len()), reserved_ranges(kernel, bootinfo, fb), mem)
}

pub open spec fn id_of(m0: u64, m1: u64, m2: u64, m3: u64) -> Seq<u8> {
    request_id([m0, m1, m2, m3])
}

pub open spec fn memmap_request_id() -> Seq<u8> {
    id_of(LIMINE_COMMON_MAGIC0, LIMINE_COMMON_MAGIC1, LIMINE_MEMMAP_MAGIC2, LIMINE_MEMMAP_MAGIC3)
}

pub open spec fn hhdm_request_id() -> Seq<u8> {
    id_of(LIMINE_COMMON_MAGIC0, LIMINE_COMMON_MAGIC1, LIMINE_HHDM_MAGIC2, LIMINE_HHDM_MAGIC3)
}

pub open spec fn fb_request_id() -> Seq<u8> {
    id_of(LIMINE_COMMON_MAGIC0, LIMINE_COMMON_MAGIC1, LIMINE_FRAMEBUFFER_MAGIC2, LIMINE_FRAMEBUFFER_MAGIC3)
}

/// The framebuffer request the search settles on, if any.
pub open spec fn found(m: Seq<u8>, ranges: Seq<Range>, id: Seq<u8>, r: Option<u64>) -> bool {
    match r {
        Some(a) => first_request(m, ranges, id, a),
        None => no_request(m, ranges, id),
    }
}

fn write_block(mem: &mut GuestMemory, gpa: u64, bytes: &Vec<u8>)
    requires
        gpa + bytes@.len() <= old(mem)@.len(),
    ensures
        final(mem)@ == splice(old(mem)@, gpa as int, bytes@),
{
    mem.write(gpa, bytes.as_slice());
}

/// Whether `r` is the `Boot` error with text `text`.
pub open spec fn boot_error(r: Result<(), VmmonError>, text: Seq<char>) -> bool {
    r matches Err(VmmonError::Boot(t)) && t@ == text
}

/// What installing the responses does to guest memory `m` (giving `m2`) for a
/// kernel loaded as `segs`, and its result `r`. Without a memory map request, or
/// else without an HHDM request, it fails with the text that names the missing
/// request; when a response would fall outside guest memory it fails too; in these
/// cases memory is left alone. Otherwise it writes the responses for the memory map
/// that `build_memmap_entries` gives (the one list that `memmap_ok` admits, by
/// `law_memmap_unique`) and succeeds exactly when the memory map request ends up
/// pointing somewhere.
#[verifier::opaque]
pub open spec fn install_outcome(m: Seq<u8>, m2: Seq<u8>, segs: Seq<LoadedSeg>, size: u64, r: Result<(), VmmonError>) -> bool {
    let ranges = segs.map_values(|sg: LoadedSeg| seg_range(sg));
    if no_request(m, ranges, memmap_request_id()) {
        m2 == m && boot_error(r, "failed to find Limine MemoryMapRequest in guest"@)
    } else if no_request(m, ranges, hhdm_request_id()) {
        m2 == m && boot_error(r, "failed to find Limine HHDMRequest in guest"@)
    } else {
        exists|mm: u64, hh: u64, fb: Option<u64>| {
            &&& #[trigger] first_request(m, ranges, memmap_request_id(), mm)
            &&& #[trigger] first_request(m, ranges, hhdm_request_id(), hh)
            &&& #[trigger] found(m, ranges, fb_request_id(), fb)
            &&& if !install_fits(m.len() as int, mm, hh, fb) {
                m2 == m && boot_error(r, "limine responses do not fit in guest memory"@)
            } else {
                exists|es: Seq<LimineMemmapEntry>| {
                    &&& #[trigger] memmap_ok(
                        es,
                        size,
                        kernel_span(segs),
                        Range { base: BOOTINFO_BASE, len: BOOTINFO_SIZE },
                        Some(Range { base: FB_BASE, len: FB_SIZE }),
                    )
                    &&& m2 == limine_installed(m, es, mm, hh, fb)
                    &&& if mem_u64(m2, mm + LIMINE_REQUEST_RESPONSE_OFF) != 0 {
                        r is Ok
                    } else {
                        boot_error(r, "memmap response pointer stayed null"@)
                    }
                }
            }
        }
    }
}

proof fn lemma_outcome_no_memmap(m: Seq<u8>, segs: Seq<LoadedSeg>, size: u64, r: Result<(), VmmonError>)
    requires
        no_request(m, segs.map_values(|sg: LoadedSeg| seg_range(sg)), memmap_request_id()),
        boot_error(r, "failed to find Limine MemoryMapRequest in guest"@),
    ensures
        install_outcome(m, m, segs, size, r),
{
    reveal(install_outcome);
}

proof fn lemma_outcome_no_hhdm(m: Seq<u8>, segs: Seq<LoadedSeg>, size: u64, mm: u64, r: Result<(), VmmonError>)
    requires
        first_request(m, segs.map_values(|sg: LoadedSeg| seg_range(sg)), memmap_request_id(), mm),
        no_request(m, segs.map_values(|sg: LoadedSeg| seg_range(sg)), hhdm_request_id()),
        boot_error(r, "failed to find Limine HHDMRequest in guest"@),
    ensures
        install_outcome(m, m, segs, size, r),
{
    reveal(install_outcome);
    lemma_found_not_missing(m, segs.map_values(|sg: LoadedSeg| seg_range(sg)), memmap_request_id(), mm);
}

proof fn lemma_outcome_unfit(m: Seq<u8>, segs: Seq<LoadedSeg>, size: u64, mm: u64, hh: u64, fb: Option<u64>, r: Result<(), VmmonError>)
    requires
        first_request(m, segs.map_values(|sg: LoadedSeg| seg_range(sg)), memmap_request_id(), mm),
        first_request(m, segs.map_values(|sg: LoadedSeg| seg_range(sg)), hhdm_request_id(), hh),
        found(m, segs.map_values(|sg: LoadedSeg| seg_range(sg)), fb_request_id(), fb),
        !install_fits(m.len() as int, mm, hh, fb),
        boot_error(r, "limine responses do not fit in guest memory"@),
    ensures
        install_outcome(m, m, segs, size, r),
{
    reveal(install_outcome);
    let ranges = segs.map_values(|sg: LoadedSeg| seg_range(sg));
    lemma_found_not_missing(m, ranges, memmap_request_id(), mm);
    lemma_found_not_missing(m, ranges, hhdm_request_id(), hh);
}

proof fn lemma_outcome_done(
    m: Seq<u8>,
    m2: Seq<u8>,
    segs: Seq<LoadedSeg>,
    size: u64,
    mm: u64,
    hh: u64,
    fb: Option<u64>,
    es: Seq<LimineMemmapEntry>,
    r: Result<(), VmmonError>,
)
    requires
        first_request(m, segs.map_values(|sg: LoadedSeg| seg_range(sg)), memmap_request_id(), mm),
        first_request(m, segs.map_values(|sg: LoadedSeg| seg_range(sg)), hhdm_request_id(), hh),
        found(m, segs.map_values(|sg: LoadedSeg| seg_range(sg)), fb_request_id(), fb),
        install_fits(m.len() as int, mm, hh, fb),
        memmap_ok(es, size, kernel_span(segs), Range { base: BOOTINFO_BASE, len: BOOTINFO_SIZE }, Some(Range { base: FB_BASE, len: FB_SIZE })),
        m2 == limine_installed(m, es, mm, hh, fb),
        if mem_u64(m2, mm + LIMINE_REQUEST_RESPONSE_OFF) != 0 {
            r is Ok
        } else {
            boot_error(r, "memmap response pointer stayed null"@)
        },
    ensures
        install_outcome(m, m2, segs, size, r),
{
    reveal(install_outcome);
    let ranges = segs.map_values(|sg: LoadedSeg| seg_range(sg));
    lemma_found_not_missing(m, ranges, memmap_request_id(), mm);
    lemma_found_not_missing(m, ranges, hhdm_request_id(), hh);
}

/// Checks `install_fits` for guest memory of `len` bytes.
fn responses_fit(len: u64, mm_req: u64, hhdm_req: u64, fb_req: Option<u64>) -> (r: bool)
    ensures
        r == install_fits(len as int, mm_req, hhdm_req, fb_req),
{
    BOOTINFO_BASE + BOOTINFO_SIZE <= len
        && mm_req <= len && len - mm_req >= 48
        && hhdm_req <= len && len - hhdm_req >= 48
        && match fb_req {
            Some(f) => f <= len && len - f >= 48 && FB_BASE + FB_SIZE <= len,
            None => true,
        }
}

/// Writes the responses for the memory map `entries` and points the requests at
/// them, allocating from the boot-information area.
fn install_responses(
    mem: &mut GuestMemory,
    entries: &Vec<LimineMemmapEntry>,
    mm_req: u64,
    hhdm_req: u64,
    fb_req: Option<u64>,
) -> (r: Result<(), VmmonError>)
    requires
        install_fits(old(mem)@.len() as int, mm_req, hhdm_req, fb_req),
        entries@.len() <= 16,
    ensures
        r is Ok,
        final(mem)@ == limine_installed(old(mem)@, entries@, mm_req, hhdm_req, fb_req),
{
    let mut bump = GuestBump::new(BOOTINFO_BASE, BOOTINFO_SIZE);
    install_memmap(mem, &mut bump, entries, mm_req)?;
    install_hhdm(mem, &mut bump, entries.len(), hhdm_req)?;
    if let Some(f) = fb_req {
        install_framebuffer(mem, &mut bump, entries.len(), f)?;
    }
    Ok(())
}

/// Answers the kernel's memory map, HHDM and (if present) framebuffer requests:
/// finds each request in the loaded segments, places the responses in the
/// boot-information area and points each request's response field at its response.
#[verifier::rlimit(80)]
#[verifier::spinoff_prover]
pub fn install_minimal_limine(
    mem: &mut GuestMemory,
    layout: &GuestLayout,
    load: &ElfLoadResult,
    guest_mem_size_bytes: u64,
) -> (r: Result<(), VmmonError>)
    requires
        segs_hi(load.segs@) + 0xfff <= u64::MAX,
        ranges_in_memory(old(mem)@, load.segs@.map_values(|sg: LoadedSeg| seg_range(sg))),
    ensures
        r matches Err(e) ==> e is Boot,
        install_outcome(old(mem)@, final(mem)@, load.segs@, guest_mem_size_bytes, r),
{
    let _ = layout;
    let msize = mem.size_bytes();
    let kernel_ranges = kernel_phys_span(load);
    let bootinfo_ranges = Range { base: BOOTINFO_BASE, len: BOOTINFO_SIZE };
    let framebuffer_ranges = Some(Range { base: FB_BASE, len: FB_SIZE });
    let ranges = kernel_loaded_ranges(load);
    let ghost m = old(mem)@;
    let ghost rs = ranges@;
    let memmap_req_gpa = match find_request_in_ranges(
        mem,
        ranges.as_slice(),
        [LIMINE_COMMON_MAGIC0, LIMINE_COMMON_MAGIC1, LIMINE_MEMMAP_MAGIC2, LIMINE_MEMMAP_MAGIC3],
    ) {
        Some(a) => a,
        None => {
            let r = Err(VmmonError::boot(String::from_str("failed to find Limine MemoryMapRequest in guest")));
            proof { lemma_outcome_no_memmap(m, load.segs@, guest_mem_size_bytes, r); }
            return r;
        },
    };
    let hhdm_req_gpa = match find_request_in_ranges(
        mem,
        ranges.as_slice(),
        [LIMINE_COMMON_MAGIC0, LIMINE_COMMON_MAGIC1, LIMINE_HHDM_MAGIC2, LIMINE_HHDM_MAGIC3],
    ) {
        Some(a) => a,
        None => {
            let r = Err(VmmonError::boot(String::from_str("failed to find Limine HHDMRequest in guest")));
            proof { lemma_outcome_no_hhdm(m, load.segs@, guest_mem_size_bytes, memmap_req_gpa, r); }
            return r;
        },
    };
    let fb_req_gpa = find_request_in_ranges(
        mem,
        ranges.as_slice(),
        [LIMINE_COMMON_MAGIC0, LIMINE_COMMON_MAGIC1, LIMINE_FRAMEBUFFER_MAGIC2, LIMINE_FRAMEBUFFER_MAGIC3],
    );
    proof {
        assert(rs == load.segs@.map_values(|sg: LoadedSeg| seg_range(sg)));
        assert(found(m, rs, fb_request_id(), fb_req_gpa));
    }
    if !responses_fit(msize as u64, memmap_req_gpa, hhdm_req_gpa, fb_req_gpa) {
        let r = Err(VmmonError::boot(String::from_str("limine responses do not fit in guest memory")));
        proof { lemma_outcome_unfit(m, load.segs@, guest_mem_size_bytes, memmap_req_gpa, hhdm_req_gpa, fb_req_gpa, r); }
        return r;
    }
    let entries = build_memmap_entries(guest_mem_size_bytes, kernel_ranges, bootinfo_ranges, framebuffer_ranges);
    install_responses(mem, &entries, memmap_req_gpa, hhdm_req_gpa, fb_req_gpa)?;
    let mm_ptr = read_u64(mem, memmap_req_gpa + LIMINE_REQUEST_RESPONSE_OFF);
    let r = if mm_ptr == 0 {
        Err(VmmonError::boot(String::from_str("memmap response pointer stayed null")))
    } else {
        Ok(())
    };
    proof {
        lemma_outcome_done(m, mem@, load.segs@, guest_mem_size_bytes, memmap_req_gpa, hhdm_req_gpa, fb_req_gpa, entries@, r);
    }
    r
}

proof fn lemma_found_not_missing(m: Seq<u8>, ranges: Seq<Range>, id: Seq<u8>, a: u64)
    requires
        first_request(m, ranges, id, a),
    ensures
        !no_request(m, ranges, id),
{
    let (ri, off) = choose|ri: int, off: int| {
        &&& 0 <= ri < ranges.len()
        &&& #[trigger] id_at(m, ranges[ri], id, off)
        &&& a == ranges[ri].base + off
        &&& forall|rj: int, o: int| 0 <= rj < ri ==> !#[trigger] id_at(m, ranges[rj], id, o)
        &&& forall|o: int| 0 <= o < off ==> !#[trigger] id_at(m, ranges[ri], id, o)
    };
    assert(id_at(m, ranges[ri], id, off));
}

/// Places the memory map (entries, pointer table, response) in the boot-information
/// area and points the request at the response.
fn install_memmap(mem: &mut GuestMemory, bump: &mut GuestBump, entries: &Vec<LimineMemmapEntry>, mm_req: u64) -> (r: Result<(), VmmonError>)
    requires
        old(bump).cur() == BOOTINFO_BASE,
        old(bump).end() == BOOTINFO_BASE + BOOTINFO_SIZE,
        entries@.len() <= 16,
        BOOTINFO_BASE + BOOTINFO_SIZE <= old(mem)@.len(),
        mm_req + 48 <= old(mem)@.len(),
    ensures
        r is Ok,
        final(bump).cur() == hhdm_resp_gpa(entries@.len()),
        final(bump).end() == old(bump).end(),
        final(mem)@ == memmap_installed(old(mem)@, entries@, mm_req),
{
    let _ = mem.size_bytes();
    let n = entries.len();
    proof {
        lemma_records_len(entries@);
        lemma_table_len(entries_gpa(), 24, n as nat);
        lemma_align_facts(BOOTINFO_BASE);
        lemma_align_facts((BOOTINFO_BASE + 24 * n) as u64);
        lemma_align_facts((BOOTINFO_BASE + 32 * n) as u64);
    }
    let entries_at = bump.allocate(24 * n as u64, 8)?;
    let rec = records_bytes(entries);
    write_block(mem, entries_at, &rec);
    let ptrs_at = bump.allocate(8 * n as u64, 8)?;
    let table = table_bytes(entries_at, 24, n);
    write_block(mem, ptrs_at, &table);
    let resp_at = bump.allocate(24, 8)?;
    let resp = words_bytes(&vec![0u64, n as u64, ptrs_at]);
    write_block(mem, resp_at, &resp);
    write_u64(mem, mm_req + LIMINE_REQUEST_RESPONSE_OFF, resp_at);
    Ok(())
}

/// Places the HHDM response and points the request at it.
fn install_hhdm(mem: &mut GuestMemory, bump: &mut GuestBump, n: usize, hhdm_req: u64) -> (r: Result<(), VmmonError>)
    requires
        old(bump).cur() == hhdm_resp_gpa(n as nat),
        old(bump).end() == BOOTINFO_BASE + BOOTINFO_SIZE,
        n <= 16,
        BOOTINFO_BASE + BOOTINFO_SIZE <= old(mem)@.len(),
        hhdm_req + 48 <= old(mem)@.len(),
    ensures
        r is Ok,
        final(bump).cur() == fb_struct_gpa(n as nat),
        final(bump).end() == old(bump).end(),
        final(mem)@ == hhdm_installed(old(mem)@, n as nat, hhdm_req),
{
    let _ = mem.size_bytes();
    proof { lemma_align_facts(hhdm_resp_gpa(n as nat) as u64); }
    let hhdm_at = bump.allocate(16, 8)?;
    let hresp = words_bytes(&vec![0u64, HHDM_OFFSET]);
    write_block(mem, hhdm_at, &hresp);
    write_u64(mem, hhdm_req + LIMINE_REQUEST_RESPONSE_OFF, hhdm_at);
    Ok(())
}

/// Clears the framebuffer, places its description, pointer table and response,
/// and points the request at the response.
fn install_framebuffer(mem: &mut GuestMemory, bump: &mut GuestBump, n: usize, fb_req: u64) -> (r: Result<(), VmmonError>)
    requires
        old(bump).cur() == fb_struct_gpa(n as nat),
        old(bump).end() == BOOTINFO_BASE + BOOTINFO_SIZE,
        n <= 16,
        BOOTINFO_BASE + BOOTINFO_SIZE <= old(mem)@.len(),
        FB_BASE + FB_SIZE <= old(mem)@.len(),
        fb_req + 48 <= old(mem)@.len(),
    ensures
        r is Ok,
        final(mem)@ == fb_installed(old(mem)@, fb_req, n as nat),
{
    let _ = mem.size_bytes();
    proof {
        lemma_align_facts(fb_struct_gpa(n as nat) as u64);
        lemma_align_facts(fb_ptrs_gpa(n as nat) as u64);
        lemma_align_facts(fb_resp_gpa(n as nat) as u64);
    }
    mem.write_zeros(FB_BASE, FB_SIZE as usize);
    let fb_struct = bump.allocate(64, 8)?;
    let head = words_bytes(&vec![FB_BASE, FB_WIDTH, FB_HEIGHT, FB_PITCH]);
    write_block(mem, fb_struct, &head);
    mem.write_u16(fb_struct + 32, 32);
    let fmt: Vec<u8> = vec![1u8, 8, 16, 8, 8, 8, 0];
    write_block(mem, fb_struct + 34, &fmt);
    let edid = words_bytes(&vec![0u64, 0]);
    write_block(mem, fb_struct + 48, &edid);
    let fb_ptrs = bump.allocate(8, 8)?;
    write_u64(mem, fb_ptrs, fb_struct);
    let fb_resp = bump.allocate(24, 8)?;
    let fr = words_bytes(&vec![0u64, 1, fb_ptrs]);
    write_block(mem, fb_resp, &fr);
    write_u64(mem, fb_req + LIMINE_REQUEST_RESPONSE_OFF, fb_resp);
    Ok(())
}

} // verus!
