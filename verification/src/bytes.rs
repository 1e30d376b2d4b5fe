use vstd::prelude::*;
use vstd::bytes::{spec_u64_to_le_bytes, u64_to_le_bytes};

verus! {

/// `s` with `bytes` written over it starting at offset `at`.
pub open spec fn splice(s: Seq<u8>, at: int, bytes: Seq<u8>) -> Seq<u8> {
    s.subrange(0, at) + bytes + s.subrange(at + bytes.len(), s.len() as int)
}

/// `n` zero bytes.
pub open spec fn zeros(n: nat) -> Seq<u8> {
    Seq::new(n, |i: int| 0u8)
}

pub proof fn lemma_splice_len(s: Seq<u8>, at: int, bytes: Seq<u8>)
    requires
        0 <= at,
        at + bytes.len() <= s.len(),
    ensures
        splice(s, at, bytes).len() == s.len(),
        splice(s, at, bytes).subrange(at, at + bytes.len()) == bytes,
        forall|i: int| 0 <= i < s.len() && !(at <= i < at + bytes.len()) ==> #[trigger] splice(s, at, bytes)[i] == s[i],
        forall|i: int| at <= i < at + bytes.len() ==> #[trigger] splice(s, at, bytes)[i] == bytes[i - at],
{
    assert(splice(s, at, bytes).subrange(at, at + bytes.len()) =~= bytes);
}


pub proof fn lemma_splice_concat(m: Seq<u8>, a: int, x: Seq<u8>, y: Seq<u8>)
    requires
        0 <= a,
        a + x.len() + y.len() <= m.len(),
    ensures
        splice(splice(m, a, x), a + x.len(), y) == splice(m, a, x + y),
{
    lemma_splice_len(m, a, x);
    assert(splice(splice(m, a, x), a + x.len(), y) =~= splice(m, a, x + y));
}

/// The little-endian bytes of each word, one after the other.
pub open spec fn le64s(vs: Seq<u64>) -> Seq<u8>
    decreases vs.len(),
{
    if vs.len() == 0 { Seq::empty() } else { le64s(vs.drop_last()) + spec_u64_to_le_bytes(vs.last()) }
}

pub proof fn lemma_le64s_len(vs: Seq<u64>)
    ensures
        le64s(vs).len() == 8 * vs.len(),
    decreases vs.len(),
{
    vstd::bytes::lemma_auto_spec_u64_to_from_le_bytes();
    if vs.len() > 0 {
        lemma_le64s_len(vs.drop_last());
    }
}

/// Word `i` of `le64s(vs)` is the little-endian encoding of `vs[i]`.
pub proof fn lemma_le64s_word(vs: Seq<u64>, i: int)
    requires
        0 <= i < vs.len(),
    ensures
        le64s(vs).len() == 8 * vs.len(),
        le64s(vs).subrange(8 * i, 8 * i + 8) == spec_u64_to_le_bytes(vs[i]),
    decreases vs.len(),
{
    vstd::bytes::lemma_auto_spec_u64_to_from_le_bytes();
    lemma_le64s_len(vs);
    let d = vs.drop_last();
    lemma_le64s_len(d);
    let w = le64s(vs);
    if i == vs.len() - 1 {
        assert(w.subrange(8 * i, 8 * i + 8) =~= spec_u64_to_le_bytes(vs[i]));
    } else {
        lemma_le64s_word(d, i);
        assert(w.subrange(8 * i, 8 * i + 8) =~= le64s(d).subrange(8 * i, 8 * i + 8));
    }
}

/// Bytes outside a splice keep their values; bytes inside are those spliced in.
pub proof fn lemma_splice_ranges(s: Seq<u8>, at: int, bytes: Seq<u8>, lo: int, hi: int)
    requires
        0 <= at,
        at + bytes.len() <= s.len(),
        0 <= lo <= hi <= s.len(),
    ensures
        hi <= at || at + bytes.len() <= lo ==> splice(s, at, bytes).subrange(lo, hi) == s.subrange(lo, hi),
        at <= lo && hi <= at + bytes.len() ==> splice(s, at, bytes).subrange(lo, hi) == bytes.subrange(lo - at, hi - at),
{
    lemma_splice_len(s, at, bytes);
    let t = splice(s, at, bytes);
    if hi <= at || at + bytes.len() <= lo {
        assert(t.subrange(lo, hi) =~= s.subrange(lo, hi));
    }
    if at <= lo && hi <= at + bytes.len() {
        assert(t.subrange(lo, hi) =~= bytes.subrange(lo - at, hi - at));
    }
}

/// The little-endian bytes of each word, one after the other.
pub fn words_bytes(vs: &Vec<u64>) -> (r: Vec<u8>)
    ensures
        r@ == le64s(vs@),
        r@.len() == 8 * vs@.len(),
{
    proof { lemma_le64s_len(vs@); }
    let mut out: Vec<u8> = Vec::new();
    let n = vs.len();
    let mut i: usize = 0;
    while i < n
        invariant
            n == vs@.len(),
            0 <= i <= n,
            out@ == le64s(vs@.subrange(0, i as int)),
        decreases n - i,
    {
        let mut p = u64_to_le_bytes(vs[i]);
        out.append(&mut p);
        proof {
            assert(vs@.subrange(0, i + 1).drop_last() =~= vs@.subrange(0, i as int));
        }
        i += 1;
    }
    assert(vs@.subrange(0, n as int) =~= vs@);
    out
}

} // verus!
