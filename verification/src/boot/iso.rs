use vstd::prelude::*;
use vstd::bytes::{spec_u32_from_le_bytes, u32_from_le_bytes};
use vstd::utf8::{valid_utf8, decode_utf8};

use crate::text::{
    lemma_trim_start_suffix, lemma_trim_end_prefix, lemma_trim_noop, lemma_trim_start_one, in_trim_set,
    TrimSet, trim_set, trim_ws, trim_start_set, lower_seq, is_ascii_digit, eq_ignore_ascii_case,
    decimal, str_chars, string_from_chars, trim_chars, trim_start_chars, lowercase_chars,
    chars_start_with, chars_eq_ignore_ascii_case, push_chars, push_decimal, slice_range, utf8_chars,
};
use crate::vmm::errors::VmmonError;
use crate::config::{has_ext, has_ext_spec};

verus! {

pub const ISO_SECTOR_SIZE: u64 = 2048;
pub const PVD_SECTOR: u64 = 16;
pub const VD_TYPE_PRIMARY: u8 = 1;
/// Offset of the root directory record in the primary volume descriptor.
pub const PVD_ROOT_RECORD_OFF: usize = 156;

/// A file or directory of the ISO 9660 image: its first logical block, its size in
/// bytes and whether it is a directory.
#[derive(Clone, Copy, Debug)]
pub struct IsoNode {
    pub extent_lba: u32,
    pub size: u32,
    pub is_dir: bool,
}

// ---------------------------------------------------------------------------
// Records
// ---------------------------------------------------------------------------

/// The little-endian `u32` at `off` of `buf`.
pub open spec fn le_u32_at(buf: Seq<u8>, off: int) -> u32 {
    spec_u32_from_le_bytes(buf.subrange(off, off + 4))
}

/// The little-endian `u32` at `off`, if four bytes are there.
pub fn rd_u32_le(buf: &[u8], off: usize) -> (r: Option<u32>)
    ensures
        r == (if off + 4 <= buf@.len() { Some(le_u32_at(buf@, off as int)) } else { None::<u32> }),
{
    if off > buf.len() || buf.len() - off < 4 {
        return None;
    }
    Some(u32_from_le_bytes(&buf[off..off + 4]))
}

/// A directory record: extent at offset 2, size at 10, flags at 25 (bit 1: directory).
pub open spec fn dir_record(rec: Seq<u8>) -> Option<IsoNode> {
    if rec.len() < 34 {
        None
    } else {
        Some(IsoNode { extent_lba: le_u32_at(rec, 2), size: le_u32_at(rec, 10), is_dir: rec[25] & 2 != 0 })
    }
}

pub fn parse_dir_record(rec: &[u8]) -> (r: Option<IsoNode>)
    ensures
        r == dir_record(rec@),
{
    if rec.len() < 34 {
        return None;
    }
    let extent_lba = rd_u32_le(rec, 2)?;
    let size = rd_u32_le(rec, 10)?;
    let flags = rec[25];
    let is_dir = (flags & 0x02) != 0;
    Some(IsoNode { extent_lba, size, is_dir })
}

/// The index of the last `c` in `s`, or -1.
pub open spec fn rfind(s: Seq<char>, c: char) -> int
    decreases s.len(),
{
    if s.len() == 0 { -1 } else if s.last() == c { s.len() - 1 } else { rfind(s.drop_last(), c) }
}

pub proof fn lemma_rfind(s: Seq<char>, c: char)
    ensures
        -1 <= rfind(s, c) < s.len(),
        rfind(s, c) >= 0 ==> s[rfind(s, c)] == c,
        forall|k: int| rfind(s, c) < k < s.len() ==> s[k] != c,
    decreases s.len(),
{
    if s.len() > 0 && s.last() != c {
        let d = s.drop_last();
        lemma_rfind(d, c);
        assert forall|k: int| rfind(s, c) < k < s.len() implies s[k] != c by {
            if k < s.len() - 1 {
                assert(s[k] == d[k]);
            }
        }
    }
}

pub fn rfind_exec(s: &[char], c: char) -> (r: Option<usize>)
    ensures
        match r {
            Some(k) => k == rfind(s@, c),
            None => rfind(s@, c) == -1,
        },
{
    let mut j: usize = s.len();
    assert(s@.subrange(0, j as int) =~= s@);
    while j > 0
        invariant
            j <= s@.len(),
            rfind(s@, c) == rfind(s@.subrange(0, j as int), c),
        decreases j,
    {
        let ghost t = s@.subrange(0, j as int);
        if s[j - 1] == c {
            return Some(j - 1);
        }
        assert(t.drop_last() =~= s@.subrange(0, j - 1));
        j -= 1;
    }
    None
}

/// `name` without an ISO 9660 version suffix: a last `;` after a non-empty base,
/// followed only by ASCII digits.
pub open spec fn strip_version(s: Seq<char>) -> Seq<char> {
    let k = rfind(s, ';');
    if k > 0 && (forall|i: int| k < i < s.len() ==> is_ascii_digit(#[trigger] s[i])) {
        s.subrange(0, k)
    } else {
        s
    }
}

fn strip_version_len(s: &[char]) -> (r: usize)
    ensures
        r <= s@.len(),
        s@.subrange(0, r as int) == strip_version(s@),
{
    proof { lemma_rfind(s@, ';'); }
    match rfind_exec(s, ';') {
        Some(k) => {
            if k == 0 {
                assert(s@.subrange(0, s@.len() as int) =~= s@);
                return s.len();
            }
            let len = s.len();
            assert(k < len);
            let mut i = k + 1;
            while i < s.len()
                invariant
                    k < i <= s@.len(),
                    k == rfind(s@, ';'),
                    k > 0,
                    forall|q: int| k < q < i ==> is_ascii_digit(#[trigger] s@[q]),
                decreases s@.len() - i,
            {
                if !('0' <= s[i] && s[i] <= '9') {
                    assert(!is_ascii_digit(s@[i as int]));
                    assert(s@.subrange(0, s@.len() as int) =~= s@);
                    return s.len();
                }
                i += 1;
            }
            k
        },
        None => {
            assert(s@.subrange(0, s@.len() as int) =~= s@);
            s.len()
        },
    }
}

pub fn strip_iso_version_suffix(name: &str) -> (r: &str)
    ensures
        r@ == strip_version(name@),
{
    let cs = str_chars(name);
    let k = strip_version_len(cs.as_slice());
    name.substring_char(0, k)
}

/// The file identifier of a directory record: `.` and `..` for the one-byte
/// identifiers 0 and 1, else the UTF-8 text, trimmed and without version suffix.
pub open spec fn file_identifier(rec: Seq<u8>) -> Option<Seq<char>> {
    if rec.len() <= 32 {
        None
    } else {
        let n = rec[32] as int;
        if 33 + n > rec.len() {
            None
        } else {
            let ident = rec.subrange(33, 33 + n);
            if n == 1 && ident[0] == 0 {
                Some(seq!['.'])
            } else if n == 1 && ident[0] == 1 {
                Some(seq!['.', '.'])
            } else if !valid_utf8(ident) {
                None
            } else {
                Some(strip_version(trim_ws(decode_utf8(ident))))
            }
        }
    }
}

fn file_identifier_chars(rec: &[u8]) -> (r: Option<Vec<char>>)
    ensures
        match r {
            Some(v) => file_identifier(rec@) == Some(v@),
            None => file_identifier(rec@) is None,
        },
{
    if rec.len() <= 32 {
        return None;
    }
    let ident_len = rec[32] as usize;
    if ident_len > rec.len() - 33 {
        return None;
    }
    let ident = &rec[33..33 + ident_len];
    if ident_len == 1 {
        if ident[0] == 0 {
            let v: Vec<char> = vec!['.'];
            assert(v@ =~= seq!['.']);
            return Some(v);
        }
        if ident[0] == 1 {
            let v: Vec<char> = vec!['.', '.'];
            assert(v@ =~= seq!['.', '.']);
            return Some(v);
        }
    }
    let raw = utf8_chars(ident)?;
    let trimmed = trim_chars(raw.as_slice(), TrimSet::Whitespace);
    let k = strip_version_len(trimmed.as_slice());
    Some(slice_range(trimmed.as_slice(), 0, k))
}

pub fn parse_file_identifier(rec: &[u8]) -> (r: Option<String>)
    ensures
        match r {
            Some(s) => file_identifier(rec@) == Some(s@),
            None => file_identifier(rec@) is None,
        },
{
    let v = file_identifier_chars(rec)?;
    Some(string_from_chars(v.as_slice()))
}

/// The name by which directory lookups compare: without version suffix, trimmed
/// of whitespace and of `/`, ASCII letters in small case.
pub open spec fn iso_name_key(s: Seq<char>) -> Seq<char> {
    lower_seq(trim_set(trim_ws(strip_version(s)), TrimSet::Char('/')))
}

fn iso_name_key_chars(s: &[char]) -> (r: Vec<char>)
    ensures
        r@ == iso_name_key(s@),
{
    let k = strip_version_len(s);
    let base = slice_range(s, 0, k);
    let t = trim_chars(base.as_slice(), TrimSet::Whitespace);
    let u = trim_chars(t.as_slice(), TrimSet::Char('/'));
    lowercase_chars(u.as_slice())
}

pub fn normalize_iso_name(name: &str) -> (r: String)
    ensures
        r@ == iso_name_key(name@),
{
    let cs = str_chars(name);
    let k = iso_name_key_chars(cs.as_slice());
    string_from_chars(k.as_slice())
}

// ---------------------------------------------------------------------------
// Paths
// ---------------------------------------------------------------------------

/// The first index at or after `start` where `s` holds `c`, or `s.len()`.
pub open spec fn next_index_of(s: Seq<char>, c: char, start: int) -> int
    decreases s.len() - start,
{
    if start >= s.len() { s.len() as int } else if s[start] == c { start } else { next_index_of(s, c, start + 1) }
}

pub proof fn lemma_next_index_of(s: Seq<char>, c: char, start: int)
    requires
        0 <= start,
    ensures
        start <= next_index_of(s, c, start) || start > s.len(),
        next_index_of(s, c, start) <= s.len(),
        next_index_of(s, c, start) < s.len() ==> s[next_index_of(s, c, start)] == c,
        forall|k: int| start <= k < next_index_of(s, c, start) ==> s[k] != c,
    decreases s.len() - start,
{
    if start < s.len() && s[start] != c {
        lemma_next_index_of(s, c, start + 1);
    }
}

fn next_index_exec(s: &[char], c: char, start: usize) -> (r: usize)
    requires
        start <= s@.len(),
    ensures
        r == next_index_of(s@, c, start as int),
        start <= r <= s@.len(),
{
    let mut j = start;
    while j < s.len() && s[j] != c
        invariant
            start <= j <= s@.len(),
            next_index_of(s@, c, start as int) == next_index_of(s@, c, j as int),
        decreases s@.len() - j,
    {
        j += 1;
    }
    j
}

/// The non-empty pieces between `/` characters of `s` from `start` on.
pub open spec fn path_parts_from(s: Seq<char>, start: int) -> Seq<Seq<char>>
    decreases s.len() - start,
{
    if start < 0 || start >= s.len() {
        Seq::empty()
    } else {
        let j = next_index_of(s, '/', start);
        proof { lemma_next_index_of(s, '/', start); }
        let rest = if j < s.len() { path_parts_from(s, j + 1) } else { Seq::empty() };
        if j > start { seq![s.subrange(start, j)] + rest } else { rest }
    }
}

/// The non-empty components of a `/`-separated path.
pub open spec fn path_parts(s: Seq<char>) -> Seq<Seq<char>> {
    path_parts_from(s, 0)
}

/// The bounds of the components of `s` from `start` on.
pub fn part_bounds(s: &[char]) -> (r: Vec<(usize, usize)>)
    ensures
        r@.len() == path_parts(s@).len(),
        forall|i: int| 0 <= i < r@.len() ==> {
            &&& (#[trigger] r@[i]).0 <= r@[i].1 <= s@.len()
            &&& s@.subrange(r@[i].0 as int, r@[i].1 as int) == path_parts(s@)[i]
        },
{
    let ghost full = path_parts(s@);
    let mut out: Vec<(usize, usize)> = Vec::new();
    let mut i: usize = 0;
    let n = s.len();
    while i < n
        invariant
            n == s@.len(),
            0 <= i <= n,
            full == path_parts(s@),
            full == out@.map_values(|b: (usize, usize)| s@.subrange(b.0 as int, b.1 as int)) + path_parts_from(s@, i as int),
            forall|q: int| 0 <= q < out@.len() ==> (#[trigger] out@[q]).0 <= out@[q].1 <= n,
        decreases n - i,
    {
        let j = next_index_exec(s, '/', i);
        let ghost before = out@;
        if j > i {
            out.push((i, j));
        }
        proof {
            let rest = if j < n { path_parts_from(s@, j + 1) } else { Seq::empty() };
            assert(path_parts_from(s@, i as int) == (if j > i { seq![s@.subrange(i as int, j as int)] + rest } else { rest }));
            let f = |b: (usize, usize)| s@.subrange(b.0 as int, b.1 as int);
            if j > i {
                assert(out@.map_values(f) =~= before.map_values(f).push(s@.subrange(i as int, j as int)));
            } else {
                assert(out@.map_values(f) =~= before.map_values(f));
            }
            if j >= n {
                assert(path_parts_from(s@, n as int) =~= Seq::<Seq<char>>::empty());
            }
        }
        if j >= n {
            i = n;
        } else {
            i = j + 1;
        }
    }
    proof {
        assert(path_parts_from(s@, n as int) =~= Seq::<Seq<char>>::empty());
        let f = |b: (usize, usize)| s@.subrange(b.0 as int, b.1 as int);
        assert(full =~= out@.map_values(f));
        assert forall|q: int| 0 <= q < out@.len() implies
            s@.subrange(out@[q].0 as int, out@[q].1 as int) == #[trigger] full[q] by {
            assert(full[q] == out@.map_values(f)[q]);
        }
    }
    out
}

pub fn split_path(path: &str) -> (r: Vec<&str>)
    ensures
        r@.len() == path_parts(path@).len(),
        forall|i: int| 0 <= i < r@.len() ==> (#[trigger] r@[i])@ == path_parts(path@)[i],
{
    let cs = str_chars(path);
    let bounds = part_bounds(cs.as_slice());
    let mut out: Vec<&str> = Vec::new();
    let mut i: usize = 0;
    while i < bounds.len()
        invariant
            0 <= i <= bounds@.len(),
            cs@ == path@,
            bounds@.len() == path_parts(path@).len(),
            forall|q: int| 0 <= q < bounds@.len() ==> {
                &&& (#[trigger] bounds@[q]).0 <= bounds@[q].1 <= path@.len()
                &&& path@.subrange(bounds@[q].0 as int, bounds@[q].1 as int) == path_parts(path@)[q]
            },
            out@.len() == i,
            forall|q: int| 0 <= q < i ==> (#[trigger] out@[q])@ == path_parts(path@)[q],
        decreases bounds@.len() - i,
    {
        let (a, b) = bounds[i];
        let piece = path.substring_char(a, b);
        proof { assert(bounds@[i as int] == (a, b)); }
        out.push(piece);
        i += 1;
    }
    out
}

// ---------------------------------------------------------------------------
// Volume descriptor
// ---------------------------------------------------------------------------

/// The ISO 9660 standard identifier `CD001`.
pub open spec fn std_id() -> Seq<u8> {
    seq![0x43u8, 0x44, 0x30, 0x30, 0x31]
}

/// What is wrong with a primary volume descriptor, as the error's text; `None` if
/// nothing is.
pub open spec fn pvd_problem(pvd: Seq<u8>) -> Option<Seq<char>> {
    if pvd.len() < ISO_SECTOR_SIZE {
        Some("short read of ISO primary volume descriptor"@)
    } else if pvd[0] != VD_TYPE_PRIMARY {
        Some("unexpected ISO volume descriptor type "@ + decimal(pvd[0] as nat) + "; expected primary volume descriptor"@)
    } else if pvd.subrange(1, 6) != std_id() {
        Some("invalid ISO9660 standard identifier"@)
    } else if pvd[6] != 1 {
        Some("unsupported ISO volume descriptor version "@ + decimal(pvd[6] as nat))
    } else {
        None
    }
}

fn boot_error(text: &Vec<char>) -> (e: VmmonError)
    ensures
        e matches VmmonError::Boot(m) && m@ == text@,
{
    VmmonError::boot(string_from_chars(text.as_slice()))
}

fn boot_error_str(text: &str) -> (e: VmmonError)
    ensures
        e matches VmmonError::Boot(m) && m@ == text@,
{
    VmmonError::boot(String::from_str(text))
}

pub fn validate_pvd(pvd: &[u8]) -> (r: Result<(), VmmonError>)
    ensures
        match pvd_problem(pvd@) {
            None => r is Ok,
            Some(t) => r matches Err(VmmonError::Boot(m)) && m@ == t,
        },
{
    if pvd.len() < ISO_SECTOR_SIZE as usize {
        return Err(boot_error_str("short read of ISO primary volume descriptor"));
    }
    if pvd[0] != VD_TYPE_PRIMARY {
        let mut t = str_chars("unexpected ISO volume descriptor type ");
        push_decimal(&mut t, pvd[0] as u64);
        let tail = str_chars("; expected primary volume descriptor");
        push_chars(&mut t, tail.as_slice());
        return Err(boot_error(&t));
    }
    if pvd[1] != 0x43 || pvd[2] != 0x44 || pvd[3] != 0x30 || pvd[4] != 0x30 || pvd[5] != 0x31 {
        return Err(boot_error_str("invalid ISO9660 standard identifier"));
    }
    assert(pvd@.subrange(1, 6) =~= std_id());
    if pvd[6] != 1 {
        let mut t = str_chars("unsupported ISO volume descriptor version ");
        push_decimal(&mut t, pvd[6] as u64);
        return Err(boot_error(&t));
    }
    Ok(())
}

// ---------------------------------------------------------------------------
// Limine configuration
// ---------------------------------------------------------------------------

/// The URI prefixes that a Limine path may carry, tried in this order.
pub open spec fn limine_prefixes() -> Seq<Seq<char>> {
    seq!["boot:///"@, "boot://"@, "boot:/"@, "file:///"@, "file://"@, "file:/"@]
}

pub open spec fn has_prefix(s: Seq<char>, p: Seq<char>) -> bool {
    p.len() <= s.len() && s.subrange(0, p.len() as int) == p
}

/// `s` without the first of `ps` that it begins with, if any.
pub open spec fn strip_first_prefix(s: Seq<char>, ps: Seq<Seq<char>>) -> Seq<char>
    decreases ps.len(),
{
    if ps.len() == 0 {
        s
    } else if has_prefix(s, ps[0]) {
        s.subrange(ps[0].len() as int, s.len() as int)
    } else {
        strip_first_prefix(s, ps.drop_first())
    }
}

/// A Limine path made absolute: trimmed, without URI prefix and leading slashes,
/// then one `/` in front; empty if nothing is left.
pub open spec fn limine_path(p: Seq<char>) -> Seq<char> {
    let s = trim_start_set(strip_first_prefix(trim_ws(p), limine_prefixes()), TrimSet::Char('/'));
    if s.len() == 0 { Seq::empty() } else { seq!['/'] + s }
}

fn limine_path_chars(p: &[char]) -> (r: Vec<char>)
    ensures
        r@ == limine_path(p@),
{
    let s = trim_chars(p, TrimSet::Whitespace);
    let prefixes: [&str; 6] = ["boot:///", "boot://", "boot:/", "file:///", "file://", "file:/"];
    let ghost ps = limine_prefixes();
    assert(prefixes@.map_values(|x: &str| x@) =~= ps);
    let mut rest = slice_range(s.as_slice(), 0, s.len());
    assert(ps.subrange(0, 6) =~= ps);
    let mut i: usize = 0;
    while i < 6
        invariant
            0 <= i <= 6,
            ps == limine_prefixes(),
            ps.len() == 6,
            prefixes@.map_values(|x: &str| x@) == ps,
            rest@ == s@,
            s@ == trim_ws(p@),
            strip_first_prefix(s@, ps) == strip_first_prefix(s@, ps.subrange(i as int, 6)),
        decreases 6 - i,
    {
        let pre = str_chars(prefixes[i]);
        proof {
            assert(prefixes@.map_values(|x: &str| x@)[i as int] == prefixes@[i as int]@);
            assert(ps.subrange(i as int, 6)[0] == ps[i as int]);
            assert(ps.subrange(i as int, 6).drop_first() =~= ps.subrange(i + 1, 6));
        }
        if chars_start_with(s.as_slice(), pre.as_slice()) {
            let tail = slice_range(s.as_slice(), pre.len(), s.len());
            assert(pre@ == ps[i as int]);
            assert(has_prefix(s@, ps.subrange(i as int, 6)[0]));
            assert(strip_first_prefix(s@, ps.subrange(i as int, 6)) == tail@);
            let t = trim_start_chars(tail.as_slice(), TrimSet::Char('/'));
            if t.len() == 0 {
                return Vec::new();
            }
            let mut out: Vec<char> = vec!['/'];
            push_chars(&mut out, t.as_slice());
            assert(out@ =~= seq!['/'] + t@);
            return out;
        }
        i += 1;
    }
    assert(ps.subrange(6, 6) =~= Seq::<Seq<char>>::empty());
    let t = trim_start_chars(rest.as_slice(), TrimSet::Char('/'));
    if t.len() == 0 {
        return Vec::new();
    }
    let mut out: Vec<char> = vec!['/'];
    push_chars(&mut out, t.as_slice());
    assert(out@ =~= seq!['/'] + t@);
    out
}

/// Makes a Limine path absolute. The result is empty, or `/` followed by a
/// non-empty rest that does not begin with `/` and does not end in whitespace, and
/// making it absolute again changes nothing (`law_limine_path_shape`,
/// `law_limine_path_idempotent`).
pub fn normalize_limine_path(path: &str) -> (r: String)
    ensures
        r@ == limine_path(path@),
        r@.len() == 0 || (r@.len() >= 2 && r@[0] == '/' && r@[1] != '/' && !crate::text::is_ws(r@.last())),
        limine_path(r@) == r@,
{
    let cs = str_chars(path);
    let n = limine_path_chars(cs.as_slice());
    proof {
        law_limine_path_shape(path@);
        law_limine_path_idempotent(path@);
    }
    string_from_chars(n.as_slice())
}

pub open spec fn upper_seq(s: Seq<char>) -> Seq<char> {
    s.map_values(|c: char| crate::text::ascii_upper(c))
}

/// The kernel path that one line of a Limine configuration sets, if it sets one:
/// a line that, trimmed and not a comment, begins with `KERNEL_PATH=` in any case;
/// its value trimmed of whitespace, then of `"`, then of `'`, made absolute.
pub open spec fn line_kernel_path(raw: Seq<char>) -> Option<Seq<char>> {
    let line = trim_ws(raw);
    let key = "KERNEL_PATH="@;
    if line.len() == 0 || line[0] == '#' {
        None
    } else if !(key.len() <= line.len() && upper_seq(line.subrange(0, key.len() as int)) == key) {
        None
    } else {
        let v = trim_set(
            trim_set(trim_ws(line.subrange(key.len() as int, line.len() as int)), TrimSet::Char('"')),
            TrimSet::Char('\''),
        );
        let p = limine_path(v);
        if p.len() == 0 { None } else { Some(p) }
    }
}

/// The kernel path set by the first line from `start` on that sets one.
pub open spec fn kernel_path_from(t: Seq<char>, start: int) -> Option<Seq<char>>
    decreases t.len() - start,
{
    if start < 0 || start > t.len() {
        None
    } else {
        let j = next_index_of(t, '\n', start);
        proof { lemma_next_index_of(t, '\n', start); }
        match line_kernel_path(t.subrange(start, j)) {
            Some(p) => Some(p),
            None => if j < t.len() { kernel_path_from(t, j + 1) } else { None },
        }
    }
}

/// The kernel path that a Limine configuration file sets, if it is UTF-8 text and
/// sets one.
pub open spec fn limine_kernel_path(cfg: Seq<u8>) -> Option<Seq<char>> {
    if valid_utf8(cfg) { kernel_path_from(decode_utf8(cfg), 0) } else { None }
}

fn line_kernel_path_chars(raw: &[char]) -> (r: Option<Vec<char>>)
    ensures
        match r {
            Some(v) => line_kernel_path(raw@) == Some(v@),
            None => line_kernel_path(raw@) is None,
        },
{
    let line = trim_chars(raw, TrimSet::Whitespace);
    if line.len() == 0 || line[0] == '#' {
        return None;
    }
    let key = str_chars("KERNEL_PATH=");
    if key.len() > line.len() {
        return None;
    }
    let n = key.len();
    let mut i: usize = 0;
    while i < n
        invariant
            n == key@.len(),
            n <= line@.len(),
            key@ == "KERNEL_PATH="@,
            line@ == trim_ws(raw@),
            line@.len() > 0,
            line@[0] != '#',
            0 <= i <= n,
            forall|k: int| 0 <= k < i ==> crate::text::ascii_upper(#[trigger] line@[k]) == key@[k],
        decreases n - i,
    {
        if crate::text::to_ascii_upper(line[i]) != key[i] {
            assert(upper_seq(line@.subrange(0, n as int))[i as int] != key@[i as int]);
            return None;
        }
        i += 1;
    }
    assert(upper_seq(line@.subrange(0, n as int)) =~= key@);
    let value = slice_range(line.as_slice(), n, line.len());
    let v1 = trim_chars(value.as_slice(), TrimSet::Whitespace);
    let v2 = trim_chars(v1.as_slice(), TrimSet::Char('"'));
    let v3 = trim_chars(v2.as_slice(), TrimSet::Char('\''));
    let p = limine_path_chars(v3.as_slice());
    if p.len() == 0 {
        None
    } else {
        Some(p)
    }
}

fn kernel_path_chars(cfg_bytes: &[u8]) -> (r: Option<Vec<char>>)
    ensures
        match r {
            Some(v) => limine_kernel_path(cfg_bytes@) == Some(v@),
            None => limine_kernel_path(cfg_bytes@) is None,
        },
{
    let text = utf8_chars(cfg_bytes)?;
    let n = text.len();
    let mut start: usize = 0;
    while start <= n
        invariant
            n == text@.len(),
            0 <= start <= n,
            text@ == decode_utf8(cfg_bytes@),
            valid_utf8(cfg_bytes@),
            limine_kernel_path(cfg_bytes@) == kernel_path_from(text@, start as int),
        decreases n - start,
    {
        let j = next_index_exec(text.as_slice(), '\n', start);
        let piece = slice_range(text.as_slice(), start, j);
        if let Some(p) = line_kernel_path_chars(piece.as_slice()) {
            return Some(p);
        }
        if j >= n {
            return None;
        }
        start = j + 1;
    }
    None
}

pub fn parse_limine_kernel_path(cfg_bytes: &[u8]) -> (r: Option<String>)
    ensures
        match r {
            Some(s) => limine_kernel_path(cfg_bytes@) == Some(s@),
            None => limine_kernel_path(cfg_bytes@) is None,
        },
{
    let v = kernel_path_chars(cfg_bytes)?;
    Some(string_from_chars(v.as_slice()))
}

// ---------------------------------------------------------------------------
// Kernel path candidates
// ---------------------------------------------------------------------------

pub open spec fn strings_view(v: Seq<String>) -> Seq<Seq<char>> {
    v.map_values(|s: String| s@)
}

/// `out` with `v` added at the end, unless `v` is empty or `out` already holds it
/// up to ASCII case.
pub open spec fn push_unique_spec(out: Seq<Seq<char>>, v: Seq<char>) -> Seq<Seq<char>> {
    if v.len() > 0 && !(exists|i: int| 0 <= i < out.len() && eq_ignore_ascii_case(#[trigger] out[i], v)) {
        out.push(v)
    } else {
        out
    }
}

pub fn push_unique(out: &mut Vec<String>, value: String)
    ensures
        strings_view(final(out)@) == push_unique_spec(strings_view(old(out)@), value@),
{
    let vc = str_chars(value.as_str());
    if vc.len() == 0 {
        return;
    }
    let n = out.len();
    let mut i: usize = 0;
    while i < n
        invariant
            n == out@.len(),
            0 <= i <= n,
            vc@ == value@,
            out@ == old(out)@,
            forall|k: int| 0 <= k < i ==> !eq_ignore_ascii_case(#[trigger] strings_view(out@)[k], value@),
        decreases n - i,
    {
        let oc = str_chars(out[i].as_str());
        if chars_eq_ignore_ascii_case(oc.as_slice(), vc.as_slice()) {
            assert(strings_view(out@)[i as int] == out@[i as int]@);
            return;
        }
        assert(strings_view(out@)[i as int] == out@[i as int]@);
        i += 1;
    }
    let ghost before = strings_view(out@);
    out.push(value);
    assert(strings_view(out@) =~= before.push(value@));
}

/// The paths tried for a configured kernel path: the path made absolute, the same
/// under `/boot`, and its last component under `/boot`, each once.
pub open spec fn kernel_candidates(path: Seq<char>) -> Seq<Seq<char>> {
    let n = limine_path(path);
    let c1 = push_unique_spec(Seq::empty(), n);
    let c2 = if n.len() > 0 && n[0] == '/' { push_unique_spec(c1, "/boot/"@ + n.drop_first()) } else { c1 };
    push_unique_spec(c2, "/boot/"@ + n.subrange(rfind(n, '/') + 1, n.len() as int))
}

pub fn kernel_path_candidates(path: &str) -> (r: Vec<String>)
    ensures
        strings_view(r@) == kernel_candidates(path@),
{
    let pc = str_chars(path);
    let normalized = limine_path_chars(pc.as_slice());
    let mut out: Vec<String> = Vec::new();
    assert(strings_view(out@) =~= Seq::<Seq<char>>::empty());
    push_unique(&mut out, string_from_chars(normalized.as_slice()));
    if normalized.len() > 0 && normalized[0] == '/' {
        let mut c = str_chars("/boot/");
        let base = slice_range(normalized.as_slice(), 1, normalized.len());
        push_chars(&mut c, base.as_slice());
        assert(base@ =~= normalized@.drop_first());
        push_unique(&mut out, string_from_chars(c.as_slice()));
    }
    proof { lemma_rfind(normalized@, '/'); }
    let start = match rfind_exec(normalized.as_slice(), '/') {
        Some(k) => k + 1,
        None => 0,
    };
    let name = slice_range(normalized.as_slice(), start, normalized.len());
    let mut c = str_chars("/boot/");
    push_chars(&mut c, name.as_slice());
    push_unique(&mut out, string_from_chars(c.as_slice()));
    out
}

// ---------------------------------------------------------------------------
// Laws of paths
// ---------------------------------------------------------------------------

/// Stripping the first matching prefix keeps a suffix.
proof fn lemma_strip_prefix_suffix(s: Seq<char>, ps: Seq<Seq<char>>)
    ensures
        exists|k: int| 0 <= k <= s.len() && strip_first_prefix(s, ps) == #[trigger] s.subrange(k, s.len() as int),
    decreases ps.len(),
{
    if ps.len() == 0 {
        assert(s.subrange(0, s.len() as int) =~= s);
    } else if has_prefix(s, ps[0]) {
        assert(strip_first_prefix(s, ps) == s.subrange(ps[0].len() as int, s.len() as int));
    } else {
        lemma_strip_prefix_suffix(s, ps.drop_first());
    }
}

/// A path that begins with `/` has none of the Limine URI prefixes.
proof fn lemma_no_uri_prefix(s: Seq<char>)
    requires
        s.len() > 0,
        s[0] == '/',
    ensures
        strip_first_prefix(s, limine_prefixes()) == s,
{
    reveal_strlit("boot:///");
    reveal_strlit("boot://");
    reveal_strlit("boot:/");
    reveal_strlit("file:///");
    reveal_strlit("file://");
    reveal_strlit("file:/");
    let ps = limine_prefixes();
    assert forall|i: int| 0 <= i < ps.len() implies !has_prefix(s, #[trigger] ps[i]) by {
        assert(ps[i].len() > 0 && ps[i][0] != '/');
        if has_prefix(s, ps[i]) {
            assert(s.subrange(0, ps[i].len() as int)[0] == s[0]);
        }
    }
    let p1 = ps.drop_first();
    let p2 = p1.drop_first();
    let p3 = p2.drop_first();
    let p4 = p3.drop_first();
    let p5 = p4.drop_first();
    let p6 = p5.drop_first();
    assert(p1[0] == ps[1] && p2[0] == ps[2] && p3[0] == ps[3] && p4[0] == ps[4] && p5[0] == ps[5]);
    assert(p6.len() == 0);
    assert(strip_first_prefix(s, p6) == s);
    assert(strip_first_prefix(s, p5) == s);
    assert(strip_first_prefix(s, p4) == s);
    assert(strip_first_prefix(s, p3) == s);
    assert(strip_first_prefix(s, p2) == s);
    assert(strip_first_prefix(s, p1) == s);
    assert(!has_prefix(s, ps[0]));
}

/// A Limine path made absolute is empty, or one `/` followed by a non-empty rest
/// that does not begin with `/` and does not end in whitespace.
pub proof fn law_limine_path_shape(p: Seq<char>)
    ensures
        limine_path(p).len() == 0 || ({
            let n = limine_path(p);
            &&& n.len() >= 2
            &&& n[0] == '/'
            &&& n[1] != '/'
            &&& !crate::text::is_ws(n.last())
        }),
{
    let t = trim_ws(p);
    let x = strip_first_prefix(t, limine_prefixes());
    let s3 = trim_start_set(x, TrimSet::Char('/'));
    let n = limine_path(p);
    if s3.len() > 0 {
        assert(n == seq!['/'] + s3);
        // s3 is a non-empty suffix of the trimmed path, so it ends where that ends.
        lemma_trim_start_suffix(x, TrimSet::Char('/'));
        lemma_strip_prefix_suffix(t, limine_prefixes());
        lemma_trim_start_suffix(p, TrimSet::Whitespace);
        lemma_trim_end_prefix(trim_start_set(p, TrimSet::Whitespace), TrimSet::Whitespace);
        let k1 = choose|k: int| 0 <= k <= x.len() && s3 == #[trigger] x.subrange(k, x.len() as int);
        let k2 = choose|k: int| 0 <= k <= t.len() && x == #[trigger] t.subrange(k, t.len() as int);
        assert(s3.last() == t.last()) by {
            assert(s3.last() == x[x.len() - 1]);
            assert(x[x.len() - 1] == t[t.len() - 1]);
        }
        assert(!in_trim_set(TrimSet::Char('/'), s3[0]));
        assert(n[1] == s3[0]);
    }
}

/// Making a Limine path absolute twice is making it absolute once.
pub proof fn law_limine_path_idempotent(p: Seq<char>)
    ensures
        limine_path(limine_path(p)) == limine_path(p),
{
    let t = trim_ws(p);
    let x = strip_first_prefix(t, limine_prefixes());
    let s3 = trim_start_set(x, TrimSet::Char('/'));
    let n = limine_path(p);
    law_limine_path_shape(p);
    if s3.len() == 0 {
        assert(n == Seq::<char>::empty());
        assert(trim_ws(n) =~= n);
        lemma_strip_prefix_suffix(n, limine_prefixes());
        assert(limine_path(n) =~= n);
    } else {
        assert(n == seq!['/'] + s3);
        assert(!crate::text::is_ws(n[0]));
        lemma_trim_noop(n, TrimSet::Whitespace);
        lemma_no_uri_prefix(n);
        assert(!in_trim_set(TrimSet::Char('/'), s3[0]));
        if n.len() > 1 {
            assert(n[1] == s3[0]);
            lemma_trim_start_one(n, TrimSet::Char('/'));
            assert(n.drop_first() =~= s3);
        }
    }
}

/// The components of a path are non-empty and hold no `/`.
pub proof fn law_path_parts_clean(s: Seq<char>, start: int)
    requires
        0 <= start,
    ensures
        forall|k: int| 0 <= k < path_parts_from(s, start).len() ==> {
            &&& (#[trigger] path_parts_from(s, start)[k]).len() > 0
            &&& !path_parts_from(s, start)[k].contains('/')
        },
    decreases s.len() - start,
{
    if start < s.len() {
        let j = next_index_of(s, '/', start);
        lemma_next_index_of(s, '/', start);
        if j < s.len() {
            law_path_parts_clean(s, j + 1);
        }
        let rest = if j < s.len() { path_parts_from(s, j + 1) } else { Seq::empty() };
        let all = path_parts_from(s, start);
        if j > start {
            let piece = s.subrange(start, j);
            assert(all == seq![piece] + rest);
            assert(!piece.contains('/')) by {
                if piece.contains('/') {
                    let q = choose|q: int| 0 <= q < piece.len() && piece[q] == '/';
                    assert(s[start + q] == '/');
                }
            }
            assert forall|k: int| 0 <= k < all.len() implies {
                &&& (#[trigger] all[k]).len() > 0
                &&& !all[k].contains('/')
            } by {
                if k > 0 {
                    assert(all[k] == rest[k - 1]);
                }
            }
        }
    }
}

/// No two of the strings are equal up to ASCII case.
pub open spec fn distinct_ignoring_case(v: Seq<Seq<char>>) -> bool {
    forall|i: int, j: int| 0 <= i < j < v.len() ==> !eq_ignore_ascii_case(#[trigger] v[i], #[trigger] v[j])
}

/// `push_unique` keeps a list free of duplicates up to ASCII case, and afterwards
/// the list holds the value (up to case) unless the value is empty.
pub proof fn law_push_unique(out: Seq<Seq<char>>, v: Seq<char>)
    requires
        distinct_ignoring_case(out),
    ensures
        distinct_ignoring_case(push_unique_spec(out, v)),
        v.len() > 0 ==> exists|i: int| 0 <= i < push_unique_spec(out, v).len()
            && eq_ignore_ascii_case(#[trigger] push_unique_spec(out, v)[i], v),
{
    let r = push_unique_spec(out, v);
    if v.len() > 0 {
        if exists|i: int| 0 <= i < out.len() && eq_ignore_ascii_case(#[trigger] out[i], v) {
            let i = choose|i: int| 0 <= i < out.len() && eq_ignore_ascii_case(#[trigger] out[i], v);
            assert(eq_ignore_ascii_case(r[i], v));
        } else {
            assert(r == out.push(v));
            assert(eq_ignore_ascii_case(r[out.len() as int], v));
            assert forall|i: int, j: int| 0 <= i < j < r.len() implies !eq_ignore_ascii_case(#[trigger] r[i], #[trigger] r[j]) by {
                if j == out.len() {
                    assert(r[i] == out[i]);
                } else {
                    assert(r[i] == out[i] && r[j] == out[j]);
                }
            }
        }
    }
}

/// The candidate paths for a kernel are non-empty and distinct up to ASCII case.
pub proof fn law_candidates_distinct(path: Seq<char>)
    ensures
        distinct_ignoring_case(kernel_candidates(path)),
{
    let n = limine_path(path);
    law_push_unique(Seq::empty(), n);
    let c1 = push_unique_spec(Seq::empty(), n);
    if n.len() > 0 && n[0] == '/' {
        law_push_unique(c1, "/boot/"@ + n.drop_first());
        let c2 = push_unique_spec(c1, "/boot/"@ + n.drop_first());
        law_push_unique(c2, "/boot/"@ + n.subrange(rfind(n, '/') + 1, n.len() as int));
    } else {
        law_push_unique(c1, "/boot/"@ + n.subrange(rfind(n, '/') + 1, n.len() as int));
    }
}

// ---------------------------------------------------------------------------
// Reading the image
// ---------------------------------------------------------------------------

/// The `size` bytes of the image from logical block `lba`, if the image holds them.
pub open spec fn extent(iso: Seq<u8>, lba: u32, size: u32) -> Option<Seq<u8>> {
    let off = lba * ISO_SECTOR_SIZE;
    if off + size <= iso.len() { Some(iso.subrange(off, off + size)) } else { None }
}

fn read_extent(iso: &[u8], lba: u32, size: u32) -> (r: Option<Vec<u8>>)
    ensures
        match r {
            Some(v) => extent(iso@, lba, size) == Some(v@),
            None => extent(iso@, lba, size) is None,
        },
{
    let off = (lba as u64) * ISO_SECTOR_SIZE;
    let len = iso.len() as u64;
    if off > len || (size as u64) > len - off {
        return None;
    }
    let start = off as usize;
    let end = start + size as usize;
    let mut out: Vec<u8> = Vec::new();
    let mut i = start;
    while i < end
        invariant
            start <= i <= end <= iso@.len(),
            out@ == iso@.subrange(start as int, i as int),
        decreases end - i,
    {
        out.push(iso[i]);
        assert(iso@.subrange(start as int, i + 1) =~= iso@.subrange(start as int, i as int).push(iso@[i as int]));
        i += 1;
    }
    Some(out)
}

/// Builds the error that a short read of the image gives: `UnexpectedEof`, as
/// `Read::read_exact` reports it (`std::io::Error::new`).
#[verifier::external_body]
fn short_read_error() -> std::io::Error {
    std::io::Error::new(std::io::ErrorKind::UnexpectedEof, "failed to fill whole buffer")
}

/// The root directory of the image: `Err(None)` when the image is too short to
/// hold the primary volume descriptor, `Err(Some(text))` for a descriptor that is
/// wrong in the way `text` says.
pub open spec fn root_node(iso: Seq<u8>) -> Result<IsoNode, Option<Seq<char>>> {
    match extent(iso, (PVD_SECTOR) as u32, ISO_SECTOR_SIZE as u32) {
        None => Err(None),
        Some(pvd) => match pvd_problem(pvd) {
            Some(t) => Err(Some(t)),
            None => match dir_record(pvd.subrange(PVD_ROOT_RECORD_OFF as int, pvd.len() as int)) {
                None => Err(Some("invalid ISO primary volume descriptor root record"@)),
                Some(root) => if !root.is_dir {
                    Err(Some("ISO primary volume descriptor root record is not a directory"@))
                } else {
                    Ok(root)
                },
            },
        },
    }
}

fn root_dir(iso: &[u8]) -> (r: Result<IsoNode, VmmonError>)
    ensures
        match root_node(iso@) {
            Ok(root) => r == Ok::<IsoNode, VmmonError>(root),
            Err(None) => r matches Err(VmmonError::Io(_)),
            Err(Some(t)) => r matches Err(VmmonError::Boot(m)) && m@ == t,
        },
{
    let pvd = match read_extent(iso, PVD_SECTOR as u32, ISO_SECTOR_SIZE as u32) {
        Some(p) => p,
        None => return Err(VmmonError::Io(short_read_error())),
    };
    validate_pvd(pvd.as_slice())?;
    let root = match parse_dir_record(&pvd.as_slice()[PVD_ROOT_RECORD_OFF..pvd.len()]) {
        Some(n) => n,
        None => return Err(boot_error_str("invalid ISO primary volume descriptor root record")),
    };
    if !root.is_dir {
        return Err(boot_error_str("ISO primary volume descriptor root record is not a directory"));
    }
    Ok(root)
}

/// The entries of directory data from offset `off` on: each record that parses and
/// is neither `.` nor `..`, with its identifier; a zero length byte skips to the
/// next sector, and a record that runs past the data ends the listing.
pub open spec fn dir_entries_from(data: Seq<u8>, off: int) -> Seq<(Seq<char>, IsoNode)>
    decreases data.len() + ISO_SECTOR_SIZE - off,
{
    if off < 0 || off >= data.len() {
        Seq::empty()
    } else {
        let rec_len = data[off] as int;
        if rec_len == 0 {
            proof { assert(0 <= off % (ISO_SECTOR_SIZE as int) < ISO_SECTOR_SIZE); }
            dir_entries_from(data, off - off % (ISO_SECTOR_SIZE as int) + ISO_SECTOR_SIZE)
        } else if off + rec_len > data.len() {
            Seq::empty()
        } else {
            let rec = data.subrange(off, off + rec_len);
            let rest = dir_entries_from(data, off + rec_len);
            match (dir_record(rec), file_identifier(rec)) {
                (Some(node), Some(ident)) => if ident != seq!['.'] && ident != seq!['.', '.'] {
                    seq![(ident, node)] + rest
                } else {
                    rest
                },
                _ => rest,
            }
        }
    }
}

/// A directory entry: its identifier and its node.
#[derive(Clone, Debug)]
pub struct DirEntry {
    pub name: Vec<char>,
    pub node: IsoNode,
}

pub open spec fn entries_view(v: Seq<DirEntry>) -> Seq<(Seq<char>, IsoNode)> {
    v.map_values(|e: DirEntry| (e.name@, e.node))
}

/// The entries of directory `dir`: an error with a text if it is no directory,
/// `Err(None)` (a short read) if the image does not hold its extent.
pub open spec fn dir_listing(iso: Seq<u8>, dir: IsoNode) -> Result<Seq<(Seq<char>, IsoNode)>, Option<Seq<char>>> {
    if !dir.is_dir {
        Err(Some("attempted to read entries from non-directory"@))
    } else {
        match extent(iso, dir.extent_lba, dir.size) {
            Some(d) => Ok(dir_entries_from(d, 0)),
            None => Err(None),
        }
    }
}

/// Whether `r` is the error that `e` describes: `None` a short read of the image
/// (an `Io` error), `Some(text)` a `Boot` error with that text.
pub open spec fn read_error(r: VmmonError, e: Option<Seq<char>>) -> bool {
    match e {
        None => r is Io,
        Some(t) => r matches VmmonError::Boot(m) && m@ == t,
    }
}

fn read_dir_entries(iso: &[u8], dir: IsoNode) -> (r: Result<Vec<DirEntry>, VmmonError>)
    ensures
        match dir_listing(iso@, dir) {
            Ok(es) => r matches Ok(v) && entries_view(v@) == es,
            Err(e) => r matches Err(x) && read_error(x, e),
        },
{
    if !dir.is_dir {
        return Err(boot_error_str("attempted to read entries from non-directory"));
    }
    let data = match read_extent(iso, dir.extent_lba, dir.size) {
        Some(d) => d,
        None => return Err(VmmonError::Io(short_read_error())),
    };
    let n = data.len();
    let mut out: Vec<DirEntry> = Vec::new();
    let mut off: usize = 0;
    while off < n
        invariant
            n == data@.len(),
            n <= u32::MAX,
            0 <= off <= n,
            dir_entries_from(data@, 0) == entries_view(out@) + dir_entries_from(data@, off as int),
        decreases n - off,
    {
        let rec_len = data[off] as usize;
        if rec_len == 0 {
            let next = (off as u64) - (off as u64) % ISO_SECTOR_SIZE + ISO_SECTOR_SIZE;
            if next >= n as u64 {
                assert(dir_entries_from(data@, next as int) =~= Seq::<(Seq<char>, IsoNode)>::empty());
                off = n;
            } else {
                off = next as usize;
            }
        } else {
            if rec_len > n - off {
                assert(entries_view(out@) + Seq::<(Seq<char>, IsoNode)>::empty() =~= entries_view(out@));
                assert(dir_entries_from(data@, n as int) =~= Seq::<(Seq<char>, IsoNode)>::empty());
                off = n;
            } else {
                let rec = &data.as_slice()[off..off + rec_len];
                let ghost before = out@;
                match parse_dir_record(rec) {
                    Some(node) => {
                        match file_identifier_chars(rec) {
                            Some(ident) => {
                                let dot = ident.len() == 1 && ident[0] == '.';
                                let dotdot = ident.len() == 2 && ident[0] == '.' && ident[1] == '.';
                                assert(dot <==> ident@ == seq!['.']) by {
                                    if ident@ == seq!['.'] { assert(ident@[0] == '.'); }
                                    if dot { assert(ident@ =~= seq!['.']); }
                                }
                                assert(dotdot <==> ident@ == seq!['.', '.']) by {
                                    if ident@ == seq!['.', '.'] { assert(ident@[0] == '.' && ident@[1] == '.'); }
                                    if dotdot { assert(ident@ =~= seq!['.', '.']); }
                                }
                                if !dot && !dotdot {
                                    out.push(DirEntry { name: ident, node });
                                    assert(entries_view(out@) =~= entries_view(before).push((ident@, node)));
                                }
                            },
                            None => {},
                        }
                    },
                    None => {},
                }
                assert(entries_view(before) + dir_entries_from(data@, off as int)
                    =~= entries_view(out@) + dir_entries_from(data@, (off + rec_len) as int));
                off = off + rec_len;
            }
        }
    }
    assert(dir_entries_from(data@, n as int) =~= Seq::<(Seq<char>, IsoNode)>::empty());
    assert(entries_view(out@) + Seq::<(Seq<char>, IsoNode)>::empty() =~= entries_view(out@));
    Ok(out)
}

/// The first entry whose lookup name equals `key`.
pub open spec fn first_match(es: Seq<(Seq<char>, IsoNode)>, key: Seq<char>) -> Option<IsoNode>
    decreases es.len(),
{
    if es.len() == 0 {
        None
    } else if iso_name_key(es[0].0) == key {
        Some(es[0].1)
    } else {
        first_match(es.drop_first(), key)
    }
}

/// Looking `name` up in `dir`, with names compared as `iso_name_key` makes them:
/// the error of reading the directory, else the entry found, if any.
pub open spec fn lookup(iso: Seq<u8>, dir: IsoNode, name: Seq<char>) -> Result<Option<IsoNode>, Option<Seq<char>>> {
    match dir_listing(iso, dir) {
        Ok(es) => Ok(first_match(es, iso_name_key(name))),
        Err(e) => Err(e),
    }
}

fn find_in_dir_case_insensitive(iso: &[u8], dir: IsoNode, want_name: &[char]) -> (r: Result<Option<IsoNode>, VmmonError>)
    ensures
        match lookup(iso@, dir, want_name@) {
            Ok(x) => r matches Ok(y) && y == x,
            Err(e) => r matches Err(x) && read_error(x, e),
        },
{
    let want = iso_name_key_chars(want_name);
    let entries = match read_dir_entries(iso, dir) {
        Ok(v) => v,
        Err(e) => return Err(e),
    };
    let ghost es = entries_view(entries@);
    let n = entries.len();
    let mut i: usize = 0;
    assert(es.subrange(0, n as int) =~= es);
    while i < n
        invariant
            n == entries@.len(),
            es == entries_view(entries@),
            dir_listing(iso@, dir) == Ok::<Seq<(Seq<char>, IsoNode)>, Option<Seq<char>>>(es),
            0 <= i <= n,
            want@ == iso_name_key(want_name@),
            first_match(es, want@) == first_match(es.subrange(i as int, n as int), want@),
        decreases n - i,
    {
        let key = iso_name_key_chars(entries[i].name.as_slice());
        proof {
            let t = es.subrange(i as int, n as int);
            assert(t[0] == es[i as int]);
            assert(es[i as int] == (entries@[i as int].name@, entries@[i as int].node));
            assert(t.drop_first() =~= es.subrange(i + 1, n as int));
        }
        if key.len() == want.len() && chars_equal(key.as_slice(), want.as_slice()) {
            proof {
                let t = es.subrange(i as int, n as int);
                assert(key@ == want@);
                assert(iso_name_key(t[0].0) == want@);
                assert(first_match(t, want@) == Some(t[0].1));
            }
            return Ok(Some(entries[i].node));
        }
        i += 1;
    }
    assert(es.subrange(n as int, n as int) =~= Seq::<(Seq<char>, IsoNode)>::empty());
    Ok(None)
}

fn chars_equal(a: &[char], b: &[char]) -> (r: bool)
    ensures
        r == (a@ == b@),
{
    if a.len() != b.len() {
        return false;
    }
    let n = a.len();
    let mut i: usize = 0;
    while i < n
        invariant
            n == a@.len(),
            n == b@.len(),
            0 <= i <= n,
            forall|k: int| 0 <= k < i ==> a@[k] == b@[k],
        decreases n - i,
    {
        if a[i] != b[i] {
            return false;
        }
        i += 1;
    }
    assert(a@ =~= b@);
    true
}

pub open spec fn invalid_path_text(path: Seq<char>) -> Seq<char> {
    "invalid ISO file path '"@ + path + "'"@
}

pub open spec fn component_missing_text(part: Seq<char>, path: Seq<char>) -> Seq<char> {
    "path component '"@ + part + "' not found while resolving '"@ + path + "'"@
}

pub open spec fn component_not_dir_text(part: Seq<char>, path: Seq<char>) -> Seq<char> {
    "path component '"@ + part + "' in '"@ + path + "' is not a directory"@
}

pub open spec fn file_missing_text(path: Seq<char>) -> Seq<char> {
    "file '"@ + path + "' not found in ISO"@
}

pub open spec fn file_is_dir_text(path: Seq<char>) -> Seq<char> {
    "'"@ + path + "' resolved to a directory, not a file"@
}

/// The directory reached from `cur` through the directories named by `parts`, or
/// the error that stops the walk while resolving `path`: a directory that cannot be
/// read, a component that is missing, or one that is no directory.
pub open spec fn walk(iso: Seq<u8>, cur: IsoNode, parts: Seq<Seq<char>>, path: Seq<char>) -> Result<IsoNode, Option<Seq<char>>>
    decreases parts.len(),
{
    if parts.len() == 0 {
        Ok(cur)
    } else {
        match lookup(iso, cur, parts[0]) {
            Err(e) => Err(e),
            Ok(None) => Err(Some(component_missing_text(parts[0], path))),
            Ok(Some(n)) => if n.is_dir {
                walk(iso, n, parts.drop_first(), path)
            } else {
                Err(Some(component_not_dir_text(parts[0], path)))
            },
        }
    }
}

/// The contents of the file at `path` under `root`, or why it cannot be read: a
/// path without components, an error of the walk, a missing file, a directory in
/// place of the file, or a file whose extent the image does not hold (`None`).
pub open spec fn file_result(iso: Seq<u8>, root: IsoNode, path: Seq<char>) -> Result<Seq<u8>, Option<Seq<char>>> {
    let parts = path_parts(path);
    if parts.len() == 0 {
        Err(Some(invalid_path_text(path)))
    } else {
        match walk(iso, root, parts.drop_last(), path) {
            Err(e) => Err(e),
            Ok(d) => match lookup(iso, d, parts.last()) {
                Err(e) => Err(e),
                Ok(None) => Err(Some(file_missing_text(path))),
                Ok(Some(f)) => if f.is_dir {
                    Err(Some(file_is_dir_text(path)))
                } else {
                    match extent(iso, f.extent_lba, f.size) {
                        Some(b) => Ok(b),
                        None => Err(None),
                    }
                },
            },
        }
    }
}

/// The contents of the file at `path` under `root`, if it can be read.
pub open spec fn file_at(iso: Seq<u8>, root: IsoNode, path: Seq<char>) -> Option<Seq<u8>> {
    match file_result(iso, root, path) {
        Ok(b) => Some(b),
        Err(_) => None,
    }
}

fn quoted_text(head: &str, part: &[char], mid: &str, path: &[char], tail: &str) -> (r: Vec<char>)
    ensures
        r@ == head@ + part@ + mid@ + path@ + tail@,
{
    let mut t = str_chars(head);
    push_chars(&mut t, part);
    let m = str_chars(mid);
    push_chars(&mut t, m.as_slice());
    push_chars(&mut t, path);
    let e = str_chars(tail);
    push_chars(&mut t, e.as_slice());
    t
}

fn read_file_by_path(iso: &[u8], root: IsoNode, path: &[char]) -> (r: Result<Vec<u8>, VmmonError>)
    ensures
        match file_result(iso@, root, path@) {
            Ok(b) => r matches Ok(v) && v@ == b,
            Err(e) => r matches Err(x) && read_error(x, e),
        },
{
    let bounds = part_bounds(path);
    let ghost parts = path_parts(path@);
    if bounds.len() == 0 {
        let t = quoted_text("invalid ISO file path '", &[], "", path, "'");
        proof {
            reveal_strlit("");
            assert(t@ =~= invalid_path_text(path@));
        }
        return Err(boot_error(&t));
    }
    let last = bounds.len() - 1;
    let ghost dirs = parts.drop_last();
    let mut cur = root;
    let mut i: usize = 0;
    assert(dirs.subrange(0, last as int) =~= dirs);
    while i < last
        invariant
            last + 1 == bounds@.len(),
            bounds@.len() == parts.len(),
            parts == path_parts(path@),
            dirs == parts.drop_last(),
            forall|q: int| 0 <= q < bounds@.len() ==> {
                &&& (#[trigger] bounds@[q]).0 <= bounds@[q].1 <= path@.len()
                &&& path@.subrange(bounds@[q].0 as int, bounds@[q].1 as int) == parts[q]
            },
            0 <= i <= last,
            walk(iso@, root, dirs, path@) == walk(iso@, cur, dirs.subrange(i as int, last as int), path@),
        decreases last - i,
    {
        let (a, b) = bounds[i];
        let part = slice_range(path, a, b);
        proof {
            assert(bounds@[i as int] == (a, b));
            let t = dirs.subrange(i as int, last as int);
            assert(t[0] == parts[i as int]);
            assert(t.drop_first() =~= dirs.subrange(i + 1, last as int));
        }
        let next = match find_in_dir_case_insensitive(iso, cur, part.as_slice()) {
            Ok(Some(n)) => n,
            Ok(None) => {
                let t = quoted_text("path component '", part.as_slice(), "' not found while resolving '", path, "'");
                return Err(boot_error(&t));
            },
            Err(e) => return Err(e),
        };
        if !next.is_dir {
            let t = quoted_text("path component '", part.as_slice(), "' in '", path, "' is not a directory");
            return Err(boot_error(&t));
        }
        cur = next;
        i += 1;
    }
    assert(dirs.subrange(last as int, last as int) =~= Seq::<Seq<char>>::empty());
    let (a, b) = bounds[last];
    proof { assert(bounds@[last as int] == (a, b)); }
    let file_name = slice_range(path, a, b);
    let file_node = match find_in_dir_case_insensitive(iso, cur, file_name.as_slice()) {
        Ok(Some(n)) => n,
        Ok(None) => {
            let t = quoted_text("file '", &[], "", path, "' not found in ISO");
            proof {
                reveal_strlit("");
                assert(t@ =~= file_missing_text(path@));
            }
            return Err(boot_error(&t));
        },
        Err(e) => return Err(e),
    };
    if file_node.is_dir {
        let t = quoted_text("'", &[], "", path, "' resolved to a directory, not a file");
        proof {
            reveal_strlit("");
            assert(t@ =~= file_is_dir_text(path@));
        }
        return Err(boot_error(&t));
    }
    match read_extent(iso, file_node.extent_lba, file_node.size) {
        Some(v) => Ok(v),
        None => Err(VmmonError::Io(short_read_error())),
    }
}

// ---------------------------------------------------------------------------
// Finding the kernel
// ---------------------------------------------------------------------------

/// Where Limine looks for its configuration, in this order.
pub open spec fn config_paths() -> Seq<Seq<char>> {
    seq!["/boot/limine.conf"@, "/limine.conf"@, "/boot/limine.cfg"@, "/limine.cfg"@]
}

/// Where the kernel is looked for when no configuration names it, in this order.
pub open spec fn fallback_kernel_paths() -> Seq<Seq<char>> {
    seq!["/boot/kernel.elf"@, "/kernel.elf"@, "/boot/micros64.elf"@, "/micros64.elf"@, "/boot/micros.elf"@, "/micros.elf"@]
}

/// The first configuration among `cs` that the image holds and that sets a kernel
/// path: its path and the kernel path.
pub open spec fn configured_kernel(iso: Seq<u8>, root: IsoNode, cs: Seq<Seq<char>>) -> Option<(Seq<char>, Seq<char>)>
    decreases cs.len(),
{
    if cs.len() == 0 {
        None
    } else {
        match file_at(iso, root, cs[0]) {
            Some(b) => match limine_kernel_path(b) {
                Some(k) => Some((cs[0], k)),
                None => configured_kernel(iso, root, cs.drop_first()),
            },
            None => configured_kernel(iso, root, cs.drop_first()),
        }
    }
}

/// The contents of the first of `ps` that the image holds as a file.
pub open spec fn first_file(iso: Seq<u8>, root: IsoNode, ps: Seq<Seq<char>>) -> Option<Seq<u8>>
    decreases ps.len(),
{
    if ps.len() == 0 {
        None
    } else {
        match file_at(iso, root, ps[0]) {
            Some(b) => Some(b),
            None => first_file(iso, root, ps.drop_first()),
        }
    }
}

/// `ps` joined with `sep` between each two.
pub open spec fn join(ps: Seq<Seq<char>>, sep: Seq<char>) -> Seq<char>
    decreases ps.len(),
{
    if ps.len() == 0 {
        Seq::empty()
    } else if ps.len() == 1 {
        ps[0]
    } else {
        join(ps.drop_last(), sep) + sep + ps.last()
    }
}

/// The error's text when a configured kernel path resolves to no file.
pub open spec fn unresolved_kernel_text(kp: Seq<char>, cfg: Seq<char>, iso_path: Seq<char>, cands: Seq<Seq<char>>) -> Seq<char> {
    "found KERNEL_PATH='"@ + kp + "' in '"@ + cfg + "' inside ISO '"@ + iso_path
        + "', but failed to read any of these resolved paths: "@ + join(cands, ", "@)
}

/// The error's text when neither a configuration nor a fallback path gives a kernel.
pub open spec fn no_kernel_text(iso_path: Seq<char>) -> Seq<char> {
    "failed to resolve kernel ELF from ISO '"@ + iso_path + "'; tried Limine configs ("@
        + join(config_paths(), ", "@) + ") and fallback kernel paths ("@
        + join(fallback_kernel_paths(), ", "@) + ")"@
}

fn join_chars(ps: &Vec<Vec<char>>, sep: &str) -> (r: Vec<char>)
    ensures
        r@ == join(ps@.map_values(|v: Vec<char>| v@), sep@),
{
    let ghost view = ps@.map_values(|v: Vec<char>| v@);
    let sc = str_chars(sep);
    let mut out: Vec<char> = Vec::new();
    let n = ps.len();
    let mut i: usize = 0;
    while i < n
        invariant
            n == ps@.len(),
            view == ps@.map_values(|v: Vec<char>| v@),
            sc@ == sep@,
            0 <= i <= n,
            out@ == join(view.subrange(0, i as int), sep@),
        decreases n - i,
    {
        let ghost prev = view.subrange(0, i as int);
        if i > 0 {
            push_chars(&mut out, sc.as_slice());
        }
        push_chars(&mut out, ps[i].as_slice());
        proof {
            let cur = view.subrange(0, i + 1);
            assert(cur.drop_last() =~= prev);
            assert(cur.last() == ps@[i as int]@);
            if i == 0 {
                assert(out@ =~= cur[0]);
            }
        }
        i += 1;
    }
    assert(view.subrange(0, n as int) =~= view);
    out
}

fn strs_to_chars(ps: &[&str]) -> (r: Vec<Vec<char>>)
    ensures
        r@.map_values(|v: Vec<char>| v@) == ps@.map_values(|s: &str| s@),
{
    let mut out: Vec<Vec<char>> = Vec::new();
    let n = ps.len();
    let mut i: usize = 0;
    while i < n
        invariant
            n == ps@.len(),
            0 <= i <= n,
            out@.len() == i,
            forall|k: int| 0 <= k < i ==> (#[trigger] out@[k])@ == ps@[k]@,
        decreases n - i,
    {
        out.push(str_chars(ps[i]));
        i += 1;
    }
    assert(out@.map_values(|v: Vec<char>| v@) =~= ps@.map_values(|s: &str| s@));
    out
}

fn strings_to_chars(ps: &Vec<String>) -> (r: Vec<Vec<char>>)
    ensures
        r@.map_values(|v: Vec<char>| v@) == strings_view(ps@),
{
    let mut out: Vec<Vec<char>> = Vec::new();
    let n = ps.len();
    let mut i: usize = 0;
    while i < n
        invariant
            n == ps@.len(),
            0 <= i <= n,
            out@.len() == i,
            forall|k: int| 0 <= k < i ==> (#[trigger] out@[k])@ == ps@[k]@,
        decreases n - i,
    {
        out.push(str_chars(ps[i].as_str()));
        i += 1;
    }
    assert(out@.map_values(|v: Vec<char>| v@) =~= strings_view(ps@));
    out
}

/// The contents of the first of `ps` that the image holds as a file.
fn read_first_file(iso: &[u8], root: IsoNode, ps: &Vec<Vec<char>>) -> (r: Option<Vec<u8>>)
    ensures
        match r {
            Some(v) => first_file(iso@, root, ps@.map_values(|v: Vec<char>| v@)) == Some(v@),
            None => first_file(iso@, root, ps@.map_values(|v: Vec<char>| v@)) is None,
        },
{
    let ghost view = ps@.map_values(|v: Vec<char>| v@);
    let n = ps.len();
    let mut i: usize = 0;
    assert(view.subrange(0, n as int) =~= view);
    while i < n
        invariant
            n == ps@.len(),
            view == ps@.map_values(|v: Vec<char>| v@),
            0 <= i <= n,
            first_file(iso@, root, view) == first_file(iso@, root, view.subrange(i as int, n as int)),
        decreases n - i,
    {
        proof {
            let t = view.subrange(i as int, n as int);
            assert(t[0] == ps@[i as int]@);
            assert(t.drop_first() =~= view.subrange(i + 1, n as int));
        }
        if let Ok(b) = read_file_by_path(iso, root, ps[i].as_slice()) {
            return Some(b);
        }
        i += 1;
    }
    assert(view.subrange(n as int, n as int) =~= Seq::<Seq<char>>::empty());
    None
}

/// How finding the kernel ELF in the Limine boot image `iso` (named `iso_path` in
/// error messages) ends with `r`: the kernel path set by the first Limine
/// configuration that the image holds, tried as `kernel_candidates` gives it; if no
/// configuration sets one, the fallback paths.
pub open spec fn iso_kernel_outcome(iso_path: Seq<char>, iso: Seq<u8>, r: Result<Vec<u8>, VmmonError>) -> bool {
    match root_node(iso) {
        Err(None) => r matches Err(VmmonError::Io(_)),
        Err(Some(t)) => r matches Err(VmmonError::Boot(m)) && m@ == t,
        Ok(root) => match configured_kernel(iso, root, config_paths()) {
            Some((cfg, kp)) => match first_file(iso, root, kernel_candidates(kp)) {
                Some(b) => r matches Ok(v) && v@ == b,
                None => r matches Err(VmmonError::Boot(m))
                    && m@ == unresolved_kernel_text(kp, cfg, iso_path, kernel_candidates(kp)),
            },
            None => match first_file(iso, root, fallback_kernel_paths()) {
                Some(b) => r matches Ok(v) && v@ == b,
                None => r matches Err(VmmonError::Boot(m)) && m@ == no_kernel_text(iso_path),
            },
        },
    }
}

/// Finds the kernel ELF in a Limine boot image (see `iso_kernel_outcome`).
/// `iso_path` only names the image in error messages.
pub fn extract_kernel_elf_from_limine_iso(iso_path: &str, iso: &[u8]) -> (r: Result<Vec<u8>, VmmonError>)
    ensures
        iso_kernel_outcome(iso_path@, iso@, r),
{
    let root = root_dir(iso)?;
    let cfg_paths: [&str; 4] = ["/boot/limine.conf", "/limine.conf", "/boot/limine.cfg", "/limine.cfg"];
    let cfgs = strs_to_chars(&cfg_paths);
    assert(cfg_paths@.map_values(|s: &str| s@) =~= config_paths());
    let ghost cview = config_paths();
    let nc = cfgs.len();
    let mut i: usize = 0;
    assert(cview.subrange(0, nc as int) =~= cview);
    while i < nc
        invariant
            nc == cfgs@.len(),
            cview == config_paths(),
            cfgs@.map_values(|v: Vec<char>| v@) == cview,
            0 <= i <= nc,
            root_node(iso@) == Ok::<IsoNode, Option<Seq<char>>>(root),
            configured_kernel(iso@, root, cview) == configured_kernel(iso@, root, cview.subrange(i as int, nc as int)),
        decreases nc - i,
    {
        proof {
            let t = cview.subrange(i as int, nc as int);
            assert(t[0] == cfgs@[i as int]@);
            assert(cfgs@.map_values(|v: Vec<char>| v@)[i as int] == cfgs@[i as int]@);
            assert(t.drop_first() =~= cview.subrange(i + 1, nc as int));
        }
        if let Ok(cfg_bytes) = read_file_by_path(iso, root, cfgs[i].as_slice()) {
            if let Some(kernel_path) = kernel_path_chars(cfg_bytes.as_slice()) {
                let kp_string = string_from_chars(kernel_path.as_slice());
                let candidates = kernel_path_candidates(kp_string.as_str());
                let cands = strings_to_chars(&candidates);
                if let Some(b) = read_first_file(iso, root, &cands) {
                    return Ok(b);
                }
                let mut t = str_chars("found KERNEL_PATH='");
                push_chars(&mut t, kernel_path.as_slice());
                let p1 = str_chars("' in '");
                push_chars(&mut t, p1.as_slice());
                push_chars(&mut t, cfgs[i].as_slice());
                let p2 = str_chars("' inside ISO '");
                push_chars(&mut t, p2.as_slice());
                let ip = str_chars(iso_path);
                push_chars(&mut t, ip.as_slice());
                let p3 = str_chars("', but failed to read any of these resolved paths: ");
                push_chars(&mut t, p3.as_slice());
                let joined = join_chars(&cands, ", ");
                push_chars(&mut t, joined.as_slice());
                return Err(boot_error(&t));
            }
        }
        i += 1;
    }
    assert(cview.subrange(nc as int, nc as int) =~= Seq::<Seq<char>>::empty());
    let fallback_paths: [&str; 6] = [
        "/boot/kernel.elf", "/kernel.elf", "/boot/micros64.elf", "/micros64.elf", "/boot/micros.elf", "/micros.elf",
    ];
    let fallbacks = strs_to_chars(&fallback_paths);
    assert(fallback_paths@.map_values(|s: &str| s@) =~= fallback_kernel_paths());
    if let Some(b) = read_first_file(iso, root, &fallbacks) {
        return Ok(b);
    }
    let mut t = str_chars("failed to resolve kernel ELF from ISO '");
    let ip = str_chars(iso_path);
    push_chars(&mut t, ip.as_slice());
    let p1 = str_chars("'; tried Limine configs (");
    push_chars(&mut t, p1.as_slice());
    let j1 = join_chars(&cfgs, ", ");
    push_chars(&mut t, j1.as_slice());
    let p2 = str_chars(") and fallback kernel paths (");
    push_chars(&mut t, p2.as_slice());
    let j2 = join_chars(&fallbacks, ", ");
    push_chars(&mut t, j2.as_slice());
    let p3 = str_chars(")");
    push_chars(&mut t, p3.as_slice());
    Err(boot_error(&t))
}

} // verus!

verus! {

/// The kernel ELF that the boot file holds: for a path ending in `.iso`, the kernel
/// found in that Limine image; for any other path, the file itself, a kernel ELF
/// booted directly.
pub fn kernel_from_boot_file(boot_path: &str, file: &[u8]) -> (r: Result<Vec<u8>, VmmonError>)
    ensures
        has_ext_spec(boot_path@, "iso"@) ==> iso_kernel_outcome(boot_path@, file@, r),
        !has_ext_spec(boot_path@, "iso"@) ==> (r matches Ok(v) && v@ == file@),
{
    if has_ext(boot_path, "iso") {
        extract_kernel_elf_from_limine_iso(boot_path, file)
    } else {
        let mut v: Vec<u8> = Vec::new();
        let n = file.len();
        let mut i: usize = 0;
        while i < n
            invariant
                n == file@.len(),
                0 <= i <= n,
                v@ == file@.subrange(0, i as int),
            decreases n - i,
        {
            v.push(file[i]);
            assert(file@.subrange(0, i + 1) =~= file@.subrange(0, i as int).push(file@[i as int]));
            i += 1;
        }
        assert(file@.subrange(0, n as int) =~= file@);
        Ok(v)
    }
}

} // verus!
