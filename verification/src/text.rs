use vstd::prelude::*;
use vstd::string::{StrSliceExecFns, StringSliceAdditionalSpecFns};
use vstd::utf8::{valid_utf8, decode_utf8, encode_utf8_decode_utf8};

verus! {

// ---------------------------------------------------------------------------
// Characters
// ---------------------------------------------------------------------------

/// Unicode's White_Space property, as `char::is_whitespace` has it.
pub open spec fn is_ws(c: char) -> bool {
    let u = c as u32;
    ||| (0x09 <= u && u <= 0x0d)
    ||| u == 0x20
    ||| u == 0x85
    ||| u == 0xa0
    ||| u == 0x1680
    ||| (0x2000 <= u && u <= 0x200a)
    ||| u == 0x2028
    ||| u == 0x2029
    ||| u == 0x202f
    ||| u == 0x205f
    ||| u == 0x3000
}

pub fn is_whitespace(c: char) -> (r: bool)
    ensures
        r == is_ws(c),
{
    let u = c as u32;
    (0x09 <= u && u <= 0x0d) || u == 0x20 || u == 0x85 || u == 0xa0 || u == 0x1680
        || (0x2000 <= u && u <= 0x200a) || u == 0x2028 || u == 0x2029 || u == 0x202f
        || u == 0x205f || u == 0x3000
}

pub open spec fn is_ascii_upper(c: char) -> bool {
    'A' <= c && c <= 'Z'
}

pub open spec fn is_ascii_lower(c: char) -> bool {
    'a' <= c && c <= 'z'
}

pub open spec fn is_ascii_digit(c: char) -> bool {
    '0' <= c && c <= '9'
}

/// `c` with an ASCII capital letter turned into its small letter.
pub open spec fn ascii_lower(c: char) -> char {
    if is_ascii_upper(c) { ((c as u32) + 32) as char } else { c }
}

/// `c` with an ASCII small letter turned into its capital letter.
pub open spec fn ascii_upper(c: char) -> char {
    if is_ascii_lower(c) { ((c as u32) - 32) as char } else { c }
}

pub fn to_ascii_lower(c: char) -> (r: char)
    ensures
        r == ascii_lower(c),
{
    if 'A' <= c && c <= 'Z' {
        let b = c as u8;
        (b + 32) as char
    } else {
        c
    }
}

pub fn to_ascii_upper(c: char) -> (r: char)
    ensures
        r == ascii_upper(c),
{
    if 'a' <= c && c <= 'z' {
        let b = c as u8;
        (b - 32) as char
    } else {
        c
    }
}

/// The two strings are equal once ASCII letters are folded to small letters.
pub open spec fn eq_ignore_ascii_case(a: Seq<char>, b: Seq<char>) -> bool {
    &&& a.len() == b.len()
    &&& forall|i: int| 0 <= i < a.len() ==> ascii_lower(#[trigger] a[i]) == ascii_lower(b[i])
}

pub open spec fn lower_seq(s: Seq<char>) -> Seq<char> {
    s.map_values(|c: char| ascii_lower(c))
}

pub fn chars_eq_ignore_ascii_case(a: &[char], b: &[char]) -> (r: bool)
    ensures
        r == eq_ignore_ascii_case(a@, b@),
{
    if a.len() != b.len() {
        return false;
    }
    let n = a.len();
    let mut i: usize = 0;
    while i < n
        invariant
            n == a@.len(),
            n == b@.len(),
            0 <= i <= n,
            forall|k: int| 0 <= k < i ==> ascii_lower(#[trigger] a@[k]) == ascii_lower(b@[k]),
        decreases n - i,
    {
        if to_ascii_lower(a[i]) != to_ascii_lower(b[i]) {
            return false;
        }
        i += 1;
    }
    true
}

pub fn lowercase_chars(s: &[char]) -> (r: Vec<char>)
    ensures
        r@ == lower_seq(s@),
{
    let mut out: Vec<char> = Vec::new();
    let n = s.len();
    let mut i: usize = 0;
    while i < n
        invariant
            n == s@.len(),
            0 <= i <= n,
            out@.len() == i,
            forall|k: int| 0 <= k < i ==> out@[k] == ascii_lower(#[trigger] s@[k]),
        decreases n - i,
    {
        out.push(to_ascii_lower(s[i]));
        i += 1;
    }
    assert(out@ =~= lower_seq(s@));
    out
}

// ---------------------------------------------------------------------------
// Trimming
// ---------------------------------------------------------------------------

/// Which characters a trim removes: whitespace, or one given character.
#[derive(Clone, Copy, Debug)]
pub enum TrimSet {
    Whitespace,
    Char(char),
}

pub open spec fn in_trim_set(t: TrimSet, c: char) -> bool {
    match t {
        TrimSet::Whitespace => is_ws(c),
        TrimSet::Char(x) => c == x,
    }
}

fn trim_set_has(t: TrimSet, c: char) -> (r: bool)
    ensures
        r == in_trim_set(t, c),
{
    match t {
        TrimSet::Whitespace => is_whitespace(c),
        TrimSet::Char(x) => c == x,
    }
}

/// `s` without its leading characters from `t`.
pub open spec fn trim_start_set(s: Seq<char>, t: TrimSet) -> Seq<char>
    decreases s.len(),
{
    if s.len() > 0 && in_trim_set(t, s[0]) { trim_start_set(s.drop_first(), t) } else { s }
}

/// `s` without its trailing characters from `t`.
pub open spec fn trim_end_set(s: Seq<char>, t: TrimSet) -> Seq<char>
    decreases s.len(),
{
    if s.len() > 0 && in_trim_set(t, s.last()) { trim_end_set(s.drop_last(), t) } else { s }
}

/// `s` without leading and trailing characters from `t`.
pub open spec fn trim_set(s: Seq<char>, t: TrimSet) -> Seq<char> {
    trim_end_set(trim_start_set(s, t), t)
}

/// `s` without leading and trailing whitespace.
pub open spec fn trim_ws(s: Seq<char>) -> Seq<char> {
    trim_set(s, TrimSet::Whitespace)
}

proof fn lemma_trim_start_at(s: Seq<char>, t: TrimSet, i: int)
    requires
        0 <= i <= s.len(),
        forall|k: int| 0 <= k < i ==> in_trim_set(t, #[trigger] s[k]),
        i == s.len() || !in_trim_set(t, s[i]),
    ensures
        trim_start_set(s, t) == s.subrange(i, s.len() as int),
    decreases i,
{
    if i == 0 {
        assert(s.subrange(0, s.len() as int) =~= s);
    } else {
        let d = s.drop_first();
        assert forall|k: int| 0 <= k < i - 1 implies in_trim_set(t, #[trigger] d[k]) by {
            assert(d[k] == s[k + 1]);
        }
        lemma_trim_start_at(d, t, i - 1);
        assert(d.subrange(i - 1, d.len() as int) =~= s.subrange(i, s.len() as int));
    }
}

proof fn lemma_trim_end_at(s: Seq<char>, t: TrimSet, j: int)
    requires
        0 <= j <= s.len(),
        forall|k: int| j <= k < s.len() ==> in_trim_set(t, #[trigger] s[k]),
        j == 0 || !in_trim_set(t, s[j - 1]),
    ensures
        trim_end_set(s, t) == s.subrange(0, j),
    decreases s.len() - j,
{
    if j == s.len() {
        assert(s.subrange(0, j) =~= s);
    } else {
        let d = s.drop_last();
        assert(in_trim_set(t, s[s.len() - 1]));
        lemma_trim_end_at(d, t, j);
        assert(d.subrange(0, j) =~= s.subrange(0, j));
    }
}

/// Trimming the start keeps a suffix, which does not begin with a trimmed character.
pub proof fn lemma_trim_start_suffix(s: Seq<char>, t: TrimSet)
    ensures
        exists|k: int| 0 <= k <= s.len() && trim_start_set(s, t) == #[trigger] s.subrange(k, s.len() as int),
        trim_start_set(s, t).len() > 0 ==> !in_trim_set(t, trim_start_set(s, t)[0]),
    decreases s.len(),
{
    if s.len() > 0 && in_trim_set(t, s[0]) {
        let d = s.drop_first();
        lemma_trim_start_suffix(d, t);
        let k = choose|k: int| 0 <= k <= d.len() && trim_start_set(d, t) == #[trigger] d.subrange(k, d.len() as int);
        assert(d.subrange(k, d.len() as int) =~= s.subrange(k + 1, s.len() as int));
    } else {
        assert(s.subrange(0, s.len() as int) =~= s);
    }
}

/// Trimming the end keeps a prefix, which does not end with a trimmed character.
pub proof fn lemma_trim_end_prefix(s: Seq<char>, t: TrimSet)
    ensures
        exists|j: int| 0 <= j <= s.len() && trim_end_set(s, t) == #[trigger] s.subrange(0, j),
        trim_end_set(s, t).len() > 0 ==> !in_trim_set(t, trim_end_set(s, t).last()),
    decreases s.len(),
{
    if s.len() > 0 && in_trim_set(t, s.last()) {
        let d = s.drop_last();
        lemma_trim_end_prefix(d, t);
        let j = choose|j: int| 0 <= j <= d.len() && trim_end_set(d, t) == #[trigger] d.subrange(0, j);
        assert(d.subrange(0, j) =~= s.subrange(0, j));
    } else {
        assert(s.subrange(0, s.len() as int) =~= s);
    }
}

/// A string that neither begins nor ends with a trimmed character is left alone.
pub proof fn lemma_trim_noop(s: Seq<char>, t: TrimSet)
    requires
        s.len() > 0,
        !in_trim_set(t, s[0]),
        !in_trim_set(t, s.last()),
    ensures
        trim_set(s, t) == s,
{
    lemma_trim_start_at(s, t, 0);
    assert(s.subrange(0, s.len() as int) =~= s);
    lemma_trim_end_at(s, t, s.len() as int);
}

/// Trimming the start of a string that begins with exactly one trimmed character
/// drops that character.
pub proof fn lemma_trim_start_one(s: Seq<char>, t: TrimSet)
    requires
        s.len() > 1,
        in_trim_set(t, s[0]),
        !in_trim_set(t, s[1]),
    ensures
        trim_start_set(s, t) == s.drop_first(),
{
    lemma_trim_start_at(s, t, 1);
    assert(s.subrange(1, s.len() as int) =~= s.drop_first());
}

/// The bounds `[i, j)` that trimming `t` from both ends of `s` keeps.
fn trim_bounds(s: &[char], t: TrimSet) -> (r: (usize, usize))
    ensures
        r.0 <= r.1 <= s@.len(),
        s@.subrange(r.0 as int, r.1 as int) == trim_set(s@, t),
        trim_start_set(s@, t) == s@.subrange(r.0 as int, s@.len() as int),
{
    let n = s.len();
    let mut i: usize = 0;
    while i < n && trim_set_has(t, s[i])
        invariant
            n == s@.len(),
            0 <= i <= n,
            forall|k: int| 0 <= k < i ==> in_trim_set(t, #[trigger] s@[k]),
        decreases n - i,
    {
        i += 1;
    }
    proof { lemma_trim_start_at(s@, t, i as int); }
    let mut j: usize = n;
    while j > i && trim_set_has(t, s[j - 1])
        invariant
            n == s@.len(),
            0 <= i <= j <= n,
            forall|k: int| j <= k < n ==> in_trim_set(t, #[trigger] s@[k]),
        decreases j,
    {
        j -= 1;
    }
    proof {
        let u = s@.subrange(i as int, n as int);
        assert forall|k: int| j - i <= k < u.len() implies in_trim_set(t, #[trigger] u[k]) by {
            assert(u[k] == s@[k + i]);
        }
        if j > i {
            assert(u[j - i - 1] == s@[j - 1]);
        }
        lemma_trim_end_at(u, t, j - i);
        assert(u.subrange(0, j - i) =~= s@.subrange(i as int, j as int));
    }
    (i, j)
}

/// `s` without leading and trailing characters from `t`.
pub fn trim_chars(s: &[char], t: TrimSet) -> (r: Vec<char>)
    ensures
        r@ == trim_set(s@, t),
{
    let (i, j) = trim_bounds(s, t);
    slice_range(s, i, j)
}

/// `s` without leading characters from `t`.
pub fn trim_start_chars(s: &[char], t: TrimSet) -> (r: Vec<char>)
    ensures
        r@ == trim_start_set(s@, t),
{
    let (i, _j) = trim_bounds(s, t);
    slice_range(s, i, s.len())
}

/// A copy of `s[i..j]`.
pub fn slice_range(s: &[char], i: usize, j: usize) -> (r: Vec<char>)
    requires
        i <= j <= s@.len(),
    ensures
        r@ == s@.subrange(i as int, j as int),
{
    let mut out: Vec<char> = Vec::new();
    let mut k: usize = i;
    while k < j
        invariant
            i <= k <= j <= s@.len(),
            out@ == s@.subrange(i as int, k as int),
        decreases j - k,
    {
        out.push(s[k]);
        assert(s@.subrange(i as int, k + 1) =~= s@.subrange(i as int, k as int).push(s@[k as int]));
        k += 1;
    }
    out
}

/// Whether `s` begins with `p`.
pub fn chars_start_with(s: &[char], p: &[char]) -> (r: bool)
    ensures
        r == (p@.len() <= s@.len() && s@.subrange(0, p@.len() as int) == p@),
{
    if p.len() > s.len() {
        return false;
    }
    let n = p.len();
    let mut i: usize = 0;
    while i < n
        invariant
            n == p@.len(),
            n <= s@.len(),
            0 <= i <= n,
            forall|k: int| 0 <= k < i ==> s@[k] == p@[k],
        decreases n - i,
    {
        if s[i] != p[i] {
            assert(s@.subrange(0, n as int)[i as int] != p@[i as int]);
            return false;
        }
        i += 1;
    }
    assert(s@.subrange(0, n as int) =~= p@);
    true
}

/// Appends `more` to `out`.
pub fn push_chars(out: &mut Vec<char>, more: &[char])
    ensures
        final(out)@ == old(out)@ + more@,
{
    let n = more.len();
    let mut i: usize = 0;
    while i < n
        invariant
            n == more@.len(),
            0 <= i <= n,
            out@ == old(out)@ + more@.subrange(0, i as int),
        decreases n - i,
    {
        out.push(more[i]);
        assert(more@.subrange(0, i + 1) =~= more@.subrange(0, i as int).push(more@[i as int]));
        i += 1;
    }
    assert(more@.subrange(0, n as int) =~= more@);
}

// ---------------------------------------------------------------------------
// Strings
// ---------------------------------------------------------------------------

/// The characters of `s`.
pub fn str_chars(s: &str) -> (r: Vec<char>)
    ensures
        r@ == s@,
{
    let n = s.unicode_len();
    let mut out: Vec<char> = Vec::new();
    let mut i: usize = 0;
    while i < n
        invariant
            n == s@.len(),
            0 <= i <= n,
            out@ == s@.subrange(0, i as int),
        decreases n - i,
    {
        out.push(s.get_char(i));
        assert(s@.subrange(0, i + 1) =~= s@.subrange(0, i as int).push(s@[i as int]));
        i += 1;
    }
    assert(s@.subrange(0, n as int) =~= s@);
    out
}


/// Calls `std::str::from_utf8`: it succeeds exactly on valid UTF-8, and the string
/// it gives back is the one whose encoding `bytes` is.
#[verifier::external_body]
fn str_from_utf8(bytes: &[u8]) -> (r: Option<&str>)
    ensures
        r is Some <==> valid_utf8(bytes@),
        r matches Some(s) ==> s.spec_bytes() == bytes@,
{
    std::str::from_utf8(bytes).ok()
}

/// The characters that `bytes` encode in UTF-8, if they are valid UTF-8.
pub fn utf8_chars(bytes: &[u8]) -> (r: Option<Vec<char>>)
    ensures
        r is Some <==> valid_utf8(bytes@),
        r matches Some(v) ==> v@ == decode_utf8(bytes@),
{
    match str_from_utf8(bytes) {
        Some(s) => {
            proof { encode_utf8_decode_utf8(s@); }
            Some(str_chars(s))
        },
        None => None,
    }
}

/// Collects `cs` into a `String` (`FromIterator<char>` for `String`).
#[verifier::external_body]
pub(crate) fn string_from_chars(cs: &[char]) -> (r: String)
    ensures
        r@ == cs@,
{
    cs.iter().collect()
}

// ---------------------------------------------------------------------------
// Numbers
// ---------------------------------------------------------------------------

/// The digit `d` (below 16) as a small-letter character.
pub open spec fn digit_char(d: nat) -> char {
    if d < 10 { (('0' as u32) + d) as char } else { (('a' as u32) + d - 10) as char }
}

/// `n` in decimal, as `{}` formats it.
pub open spec fn decimal(n: nat) -> Seq<char>
    decreases n,
{
    if n < 10 { seq![digit_char(n)] } else { decimal(n / 10).push(digit_char(n % 10)) }
}

/// `n` in hexadecimal with small letters and no prefix.
pub open spec fn hex_digits(n: nat) -> Seq<char>
    decreases n,
{
    if n < 16 { seq![digit_char(n)] } else { hex_digits(n / 16).push(digit_char(n % 16)) }
}

/// `n` as `{:#x}` formats it: `0x` then the hexadecimal digits.
pub open spec fn hex_alt(n: nat) -> Seq<char> {
    seq!['0', 'x'] + hex_digits(n)
}

fn digit(d: u64) -> (c: char)
    requires
        d < 16,
    ensures
        c == digit_char(d as nat),
{
    if d < 10 {
        let b = d as u8;
        (48u8 + b) as char
    } else {
        let b = d as u8;
        (97u8 + b - 10) as char
    }
}

/// Appends `n` in decimal to `out`.
pub fn push_decimal(out: &mut Vec<char>, n: u64)
    ensures
        final(out)@ == old(out)@ + decimal(n as nat),
    decreases n,
{
    if n >= 10 {
        push_decimal(out, n / 10);
    }
    out.push(digit(n % 10));
    assert(old(out)@ + decimal(n as nat) =~= final(out)@) by {
        if n >= 10 {
            assert(decimal(n as nat) == decimal((n / 10) as nat).push(digit_char((n % 10) as nat)));
        }
    }
}

/// Appends `n` in hexadecimal, without prefix, to `out`.
pub fn push_hex_digits(out: &mut Vec<char>, n: u64)
    ensures
        final(out)@ == old(out)@ + hex_digits(n as nat),
    decreases n,
{
    if n >= 16 {
        push_hex_digits(out, n / 16);
    }
    out.push(digit(n % 16));
    assert(old(out)@ + hex_digits(n as nat) =~= final(out)@) by {
        if n >= 16 {
            assert(hex_digits(n as nat) == hex_digits((n / 16) as nat).push(digit_char((n % 16) as nat)));
        }
    }
}

/// Appends `n` as `{:#x}` formats it to `out`.
pub fn push_hex_alt(out: &mut Vec<char>, n: u64)
    ensures
        final(out)@ == old(out)@ + hex_alt(n as nat),
{
    out.push('0');
    out.push('x');
    push_hex_digits(out, n);
    assert(final(out)@ =~= old(out)@ + hex_alt(n as nat));
}

} // verus!
