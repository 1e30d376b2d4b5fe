use vstd::prelude::*;

use crate::boot::iso::{path_parts, part_bounds, rfind};
use crate::text::{eq_ignore_ascii_case, str_chars, string_from_chars, push_chars, chars_eq_ignore_ascii_case, slice_range};
use crate::vmm::errors::VmmonError;

verus! {

/// The command line: the boot image, the disk image, and the memory size in MiB.
#[derive(Clone, Debug)]
pub struct CliArgs {
    pub boot_iso: String,
    pub disk_img: String,
    pub mem_mib: usize,
}

/// The checked configuration of a guest.
#[derive(Clone, Debug)]
pub struct VmConfig {
    pub boot_iso_path: String,
    pub disk_img_path: String,
    pub mem_size_bytes: usize,
}

/// The smallest memory a guest may have, in MiB.
pub const MIN_MEM_MIB: usize = 64;

/// The last component of a path, as `Path::file_name` gives it: the last
/// component that is not `.`, unless it is `..` or there is none.
pub open spec fn file_name(p: Seq<char>) -> Option<Seq<char>> {
    let ps = path_parts(p).filter(|x: Seq<char>| x != seq!['.']);
    if ps.len() == 0 || ps.last() == seq!['.', '.'] { None } else { Some(ps.last()) }
}

/// The extension of a file name, as `Path::extension` gives it: what follows the
/// last `.`, unless there is none or it is the first character.
pub open spec fn name_extension(name: Seq<char>) -> Option<Seq<char>> {
    let k = rfind(name, '.');
    if k <= 0 { None } else { Some(name.subrange(k + 1, name.len() as int)) }
}

/// Whether the path's extension is `want`, in any ASCII case.
pub open spec fn has_ext_spec(p: Seq<char>, want: Seq<char>) -> bool {
    match file_name(p) {
        Some(n) => match name_extension(n) {
            Some(e) => eq_ignore_ascii_case(e, want),
            None => false,
        },
        None => false,
    }
}

proof fn lemma_filter_last_kept(s: Seq<Seq<char>>, i: int)
    requires
        0 <= i < s.len(),
        s[i] != seq!['.'],
        forall|k: int| i < k < s.len() ==> s[k] == seq!['.'],
    ensures
        s.filter(|x: Seq<char>| x != seq!['.']).len() > 0,
        s.filter(|x: Seq<char>| x != seq!['.']).last() == s[i],
    decreases s.len(),
{
    let f = |x: Seq<char>| x != seq!['.'];
    reveal(Seq::filter);
    if i == s.len() - 1 {
        assert(s.filter(f) == s.drop_last().filter(f).push(s.last()));
    } else {
        lemma_filter_last_kept(s.drop_last(), i);
        assert(s.filter(f) == s.drop_last().filter(f));
    }
}

proof fn lemma_filter_all_dots(s: Seq<Seq<char>>)
    requires
        forall|k: int| 0 <= k < s.len() ==> s[k] == seq!['.'],
    ensures
        s.filter(|x: Seq<char>| x != seq!['.']).len() == 0,
    decreases s.len(),
{
    reveal(Seq::filter);
    if s.len() > 0 {
        lemma_filter_all_dots(s.drop_last());
    }
}

fn is_dot(s: &[char]) -> (r: bool)
    ensures
        r == (s@ == seq!['.']),
{
    if s.len() == 1 && s[0] == '.' {
        assert(s@ =~= seq!['.']);
        true
    } else {
        false
    }
}

pub fn has_ext(path: &str, want: &str) -> (r: bool)
    ensures
        r == has_ext_spec(path@, want@),
{
    let cs = str_chars(path);
    let bounds = part_bounds(cs.as_slice());
    let ghost parts = path_parts(path@);
    let mut i = bounds.len();
    while i > 0
        invariant
            i <= bounds@.len(),
            cs@ == path@,
            parts == path_parts(path@),
            bounds@.len() == parts.len(),
            forall|q: int| 0 <= q < bounds@.len() ==> {
                &&& (#[trigger] bounds@[q]).0 <= bounds@[q].1 <= cs@.len()
                &&& cs@.subrange(bounds@[q].0 as int, bounds@[q].1 as int) == parts[q]
            },
            forall|k: int| i <= k < parts.len() ==> parts[k] == seq!['.'],
        decreases i,
    {
        let (a, b) = bounds[i - 1];
        let piece = slice_range(cs.as_slice(), a, b);
        proof { assert(bounds@[i - 1] == (a, b)); }
        if !is_dot(piece.as_slice()) {
            proof { lemma_filter_last_kept(parts, i - 1); }
            if piece.len() == 2 && piece[0] == '.' && piece[1] == '.' {
                assert(piece@ =~= seq!['.', '.']);
                return false;
            }
            assert(piece@ != seq!['.', '.']) by {
                if piece@ == seq!['.', '.'] {
                    assert(piece@.len() == 2 && piece@[0] == '.' && piece@[1] == '.');
                }
            }
            proof { crate::boot::iso::lemma_rfind(piece@, '.'); }
            let k = match crate::boot::iso::rfind_exec(piece.as_slice(), '.') {
                Some(k) => k,
                None => return false,
            };
            if k == 0 {
                return false;
            }
            let ext = slice_range(piece.as_slice(), k + 1, piece.len());
            let wc = str_chars(want);
            return chars_eq_ignore_ascii_case(ext.as_slice(), wc.as_slice());
        }
        i -= 1;
    }
    proof { lemma_filter_all_dots(parts); }
    false
}

fn config_error(prefix: &str, path: &str) -> (e: VmmonError)
    ensures
        e matches VmmonError::Config(m) && m@ == prefix@ + path@ + "'"@,
{
    let mut t = str_chars(prefix);
    let p = str_chars(path);
    push_chars(&mut t, p.as_slice());
    let q = str_chars("'");
    push_chars(&mut t, q.as_slice());
    VmmonError::config(string_from_chars(t.as_slice()))
}

/// A boot file is a Limine ISO image or a kernel ELF booted directly.
pub open spec fn boot_file_ok(p: Seq<char>) -> bool {
    has_ext_spec(p, "iso"@) || has_ext_spec(p, "elf"@)
}

impl VmConfig {
    /// Checks the command line: at least 64 MiB of memory, a boot file that is a
    /// Limine image ending in `.iso` or a kernel ELF ending in `.elf`, and a disk
    /// image ending in `.img` (in any case).
    pub fn from_cli(args: CliArgs) -> (r: Result<Self, VmmonError>)
        requires
            args.mem_mib * 1024 * 1024 <= usize::MAX,
        ensures
            args.mem_mib < MIN_MEM_MIB ==> (r matches Err(VmmonError::Config(m)) && m@ == "mem_mib must be >= 64"@),
            args.mem_mib >= MIN_MEM_MIB && !boot_file_ok(args.boot_iso@) ==> (r matches Err(VmmonError::Config(m))
                && m@ == "boot_iso must be an .iso or .elf file, got '"@ + args.boot_iso@ + "'"@),
            args.mem_mib >= MIN_MEM_MIB && boot_file_ok(args.boot_iso@) && !has_ext_spec(args.disk_img@, "img"@)
                ==> (r matches Err(VmmonError::Config(m))
                && m@ == "disk_img must be an .img file, got '"@ + args.disk_img@ + "'"@),
            args.mem_mib >= MIN_MEM_MIB && boot_file_ok(args.boot_iso@) && has_ext_spec(args.disk_img@, "img"@)
                ==> (r matches Ok(c) && c.boot_iso_path@ == args.boot_iso@ && c.disk_img_path@ == args.disk_img@
                && c.mem_size_bytes == args.mem_mib * 1024 * 1024),
    {
        if args.mem_mib < MIN_MEM_MIB {
            return Err(VmmonError::config(String::from_str("mem_mib must be >= 64")));
        }
        if !has_ext(args.boot_iso.as_str(), "iso") && !has_ext(args.boot_iso.as_str(), "elf") {
            return Err(config_error("boot_iso must be an .iso or .elf file, got '", args.boot_iso.as_str()));
        }
        if !has_ext(args.disk_img.as_str(), "img") {
            return Err(config_error("disk_img must be an .img file, got '", args.disk_img.as_str()));
        }
        let mem_size_bytes = args.mem_mib * 1024 * 1024;
        Ok(VmConfig { boot_iso_path: args.boot_iso, disk_img_path: args.disk_img, mem_size_bytes })
    }
}

} // verus!
