use vstd::prelude::*;

verus! {

/// Where the boot pieces go in guest physical memory.
#[derive(Debug, Clone)]
pub struct GuestLayout {
    pub kernel_load_phys: u64,
    pub page_tables_phys: u64,
    pub gdt_phys: u64,
    pub boot_stack_top: u64,
}

impl GuestLayout {
    /// The fixed layout: kernel at 2 MiB, GDT at 0x3f0000, page tables at 4 MiB,
    /// boot stack below 8 MiB. It does not depend on the memory size.
    pub fn default_layout(_mem_size_bytes: usize) -> (r: Self)
        ensures
            r.kernel_load_phys == 0x0020_0000,
            r.page_tables_phys == 0x0040_0000,
            r.gdt_phys == 0x003f_0000,
            r.boot_stack_top == 0x0080_0000,
    {
        GuestLayout {
            kernel_load_phys: 0x0020_0000,
            page_tables_phys: 0x0040_0000,
            gdt_phys: 0x003f_0000,
            boot_stack_top: 0x0080_0000,
        }
    }
}

} // verus!
