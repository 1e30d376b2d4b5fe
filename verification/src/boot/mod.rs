pub mod elf;
pub mod iso;
pub mod long_mode;
pub mod limine;
