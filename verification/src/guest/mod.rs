pub mod layout;
pub mod memory;
