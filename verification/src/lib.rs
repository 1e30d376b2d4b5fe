pub mod boot;
pub mod bytes;
pub mod devices;
pub mod guest;
pub mod vmm;
pub mod text;
pub mod config;
