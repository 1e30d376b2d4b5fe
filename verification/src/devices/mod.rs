pub mod bus;
pub mod devices;
pub mod legacy;
pub mod pci;
pub mod rtc;
pub mod serial;
