pub mod bus;
pub mod config_io;
pub mod virtio;
