pub mod dma8237;
pub mod pic8259;
