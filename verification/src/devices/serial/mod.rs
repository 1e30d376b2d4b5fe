pub mod uart16550;
