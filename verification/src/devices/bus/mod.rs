pub mod pio;
