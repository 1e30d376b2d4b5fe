pub mod cmos;
