pub mod errors;
pub mod exit;
pub mod vmmon;
pub mod cpuid;
