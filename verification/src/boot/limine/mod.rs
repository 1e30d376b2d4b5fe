pub mod install;
pub mod spec;
