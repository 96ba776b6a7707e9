//! Borrow-checker fact completion and per-program-point reporting over the
//! control-flow graph of one function.

pub mod configuration;
pub mod facts;
pub mod mir;
pub mod polonius_info;
pub mod regions;
pub mod order;
pub mod mir_dumper;
