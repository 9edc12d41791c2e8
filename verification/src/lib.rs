//! Verified parsing and bookkeeping for a small system monitor.
pub mod bandwidth;
pub mod cpu;
pub mod gpu;
pub mod label_map;
pub mod mem;
pub mod net;
pub mod patterns;
pub mod power;
pub mod procs;
pub mod sysinfo;
pub mod temps;
pub mod text;
