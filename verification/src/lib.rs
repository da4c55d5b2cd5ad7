//! Policy and enforcement-planning logic of the vetto sandbox.
pub mod backend;
pub mod bpf;
pub mod envfilter;
pub mod linux;
pub mod macos;
pub mod macvm;
pub mod paths;
pub mod production;
pub mod text;
