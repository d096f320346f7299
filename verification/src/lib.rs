//! A verified planner and deployer for an emulated overlay IPv4 network on
//! scheduler-reserved cluster machines.
//!
//! The library plans overlay addresses over the chosen machines, parses the
//! pairwise latency matrix, and synthesises each machine's configuration:
//! the address program, the traffic-control program on loopback and the
//! machine's interface, and the firewall mark map that drives the
//! classifier. Around that core it decides the remote executor's transport
//! and collects fan-out results, reads the scheduler's answers, and renders
//! the shell programs that apply and remove the configuration. All logic is
//! specified and proved; the thin process edge (spawning, files, the event
//! loop) lives outside the library.

pub mod address_allocation_policy;
pub mod address_plan;
pub mod config;
pub mod context;
pub mod executor;
pub mod latency_matrix;
pub mod machine;
pub mod oar;
pub mod scripts;
pub mod signal;
pub mod text;
