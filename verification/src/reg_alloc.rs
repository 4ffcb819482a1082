//! Register allocation: live-interval analysis over the linear TAC stream and
//! linear-scan assignment of physical registers.

pub mod interval_analysis;
pub mod register_allocation;
