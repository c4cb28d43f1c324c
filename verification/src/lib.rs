//! The control core's discrete side: how a machine's coordinates split into a held base and its joints,
//! how a budget names the joint that binds it, the order in which redundancy is recruited, and the
//! reading a task loop is configured with.

pub mod base;
pub mod budget;
pub mod numeral;
pub mod recruit;
pub mod opts;
pub mod escape;
pub mod task_loop;
pub mod wrench_source;
