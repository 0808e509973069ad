//! Sandboxed execution engine for an online judge.
//!
//! The library holds the verified core of the engine: the wire protocol
//! spoken between the controller and the confined supervisor, the plans
//! that drive filesystem layout and namespace isolation, the control-group
//! bookkeeping, the pipe rendezvous used to couple two sandboxes, and the
//! pool of ready sandboxes.  The surrounding process machinery (forking,
//! mounting, socket traffic) interprets the plans and requests produced
//! here.

pub mod case;
pub mod cgroup;
pub mod compile;
pub mod decimal;
pub mod isolation;
pub mod layout;
pub mod package;
pub mod sandbox;
pub mod subprocess;
pub mod supervisor;
pub mod util;
pub mod wire;
