//! The programs that the tests run in: a virtual machine and a debugger.
//!
//! Nothing here waits or talks to a program. Each procedure says what it needs
//! done (`ask`) and goes on with what came of it (`take`).
pub mod debugger;
pub mod decoding;
pub mod dialog;
pub mod launch;
pub mod qemu;
pub mod qmp;
pub mod query;
pub mod reading;
pub mod recap;
pub mod run;
pub mod session;
pub mod startup;
pub mod value;
pub mod watcher;

pub use crate::instances::debugger::Debugger;
pub use crate::instances::qemu::Qemu;
pub use crate::instances::qmp::QMP;
pub use crate::instances::query::{Queriable, Query, QueryType};
pub use crate::instances::recap::{ActionBasics, ActionResult, ActionResultBasics, Recap};
