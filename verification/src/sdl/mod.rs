//! The connected-mode AX.25 v2.2 link-layer runtime.

pub mod acknowledging;
pub mod bridge;
pub mod capability;
pub mod carrier;
pub mod chains;
pub mod conduct;
pub mod context;
pub mod datagrams;
pub mod delivering;
pub mod dispatch;
pub mod drawn;
pub mod establishing;
pub mod event;
pub mod fidelity;
pub mod guard;
pub mod keeping;
pub mod loop_exec;
pub mod manager;
pub mod mdl;
pub mod quirks;
pub mod receiving;
pub mod resending;
pub mod session;
pub mod signal;
pub mod steady;
pub mod subroutine;
pub mod tables;
pub mod timer;
pub mod tx;
pub mod verbs;

pub use loop_exec::{run_loop, LoopRange, MAX_ITERATIONS};
