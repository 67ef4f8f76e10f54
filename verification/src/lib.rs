//! Stacked-branch bookkeeping: the branch graph, the planner that puts a
//! stack into rebase order, the resumable operation state machine, the
//! single-step navigator and the forest that is shown to the user.

pub mod branch;
pub mod config;
pub mod error;
pub mod forest;
pub mod gitout;
pub mod graph;
pub mod names;
pub mod navigate;
pub mod operation;
pub mod plan;
pub mod render;
pub mod text;
