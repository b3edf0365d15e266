//! Behavior-tree nodes that are polled repeatedly: each call runs the node
//! until it yields `Running` or finishes with a status, and the node keeps
//! track of where to resume.

pub mod action;
pub mod branching;
pub mod children;
pub mod converters;
pub mod looping;
pub mod sequence;
pub mod status;
