//! Query representation and planning.

pub mod ast;
pub mod planner;
