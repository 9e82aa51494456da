//! Object-level access policies: rules, their evaluation, and the rule DSL.


pub mod dsl;
pub mod engine;
pub mod rule;

pub use engine::PolicyEngine;


