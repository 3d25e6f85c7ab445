//! Patterns of behaviour: how objects share work and pass requests on.

pub mod command;
pub mod strategy;
pub mod template;
