//! Patterns of creation: who makes an object, and when.

pub mod factory_method;
