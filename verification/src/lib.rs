//! A small catalog of design patterns, each in a module of its own, together
//! with the generator that indexes the pattern modules found in a source tree.

pub mod behavioral_patterns;
pub mod creational_patterns;
pub mod generator;
pub mod text;
