//! The generator: from the directories found under the source root to the
//! module file of each pattern family and the listing of all of them.

pub mod module;
pub mod modules;
pub mod order;
pub mod output;
pub mod render;
