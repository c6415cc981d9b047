//! Registry and activation logic of a toolchain version manager: version
//! identifiers and their order, the installed entries of a bin directory,
//! the pointer entry that designates the active version, and the steps
//! that install a version or switch to one.

pub mod catalog;
pub mod engine;
pub mod pointer;
pub mod registry;
pub mod sort;
pub mod version;
