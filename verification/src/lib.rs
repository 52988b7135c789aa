//! Lays classes of fields over the memory of a process, and searches that
//! memory with the structure spider: for chains of pointer hops that end in a
//! cell holding a wanted value, which are then narrowed down against later
//! states of the memory.

pub mod address;
pub mod app;
pub mod bytes;
pub mod class;
pub mod context;
pub mod error;
pub mod eval;
pub mod field;
pub mod generator;
pub mod gui;
pub mod process;
pub mod project;
pub mod spider;
pub mod text;
pub mod value;
