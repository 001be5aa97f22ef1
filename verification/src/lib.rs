//! Reports what a Python interpreter says of itself: its version, and which of
//! a list of packages it can import.

pub mod command;
pub mod host;
pub mod names;
pub mod order;
pub mod render;
pub mod report;
pub mod resolver;
