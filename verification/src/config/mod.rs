//! Configuration values and the grammar of a configuration line.

pub mod domain;
pub mod item;
pub mod parser;
pub mod rule;
pub mod server;
pub mod setting;
pub mod value;
