//! Rule matching, configuration grammar and resolver policy of a local
//! forwarding DNS resolver, with machine-checked contracts.

pub mod cache;
pub mod cache_file;
pub mod config;
pub mod dns;
pub mod dns_conf;
pub mod flight;
pub mod hosts;
pub mod ip;
pub mod message;
pub mod name;
pub mod pipeline;
pub mod pool;
pub mod resolve;
pub mod rule_table;
pub mod run_user;
pub mod text;
