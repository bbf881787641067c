//! The command registry, the handlers and the dispatcher.

pub mod command;
pub mod transaction;
pub mod cmd_ping;
pub mod cmd_set;
pub mod cmd_get;
pub mod cmd_ttl;
pub mod cmd_del;
pub mod cmd_expire;
pub mod cmd_incr;
pub mod cmd_info;
pub mod cmd_bgrewriteaof;
pub mod handler;
