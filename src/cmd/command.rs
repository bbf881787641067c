//! The simple (non-transaction) commands and what they share.

use vstd::prelude::*;
use vstd::utf8::*;
use crate::number::{i64_of_text, parse_i64_bytes};
use crate::resp::DataType;

verus! {

#[allow(non_camel_case_types)]
#[derive(Debug, Clone, Copy, PartialEq, Eq, Hash, Structural)]
pub enum SimpleCommand {
    PING,
    SET,
    GET,
    TTL,
    DEL,
    EXPIRE,
    BGREWRITEAOF,
    INCR,
    INFO,
}

/// The command a name stands for; names are matched exactly.
pub open spec fn simple_command_named(n: Seq<char>) -> Option<SimpleCommand> {
    if n == "PING"@ {
        Some(SimpleCommand::PING)
    } else if n == "SET"@ {
        Some(SimpleCommand::SET)
    } else if n == "GET"@ {
        Some(SimpleCommand::GET)
    } else if n == "TTL"@ {
        Some(SimpleCommand::TTL)
    } else if n == "DEL"@ {
        Some(SimpleCommand::DEL)
    } else if n == "EXPIRE"@ {
        Some(SimpleCommand::EXPIRE)
    } else if n == "BGREWRITEAOF"@ {
        Some(SimpleCommand::BGREWRITEAOF)
    } else if n == "INCR"@ {
        Some(SimpleCommand::INCR)
    } else if n == "INFO"@ {
        Some(SimpleCommand::INFO)
    } else {
        None
    }
}

/// Whether a string holds exactly the characters of a literal.
pub fn name_is(name: &String, lit: &str) -> (r: bool)
    ensures
        r == (name@ == lit@),
{
    *name == lit.to_owned()
}

impl SimpleCommand {
    pub fn from_name(name: &String) -> (r: Option<SimpleCommand>)
        ensures
            r == simple_command_named(name@),
    {
        if name_is(name, "PING") {
            Some(SimpleCommand::PING)
        } else if name_is(name, "SET") {
            Some(SimpleCommand::SET)
        } else if name_is(name, "GET") {
            Some(SimpleCommand::GET)
        } else if name_is(name, "TTL") {
            Some(SimpleCommand::TTL)
        } else if name_is(name, "DEL") {
            Some(SimpleCommand::DEL)
        } else if name_is(name, "EXPIRE") {
            Some(SimpleCommand::EXPIRE)
        } else if name_is(name, "BGREWRITEAOF") {
            Some(SimpleCommand::BGREWRITEAOF)
        } else if name_is(name, "INCR") {
            Some(SimpleCommand::INCR)
        } else if name_is(name, "INFO") {
            Some(SimpleCommand::INFO)
        } else {
            None
        }
    }
}

/// The simple command that the first element of a request names, if any: a
/// simple or bulk string holding one of the registered names.
pub open spec fn simple_command_of(cmd: DataType) -> Option<SimpleCommand> {
    match cmd {
        DataType::SimpleString(s) => simple_command_named(s@),
        DataType::BulkString(s) => simple_command_named(s@),
        _ => None,
    }
}

pub fn is_simple_command(cmd: &DataType) -> (r: Option<SimpleCommand>)
    ensures
        r == simple_command_of(*cmd),
{
    match cmd {
        DataType::SimpleString(value) => SimpleCommand::from_name(value),
        DataType::BulkString(value) => SimpleCommand::from_name(value),
        _ => None,
    }
}

/// The characters of the arguments.
pub open spec fn arg_views(args: Seq<String>) -> Seq<Seq<char>> {
    args.map_values(|s: String| s@)
}

/// The signed 64-bit integer an argument reads as, if any.
pub open spec fn int_arg(s: Seq<char>) -> Option<i64> {
    i64_of_text(encode_utf8(s))
}

pub fn parse_int_arg(s: &String) -> (r: Option<i64>)
    ensures
        r == int_arg(s@),
{
    parse_i64_bytes(s.as_str().as_bytes())
}

} // verus!
