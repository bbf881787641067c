//! The transaction verbs.

use vstd::prelude::*;
use crate::cmd::command::name_is;
use crate::resp::DataType;

verus! {

#[allow(non_camel_case_types)]
#[derive(Debug, Clone, Copy, PartialEq, Eq, Structural)]
pub enum TransactionCommand {
    MULTI,
    EXEC,
    DISCARD,
}

/// The transaction verb a name stands for.
pub open spec fn transaction_command_named(n: Seq<char>) -> Option<TransactionCommand> {
    if n == "MULTI"@ {
        Some(TransactionCommand::MULTI)
    } else if n == "EXEC"@ {
        Some(TransactionCommand::EXEC)
    } else if n == "DISCARD"@ {
        Some(TransactionCommand::DISCARD)
    } else {
        None
    }
}

impl TransactionCommand {
    pub fn from_name(name: &String) -> (r: Option<TransactionCommand>)
        ensures
            r == transaction_command_named(name@),
    {
        if name_is(name, "MULTI") {
            Some(TransactionCommand::MULTI)
        } else if name_is(name, "EXEC") {
            Some(TransactionCommand::EXEC)
        } else if name_is(name, "DISCARD") {
            Some(TransactionCommand::DISCARD)
        } else {
            None
        }
    }
}

/// The transaction verb that the first element of a request names: a bulk
/// string holding `MULTI`, `EXEC` or `DISCARD`.
pub open spec fn transaction_command_of(cmd: DataType) -> Option<TransactionCommand> {
    match cmd {
        DataType::BulkString(s) => transaction_command_named(s@),
        _ => None,
    }
}

pub fn is_transaction_command(cmd: &DataType) -> (r: Option<TransactionCommand>)
    ensures
        r == transaction_command_of(*cmd),
{
    match cmd {
        DataType::BulkString(value) => TransactionCommand::from_name(value),
        _ => None,
    }
}

} // verus!
