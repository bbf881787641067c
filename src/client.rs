//! The state of one client connection: its decoder and its transaction.

use vstd::prelude::*;
use crate::resp::{DataType, RESPParser};

verus! {

pub struct ClientSession {
    /// The bytes received and not yet decoded.
    pub parser: RESPParser,
    pub is_transaction_active: bool,
    /// The requests queued by the open transaction, oldest first.
    pub cmd_queue: Vec<DataType>,
}

impl ClientSession {
    pub fn new() -> (r: ClientSession)
        ensures
            !r.is_transaction_active,
            r.cmd_queue@.len() == 0,
            r.parser@.len() == 0,
    {
        ClientSession { parser: RESPParser::new(), is_transaction_active: false, cmd_queue: Vec::new() }
    }
}

} // verus!
