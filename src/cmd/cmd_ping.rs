use vstd::prelude::*;
use crate::resp::{RespValue, simple_of, simple_reply, DataType};
use crate::store::Store;

verus! {

/// `PING`: replies `PONG`.
pub struct PingCommand;

/// What `PING` does: replies `PONG` and changes nothing.
pub open spec fn ping_command_effect(args: Seq<String>, s0: Store, s1: Store, now_ms: i64, r: RespValue) -> bool {
    &&& r == simple_of("PONG"@)
    &&& s1 == s0
}

impl PingCommand {
    pub fn execute(&self, args: &Vec<String>, store: &mut Store, now_ms: i64) -> (r: DataType)
        ensures
            ping_command_effect(args@, *old(store), *final(store), now_ms, r@),
    {
        simple_reply("PONG")
    }
}

} // verus!
