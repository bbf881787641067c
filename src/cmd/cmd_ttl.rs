use vstd::prelude::*;
use crate::resp::{error_of, error_reply, DataType, RespValue};
use crate::store::Store;

verus! {

/// `TTL key`: the seconds left, `-1` for a key without expiry, `-2` for a
/// missing or expired key.
pub struct TTLCommand;

pub open spec fn ttl_reply(s: Store, k: Seq<char>, now_ms: i64) -> i64 {
    if !s.objects().contains_key(k) {
        -2i64
    } else if !s.expirations().contains_key(k) {
        -1i64
    } else if s.expirations()[k] <= now_ms {
        -2i64
    } else {
        ((s.expirations()[k] - now_ms) / 1000) as i64
    }
}

/// What `TTL` does: replies the time left and changes nothing.
pub open spec fn ttl_command_effect(args: Seq<String>, s0: Store, s1: Store, now_ms: i64, r: RespValue) -> bool {
    &&& s1 == s0
    &&& args.len() < 1 ==> r == error_of("ERR wrong number of arguments for 'ttl' command"@)
    &&& args.len() >= 1 ==> r == RespValue::Integer(ttl_reply(s0, args[0]@, now_ms))
}

impl TTLCommand {
    pub fn execute(&self, args: &Vec<String>, store: &mut Store, now_ms: i64) -> (r: DataType)
        requires
            old(store).wf(),
        ensures
            ttl_command_effect(args@, *old(store), *final(store), now_ms, r@),
    {
        if args.len() < 1 {
            return error_reply("ERR wrong number of arguments for 'ttl' command");
        }
        let key = args[0].as_str();
        if !store.contains_key(key) {
            return DataType::Integer(-2);
        }
        match store.get_expiry(key) {
            None => DataType::Integer(-1),
            Some(expires_at) => {
                if expires_at <= now_ms {
                    DataType::Integer(-2)
                } else {
                    let left: i128 = (expires_at as i128 - now_ms as i128) / 1000;
                    DataType::Integer(left as i64)
                }
            },
        }
    }
}

} // verus!
