use vstd::prelude::*;
use vstd::utf8::*;
use crate::resp::{bulk_of, error_of, error_reply, DataType, RespValue};
use crate::store::{get_effect, live, store_object_to_datatype, ObjectValue, Store};

verus! {

/// `GET key`: the value, or an empty bulk string when the key is missing.
pub struct GetCommand;

/// The reply to `GET` of `k` at `now_ms`.
pub open spec fn get_reply(s: Store, k: Seq<char>, now_ms: i64) -> RespValue {
    if live(s, k, now_ms) {
        match *s.objects()[k].value {
            ObjectValue::String(v) => bulk_of(v@),
        }
    } else {
        bulk_of(Seq::empty())
    }
}

/// What `GET` does: replies the value of a live key, or an empty bulk string, with the effect of a lookup.
pub open spec fn get_command_effect(args: Seq<String>, s0: Store, s1: Store, now_ms: i64, r: RespValue) -> bool {
    &&& args.len() < 1 ==> r == error_of("ERR wrong number of arguments for 'get' command"@)
            && s1 == s0
    &&& args.len() >= 1 ==> r == get_reply(s0, args[0]@, now_ms) && get_effect(
            s0,
            s1,
            args[0]@,
            now_ms
        )
}

impl GetCommand {
    pub fn execute(&self, args: &Vec<String>, store: &mut Store, now_ms: i64) -> (r: DataType)
        requires
            old(store).wf(),
        ensures
            get_command_effect(args@, *old(store), *final(store), now_ms, r@),
    {
        if args.len() < 1 {
            return error_reply("ERR wrong number of arguments for 'get' command");
        }
        match store.get_at(args[0].as_str(), now_ms) {
            Some(store_object) => store_object_to_datatype(&store_object),
            None => {
                let r = DataType::BulkString(String::new());
                assert(encode_utf8(Seq::<char>::empty()) =~= Seq::<u8>::empty());
                r
            },
        }
    }
}

} // verus!
