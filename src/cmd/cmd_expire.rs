use vstd::prelude::*;
use crate::cmd::command::{int_arg, parse_int_arg};
use crate::cmd::cmd_set::{millis_fit, seconds_to_millis};
use crate::resp::{error_of, error_reply, DataType, RespValue};
use crate::store::{clock_of, get_effect, live, put_effect, touched, Store};

verus! {

/// `EXPIRE key seconds`: gives a live key a time to live; replies 1, or 0
/// when the key is missing or the seconds are not a valid integer.
pub struct ExpireCommand;

/// Whether an `EXPIRE` argument is a number of seconds whose milliseconds fit.
pub open spec fn valid_seconds(s: Seq<char>) -> bool {
    int_arg(s) is Some && millis_fit(int_arg(s)->Some_0)
}

/// What `EXPIRE` does: a live key with valid seconds is written again with that time to live and the reply is 1; else the reply is 0, with the effect of a lookup.
pub open spec fn expire_command_effect(args: Seq<String>, s0: Store, s1: Store, now_ms: i64, r: RespValue) -> bool {
    &&& args.len() < 2 ==> r == error_of("Wrong number of arguments"@) && s1 == s0
    &&& args.len() >= 2 && !(live(s0, args[0]@, now_ms) && valid_seconds(args[1]@))
            ==> r == RespValue::Integer(0) && get_effect(
            s0,
            s1,
            args[0]@,
            now_ms
        )
    &&& args.len() >= 2 && live(s0, args[0]@, now_ms) && valid_seconds(args[1]@)
            ==> r == RespValue::Integer(1) && exists|mid: Store|
            get_effect(s0, mid, args[0]@, now_ms) && put_effect(
                mid,
                s1,
                args[0]@,
                touched(s0.objects()[args[0]@], clock_of(now_ms)),
                (int_arg(args[1]@)->Some_0 * 1000) as i64,
                now_ms,
            )
}

impl ExpireCommand {
    pub fn execute(&self, args: &Vec<String>, store: &mut Store, now_ms: i64) -> (r: DataType)
        requires
            old(store).wf(),
        ensures
            expire_command_effect(args@, *old(store), *final(store), now_ms, r@),
    {
        if args.len() < 2 {
            return error_reply("Wrong number of arguments");
        }
        let key = args[0].as_str();
        let seconds = parse_int_arg(&args[1]);
        let store_object = store.get_at(key, now_ms);
        let ghost mid = *store;
        match store_object {
            None => DataType::Integer(0),
            Some(obj) => {
                let ms = match seconds {
                    None => {
                        return DataType::Integer(0);
                    },
                    Some(s) => match seconds_to_millis(s) {
                        None => {
                            return DataType::Integer(0);
                        },
                        Some(ms) => ms,
                    },
                };
                store.put_at(key, obj.get_value_clone(), ms, obj.type_encoding, now_ms);
                assert(get_effect(*old(store), mid, args@[0]@, now_ms));
                DataType::Integer(1)
            },
        }
    }
}

} // verus!
