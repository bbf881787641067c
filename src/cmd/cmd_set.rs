use vstd::prelude::*;
use vstd::utf8::*;
use crate::cmd::command::{arg_views, int_arg, name_is, parse_int_arg};
use crate::object_type_encoding::{get_string_encoding, string_encoding_of, OBJ_TYPE_STRING};
use crate::resp::{RespValue, error_of, error_reply, simple_of, simple_reply, DataType};
use crate::store::{clock_of, put_effect, ObjectValue, Store, StoreObject};

verus! {

/// `SET key value [EX seconds]`: writes the key, with a time to live when `EX` is given.
pub struct SetCommand;

/// Whether `seconds` in milliseconds fits a signed 64-bit integer.
pub open spec fn millis_fit(seconds: i64) -> bool {
    i64::MIN <= seconds * 1000 <= i64::MAX
}

/// The time to live in milliseconds that the options from `i` on give, the
/// last `EX` winning, or the error they make.
pub open spec fn set_options(args: Seq<Seq<char>>, i: int, ttl_ms: i64) -> Result<i64, Seq<char>>
    decreases args.len() - i,
{
    if i < 0 || i >= args.len() {
        Ok(ttl_ms)
    } else if args[i] == "EX"@ {
        if i + 1 >= args.len() {
            Err("ERR syntax error"@)
        } else {
            match int_arg(args[i + 1]) {
                None => Err("ERR value is not an integer or out of range"@),
                Some(seconds) => if millis_fit(seconds) {
                    set_options(args, i + 2, (seconds * 1000) as i64)
                } else {
                    Err("ERR invalid expire time in 'set' command"@)
                },
            }
        }
    } else {
        Err("ERR syntax error"@)
    }
}

/// What `SET key value` writes at `now_ms`.
pub open spec fn set_object(value: String, now_ms: i64) -> StoreObject {
    StoreObject {
        type_encoding: OBJ_TYPE_STRING | string_encoding_of(encode_utf8(value@)),
        value: Box::new(ObjectValue::String(value)),
        last_accessed_at: clock_of(now_ms),
    }
}

/// Milliseconds from seconds, if they fit.
pub fn seconds_to_millis(seconds: i64) -> (r: Option<i64>)
    ensures
        r is Some <==> millis_fit(seconds),
        r is Some ==> r->Some_0 == seconds * 1000,
{
    if seconds > i64::MAX / 1000 || seconds < i64::MIN / 1000 {
        None
    } else {
        Some(seconds * 1000)
    }
}

fn parse_options(args: &Vec<String>) -> (r: Result<i64, DataType>)
    requires
        args@.len() >= 2,
    ensures
        match set_options(arg_views(args@), 2, -1i64) {
            Ok(t) => r == Ok::<i64, DataType>(t),
            Err(m) => r is Err && r->Err_0@ == error_of(m),
        },
{
    let ghost views = arg_views(args@);
    let mut ttl: i64 = -1;
    let mut i: usize = 2;
    while i < args.len()
        invariant
            2 <= i <= args@.len(),
            views == arg_views(args@),
            set_options(views, 2, -1i64) == set_options(views, i as int, ttl),
        decreases args@.len() - i,
    {
        assert(views[i as int] == args@[i as int]@);
        if !name_is(&args[i], "EX") {
            return Err(error_reply("ERR syntax error"));
        }
        if i + 1 >= args.len() {
            return Err(error_reply("ERR syntax error"));
        }
        assert(views[i + 1] == args@[i + 1]@);
        match parse_int_arg(&args[i + 1]) {
            None => {
                return Err(error_reply("ERR value is not an integer or out of range"));
            },
            Some(seconds) => match seconds_to_millis(seconds) {
                None => {
                    return Err(error_reply("ERR invalid expire time in 'set' command"));
                },
                Some(ms) => {
                    ttl = ms;
                    i += 2;
                },
            },
        }
    }
    Ok(ttl)
}

/// What `SET` does: on valid options writes the key with its time to live and replies `OK`; else replies the error and changes nothing.
pub open spec fn set_command_effect(args: Seq<String>, s0: Store, s1: Store, now_ms: i64, r: RespValue) -> bool {
    &&& args.len() < 2 ==> r == error_of("ERR wrong number of arguments for 'set' command"@)
            && s1 == s0
    &&& args.len() >= 2 ==> match set_options(arg_views(args), 2, -1i64) {
            Err(m) => r == error_of(m) && s1 == s0,
            Ok(ttl_ms) => r == simple_of("OK"@) && put_effect(
                s0,
                s1,
                args[0]@,
                set_object(args[1], now_ms),
                ttl_ms,
                now_ms,
            )
        }
}

impl SetCommand {
    pub fn execute(&self, args: &Vec<String>, store: &mut Store, now_ms: i64) -> (r: DataType)
        requires
            old(store).wf(),
        ensures
            set_command_effect(args@, *old(store), *final(store), now_ms, r@),
    {
        if args.len() < 2 {
            return error_reply("ERR wrong number of arguments for 'set' command");
        }
        let expiration_duration_ms = match parse_options(args) {
            Ok(t) => t,
            Err(e) => {
                return e;
            },
        };
        let value = args[1].clone();
        let string_encoding = get_string_encoding(&value);
        store.put_at(
            args[0].as_str(),
            ObjectValue::String(value),
            expiration_duration_ms,
            OBJ_TYPE_STRING | string_encoding,
            now_ms,
        );
        simple_reply("OK")
    }
}

} // verus!
