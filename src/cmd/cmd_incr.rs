use vstd::prelude::*;
use vstd::utf8::*;
use crate::cmd::command::{int_arg, parse_int_arg};
use crate::number::{decimal, int_text, lemma_decimal, write_i64};
use crate::object_type_encoding::{OBJ_ENCODING_INT, OBJ_TYPE_STRING};
use crate::resp::{ascii_string, error_of, error_reply, is_ascii_bytes, DataType, RespValue};
use crate::store::{clock_of, get_effect, live, put_effect, ObjectValue, Store, StoreObject};

verus! {

/// `INCR key`: adds one to an integer value; a missing key starts from 0.
pub struct IncrCommand;

/// The value `INCR` of `k` at `now_ms` sets, or `None` when the value is not
/// an integer or is already the largest one.
pub open spec fn incremented(s: Store, k: Seq<char>, now_ms: i64) -> Option<i64> {
    if !live(s, k, now_ms) {
        Some(1)
    } else {
        match *s.objects()[k].value {
            ObjectValue::String(v) => match int_arg(v@) {
                Some(n) => if n < i64::MAX {
                    Some((n + 1) as i64)
                } else {
                    None
                },
                None => None,
            },
        }
    }
}

/// The decimal text of an integer is ASCII.
pub proof fn lemma_int_text_ascii(n: int)
    ensures
        is_ascii_bytes(int_text(n)),
{
    let m: nat = if n < 0 { (-n) as nat } else { n as nat };
    lemma_decimal(m);
    let d = decimal(m);
    assert forall|i: int| 0 <= i < int_text(n).len() implies #[trigger] int_text(n)[i] < 128 by {
        if n < 0 && i > 0 {
            assert(int_text(n)[i] == d[i - 1]);
        }
    }
}

/// The decimal text of an integer, as a string.
pub fn i64_to_string(n: i64) -> (r: String)
    ensures
        encode_utf8(r@) == int_text(n as int),
{
    let mut bytes: Vec<u8> = Vec::new();
    write_i64(&mut bytes, n);
    proof {
        assert(bytes@ =~= int_text(n as int));
        lemma_int_text_ascii(n as int);
    }
    ascii_string(bytes)
}

/// What `INCR` does: writes the incremented integer without expiry and replies it, or replies an error with the effect of a lookup.
pub open spec fn incr_command_effect(args: Seq<String>, s0: Store, s1: Store, now_ms: i64, r: RespValue) -> bool {
    &&& args.len() < 1 ==> r == error_of("ERR wrong number of arguments for 'incr' command"@)
            && s1 == s0
    &&& args.len() >= 1 ==> match incremented(s0, args[0]@, now_ms) {
            None => r == error_of("ERR value is not an integer or out of range"@) && get_effect(
                s0,
                s1,
                args[0]@,
                now_ms,
            ),
            Some(n) => r == RespValue::Integer(n) && exists|mid: Store, v: String|
                get_effect(s0, mid, args[0]@, now_ms) && encode_utf8(v@) == int_text(
                    n as int,
                ) && put_effect(
                    mid,
                    s1,
                    args[0]@,
                    StoreObject {
                        type_encoding: OBJ_TYPE_STRING | OBJ_ENCODING_INT,
                        value: Box::new(ObjectValue::String(v)),
                        last_accessed_at: clock_of(now_ms),
                    },
                    -1i64,
                    now_ms,
                )
        }
}

impl IncrCommand {
    pub fn execute(&self, args: &Vec<String>, store: &mut Store, now_ms: i64) -> (r: DataType)
        requires
            old(store).wf(),
        ensures
            incr_command_effect(args@, *old(store), *final(store), now_ms, r@),
    {
        if args.len() < 1 {
            return error_reply("ERR wrong number of arguments for 'incr' command");
        }
        let key = args[0].as_str();
        let found = store.get_at(key, now_ms);
        let ghost mid = *store;
        let new_value: i64 = match found {
            Some(store_object) => {
                let current = match store_object.get_value_clone() {
                    ObjectValue::String(string) => parse_int_arg(&string),
                };
                match current {
                    Some(v) => {
                        if v == i64::MAX {
                            return error_reply("ERR value is not an integer or out of range");
                        }
                        v + 1
                    },
                    None => {
                        return error_reply("ERR value is not an integer or out of range");
                    },
                }
            },
            None => 1,
        };
        let text = i64_to_string(new_value);
        let ghost v = text;
        store.put_at(key, ObjectValue::String(text), -1, OBJ_TYPE_STRING | OBJ_ENCODING_INT, now_ms);
        assert(get_effect(*old(store), mid, args@[0]@, now_ms));
        DataType::Integer(new_value)
    }
}

} // verus!
