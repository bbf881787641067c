use vstd::prelude::*;
use vstd::utf8::*;
use crate::resp::{
    bulk_of, encodings, lemma_views, lemma_views_push, simple_of, simple_reply, views, DataType, RESPParser,
    RespValue,
};
use crate::store::{expired_at, store_object_to_datatype, ObjectValue, Store, StoreEntry};

verus! {

/// `BGREWRITEAOF`: replies `OK` and yields the append-only file: one `SET`
/// per key, as RESP frames back to back.
pub struct BgRewriteAofCommand;

/// The name of the append-only file.
pub const AOF_FILE_NAME: &'static str = "kataradb.aof";

/// The `SET` command that restores an entry.
pub open spec fn aof_command(e: StoreEntry) -> RespValue {
    RespValue::Array(
        seq![
            bulk_of("SET"@),
            bulk_of(e.key@),
            match *e.object.value {
                ObjectValue::String(v) => bulk_of(v@),
            },
        ],
    )
}

/// The `SET` commands of the entries that are live at `now_ms`, in iteration order.
pub open spec fn aof_commands(
    entries: Seq<StoreEntry>,
    expirations: Map<Seq<char>, i64>,
    now_ms: i64,
) -> Seq<RespValue>
    decreases entries.len(),
{
    if entries.len() == 0 {
        Seq::empty()
    } else {
        let init = aof_commands(entries.drop_last(), expirations, now_ms);
        if expired_at(expirations, entries.last().key@, now_ms) {
            init
        } else {
            init.push(aof_command(entries.last()))
        }
    }
}

/// The bytes of the append-only file for a keyspace at `now_ms`: a `SET` per
/// live key.
pub fn rewrite_aof(store: &Store, now_ms: i64) -> (r: Vec<u8>)
    requires
        store.wf(),
    ensures
        r@ == encodings(aof_commands(store.entries(), store.expirations(), now_ms)),
{
    let data = store.get_data();
    let mut commands: Vec<DataType> = Vec::new();
    let mut i: usize = 0;
    while i < data.len()
        invariant
            store.wf(),
            i <= data@.len(),
            data@ == store.entries(),
            views(commands@) == aof_commands(data@.subrange(0, i as int), store.expirations(), now_ms),
        decreases data@.len() - i,
    {
        let entry: &StoreEntry = &data[i];
        let ghost prefix = data@.subrange(0, i + 1);
        proof {
            assert(prefix.drop_last() =~= data@.subrange(0, i as int));
            assert(prefix.last() == data@[i as int]);
        }
        let expired = match store.get_expiry(entry.key.as_str()) {
            Some(expires_at) => expires_at <= now_ms,
            None => false,
        };
        if !expired {
            let mut items: Vec<DataType> = Vec::new();
            items.push(DataType::BulkString(String::from_str("SET")));
            items.push(DataType::BulkString(entry.key.clone()));
            items.push(store_object_to_datatype(&entry.object));
            proof {
                lemma_views(items@);
                assert(views(items@) =~= aof_command(*entry)->Array_0);
            }
            let command = DataType::Array(items);
            proof {
                lemma_views_push(commands@, command);
            }
            commands.push(command);
        }
        i += 1;
    }
    proof {
        assert(data@.subrange(0, i as int) =~= store.entries());
    }
    let parser = RESPParser::new();
    parser.encode_all(&commands)
}

/// What `BGREWRITEAOF` replies: `OK`, with the keyspace unchanged.
pub open spec fn bgrewriteaof_command_effect(args: Seq<String>, s0: Store, s1: Store, now_ms: i64, r: RespValue) -> bool {
    &&& s1 == s0
    &&& r == simple_of("OK"@)
}

impl BgRewriteAofCommand {
    /// The reply and the bytes of the append-only file.
    pub fn execute(&self, args: &Vec<String>, store: &mut Store, now_ms: i64) -> (r: (DataType, Vec<u8>))
        requires
            old(store).wf(),
        ensures
            bgrewriteaof_command_effect(args@, *old(store), *final(store), now_ms, r.0@),
            r.1@ == encodings(aof_commands(old(store).entries(), old(store).expirations(), now_ms)),
    {
        let aof = rewrite_aof(store, now_ms);
        (simple_reply("OK"), aof)
    }
}

} // verus!
