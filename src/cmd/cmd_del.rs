use vstd::prelude::*;
use crate::cmd::command::arg_views;
use crate::resp::{DataType, RespValue};
use crate::store::Store;

verus! {

/// `DEL key...`: removes the keys; replies how many were present.
pub struct DelCommand;

/// How many of `keys` are present when each is removed in turn.
pub open spec fn deleted_count(present: Set<Seq<char>>, keys: Seq<Seq<char>>) -> nat
    decreases keys.len(),
{
    if keys.len() == 0 {
        0
    } else {
        (if present.contains(keys[0]) {
            1nat
        } else {
            0nat
        }) + deleted_count(present.remove(keys[0]), keys.subrange(1, keys.len() as int))
    }
}

proof fn lemma_deleted_count_bound(present: Set<Seq<char>>, keys: Seq<Seq<char>>)
    ensures
        deleted_count(present, keys) <= keys.len(),
    decreases keys.len(),
{
    if keys.len() > 0 {
        lemma_deleted_count_bound(present.remove(keys[0]), keys.subrange(1, keys.len() as int));
    }
}

/// Whether `k` is among the first `n` keys.
spec fn among(keys: Seq<Seq<char>>, n: int, k: Seq<char>) -> bool {
    exists|w: int| 0 <= w < n && #[trigger] keys[w] == k
}

/// What `DEL` does: removes every named key from both tables and replies how many were present.
pub open spec fn del_command_effect(args: Seq<String>, s0: Store, s1: Store, now_ms: i64, r: RespValue) -> bool {
    &&& s1.wf()
    &&& s1.eviction_manager() == s0.eviction_manager()
    &&& r == RespValue::Integer(deleted_count(s0.objects().dom(), arg_views(args)) as i64)
    &&& forall|k: Seq<char>|
            #[trigger] s1.objects().contains_key(k) <==> s0.objects().contains_key(k)
                && !arg_views(args).contains(k)
    &&& forall|k: Seq<char>|
            #[trigger] s1.objects().contains_key(k) ==> s1.objects()[k] == s0.objects()[k]
    &&& forall|k: Seq<char>|
            #[trigger] s1.expirations().contains_key(k) <==> s0.expirations().contains_key(k)
                && !arg_views(args).contains(k)
    &&& forall|k: Seq<char>|
            #[trigger] s1.expirations().contains_key(k) ==> s1.expirations()[k]
                == s0.expirations()[k]
}

impl DelCommand {
    pub fn execute(&self, args: &Vec<String>, store: &mut Store, now_ms: i64) -> (r: DataType)
        requires
            old(store).wf(),
        ensures
            del_command_effect(args@, *old(store), *final(store), now_ms, r@),
    {
        let ghost keys = arg_views(args@);
        let mut deleted: u64 = 0;
        let mut i: usize = 0;
        proof {
            lemma_deleted_count_bound(old(store).objects().dom(), keys);
            assert(keys.subrange(0, keys.len() as int) =~= keys);
        }
        while i < args.len()
            invariant
                store.wf(),
                store.eviction_manager() == old(store).eviction_manager(),
                i <= args@.len(),
                keys == arg_views(args@),
                keys.len() == args@.len(),
                deleted as nat + deleted_count(store.objects().dom(), keys.subrange(i as int, keys.len() as int))
                    == deleted_count(old(store).objects().dom(), keys),
                deleted_count(old(store).objects().dom(), keys) <= keys.len(),
                forall|k: Seq<char>|
                    #[trigger] store.objects().contains_key(k) <==> old(store).objects().contains_key(k)
                        && !among(keys, i as int, k),
                forall|k: Seq<char>|
                    #[trigger] store.objects().contains_key(k) ==> store.objects()[k] == old(store).objects()[k],
                forall|k: Seq<char>|
                    #[trigger] store.expirations().contains_key(k) <==> old(store).expirations().contains_key(k)
                        && !among(keys, i as int, k),
                forall|k: Seq<char>|
                    #[trigger] store.expirations().contains_key(k) ==> store.expirations()[k] == old(store).expirations()[k],
            decreases args@.len() - i,
        {
            let ghost before = store.objects();
            let ghost rest = keys.subrange(i as int, keys.len() as int);
            let result = store.remove(args[i].as_str());
            proof {
                assert(keys[i as int] == args@[i as int]@);
                assert(rest[0] == keys[i as int]);
                assert(rest.subrange(1, rest.len() as int) =~= keys.subrange(i + 1, keys.len() as int));
                assert(before.remove(keys[i as int]).dom() =~= before.dom().remove(keys[i as int]));
                assert(store.objects().dom() =~= before.dom().remove(keys[i as int]));
                assert forall|k: Seq<char>| among(keys, i + 1, k) <==> among(keys, i as int, k) || k
                    == keys[i as int] by {
                    if among(keys, i + 1, k) {
                        let w = choose|w: int| 0 <= w < i + 1 && #[trigger] keys[w] == k;
                        if w < i {
                            assert(among(keys, i as int, k));
                        }
                    }
                    if k == keys[i as int] {
                        assert(keys[i as int] == k);
                    }
                }
            }
            if result.is_some() {
                deleted += 1;
            }
            i += 1;
        }
        proof {
            assert forall|k: Seq<char>| among(keys, i as int, k) <==> keys.contains(k) by {
                if keys.contains(k) {
                    let w = choose|w: int| 0 <= w < keys.len() && keys[w] == k;
                    assert(among(keys, i as int, k));
                }
            }
            assert(keys.subrange(i as int, keys.len() as int) =~= Seq::<Seq<char>>::empty());
        }
        DataType::Integer(deleted as i64)
    }
}

} // verus!
