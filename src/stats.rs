//! Keyspace statistics, as `INFO` reports them.

use vstd::prelude::*;

verus! {

pub struct KeyspaceStatistics {
    pub number_of_keys: u64,
}

/// Records the number of keys of one keyspace; an unknown keyspace is left alone.
pub fn update_keyspace_statistics(
    stats: &mut Vec<KeyspaceStatistics>,
    keyspace_id: usize,
    number_of_keys: u64,
)
    ensures
        final(stats)@.len() == old(stats)@.len(),
        forall|i: int|
            0 <= i < old(stats)@.len() ==> #[trigger] final(stats)@[i].number_of_keys == if i
                == keyspace_id {
                number_of_keys
            } else {
                old(stats)@[i].number_of_keys
            },
{
    if keyspace_id < stats.len() {
        stats.set(keyspace_id, KeyspaceStatistics { number_of_keys });
    }
}

} // verus!
