use vstd::prelude::*;
use vstd::utf8::*;
use crate::cmd::cmd_incr::lemma_int_text_ascii;
use crate::number::{int_text, write_u64};
use crate::resp::{ascii_string, crlf, is_ascii_bytes, DataType, RespValue};
use crate::stats::KeyspaceStatistics;
use crate::store::Store;

verus! {

/// `INFO`: the keyspace section, one line per keyspace.
pub struct InfoCommand;

/// `# Keyspace` and CR LF.
pub open spec fn info_header() -> Seq<u8> {
    seq![35u8, 32, 75, 101, 121, 115, 112, 97, 99, 101, 13, 10]
}

/// `db<i>:keys=<n>` and CR LF for each keyspace.
pub open spec fn info_lines(stats: Seq<KeyspaceStatistics>) -> Seq<u8>
    decreases stats.len(),
{
    if stats.len() == 0 {
        Seq::empty()
    } else {
        info_lines(stats.drop_last()) + seq![100u8, 98] + int_text(stats.len() - 1) + seq![
            58u8,
            107,
            101,
            121,
            115,
            61,
        ] + int_text(stats.last().number_of_keys as int) + crlf()
    }
}

fn push_all(out: &mut Vec<u8>, bytes: &[u8])
    ensures
        final(out)@ == old(out)@ + bytes@,
{
    let mut i: usize = 0;
    while i < bytes.len()
        invariant
            i <= bytes@.len(),
            out@ == old(out)@ + bytes@.subrange(0, i as int),
        decreases bytes@.len() - i,
    {
        out.push(bytes[i]);
        i += 1;
        assert(out@ =~= old(out)@ + bytes@.subrange(0, i as int));
    }
    assert(bytes@.subrange(0, i as int) =~= bytes@);
}

/// What `INFO` does: replies the keyspace statistics and changes nothing.
pub open spec fn info_command_effect(args: Seq<String>, s0: Store, s1: Store, now_ms: i64, r: RespValue) -> bool {
    &&& s1 == s0
    &&& r == RespValue::Bulk(info_header() + info_lines(s0.statistics()))
}

impl InfoCommand {
    pub fn execute(&self, args: &Vec<String>, store: &mut Store, now_ms: i64) -> (r: DataType)
        ensures
            info_command_effect(args@, *old(store), *final(store), now_ms, r@),
    {
        let stats: &Vec<KeyspaceStatistics> = store.get_statistics();
        let mut out: Vec<u8> = Vec::new();
        let header: [u8; 12] = [35, 32, 75, 101, 121, 115, 112, 97, 99, 101, 13, 10];
        push_all(&mut out, header.as_slice());
        assert(out@ =~= info_header());
        let mut i: usize = 0;
        while i < stats.len()
            invariant
                i <= stats@.len(),
                out@ == info_header() + info_lines(stats@.subrange(0, i as int)),
                is_ascii_bytes(out@),
            decreases stats@.len() - i,
        {
            let ghost before = out@;
            out.push(100);
            out.push(98);
            write_u64(&mut out, i as u64);
            out.push(58);
            out.push(107);
            out.push(101);
            out.push(121);
            out.push(115);
            out.push(61);
            write_u64(&mut out, stats[i].number_of_keys);
            out.push(13);
            out.push(10);
            proof {
                let next = stats@.subrange(0, i + 1);
                assert(next.drop_last() =~= stats@.subrange(0, i as int));
                lemma_int_text_ascii(i as int);
                lemma_int_text_ascii(stats@[i as int].number_of_keys as int);
                assert(out@ =~= info_header() + info_lines(next));
                assert forall|j: int| 0 <= j < out@.len() implies #[trigger] out@[j] < 128 by {
                    if j < before.len() {
                        assert(out@[j] == before[j]);
                    }
                }
            }
            i += 1;
        }
        proof {
            assert(stats@.subrange(0, i as int) =~= stats@);
        }
        let text = ascii_string(out);
        DataType::BulkString(text)
    }
}

} // verus!
