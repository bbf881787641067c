//! The laws of the RESP2 codec: decoding the wire form of a value gives the
//! value back, a frame cut short is incomplete, and frames back to back
//! decode in order.

use vstd::prelude::*;
use vstd::utf8::*;
use crate::number::{decimal, int_text, lemma_decimal, lemma_int_text_round_trip};
use crate::resp::{
    cr_index, crlf, encoding, encodings, line_at, parse_frames, parse_items, parse_value, Frames,
    Line, Parsed, RespValue,
};

verus! {

/// No CR byte.
pub open spec fn no_cr(s: Seq<u8>) -> bool {
    forall|i: int| 0 <= i < s.len() ==> #[trigger] s[i] != 13
}

/// A value that the wire can carry: strings are UTF-8, simple strings and
/// errors hold no CR, and lengths fit a signed 64-bit integer.
pub open spec fn wf(m: RespValue) -> bool
    decreases m,
{
    match m {
        RespValue::Simple(s) => valid_utf8(s) && no_cr(s),
        RespValue::Error(s) => valid_utf8(s) && no_cr(s),
        RespValue::Integer(_) => true,
        RespValue::Bulk(s) => valid_utf8(s) && s.len() <= i64::MAX,
        RespValue::Array(items) => items.len() <= i64::MAX && forall|i: int|
            0 <= i < items.len() ==> wf(#[trigger] items[i]),
    }
}

proof fn lemma_int_text_no_cr(n: int)
    ensures
        no_cr(int_text(n)),
        int_text(n).len() >= 1,
{
    let m: nat = if n < 0 { (-n) as nat } else { n as nat };
    lemma_decimal(m);
    let d = decimal(m);
    assert forall|i: int| 0 <= i < int_text(n).len() implies #[trigger] int_text(n)[i] != 13 by {
        if n < 0 {
            if i > 0 {
                assert(int_text(n)[i] == d[i - 1]);
            }
        }
    }
}

proof fn lemma_cr_index(b: Seq<u8>, p: int, q: int)
    requires
        0 <= p <= q <= b.len(),
        q < b.len() ==> b[q] == 13,
        forall|i: int| p <= i < q ==> b[i] != 13,
    ensures
        cr_index(b, p) == q,
    decreases q - p,
{
    if p < q {
        lemma_cr_index(b, p + 1, q);
    }
}

/// A line whose content holds no CR is read back whole.
proof fn lemma_line(b: Seq<u8>, p: int, c: Seq<u8>)
    requires
        0 <= p,
        p + c.len() + 2 <= b.len(),
        b.subrange(p, p + c.len() + 2) == c + crlf(),
        no_cr(c),
    ensures
        line_at(b, p) == Line::Complete(c, p + c.len() + 2),
{
    let q = p + c.len();
    assert forall|i: int| p <= i < q implies b[i] != 13 by {
        assert(b[i] == b.subrange(p, p + c.len() + 2)[i - p]);
        assert((c + crlf())[i - p] == c[i - p]);
    }
    assert(b[q] == b.subrange(p, p + c.len() + 2)[c.len() as int]);
    assert(b[q + 1] == b.subrange(p, p + c.len() + 2)[c.len() + 1int]);
    lemma_cr_index(b, p, q);
    assert(b.subrange(p, q) =~= c) by {
        assert forall|i: int| 0 <= i < c.len() implies b.subrange(p, q)[i] == c[i] by {
            assert(b[p + i] == b.subrange(p, p + c.len() + 2)[i]);
        }
    }
}

/// The encodings of a non-empty run: the first one, then the rest.
proof fn lemma_encodings_first(items: Seq<RespValue>)
    requires
        items.len() > 0,
    ensures
        encodings(items) == encoding(items[0]) + encodings(items.subrange(1, items.len() as int)),
    decreases items.len(),
{
    if items.len() == 1 {
        assert(items.drop_last() =~= Seq::<RespValue>::empty());
        assert(items.subrange(1, 1) =~= Seq::<RespValue>::empty());
        assert(encodings(Seq::<RespValue>::empty()) == Seq::<u8>::empty());
        assert(encoding(items[0]) + Seq::<u8>::empty() =~= encoding(items[0]));
        assert(Seq::<u8>::empty() + encoding(items[0]) =~= encoding(items[0]));
    } else {
        let init = items.drop_last();
        lemma_encodings_first(init);
        let rest = items.subrange(1, items.len() as int);
        assert(rest.drop_last() =~= init.subrange(1, init.len() as int));
        assert(rest.last() == items.last());
        assert(init[0] == items[0]);
        assert(encodings(items) =~= encoding(items[0]) + encodings(rest));
    }
}

/// Shifting into a subrange.
proof fn lemma_sub(b: Seq<u8>, pos: int, x: Seq<u8>, y: Seq<u8>)
    requires
        0 <= pos,
        pos + x.len() + y.len() <= b.len(),
        b.subrange(pos, pos + x.len() + y.len()) == x + y,
    ensures
        b.subrange(pos, pos + x.len()) == x,
        b.subrange(pos + x.len(), pos + x.len() + y.len()) == y,
{
    assert(b.subrange(pos, pos + x.len()) =~= (x + y).subrange(0, x.len() as int));
    assert(b.subrange(pos + x.len(), pos + x.len() + y.len()) =~= (x + y).subrange(
        x.len() as int,
        (x.len() + y.len()) as int,
    ));
    assert((x + y).subrange(0, x.len() as int) =~= x);
    assert((x + y).subrange(x.len() as int, (x.len() + y.len()) as int) =~= y);
}

/// The frame of a well-formed value, wherever it stands, parses back to that value.
pub proof fn lemma_parse_encoding(m: RespValue, b: Seq<u8>, pos: int)
    requires
        wf(m),
        0 <= pos,
        pos + encoding(m).len() <= b.len(),
        b.subrange(pos, pos + encoding(m).len()) == encoding(m),
    ensures
        parse_value(b, pos) == Parsed::Done(m, pos + encoding(m).len()),
    decreases m, 0nat,
{
    let enc = encoding(m);
    assert(b[pos] == enc[0]);
    match m {
        RespValue::Simple(s) => {
            assert(enc =~= seq![43u8] + (s + crlf()));
            lemma_sub(b, pos, seq![43u8], s + crlf());
            lemma_line(b, pos + 1, s);
        },
        RespValue::Error(s) => {
            assert(enc =~= seq![45u8] + (s + crlf()));
            lemma_sub(b, pos, seq![45u8], s + crlf());
            lemma_line(b, pos + 1, s);
        },
        RespValue::Integer(i) => {
            let t = int_text(i as int);
            lemma_int_text_no_cr(i as int);
            lemma_int_text_round_trip(i);
            assert(enc =~= seq![58u8] + (t + crlf()));
            lemma_sub(b, pos, seq![58u8], t + crlf());
            lemma_line(b, pos + 1, t);
        },
        RespValue::Bulk(s) => {
            let t = int_text(s.len() as int);
            lemma_int_text_no_cr(s.len() as int);
            lemma_int_text_round_trip(s.len() as i64);
            let n = pos + 1 + t.len() + 2;
            assert(enc =~= seq![36u8] + ((t + crlf()) + (s + crlf())));
            lemma_sub(b, pos, seq![36u8], (t + crlf()) + (s + crlf()));
            lemma_sub(b, pos + 1, t + crlf(), s + crlf());
            lemma_sub(b, n, s, crlf());
            lemma_line(b, pos + 1, t);
            assert(b[n + s.len()] == b.subrange(n + s.len(), n + s.len() + 2)[0]);
            assert(b[n + s.len() + 1] == b.subrange(n + s.len(), n + s.len() + 2)[1]);
        },
        RespValue::Array(items) => {
            let t = int_text(items.len() as int);
            lemma_int_text_no_cr(items.len() as int);
            lemma_int_text_round_trip(items.len() as i64);
            let n = pos + 1 + t.len() + 2;
            assert(enc =~= seq![42u8] + ((t + crlf()) + encodings(items)));
            lemma_sub(b, pos, seq![42u8], (t + crlf()) + encodings(items));
            lemma_sub(b, pos + 1, t + crlf(), encodings(items));
            lemma_line(b, pos + 1, t);
            if items.len() == 0 {
                assert(items =~= Seq::<RespValue>::empty());
                assert(encodings(items) == Seq::<u8>::empty());
            } else {
                lemma_parse_items(items, b, n);
            }
        },
    }
}

/// The frames of well-formed values, back to back, parse back to those values.
proof fn lemma_parse_items(items: Seq<RespValue>, b: Seq<u8>, pos: int)
    requires
        forall|i: int| 0 <= i < items.len() ==> wf(#[trigger] items[i]),
        0 <= pos,
        pos + encodings(items).len() <= b.len(),
        b.subrange(pos, pos + encodings(items).len()) == encodings(items),
    ensures
        parse_items(b, pos, items.len()) == Parsed::Done(
            RespValue::Array(items),
            pos + encodings(items).len(),
        ),
    decreases items, 1nat,
{
    if items.len() == 0 {
        assert(items =~= Seq::<RespValue>::empty());
    } else {
        let rest = items.subrange(1, items.len() as int);
        lemma_encodings_first(items);
        let e0 = encoding(items[0]);
        lemma_sub(b, pos, e0, encodings(rest));
        assert(decreases_to!(items => items[0]));
        lemma_parse_encoding(items[0], b, pos);
        assert(e0.len() > 0) by {
            assert(e0[0] == e0[0]);
            lemma_encoding_nonempty(items[0]);
        }
        assert(decreases_to!(items => rest));
        lemma_parse_items(rest, b, pos + e0.len());
        assert(seq![items[0]] + rest =~= items);
    }
}

proof fn lemma_encoding_nonempty(m: RespValue)
    ensures
        encoding(m).len() >= 3,
{
}

/// A batch of frames back to back decodes to its values in order, and all of it is taken.
pub proof fn lemma_parse_frames(ms: Seq<RespValue>, b: Seq<u8>, pos: int)
    requires
        forall|i: int| 0 <= i < ms.len() ==> wf(#[trigger] ms[i]),
        0 <= pos,
        b.len() == pos + encodings(ms).len(),
        b.subrange(pos, b.len() as int) == encodings(ms),
    ensures
        parse_frames(b, pos) == Frames::Values(ms, b.len() as int),
    decreases ms.len(),
{
    if ms.len() == 0 {
        assert(ms =~= Seq::<RespValue>::empty());
        assert(encodings(ms) == Seq::<u8>::empty());
    } else {
        let rest = ms.subrange(1, ms.len() as int);
        lemma_encodings_first(ms);
        let e0 = encoding(ms[0]);
        lemma_sub(b, pos, e0, encodings(rest));
        lemma_parse_encoding(ms[0], b, pos);
        lemma_encoding_nonempty(ms[0]);
        lemma_parse_frames(rest, b, pos + e0.len());
        assert(seq![ms[0]] + rest =~= ms);
    }
}

/// Decoding the wire form of a well-formed value gives that value back and
/// takes exactly its bytes.
pub proof fn lemma_round_trip(m: RespValue)
    requires
        wf(m),
    ensures
        parse_value(encoding(m), 0) == Parsed::Done(m, encoding(m).len() as int),
{
    assert(encoding(m).subrange(0, encoding(m).len() as int) =~= encoding(m));
    lemma_parse_encoding(m, encoding(m), 0);
}

/// Frames that arrive back to back decode, in a batch, to their values in
/// arrival order, one per frame, and leave nothing buffered.
pub proof fn lemma_pipelining(ms: Seq<RespValue>)
    requires
        forall|i: int| 0 <= i < ms.len() ==> wf(#[trigger] ms[i]),
    ensures
        parse_frames(encodings(ms), 0) == Frames::Values(ms, encodings(ms).len() as int),
{
    assert(encodings(ms).subrange(0, encodings(ms).len() as int) =~= encodings(ms));
    lemma_parse_frames(ms, encodings(ms), 0);
}

/// From `pos` on, `b` agrees with `enc` for as long as `b` lasts.
pub open spec fn agrees(b: Seq<u8>, pos: int, enc: Seq<u8>) -> bool {
    forall|i: int| pos <= i < b.len() ==> #[trigger] b[i] == enc[i - pos]
}

/// A header line cut before its LF is incomplete.
proof fn lemma_line_partial(b: Seq<u8>, p: int, c: Seq<u8>)
    requires
        0 <= p <= b.len(),
        no_cr(c),
        b.len() < p + c.len() + 2,
        agrees(b, p, c + crlf()),
    ensures
        line_at(b, p) == Line::Partial,
{
    assert forall|i: int| p <= i < b.len() && i < p + c.len() implies b[i] != 13 by {
        assert(b[i] == (c + crlf())[i - p]);
        assert((c + crlf())[i - p] == c[i - p]);
    }
    if b.len() <= p + c.len() {
        lemma_cr_index(b, p, b.len() as int);
    } else {
        let q = p + c.len();
        assert(b[q] == (c + crlf())[c.len() as int]);
        lemma_cr_index(b, p, q);
    }
}

/// What agrees with a complete frame, wherever it stands, holds it.
proof fn lemma_agrees_sub(b: Seq<u8>, pos: int, enc: Seq<u8>, x: Seq<u8>, off: int)
    requires
        0 <= pos,
        0 <= off,
        off + x.len() <= enc.len(),
        pos + off + x.len() <= b.len(),
        agrees(b, pos, enc),
        enc.subrange(off, off + x.len()) == x,
    ensures
        b.subrange(pos + off, pos + off + x.len()) == x,
{
    assert forall|i: int| 0 <= i < x.len() implies b.subrange(pos + off, pos + off + x.len())[i]
        == x[i] by {
        assert(b[pos + off + i] == enc[off + i]);
        assert(enc.subrange(off, off + x.len())[i] == enc[off + i]);
    }
    assert(b.subrange(pos + off, pos + off + x.len()) =~= x);
}

/// Shifting agreement past a prefix of the frame.
proof fn lemma_agrees_shift(b: Seq<u8>, pos: int, x: Seq<u8>, y: Seq<u8>)
    requires
        0 <= pos,
        b.len() <= pos + x.len() + y.len(),
        agrees(b, pos, x + y),
    ensures
        agrees(b, pos + x.len(), y),
{
    assert forall|i: int| pos + x.len() <= i < b.len() implies #[trigger] b[i] == y[i - pos - x.len()] by {
        assert(b[i] == (x + y)[i - pos]);
    }
}

/// A frame cut short, wherever it stands, is incomplete.
pub proof fn lemma_prefix_partial(m: RespValue, b: Seq<u8>, pos: int)
    requires
        wf(m),
        0 <= pos <= b.len(),
        b.len() < pos + encoding(m).len(),
        agrees(b, pos, encoding(m)),
    ensures
        parse_value(b, pos) == Parsed::Partial,
    decreases m, 0nat,
{
    let enc = encoding(m);
    if pos < b.len() {
        assert(b[pos] == enc[0]);
        match m {
            RespValue::Simple(s) => {
                assert(enc =~= seq![43u8] + (s + crlf()));
                lemma_agrees_shift(b, pos, seq![43u8], s + crlf());
                lemma_line_partial(b, pos + 1, s);
            },
            RespValue::Error(s) => {
                assert(enc =~= seq![45u8] + (s + crlf()));
                lemma_agrees_shift(b, pos, seq![45u8], s + crlf());
                lemma_line_partial(b, pos + 1, s);
            },
            RespValue::Integer(i) => {
                let t = int_text(i as int);
                lemma_int_text_no_cr(i as int);
                assert(enc =~= seq![58u8] + (t + crlf()));
                lemma_agrees_shift(b, pos, seq![58u8], t + crlf());
                lemma_line_partial(b, pos + 1, t);
            },
            RespValue::Bulk(s) => {
                let t = int_text(s.len() as int);
                lemma_int_text_no_cr(s.len() as int);
                lemma_int_text_round_trip(s.len() as i64);
                assert(enc =~= seq![36u8] + ((t + crlf()) + (s + crlf())));
                lemma_agrees_shift(b, pos, seq![36u8], (t + crlf()) + (s + crlf()));
                if b.len() < pos + 1 + t.len() + 2 {
                    assert(agrees(b, pos + 1, t + crlf())) by {
                        assert forall|i: int| pos + 1 <= i < b.len() implies #[trigger] b[i] == (t
                            + crlf())[i - pos - 1] by {
                            assert(b[i] == ((t + crlf()) + (s + crlf()))[i - pos - 1]);
                        }
                    }
                    lemma_line_partial(b, pos + 1, t);
                } else {
                    assert(((t + crlf()) + (s + crlf())).subrange(0, (t + crlf()).len() as int)
                        =~= t + crlf());
                    lemma_agrees_sub(b, pos + 1, (t + crlf()) + (s + crlf()), t + crlf(), 0);
                    lemma_line(b, pos + 1, t);
                }
            },
            RespValue::Array(items) => {
                let t = int_text(items.len() as int);
                lemma_int_text_no_cr(items.len() as int);
                lemma_int_text_round_trip(items.len() as i64);
                let n = pos + 1 + t.len() + 2;
                assert(enc =~= seq![42u8] + ((t + crlf()) + encodings(items)));
                lemma_agrees_shift(b, pos, seq![42u8], (t + crlf()) + encodings(items));
                if b.len() < n {
                    assert(agrees(b, pos + 1, t + crlf())) by {
                        assert forall|i: int| pos + 1 <= i < b.len() implies #[trigger] b[i] == (t
                            + crlf())[i - pos - 1] by {
                            assert(b[i] == ((t + crlf()) + encodings(items))[i - pos - 1]);
                        }
                    }
                    lemma_line_partial(b, pos + 1, t);
                } else {
                    assert(((t + crlf()) + encodings(items)).subrange(0, (t + crlf()).len() as int)
                        =~= t + crlf());
                    lemma_agrees_sub(b, pos + 1, (t + crlf()) + encodings(items), t + crlf(), 0);
                    lemma_line(b, pos + 1, t);
                    lemma_agrees_shift(b, pos + 1, t + crlf(), encodings(items));
                    if items.len() == 0 {
                        assert(items =~= Seq::<RespValue>::empty());
                        assert(encodings(items) == Seq::<u8>::empty());
                    } else {
                        lemma_items_partial(items, b, n);
                    }
                }
            },
        }
    }
}

/// Frames back to back, cut short, are incomplete.
proof fn lemma_items_partial(items: Seq<RespValue>, b: Seq<u8>, pos: int)
    requires
        items.len() > 0,
        forall|i: int| 0 <= i < items.len() ==> wf(#[trigger] items[i]),
        0 <= pos <= b.len(),
        b.len() < pos + encodings(items).len(),
        agrees(b, pos, encodings(items)),
    ensures
        parse_items(b, pos, items.len()) == Parsed::Partial,
    decreases items, 1nat,
{
    let rest = items.subrange(1, items.len() as int);
    lemma_encodings_first(items);
    let e0 = encoding(items[0]);
    assert(decreases_to!(items => items[0]));
    if b.len() < pos + e0.len() {
        assert(agrees(b, pos, e0)) by {
            assert forall|i: int| pos <= i < b.len() implies #[trigger] b[i] == e0[i - pos] by {
                assert(b[i] == (e0 + encodings(rest))[i - pos]);
            }
        }
        lemma_prefix_partial(items[0], b, pos);
    } else {
        assert((e0 + encodings(rest)).subrange(0, e0.len() as int) =~= e0);
        lemma_agrees_sub(b, pos, e0 + encodings(rest), e0, 0);
        lemma_parse_encoding(items[0], b, pos);
        lemma_encoding_nonempty(items[0]);
        lemma_agrees_shift(b, pos, e0, encodings(rest));
        if rest.len() == 0 {
            assert(rest =~= Seq::<RespValue>::empty());
            assert(encodings(rest) == Seq::<u8>::empty());
        } else {
            assert(decreases_to!(items => rest));
            lemma_items_partial(rest, b, pos + e0.len());
        }
    }
}

/// Fed byte by byte, the wire form of a well-formed value yields nothing
/// until its last byte: every proper prefix is an incomplete frame.
pub proof fn lemma_streaming(m: RespValue, k: int)
    requires
        wf(m),
        0 <= k < encoding(m).len(),
    ensures
        parse_value(encoding(m).subrange(0, k), 0) == Parsed::Partial,
{
    let b = encoding(m).subrange(0, k);
    lemma_prefix_partial(m, b, 0);
}

} // verus!
