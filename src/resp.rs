//! The RESP2 codec.

use vstd::prelude::*;
use vstd::utf8::*;
use crate::number::{int_text, i64_of_text, parse_i64_bytes, write_i64, write_u64};

verus! {

/// A RESP2 value as it travels on the wire.
#[derive(Debug, PartialEq, Eq, Hash)]
pub enum DataType {
    SimpleString(String),
    Integer(i64),
    BulkString(String),
    Array(Vec<DataType>),
    Error(String),
}

/// The mathematical model of a RESP2 value: strings as their bytes.
pub enum RespValue {
    Simple(Seq<u8>),
    Integer(i64),
    Bulk(Seq<u8>),
    Array(Seq<RespValue>),
    Error(Seq<u8>),
}

impl View for DataType {
    type V = RespValue;

    open spec fn view(&self) -> RespValue
        decreases self,
    {
        match self {
            DataType::SimpleString(s) => RespValue::Simple(encode_utf8(s@)),
            DataType::Integer(i) => RespValue::Integer(*i),
            DataType::BulkString(s) => RespValue::Bulk(encode_utf8(s@)),
            DataType::Array(a) => RespValue::Array(views(a@)),
            DataType::Error(s) => RespValue::Error(encode_utf8(s@)),
        }
    }
}

/// The models of a sequence of values.
pub open spec fn views(s: Seq<DataType>) -> Seq<RespValue>
    decreases s,
{
    if s.len() == 0 {
        Seq::empty()
    } else {
        views(s.drop_last()).push(s.last().view())
    }
}

/// Each model stands at the index of its value.
pub proof fn lemma_views(s: Seq<DataType>)
    ensures
        views(s).len() == s.len(),
        forall|j: int| 0 <= j < s.len() ==> #[trigger] views(s)[j] == s[j]@,
    decreases s.len(),
{
    if s.len() > 0 {
        lemma_views(s.drop_last());
        assert(views(s) == views(s.drop_last()).push(s.last().view()));
    } else {
        assert(views(s) == Seq::<RespValue>::empty());
    }
}

/// An element of an array is smaller than the array.
proof fn lemma_element_decreases(a: Vec<DataType>, i: int)
    requires
        0 <= i < a.len(),
    ensures
        decreases_to!(DataType::Array(a) => a@[i]),
{
    let v = DataType::Array(a);
    assert(decreases_to!(v => v->Array_0));
    assert(decreases_to!(a => a@));
    assert(decreases_to!(a@ => a@[i]));
    assert(decreases_to!(v => a@[i]));
}

/// The line terminator, CR LF.
pub open spec fn crlf() -> Seq<u8> {
    seq![13u8, 10u8]
}

/// The wire form of a value.
pub open spec fn encoding(v: RespValue) -> Seq<u8>
    decreases v,
{
    match v {
        RespValue::Simple(s) => seq![43u8] + s + crlf(),
        RespValue::Integer(i) => seq![58u8] + int_text(i as int) + crlf(),
        RespValue::Bulk(s) => seq![36u8] + int_text(s.len() as int) + crlf() + s + crlf(),
        RespValue::Array(items) => seq![42u8] + int_text(items.len() as int) + crlf() + encodings(
            items,
        ),
        RespValue::Error(s) => seq![45u8] + s + crlf(),
    }
}

/// The wire forms of several values, back to back.
pub open spec fn encodings(items: Seq<RespValue>) -> Seq<u8>
    decreases items,
{
    if items.len() == 0 {
        Seq::empty()
    } else {
        encodings(items.drop_last()) + encoding(items.last())
    }
}

/// Appends the bytes of a slice.
fn append_bytes(out: &mut Vec<u8>, b: &[u8])
    ensures
        final(out)@ == old(out)@ + b@,
{
    let mut i: usize = 0;
    while i < b.len()
        invariant
            i <= b@.len(),
            out@ == old(out)@ + b@.subrange(0, i as int),
        decreases b@.len() - i,
    {
        out.push(b[i]);
        i += 1;
        assert(out@ =~= old(out)@ + b@.subrange(0, i as int));
    }
    assert(b@.subrange(0, i as int) =~= b@);
}

/// Appends the UTF-8 bytes of a string.
fn append_str(out: &mut Vec<u8>, s: &String)
    ensures
        final(out)@ == old(out)@ + encode_utf8(s@),
{
    append_bytes(out, s.as_str().as_bytes());
}

fn append_crlf(out: &mut Vec<u8>)
    ensures
        final(out)@ == old(out)@ + crlf(),
{
    out.push(13);
    out.push(10);
    assert(final(out)@ =~= old(out)@ + crlf());
}

/// Appends the wire form of a value.
fn encode_into(v: &DataType, out: &mut Vec<u8>)
    ensures
        final(out)@ == old(out)@ + encoding(v@),
    decreases v,
{
    match v {
        DataType::SimpleString(s) => {
            out.push(43);
            append_str(out, s);
            append_crlf(out);
        },
        DataType::Integer(i) => {
            out.push(58);
            write_i64(out, *i);
            append_crlf(out);
        },
        DataType::BulkString(s) => {
            let mut body: Vec<u8> = Vec::new();
            append_str(&mut body, s);
            assert(body@ =~= encode_utf8(s@));
            out.push(36);
            write_u64(out, body.len() as u64);
            append_crlf(out);
            append_bytes(out, body.as_slice());
            append_crlf(out);
        },
        DataType::Array(a) => {
            out.push(42);
            write_u64(out, a.len() as u64);
            append_crlf(out);
            let ghost items = v@->Array_0;
            let ghost start = out@;
            proof {
                lemma_views(a@);
            }
            let mut i: usize = 0;
            while i < a.len()
                invariant
                    *v == DataType::Array(*a),
                    i <= a@.len(),
                    items.len() == a@.len(),
                    forall|j: int| 0 <= j < a@.len() ==> items[j] == #[trigger] a@[j]@,
                    out@ == start + encodings(items.subrange(0, i as int)),
                decreases a@.len() - i,
            {
                proof {
                    lemma_element_decreases(*a, i as int);
                    assert(decreases_to!(*v => a[i as int]));
                }
                encode_into(&a[i], out);
                proof {
                    let next = items.subrange(0, i + 1);
                    assert(next.drop_last() =~= items.subrange(0, i as int));
                }
                i += 1;
            }
            proof {
                assert(items.subrange(0, i as int) =~= items);
            }
        },
        DataType::Error(s) => {
            out.push(45);
            append_str(out, s);
            append_crlf(out);
        },
    }
    assert(final(out)@ =~= old(out)@ + encoding(v@));
}

/// Why no value could be taken from the buffered bytes.
#[derive(Debug, Clone, Copy, PartialEq, Eq, Structural)]
pub enum DecodeError {
    /// No bytes are buffered: wait for more.
    WouldBlock,
    /// The buffered bytes begin a frame that is not complete yet: wait for more.
    UnexpectedEof,
    /// A frame starts with a byte that is none of `+ - : $ *`.
    UnknownTypeByte,
    /// A length prefix is not an integer, or a bulk body is not followed by CR LF.
    InvalidLength,
    /// An integer frame does not hold a signed 64-bit integer.
    InvalidInteger,
    /// A string is not valid UTF-8.
    Utf8Error,
    /// A CR inside a header line is not followed by LF.
    InvalidTerminator,
}

impl DecodeError {
    /// The stream is out of step and the connection must be closed.
    pub open spec fn spec_is_desync(self) -> bool {
        !(self is WouldBlock || self is UnexpectedEof)
    }

    #[verifier::when_used_as_spec(spec_is_desync)]
    pub fn is_desync(self) -> (r: bool)
        ensures
            r == self.spec_is_desync(),
    {
        match self {
            DecodeError::WouldBlock | DecodeError::UnexpectedEof => false,
            _ => true,
        }
    }
}

/// What the grammar makes of the bytes from some position on.
pub enum Parsed {
    /// A value, and the position right after its frame.
    Done(RespValue, int),
    /// The frame is not complete yet.
    Partial,
    /// The bytes break the grammar.
    Fail(DecodeError),
}

/// A header line: its content and the position after its CR LF.
pub enum Line {
    Complete(Seq<u8>, int),
    Partial,
    Bad,
}

/// The position of the first CR at or after `pos`, or the length if there is none.
pub open spec fn cr_index(b: Seq<u8>, pos: int) -> int
    decreases b.len() - pos,
{
    if pos < 0 || pos >= b.len() {
        b.len() as int
    } else if b[pos] == 13 {
        pos
    } else {
        cr_index(b, pos + 1)
    }
}

/// The line that starts at `pos`: it runs up to the first CR, which LF must follow.
pub open spec fn line_at(b: Seq<u8>, pos: int) -> Line {
    let j = cr_index(b, pos);
    if j >= b.len() || b.len() - j < 2 {
        Line::Partial
    } else if b[j + 1] != 10 {
        Line::Bad
    } else {
        Line::Complete(b.subrange(pos, j), j + 2)
    }
}

/// Puts `pre` in front of the items of a parsed array.
pub open spec fn with_prefix(pre: Seq<RespValue>, r: Parsed) -> Parsed {
    match r {
        Parsed::Done(RespValue::Array(s), e) => Parsed::Done(RespValue::Array(pre + s), e),
        _ => r,
    }
}

/// The RESP2 grammar: the value whose frame starts at `pos`.
pub open spec fn parse_value(b: Seq<u8>, pos: int) -> Parsed
    decreases b.len() - pos, 0nat, 0nat,
{
    if pos < 0 || pos >= b.len() {
        Parsed::Partial
    } else {
        let t = b[pos];
        if !(t == 43 || t == 45 || t == 58 || t == 36 || t == 42) {
            Parsed::Fail(DecodeError::UnknownTypeByte)
        } else {
            match line_at(b, pos + 1) {
                Line::Partial => Parsed::Partial,
                Line::Bad => Parsed::Fail(DecodeError::InvalidTerminator),
                Line::Complete(c, n) => {
                    if t == 43 || t == 45 {
                        if !valid_utf8(c) {
                            Parsed::Fail(DecodeError::Utf8Error)
                        } else if t == 43 {
                            Parsed::Done(RespValue::Simple(c), n)
                        } else {
                            Parsed::Done(RespValue::Error(c), n)
                        }
                    } else if t == 58 {
                        match i64_of_text(c) {
                            Some(i) => Parsed::Done(RespValue::Integer(i), n),
                            None => Parsed::Fail(DecodeError::InvalidInteger),
                        }
                    } else if t == 36 {
                        match i64_of_text(c) {
                            None => Parsed::Fail(DecodeError::InvalidLength),
                            Some(l) => if l < 0 {
                                Parsed::Done(RespValue::Bulk(Seq::empty()), n)
                            } else if n + l + 2 > b.len() {
                                Parsed::Partial
                            } else if b[n + l] != 13 || b[n + l + 1] != 10 {
                                Parsed::Fail(DecodeError::InvalidLength)
                            } else if !valid_utf8(b.subrange(n, n + l)) {
                                Parsed::Fail(DecodeError::Utf8Error)
                            } else {
                                Parsed::Done(RespValue::Bulk(b.subrange(n, n + l)), n + l + 2)
                            },
                        }
                    } else {
                        match i64_of_text(c) {
                            None => Parsed::Fail(DecodeError::InvalidLength),
                            Some(k) => if k <= 0 {
                                Parsed::Done(RespValue::Array(Seq::empty()), n)
                            } else if pos < n <= b.len() {
                                parse_items(b, n, k as nat)
                            } else {
                                Parsed::Partial
                            },
                        }
                    }
                },
            }
        }
    }
}

/// The grammar for `k` values back to back from `pos`, as an array.
pub open spec fn parse_items(b: Seq<u8>, pos: int, k: nat) -> Parsed
    decreases b.len() - pos, 1nat, k,
{
    if k == 0 {
        Parsed::Done(RespValue::Array(Seq::empty()), pos)
    } else {
        match parse_value(b, pos) {
            Parsed::Done(v, e) => if pos < e <= b.len() {
                with_prefix(seq![v], parse_items(b, e, (k - 1) as nat))
            } else {
                Parsed::Partial
            },
            other => other,
        }
    }
}

/// Relies on `String::from_utf8`: it succeeds exactly on valid UTF-8, and
/// the string then holds those bytes.
#[verifier::external_body]
fn string_from_utf8(bytes: Vec<u8>) -> (r: Option<String>)
    ensures
        r is Some <==> valid_utf8(bytes@),
        r is Some ==> r->Some_0@ == decode_utf8(bytes@),
{
    String::from_utf8(bytes).ok()
}

/// A string from bytes; its UTF-8 form is those bytes.
fn text_from_bytes(bytes: Vec<u8>) -> (r: Option<String>)
    ensures
        r is Some <==> valid_utf8(bytes@),
        r is Some ==> encode_utf8(r->Some_0@) == bytes@,
{
    let ghost b = bytes@;
    let r = string_from_utf8(bytes);
    proof {
        if r is Some {
            decode_utf8_encode_utf8(b);
        }
    }
    r
}

/// The bytes `b[start..end]`.
fn copy_range(b: &Vec<u8>, start: usize, end: usize) -> (r: Vec<u8>)
    requires
        start <= end <= b@.len(),
    ensures
        r@ == b@.subrange(start as int, end as int),
{
    let mut r: Vec<u8> = Vec::new();
    let mut i: usize = start;
    while i < end
        invariant
            start <= i <= end <= b@.len(),
            r@ == b@.subrange(start as int, i as int),
        decreases end - i,
    {
        r.push(b[i]);
        i += 1;
        assert(r@ =~= b@.subrange(start as int, i as int));
    }
    r
}

/// Where the header line that starts at `pos` ends.
enum LineEnd {
    /// The content ends at this CR, which LF follows.
    Complete(usize),
    Partial,
    Bad,
}

fn find_line(b: &Vec<u8>, pos: usize) -> (r: LineEnd)
    requires
        pos <= b@.len(),
    ensures
        match r {
            LineEnd::Complete(j) => pos <= j && j + 2 <= b@.len() && line_at(b@, pos as int)
                == Line::Complete(b@.subrange(pos as int, j as int), j + 2),
            LineEnd::Partial => line_at(b@, pos as int) == Line::Partial,
            LineEnd::Bad => line_at(b@, pos as int) == Line::Bad,
        },
{
    let mut j: usize = pos;
    while j < b.len() && b[j] != 13
        invariant
            pos <= j <= b@.len(),
            cr_index(b@, pos as int) == cr_index(b@, j as int),
        decreases b@.len() - j,
    {
        j += 1;
    }
    if j >= b.len() || b.len() - j < 2 {
        LineEnd::Partial
    } else if b[j + 1] != 10 {
        LineEnd::Bad
    } else {
        LineEnd::Complete(j)
    }
}

/// One step of the exec parser.
enum Step {
    Done(DataType, usize),
    Partial,
    Fail(DecodeError),
}

spec fn step_matches(r: Step, p: Parsed) -> bool {
    match r {
        Step::Done(v, e) => p == Parsed::Done(v@, e as int),
        Step::Partial => p == Parsed::Partial,
        Step::Fail(x) => p == Parsed::Fail(x),
    }
}

/// Appending a value appends its model.
pub proof fn lemma_views_push(s: Seq<DataType>, x: DataType)
    ensures
        views(s.push(x)) == views(s).push(x@),
{
    assert(s.push(x).drop_last() =~= s);
}

proof fn lemma_with_prefix_push(pre: Seq<RespValue>, x: RespValue, r: Parsed)
    ensures
        with_prefix(pre, with_prefix(seq![x], r)) == with_prefix(pre.push(x), r),
{
    match r {
        Parsed::Done(RespValue::Array(s), e) => {
            assert(pre + (seq![x] + s) =~= pre.push(x) + s);
        },
        _ => {},
    }
}

/// Parses the value whose frame starts at `pos`.
fn decode_value(b: &Vec<u8>, pos: usize) -> (r: Step)
    requires
        pos <= b@.len(),
    ensures
        step_matches(r, parse_value(b@, pos as int)),
        r is Done ==> pos < r->Done_1 <= b@.len(),
    decreases b@.len() - pos,
{
    if pos >= b.len() {
        return Step::Partial;
    }
    let t = b[pos];
    if !(t == 43 || t == 45 || t == 58 || t == 36 || t == 42) {
        return Step::Fail(DecodeError::UnknownTypeByte);
    }
    let j = match find_line(b, pos + 1) {
        LineEnd::Partial => { return Step::Partial; },
        LineEnd::Bad => { return Step::Fail(DecodeError::InvalidTerminator); },
        LineEnd::Complete(j) => j,
    };
    let n = j + 2;
    let ghost c = b@.subrange(pos + 1, j as int);
    if t == 43 || t == 45 {
        match text_from_bytes(copy_range(b, pos + 1, j)) {
            None => Step::Fail(DecodeError::Utf8Error),
            Some(s) => if t == 43 {
                Step::Done(DataType::SimpleString(s), n)
            } else {
                Step::Done(DataType::Error(s), n)
            },
        }
    } else if t == 58 {
        let line = copy_range(b, pos + 1, j);
        match parse_i64_bytes(line.as_slice()) {
            Some(i) => Step::Done(DataType::Integer(i), n),
            None => Step::Fail(DecodeError::InvalidInteger),
        }
    } else if t == 36 {
        let line = copy_range(b, pos + 1, j);
        match parse_i64_bytes(line.as_slice()) {
            None => Step::Fail(DecodeError::InvalidLength),
            Some(l) => {
                if l < 0 {
                    let e = String::new();
                    proof {
                        assert(encode_utf8(e@) =~= Seq::<u8>::empty());
                    }
                    return Step::Done(DataType::BulkString(e), n);
                }
                let avail: usize = b.len() - n;
                if (l as u64) + 2 > avail as u64 {
                    return Step::Partial;
                }
                let body_end: usize = n + l as usize;
                if b[body_end] != 13 || b[body_end + 1] != 10 {
                    return Step::Fail(DecodeError::InvalidLength);
                }
                match text_from_bytes(copy_range(b, n, body_end)) {
                    None => Step::Fail(DecodeError::Utf8Error),
                    Some(s) => Step::Done(DataType::BulkString(s), body_end + 2),
                }
            },
        }
    } else {
        let line = copy_range(b, pos + 1, j);
        match parse_i64_bytes(line.as_slice()) {
            None => Step::Fail(DecodeError::InvalidLength),
            Some(k) => {
                if k <= 0 {
                    let items: Vec<DataType> = Vec::new();
                    proof {
                        assert(views(items@) =~= Seq::<RespValue>::empty());
                    }
                    return Step::Done(DataType::Array(items), n);
                }
                let mut items: Vec<DataType> = Vec::new();
                let mut cur: usize = n;
                let mut i: i64 = 0;
                proof {
                    let r0 = parse_items(b@, n as int, k as nat);
                    match r0 {
                        Parsed::Done(RespValue::Array(s0), e0) => {
                            assert(views(items@) + s0 =~= s0);
                        },
                        _ => {},
                    }
                }
                while i < k
                    invariant
                        pos < n <= cur <= b@.len(),
                        0 <= i <= k,
                        parse_value(b@, pos as int) == parse_items(b@, n as int, k as nat),
                        parse_items(b@, n as int, k as nat) == with_prefix(
                            views(items@),
                            parse_items(b@, cur as int, (k - i) as nat),
                        ),
                    decreases k - i,
                {
                    match decode_value(b, cur) {
                        Step::Done(v, e) => {
                            proof {
                                lemma_with_prefix_push(
                                    views(items@),
                                    v@,
                                    parse_items(b@, e as int, (k - i - 1) as nat),
                                );
                                lemma_views_push(items@, v);
                            }
                            items.push(v);
                            cur = e;
                            i += 1;
                        },
                        Step::Partial => {
                            return Step::Partial;
                        },
                        Step::Fail(x) => {
                            return Step::Fail(x);
                        },
                    }
                }
                proof {
                    assert(views(items@) + Seq::<RespValue>::empty() =~= views(items@));
                }
                Step::Done(DataType::Array(items), cur)
            },
        }
    }
}

/// What a run of frames back to back yields: the values and the position
/// after the last complete one, or the error that stops the run.
pub enum Frames {
    Values(Seq<RespValue>, int),
    Failed(DecodeError),
}

/// Every complete frame from `pos` on, in order, up to the first incomplete one.
pub open spec fn parse_frames(b: Seq<u8>, pos: int) -> Frames
    decreases b.len() - pos,
{
    match parse_value(b, pos) {
        Parsed::Done(v, e) => if pos < e <= b.len() {
            match parse_frames(b, e) {
                Frames::Values(vs, end) => Frames::Values(seq![v] + vs, end),
                Frames::Failed(x) => Frames::Failed(x),
            }
        } else {
            Frames::Values(Seq::empty(), pos)
        },
        Parsed::Partial => Frames::Values(Seq::empty(), pos),
        Parsed::Fail(x) => Frames::Failed(x),
    }
}

/// Puts `pre` in front of the values of a run of frames.
pub open spec fn frames_with_prefix(pre: Seq<RespValue>, r: Frames) -> Frames {
    match r {
        Frames::Values(vs, end) => Frames::Values(pre + vs, end),
        Frames::Failed(x) => Frames::Failed(x),
    }
}

/// A streaming RESP2 decoder and encoder. It keeps the bytes that have been
/// received and not yet taken as a complete frame.
pub struct RESPParser {
    line_buffer: Vec<u8>,
}

impl View for RESPParser {
    type V = Seq<u8>;

    /// The buffered bytes.
    closed spec fn view(&self) -> Seq<u8> {
        self.line_buffer@
    }
}

impl RESPParser {
    pub fn new() -> (r: RESPParser)
        ensures
            r@ == Seq::<u8>::empty(),
    {
        RESPParser { line_buffer: Vec::new() }
    }

    /// Buffers bytes received from the peer.
    pub fn feed(&mut self, bytes: &[u8])
        ensures
            final(self)@ == old(self)@ + bytes@,
    {
        append_bytes(&mut self.line_buffer, bytes);
    }

    /// The wire form of a value.
    pub fn encode(&self, data_type: DataType) -> (r: Vec<u8>)
        ensures
            r@ == encoding(data_type@),
    {
        let mut out: Vec<u8> = Vec::new();
        encode_into(&data_type, &mut out);
        assert(out@ =~= encoding(data_type@));
        out
    }

    /// The wire forms of a batch of replies, in order, as one burst.
    pub fn encode_all(&self, data: &Vec<DataType>) -> (r: Vec<u8>)
        ensures
            r@ == encodings(views(data@)),
    {
        let mut out: Vec<u8> = Vec::new();
        let mut i: usize = 0;
        while i < data.len()
            invariant
                i <= data@.len(),
                out@ == encodings(views(data@.subrange(0, i as int))),
            decreases data@.len() - i,
        {
            encode_into(&data[i], &mut out);
            proof {
                let next = data@.subrange(0, i + 1);
                assert(next.drop_last() =~= data@.subrange(0, i as int));
                lemma_views_push(data@.subrange(0, i as int), data@[i as int]);
                assert(next =~= data@.subrange(0, i as int).push(data@[i as int]));
                assert(views(next).drop_last() =~= views(data@.subrange(0, i as int)));
            }
            i += 1;
        }
        proof {
            assert(data@.subrange(0, i as int) =~= data@);
        }
        out
    }

    /// Takes the next complete value from the buffered bytes. An incomplete
    /// frame stays buffered and is reported as `WouldBlock` (nothing buffered)
    /// or `UnexpectedEof` (a partial frame); any other error means the stream
    /// is out of step.
    pub fn decode_next(&mut self) -> (r: Result<DataType, DecodeError>)
        ensures
            match parse_value(old(self)@, 0) {
                Parsed::Done(v, e) => r is Ok && r->Ok_0@ == v && final(self)@ == old(self)@.subrange(e, old(self)@.len() as int),
                Parsed::Partial => final(self)@ == old(self)@ && r == Err::<DataType, DecodeError>(
                    if old(self)@.len() == 0 {
                        DecodeError::WouldBlock
                    } else {
                        DecodeError::UnexpectedEof
                    },
                ),
                Parsed::Fail(x) => final(self)@ == old(self)@ && r == Err::<DataType, DecodeError>(
                    x,
                ),
            },
    {
        match decode_value(&self.line_buffer, 0) {
            Step::Done(v, e) => {
                let len = self.line_buffer.len();
                self.line_buffer = copy_range(&self.line_buffer, e, len);
                Ok(v)
            },
            Step::Partial => {
                if self.line_buffer.len() == 0 {
                    Err(DecodeError::WouldBlock)
                } else {
                    Err(DecodeError::UnexpectedEof)
                }
            },
            Step::Fail(x) => Err(x),
        }
    }

    /// Takes every complete value from the buffered bytes, in order; the bytes
    /// of an incomplete last frame stay buffered.
    pub fn decode_next_bulk(&mut self) -> (r: Result<Vec<DataType>, DecodeError>)
        ensures
            match parse_frames(old(self)@, 0) {
                Frames::Values(vs, end) => r is Ok && views(r->Ok_0@) == vs && final(self)@ == old(self)@.subrange(end, old(self)@.len() as int),
                Frames::Failed(x) => r == Err::<Vec<DataType>, DecodeError>(x) && final(self)@
                    == old(self)@,
            },
    {
        let mut bulk: Vec<DataType> = Vec::new();
        let mut cur: usize = 0;
        let len = self.line_buffer.len();
        proof {
            match parse_frames(self.line_buffer@, 0) {
                Frames::Values(vs, end) => {
                    assert(views(bulk@) + vs =~= vs);
                },
                _ => {},
            }
        }
        loop
            invariant
                cur <= len == self.line_buffer@.len(),
                self.line_buffer@ == old(self)@,
                parse_frames(self.line_buffer@, 0) == frames_with_prefix(
                    views(bulk@),
                    parse_frames(self.line_buffer@, cur as int),
                ),
            decreases len - cur,
        {
            match decode_value(&self.line_buffer, cur) {
                Step::Done(v, e) => {
                    proof {
                        let b = self.line_buffer@;
                        match parse_frames(b, e as int) {
                            Frames::Values(vs, end) => {
                                assert(views(bulk@) + (seq![v@] + vs) =~= views(bulk@).push(v@)
                                    + vs);
                            },
                            _ => {},
                        }
                        lemma_views_push(bulk@, v);
                    }
                    bulk.push(v);
                    cur = e;
                },
                Step::Partial => {
                    proof {
                        assert(views(bulk@) + Seq::<RespValue>::empty() =~= views(bulk@));
                    }
                    self.line_buffer = copy_range(&self.line_buffer, cur, len);
                    return Ok(bulk);
                },
                Step::Fail(x) => {
                    return Err(x);
                },
            }
        }
    }
}

/// Bytes that are all ASCII.
pub open spec fn is_ascii_bytes(b: Seq<u8>) -> bool {
    forall|i: int| 0 <= i < b.len() ==> #[trigger] b[i] < 128
}

/// ASCII bytes are valid UTF-8.
pub proof fn lemma_ascii_valid_utf8(b: Seq<u8>)
    requires
        is_ascii_bytes(b),
    ensures
        valid_utf8(b),
{
    let c = Seq::new(b.len(), |i: int| b[i] as char);
    assert(is_ascii_chars(c)) by {
        assert forall|i: int| 0 <= i < c.len() implies '\0' <= #[trigger] c[i] <= '\u{7f}' by {
            assert(b[i] < 128);
        }
    }
    is_ascii_chars_encode_utf8(c);
    assert forall|i: int| 0 <= i < b.len() implies encode_utf8(c)[i] == b[i] by {
        assert(c[i] as u8 == encode_utf8(c)[i]);
        assert((b[i] as char) as u8 == b[i]);
    }
    assert(encode_utf8(c) =~= b);
    encode_utf8_valid_utf8(c);
}

/// A string made of ASCII bytes.
pub fn ascii_string(bytes: Vec<u8>) -> (r: String)
    requires
        is_ascii_bytes(bytes@),
    ensures
        encode_utf8(r@) == bytes@,
{
    proof {
        lemma_ascii_valid_utf8(bytes@);
    }
    let r = text_from_bytes(bytes);
    r.unwrap()
}

/// The model of a simple string with the given characters.
pub open spec fn simple_of(s: Seq<char>) -> RespValue {
    RespValue::Simple(encode_utf8(s))
}

/// The model of an error with the given characters.
pub open spec fn error_of(s: Seq<char>) -> RespValue {
    RespValue::Error(encode_utf8(s))
}

/// The model of a bulk string with the given characters.
pub open spec fn bulk_of(s: Seq<char>) -> RespValue {
    RespValue::Bulk(encode_utf8(s))
}

/// A simple string reply.
pub fn simple_reply(s: &str) -> (r: DataType)
    ensures
        r@ == simple_of(s@),
{
    DataType::SimpleString(s.to_owned())
}

/// An error reply.
pub fn error_reply(s: &str) -> (r: DataType)
    ensures
        r@ == error_of(s@),
{
    DataType::Error(s.to_owned())
}

} // verus!
