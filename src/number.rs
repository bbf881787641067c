//! Decimal integer text, as RESP integer lines and `INCR` values use it.

use vstd::prelude::*;

verus! {

/// An ASCII decimal digit.
pub open spec fn is_digit(b: u8) -> bool {
    48 <= b <= 57
}

/// A non-empty run of ASCII decimal digits.
pub open spec fn all_digits(d: Seq<u8>) -> bool {
    d.len() > 0 && forall|i: int| 0 <= i < d.len() ==> is_digit(#[trigger] d[i])
}

/// The number that a run of digits denotes.
pub open spec fn digits_value(d: Seq<u8>) -> nat
    decreases d.len(),
{
    if d.len() == 0 {
        0
    } else {
        digits_value(d.drop_last()) * 10 + (d.last() - 48) as nat
    }
}

/// The integer that a text denotes: an optional `+` or `-`, then digits.
pub open spec fn int_text_value(t: Seq<u8>) -> Option<int> {
    if t.len() > 0 && (t[0] == 45 || t[0] == 43) {
        if all_digits(t.drop_first()) {
            if t[0] == 45 {
                Some(-digits_value(t.drop_first()))
            } else {
                Some(digits_value(t.drop_first()) as int)
            }
        } else {
            None
        }
    } else if all_digits(t) {
        Some(digits_value(t) as int)
    } else {
        None
    }
}

/// The signed 64-bit integer that a text denotes, if it denotes one in range.
pub open spec fn i64_of_text(t: Seq<u8>) -> Option<i64> {
    match int_text_value(t) {
        Some(v) => if i64::MIN <= v <= i64::MAX {
            Some(v as i64)
        } else {
            None
        },
        None => None,
    }
}

/// The shortest decimal digits of a natural number.
pub open spec fn decimal(n: nat) -> Seq<u8>
    decreases n,
{
    if n < 10 {
        seq![(48 + n) as u8]
    } else {
        decimal(n / 10).push((48 + n % 10) as u8)
    }
}

/// The canonical decimal text of an integer: `-` for a negative one, then its digits.
pub open spec fn int_text(n: int) -> Seq<u8> {
    if n < 0 {
        seq![45u8] + decimal((-n) as nat)
    } else {
        decimal(n as nat)
    }
}

/// The digits of `n` are digits, and denote `n`.
pub proof fn lemma_decimal(n: nat)
    ensures
        all_digits(decimal(n)),
        digits_value(decimal(n)) == n,
        decimal(n).len() >= 1,
    decreases n,
{
    let d = decimal(n);
    if n >= 10 {
        lemma_decimal(n / 10);
        assert(d.drop_last() =~= decimal(n / 10));
        assert((n / 10) * 10 + n % 10 == n) by (nonlinear_arith);
        assert(d.last() == (48 + n % 10) as u8);
        assert(((48 + n % 10) as u8) as int == 48 + n % 10);
        assert(digits_value(d) == digits_value(d.drop_last()) * 10 + (d.last() - 48) as nat);
    } else {
        assert(d.drop_last() =~= Seq::<u8>::empty());
        assert(digits_value(d) == digits_value(d.drop_last()) * 10 + (d.last() - 48) as nat);
    }
}

/// Reading back the canonical text of an integer gives that integer.
pub proof fn lemma_int_text_round_trip(n: i64)
    ensures
        i64_of_text(int_text(n as int)) == Some(n),
        int_text(n as int).len() >= 1,
{
    if n < 0 {
        let m = (-(n as int)) as nat;
        lemma_decimal(m);
        let t = int_text(n as int);
        assert(t.drop_first() =~= decimal(m));
    } else {
        lemma_decimal(n as nat);
        let d = decimal(n as nat);
        assert(is_digit(d[0]));
    }
}

/// A longer run of digits denotes at least as much as its prefix.
proof fn lemma_digits_value_prefix(d: Seq<u8>, k: int)
    requires
        0 <= k <= d.len(),
        forall|i: int| 0 <= i < d.len() ==> is_digit(#[trigger] d[i]),
    ensures
        digits_value(d.subrange(0, k)) <= digits_value(d),
    decreases d.len() - k,
{
    if k < d.len() {
        lemma_digits_value_prefix(d, k + 1);
        let p = d.subrange(0, k + 1);
        assert(p.drop_last() =~= d.subrange(0, k));
        assert(digits_value(p) >= digits_value(p.drop_last()));
    } else {
        assert(d.subrange(0, k) =~= d);
    }
}

/// Reads a signed 64-bit integer from its decimal text, as `str::parse::<i64>` does.
pub fn parse_i64_bytes(t: &[u8]) -> (r: Option<i64>)
    ensures
        r == i64_of_text(t@),
{
    let len = t.len();
    if len == 0 {
        return None;
    }
    let first = t[0];
    let neg = first == 45;
    let start: usize = if first == 45 || first == 43 { 1 } else { 0 };
    if start == len {
        proof {
            assert(!all_digits(t@.drop_first()));
        }
        return None;
    }
    let limit: u64 = if neg { 9223372036854775808 } else { 9223372036854775807 };
    let ghost digits = t@.subrange(start as int, len as int);
    let mut acc: u64 = 0;
    let mut i: usize = start;
    while i < len
        invariant
            start <= i <= len,
            len == t@.len(),
            first == t@[0],
            start == (if first == 45 || first == 43 { 1usize } else { 0usize }),
            neg == (first == 45),
            limit == (if neg { 9223372036854775808u64 } else { 9223372036854775807u64 }),
            digits == t@.subrange(start as int, len as int),
            forall|j: int| start <= j < i ==> is_digit(#[trigger] t@[j]),
            acc as nat == digits_value(t@.subrange(start as int, i as int)),
            acc <= limit,
        decreases len - i,
    {
        let b = t[i];
        if b < 48 || b > 57 {
            proof {
                assert(!is_digit(digits[i - start]));
                if start == 1 {
                    assert(t@.drop_first() =~= digits);
                } else {
                    assert(t@ =~= digits);
                }
            }
            return None;
        }
        let d: u64 = (b - 48) as u64;
        let ghost prefix = t@.subrange(start as int, i as int + 1);
        proof {
            assert(prefix.drop_last() =~= t@.subrange(start as int, i as int));
        }
        if acc > (limit - d) / 10 {
            proof {
                assert(acc * 10 + d > limit) by (nonlinear_arith)
                    requires acc > (limit - d) / 10, d <= limit;
                if forall|j: int| 0 <= j < digits.len() ==> is_digit(#[trigger] digits[j]) {
                    lemma_digits_value_prefix(digits, i - start + 1);
                    assert(digits.subrange(0, i - start + 1) =~= prefix);
                }
                if start == 1 {
                    assert(t@.drop_first() =~= digits);
                } else {
                    assert(t@ =~= digits);
                }
            }
            return None;
        }
        assert(acc * 10 + d <= limit) by (nonlinear_arith)
            requires acc <= (limit - d) / 10, d <= limit;
        acc = acc * 10 + d;
        i += 1;
    }
    proof {
        assert(t@.subrange(start as int, i as int) =~= digits);
        if start == 1 {
            assert(t@.drop_first() =~= digits);
        } else {
            assert(t@ =~= digits);
        }
    }
    if neg {
        if acc == 9223372036854775808 {
            Some(i64::MIN)
        } else {
            Some(-(acc as i64))
        }
    } else {
        Some(acc as i64)
    }
}

/// Appends the decimal digits of `n`.
fn push_decimal(out: &mut Vec<u8>, n: u64)
    ensures
        final(out)@ == old(out)@ + decimal(n as nat),
    decreases n,
{
    if n >= 10 {
        push_decimal(out, n / 10);
    }
    out.push((48 + n % 10) as u8);
    proof {
        if n >= 10 {
            assert(decimal(n as nat) == decimal((n / 10) as nat).push((48 + n % 10) as u8));
        }
        assert(final(out)@ =~= old(out)@ + decimal(n as nat));
    }
}

/// Appends the decimal digits of an unsigned `n`.
pub fn write_u64(out: &mut Vec<u8>, n: u64)
    ensures
        final(out)@ == old(out)@ + decimal(n as nat),
        final(out)@ == old(out)@ + int_text(n as int),
{
    push_decimal(out, n);
}

/// Appends the canonical decimal text of `n`.
pub fn write_i64(out: &mut Vec<u8>, n: i64)
    ensures
        final(out)@ == old(out)@ + int_text(n as int),
{
    if n < 0 {
        out.push(45);
        let m: u64 = if n == i64::MIN { 9223372036854775808 } else { (-n) as u64 };
        push_decimal(out, m);
        proof {
            assert(final(out)@ =~= old(out)@ + int_text(n as int));
        }
    } else {
        push_decimal(out, n as u64);
    }
}

} // verus!
