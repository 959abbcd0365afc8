//! Decimal integers as they appear in header lines and in arguments.

use vstd::prelude::*;

verus! {

pub const MINUS: u8 = 0x2d;

pub const PLUS: u8 = 0x2b;

pub const ZERO: u8 = 0x30;

pub const NINE: u8 = 0x39;

/// Whether `b` is one of the ASCII digits `0` to `9`.
pub open spec fn is_digit(b: u8) -> bool {
    ZERO <= b <= NINE
}

/// Whether every byte of `s` is an ASCII digit.
pub open spec fn all_digits(s: Seq<u8>) -> bool {
    forall|i: int| 0 <= i < s.len() ==> is_digit(#[trigger] s[i])
}

/// The number that a string of digits denotes, most significant digit first.
pub open spec fn digits_value(s: Seq<u8>) -> nat
    decreases s.len(),
{
    if s.len() == 0 {
        0
    } else {
        digits_value(s.drop_last()) * 10 + (s.last() - ZERO) as nat
    }
}

/// Whether `line` starts with a sign.
pub open spec fn has_sign(line: Seq<u8>) -> bool {
    line.len() > 0 && (line[0] == MINUS || line[0] == PLUS)
}

/// The digits of `line`, after its sign if it has one.
pub open spec fn digits_of(line: Seq<u8>) -> Seq<u8> {
    if has_sign(line) {
        line.skip(1)
    } else {
        line
    }
}

/// The integer that `line` denotes, read without any bound on its size.
pub open spec fn signed_value(line: Seq<u8>) -> int {
    if line.len() > 0 && line[0] == MINUS {
        -(digits_value(digits_of(line)) as int)
    } else {
        digits_value(digits_of(line)) as int
    }
}

/// What a header line denotes: an optional `+` or `-`, then one or more
/// digits, the whole within the range of `i64`. Anything else is no integer.
pub open spec fn spec_parse_int(line: Seq<u8>) -> Option<i64> {
    if digits_of(line).len() > 0 && all_digits(digits_of(line)) && i64::MIN <= signed_value(line)
        <= i64::MAX {
        Some(signed_value(line) as i64)
    } else {
        None
    }
}

/// The shortest decimal text of `n`.
pub open spec fn decimal(n: nat) -> Seq<u8>
    decreases n,
{
    if n < 10 {
        seq![(ZERO + n) as u8]
    } else {
        decimal(n / 10).push((ZERO + n % 10) as u8)
    }
}

/// The decimal text of `n`, with a leading `-` where it is negative.
pub open spec fn int_text(n: int) -> Seq<u8> {
    if n < 0 {
        seq![MINUS] + decimal((-n) as nat)
    } else {
        decimal(n as nat)
    }
}

/// A prefix of a string of digits never denotes more than the whole.
pub proof fn lemma_digits_value_prefix(s: Seq<u8>, k: int)
    requires
        all_digits(s),
        0 <= k <= s.len(),
    ensures
        digits_value(s.take(k)) <= digits_value(s),
    decreases s.len(),
{
    if k == s.len() {
        assert(s.take(k) =~= s);
    } else {
        lemma_digits_value_prefix(s.drop_last(), k);
        assert(s.drop_last().take(k) =~= s.take(k));
    }
}

/// The decimal text of a number is made of digits, is not empty, and denotes
/// that number.
pub proof fn lemma_decimal_value(n: nat)
    ensures
        decimal(n).len() >= 1,
        all_digits(decimal(n)),
        digits_value(decimal(n)) == n,
    decreases n,
{
    if n < 10 {
        let s = decimal(n);
        assert(s.drop_last() =~= Seq::<u8>::empty());
        assert(digits_value(s.drop_last()) == 0);
    } else {
        lemma_decimal_value(n / 10);
        let s = decimal(n);
        assert(s.drop_last() =~= decimal(n / 10));
    }
}

/// Reading the decimal text of an `i64` gives the integer back.
pub proof fn lemma_int_text_round_trip(n: i64)
    ensures
        spec_parse_int(int_text(n as int)) == Some(n),
{
    if n < 0 {
        let m = (-(n as int)) as nat;
        lemma_decimal_value(m);
        let line = int_text(n as int);
        assert(line[0] == MINUS);
        assert(line.skip(1) =~= decimal(m));
    } else {
        lemma_decimal_value(n as nat);
    }
}

/// Reads the integer written in `buf[start..end]`.
pub fn parse_int(buf: &[u8], start: usize, end: usize) -> (r: Option<i64>)
    requires
        start <= end <= buf.len(),
    ensures
        r == spec_parse_int(buf@.subrange(start as int, end as int)),
{
    let ghost line = buf@.subrange(start as int, end as int);
    if start == end {
        return None;
    }
    let negative = buf[start] == MINUS;
    let signed = negative || buf[start] == PLUS;
    let first: usize = if signed {
        start + 1
    } else {
        start
    };
    let ghost digits = buf@.subrange(first as int, end as int);
    assert(digits =~= digits_of(line));
    if first == end {
        return None;
    }
    let limit: u64 = if negative {
        0x8000_0000_0000_0000
    } else {
        0x7fff_ffff_ffff_ffff
    };
    let mut acc: u64 = 0;
    let mut i: usize = first;
    assert(digits.take(0) =~= Seq::<u8>::empty());
    while i < end
        invariant
            first <= i <= end <= buf.len(),
            digits == buf@.subrange(first as int, end as int),
            all_digits(digits.take(i - first)),
            acc == digits_value(digits.take(i - first)),
            acc <= limit,
            limit == if negative {
                0x8000_0000_0000_0000u64
            } else {
                0x7fff_ffff_ffff_ffffu64
            },
            start < end,
            line == buf@.subrange(start as int, end as int),
            digits == digits_of(line),
            negative == (line[0] == MINUS),
        decreases end - i,
    {
        let b = buf[i];
        if b < ZERO || b > NINE {
            assert(!is_digit(digits[i - first]));
            return None;
        }
        let d: u64 = (b - ZERO) as u64;
        let ghost next = digits.take(i - first + 1);
        assert(next.drop_last() =~= digits.take(i - first));
        assert(next.last() == b);
        assert(digits_value(next) == acc * 10 + d);
        if acc > (limit - d) / 10 {
            proof {
                if all_digits(digits) {
                    lemma_digits_value_prefix(digits, i - first + 1);
                }
            }
            return None;
        }
        acc = acc * 10 + d;
        i += 1;
    }
    assert(digits.take(i - first) =~= digits);
    if negative {
        if acc == 0x8000_0000_0000_0000 {
            Some(i64::MIN)
        } else {
            Some(-(acc as i64))
        }
    } else {
        Some(acc as i64)
    }
}

/// Appends the decimal text of `n` to `out`.
pub fn push_decimal(out: &mut Vec<u8>, n: u64)
    ensures
        final(out)@ == old(out)@ + decimal(n as nat),
{
    let mut low: Vec<u8> = Vec::new();
    let mut m: u64 = n;
    while m >= 10
        invariant
            decimal(n as nat) == decimal(m as nat) + Seq::new(
                low@.len(),
                |i: int| low@[low@.len() - 1 - i],
            ),
        decreases m,
    {
        let ghost before = Seq::new(low@.len(), |i: int| low@[low@.len() - 1 - i]);
        let d: u8 = ZERO + (m % 10) as u8;
        low.push(d);
        let ghost after = Seq::new(low@.len(), |i: int| low@[low@.len() - 1 - i]);
        assert(after =~= seq![d] + before);
        assert(decimal(m as nat) + before =~= decimal((m / 10) as nat) + after);
        m = m / 10;
    }
    let ghost tail = Seq::new(low@.len(), |i: int| low@[low@.len() - 1 - i]);
    out.push(ZERO + m as u8);
    let mut j: usize = low.len();
    while j > 0
        invariant
            j <= low.len(),
            tail == Seq::new(low@.len(), |i: int| low@[low@.len() - 1 - i]),
            out@ == old(out)@ + decimal(m as nat) + tail.take(low.len() - j),
        decreases j,
    {
        j -= 1;
        out.push(low[j]);
        assert(tail.take(low.len() - j) =~= tail.take(low.len() - j - 1).push(low@[j as int]));
    }
    assert(tail.take(low.len() as int) =~= tail);
    assert(old(out)@ + decimal(m as nat) + tail =~= old(out)@ + (decimal(m as nat) + tail));
}

/// Appends the decimal text of `n` to `out`, with a leading `-` where `n` is
/// negative.
pub fn push_int(out: &mut Vec<u8>, n: i64)
    ensures
        final(out)@ == old(out)@ + int_text(n as int),
{
    if n < 0 {
        out.push(MINUS);
        let magnitude: u64 = if n == i64::MIN {
            0x8000_0000_0000_0000
        } else {
            (-n) as u64
        };
        push_decimal(out, magnitude);
        assert(old(out)@.push(MINUS) + decimal(magnitude as nat) =~= old(out)@ + (seq![MINUS]
            + decimal(magnitude as nat)));
    } else {
        push_decimal(out, n as u64);
    }
}

} // verus!
