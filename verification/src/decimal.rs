//! ASCII decimal numbers, as they stand in the length and integer fields of
//! the wire format.

use vstd::prelude::*;

verus! {

/// The byte `-`.
pub const MINUS: u8 = 45;

/// The byte `0`.
pub const ZERO: u8 = 48;

/// The magnitude of `i64::MIN`.
pub const MAGNITUDE_LIMIT: u64 = 0x8000_0000_0000_0000;

/// True of the bytes `0` to `9`.
pub open spec fn is_digit(b: u8) -> bool {
    48 <= b <= 57
}

/// True when every byte of `s` is a digit.
pub open spec fn all_digits(s: Seq<u8>) -> bool {
    forall|i: int| 0 <= i < s.len() ==> is_digit(#[trigger] s[i])
}

/// The number that the digits of `s` write in base ten; 0 for the empty
/// sequence.
pub open spec fn digits_value(s: Seq<u8>) -> nat
    decreases s.len(),
{
    if s.len() == 0 {
        0
    } else {
        (digits_value(s.drop_last()) * 10 + (s.last() - 48)) as nat
    }
}

/// True when `s` is a decimal number: one or more digits, with an optional
/// `-` in front.
pub open spec fn is_decimal(s: Seq<u8>) -> bool {
    if s.len() > 0 && s[0] == MINUS {
        s.len() > 1 && all_digits(s.skip(1))
    } else {
        s.len() > 0 && all_digits(s)
    }
}

/// The number that a decimal field writes.
pub open spec fn decimal_value(s: Seq<u8>) -> int
    recommends
        is_decimal(s),
{
    if s.len() > 0 && s[0] == MINUS {
        -(digits_value(s.skip(1)) as int)
    } else {
        digits_value(s) as int
    }
}

/// What a field holds as a signed 64-bit number: `Some` exactly when it is a
/// decimal number within the range of `i64`.
pub open spec fn decimal_i64(s: Seq<u8>) -> Option<i64> {
    if is_decimal(s) && i64::MIN <= decimal_value(s) <= i64::MAX {
        Some(decimal_value(s) as i64)
    } else {
        None
    }
}

/// The digits of `n` in base ten, without leading zeros.
pub open spec fn decimal_digits(n: nat) -> Seq<u8>
    decreases n,
{
    if n < 10 {
        seq![(48 + n) as u8]
    } else {
        decimal_digits(n / 10).push((48 + n % 10) as u8)
    }
}

/// A longer run of digits writes a number at least as large as any of its
/// prefixes does.
pub proof fn lemma_digits_value_prefix(s: Seq<u8>, k: int)
    requires
        all_digits(s),
        0 <= k <= s.len(),
    ensures
        digits_value(s.take(k)) <= digits_value(s),
    decreases s.len(),
{
    if k == s.len() {
        assert(s.take(k) =~= s);
    } else {
        let init = s.drop_last();
        assert(init.take(k) =~= s.take(k));
        lemma_digits_value_prefix(init, k);
        assert(is_digit(s[s.len() - 1]));
    }
}

/// Appending one digit multiplies the value by ten and adds the digit.
pub proof fn lemma_digits_value_push(s: Seq<u8>, d: u8)
    ensures
        digits_value(s.push(d)) == (digits_value(s) * 10 + (d - 48)) as nat,
{
    assert(s.push(d).drop_last() =~= s);
}

/// The digits of a number are digits, at least one of them, and write that
/// number.
pub proof fn lemma_decimal_digits(n: nat)
    ensures
        decimal_digits(n).len() >= 1,
        all_digits(decimal_digits(n)),
        digits_value(decimal_digits(n)) == n,
        decimal_digits(n)[0] != MINUS,
    decreases n,
{
    if n < 10 {
        let s = decimal_digits(n);
        assert(s.drop_last() =~= Seq::<u8>::empty());
        assert(digits_value(s.drop_last()) == 0);
    } else {
        lemma_decimal_digits(n / 10);
        let d = (48 + n % 10) as u8;
        lemma_digits_value_push(decimal_digits(n / 10), d);
    }
}

/// Reading back the digits of a number that fits gives that number.
pub proof fn lemma_decimal_round_trip(n: nat)
    requires
        n <= i64::MAX,
    ensures
        decimal_i64(decimal_digits(n)) == Some(n as i64),
{
    lemma_decimal_digits(n);
}

/// Reads a decimal field as a signed 64-bit number.
///
/// Returns `None` when the field is empty, holds anything but digits after an
/// optional leading `-`, or writes a number outside the range of `i64`.
pub fn parse_decimal(field: &[u8]) -> (r: Option<i64>)
    ensures
        r == decimal_i64(field@),
{
    let n: usize = field.len();
    if n == 0 {
        return None;
    }
    let negative: bool = field[0] == MINUS;
    let start: usize = if negative {
        1
    } else {
        0
    };
    if start == n {
        return None;
    }
    let ghost digits: Seq<u8> = field@.skip(start as int);
    let mut magnitude: u64 = 0;
    let mut i: usize = start;
    while i < n
        invariant
            start <= i <= n,
            n == field@.len(),
            negative == (field@[0] == MINUS),
            start == if negative { 1int } else { 0int },
            start < n,
            digits == field@.skip(start as int),
            all_digits(digits.take(i - start)),
            magnitude == digits_value(digits.take(i - start)),
            magnitude <= MAGNITUDE_LIMIT,
        decreases n - i,
    {
        let b: u8 = field[i];
        assert(digits[i - start] == b);
        assert(!negative ==> digits =~= field@);
        if b < ZERO || b > 57 {
            return None;
        }
        let d: u64 = (b - ZERO) as u64;
        proof {
            let longer = digits.take(i - start + 1);
            assert(longer.drop_last() =~= digits.take(i - start));
            assert(longer.last() == b);
            assert(all_digits(longer));
            if all_digits(digits) {
                lemma_digits_value_prefix(digits, i - start + 1);
            }
        }
        if magnitude > (MAGNITUDE_LIMIT - d) / 10 {
            return None;
        }
        magnitude = magnitude * 10 + d;
        i = i + 1;
    }
    assert(digits.take(n - start) =~= digits);
    assert(!negative ==> digits =~= field@);
    if negative {
        if magnitude == MAGNITUDE_LIMIT {
            Some(i64::MIN)
        } else {
            Some(-(magnitude as i64))
        }
    } else if magnitude == MAGNITUDE_LIMIT {
        None
    } else {
        Some(magnitude as i64)
    }
}

/// Appends the decimal digits of `n` to `out`.
pub fn push_decimal(out: &mut Vec<u8>, n: usize)
    ensures
        final(out)@ == old(out)@ + decimal_digits(n as nat),
{
    let mut low_first: Vec<u8> = Vec::new();
    let mut rest: usize = n;
    while rest >= 10
        invariant
            decimal_digits(n as nat) == decimal_digits(rest as nat) + low_first@.reverse(),
        decreases rest,
    {
        let d: u8 = ZERO + (rest % 10) as u8;
        proof {
            let tail = low_first@.reverse();
            let grown = low_first@.push(d).reverse();
            assert(grown =~= seq![d] + tail);
            assert(decimal_digits(rest as nat) == decimal_digits((rest / 10) as nat).push(d));
            assert(decimal_digits((rest / 10) as nat).push(d) + tail =~= decimal_digits(
                (rest / 10) as nat,
            ) + grown);
        }
        low_first.push(d);
        rest = rest / 10;
    }
    let d: u8 = ZERO + rest as u8;
    proof {
        let tail = low_first@.reverse();
        assert(low_first@.push(d).reverse() =~= seq![d] + tail);
        assert(decimal_digits(rest as nat) =~= seq![d]);
    }
    low_first.push(d);
    let ghost digits: Seq<u8> = decimal_digits(n as nat);
    assert(digits == low_first@.reverse());
    let mut k: usize = low_first.len();
    while k > 0
        invariant
            k <= low_first@.len(),
            digits == low_first@.reverse(),
            out@ == old(out)@ + digits.take(low_first@.len() - k),
        decreases k,
    {
        k = k - 1;
        let b: u8 = low_first[k];
        proof {
            let done = low_first@.len() - k - 1;
            assert(digits[done] == b);
            assert(digits.take(done).push(b) =~= digits.take(done + 1));
        }
        out.push(b);
    }
    assert(digits.take(low_first@.len() as int) =~= digits);
}

} // verus!
