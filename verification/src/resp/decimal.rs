//! Decimal text of integers, as it stands on the wire: an optional sign
//! followed by ASCII digits.

use vstd::prelude::*;

verus! {

/// The ASCII digit for `d`, where `0 <= d <= 9`.
pub open spec fn digit(d: int) -> u8 {
    (48 + d) as u8
}

/// True when `b` is one of the ASCII digits `0` to `9`.
pub open spec fn is_digit(b: u8) -> bool {
    48 <= b <= 57
}

/// The decimal digits of `n`, most significant first, without leading zeros.
pub open spec fn digits(n: nat) -> Seq<u8>
    decreases n,
{
    if n < 10 {
        seq![digit(n as int)]
    } else {
        digits(n / 10).push(digit((n % 10) as int))
    }
}

/// The decimal text of `n`: a minus sign if `n` is negative, then the digits
/// of its magnitude.
pub open spec fn decimal(n: int) -> Seq<u8> {
    if n < 0 {
        seq![45u8] + digits((-n) as nat)
    } else {
        digits(n as nat)
    }
}

/// True when every byte of `s` is an ASCII digit.
pub open spec fn all_digits(s: Seq<u8>) -> bool {
    forall|i: int| 0 <= i < s.len() ==> is_digit(#[trigger] s[i])
}

/// The number that a run of digits denotes, read most significant first.
pub open spec fn digits_value(s: Seq<u8>) -> nat
    decreases s.len(),
{
    if s.len() == 0 {
        0
    } else {
        digits_value(s.drop_last()) * 10 + (s.last() - 48) as nat
    }
}

/// The integer that the text `s` denotes, if it is an optional `+` or `-`
/// followed by at least one digit and nothing else.
pub open spec fn decimal_value(s: Seq<u8>) -> Option<int> {
    if s.len() == 0 {
        None
    } else if s[0] == 45u8 || s[0] == 43u8 {
        let body = s.skip(1);
        if body.len() > 0 && all_digits(body) {
            if s[0] == 45u8 {
                Some(-(digits_value(body) as int))
            } else {
                Some(digits_value(body) as int)
            }
        } else {
            None
        }
    } else if all_digits(s) {
        Some(digits_value(s) as int)
    } else {
        None
    }
}

/// The signed 64-bit integer that the text `s` denotes, if it denotes an
/// integer at all and that integer fits.
pub open spec fn parse_i64(s: Seq<u8>) -> Option<i64> {
    match decimal_value(s) {
        Some(v) => if i64::MIN <= v <= i64::MAX {
            Some(v as i64)
        } else {
            None
        },
        None => None,
    }
}

/// A prefix of a run of digits never denotes more than the whole run.
pub proof fn lemma_digits_value_prefix(s: Seq<u8>, k: int)
    requires
        0 <= k <= s.len(),
    ensures
        digits_value(s.take(k)) <= digits_value(s),
    decreases s.len(),
{
    if k == s.len() {
        assert(s.take(k) =~= s);
    } else {
        assert(s.drop_last().take(k) =~= s.take(k));
        lemma_digits_value_prefix(s.drop_last(), k);
    }
}

/// The digits of a number are digits, and there is at least one of them.
pub proof fn lemma_digits_shape(n: nat)
    ensures
        digits(n).len() >= 1,
        all_digits(digits(n)),
    decreases n,
{
    if n >= 10 {
        lemma_digits_shape(n / 10);
    }
}

/// Reading back the digits of a number gives the number.
pub proof fn lemma_digits_value(n: nat)
    ensures
        digits_value(digits(n)) == n,
    decreases n,
{
    if n < 10 {
        assert(digits(n).drop_last() =~= Seq::<u8>::empty());
        assert(digits_value(digits(n).drop_last()) == 0);
        assert(digits(n).last() == 48 + n);
    } else {
        lemma_digits_value(n / 10);
        assert(digits(n).drop_last() =~= digits(n / 10));
        assert(digits(n).last() == 48 + n % 10);
    }
}

/// Reading back the decimal text of an integer gives the integer.
pub proof fn lemma_decimal_value(n: int)
    ensures
        decimal_value(decimal(n)) == Some(n),
{
    if n < 0 {
        let m = (-n) as nat;
        lemma_digits_shape(m);
        lemma_digits_value(m);
        assert(decimal(n).skip(1) =~= digits(m));
    } else {
        lemma_digits_shape(n as nat);
        lemma_digits_value(n as nat);
        assert(is_digit(digits(n as nat)[0]));
    }
}

/// Decimal text is not empty, and each of its bytes is a sign or a digit.
pub proof fn lemma_decimal_bytes(n: int)
    ensures
        decimal(n).len() >= 1,
        forall|i: int| 0 <= i < decimal(n).len() ==> 43 <= #[trigger] decimal(n)[i] <= 57,
{
    if n < 0 {
        lemma_digits_shape((-n) as nat);
    } else {
        lemma_digits_shape(n as nat);
    }
}

/// Appends the decimal digits of `n` to `buffer`.
pub fn push_digits(buffer: &mut Vec<u8>, n: u64)
    ensures
        final(buffer)@ == old(buffer)@ + digits(n as nat),
    decreases n,
{
    if n >= 10 {
        push_digits(buffer, n / 10);
    }
    let low: u8 = (n % 10) as u8;
    buffer.push(48 + low);
}

/// Appends the decimal text of `n` to `buffer`.
pub fn push_decimal(buffer: &mut Vec<u8>, n: i64)
    ensures
        final(buffer)@ == old(buffer)@ + decimal(n as int),
{
    if n < 0 {
        buffer.push(45u8);
        let magnitude: u64 = if n == i64::MIN {
            9223372036854775808u64
        } else {
            (-n) as u64
        };
        push_digits(buffer, magnitude);
    } else {
        push_digits(buffer, n as u64);
    }
}

/// Reads `bytes` as the decimal text of a signed 64-bit integer.
pub fn parse_decimal(bytes: &[u8]) -> (r: Option<i64>)
    ensures
        r == parse_i64(bytes@),
{
    let len: usize = bytes.len();
    if len == 0 {
        return None;
    }
    let first: u8 = bytes[0];
    let negative: bool = first == 45u8;
    let start: usize = if first == 45u8 || first == 43u8 {
        1
    } else {
        0
    };
    if start == len {
        return None;
    }
    let ghost body = bytes@.skip(start as int);
    let mut acc: u128 = 0;
    let mut i: usize = start;
    while i < len
        invariant
            start <= i <= len,
            len == bytes@.len(),
            start == 0 || start == 1,
            start == 1 <==> (bytes@[0] == 45u8 || bytes@[0] == 43u8),
            body == bytes@.skip(start as int),
            all_digits(body.take(i - start)),
            acc == digits_value(body.take(i - start)),
            acc <= 9223372036854775808u128,
        decreases len - i,
    {
        let b: u8 = bytes[i];
        if b < 48 || b > 57 {
            proof {
                assert(body[i - start] == b);
                assert(!all_digits(body));
                assert(bytes@.skip(0) =~= bytes@);
            }
            return None;
        }
        proof {
            assert(body.take(i + 1 - start).drop_last() =~= body.take(i - start));
            assert(body.take(i + 1 - start).last() == b);
        }
        acc = acc * 10 + (b - 48) as u128;
        i += 1;
        if acc > 9223372036854775808u128 {
            proof {
                lemma_digits_value_prefix(body, i - start);
                assert(bytes@.skip(0) =~= bytes@);
            }
            return None;
        }
    }
    proof {
        assert(body.take(i - start) =~= body);
        assert(bytes@.skip(0) =~= bytes@);
    }
    if negative {
        if acc == 9223372036854775808u128 {
            Some(i64::MIN)
        } else {
            Some(-(acc as i64))
        }
    } else if acc > 9223372036854775807u128 {
        None
    } else {
        Some(acc as i64)
    }
}

} // verus!
