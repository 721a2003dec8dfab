//! Reading booleans and integers from text.
use vstd::prelude::*;

verus! {

/// The boolean that a text denotes: `true` and `false` are the only spellings.
pub open spec fn bool_of(text: Seq<char>) -> Option<bool> {
    if text == "true"@ {
        Some(true)
    } else if text == "false"@ {
        Some(false)
    } else {
        None
    }
}

/// Whether `c` is one of the ten decimal digits.
pub open spec fn is_digit(c: char) -> bool {
    '0' <= c <= '9'
}

/// Whether every character of `s` is a decimal digit.
pub open spec fn all_digits(s: Seq<char>) -> bool {
    forall|i: int| 0 <= i < s.len() ==> is_digit(#[trigger] s[i])
}

/// The number that a sequence of decimal digits denotes, most significant digit first.
pub open spec fn magnitude(s: Seq<char>) -> int
    decreases s.len(),
{
    if s.len() == 0 {
        0
    } else {
        10 * magnitude(s.drop_last()) + (s.last() as int - '0' as int)
    }
}

/// The integer that a text denotes: an optional `+` or `-`, then one or more
/// decimal digits and nothing else, with a value that fits in 64 bits.
pub open spec fn int_of(text: Seq<char>) -> Option<i64> {
    let negative = text.len() > 0 && text[0] == '-';
    let signed = negative || (text.len() > 0 && text[0] == '+');
    let digits = if signed {
        text.skip(1)
    } else {
        text
    };
    let value = if negative {
        -magnitude(digits)
    } else {
        magnitude(digits)
    };
    if digits.len() > 0 && all_digits(digits) && i64::MIN <= value <= i64::MAX {
        Some(value as i64)
    } else {
        None
    }
}

/// A prefix of a digit sequence denotes no more than the whole sequence.
proof fn lemma_magnitude_of_prefix(s: Seq<char>, k: int)
    requires
        all_digits(s),
        0 <= k <= s.len(),
    ensures
        0 <= magnitude(s.take(k)) <= magnitude(s),
    decreases s.len(),
{
    if s.len() == 0 {
    } else if k == s.len() {
        assert(s.take(k) =~= s);
        lemma_magnitude_of_prefix(s.drop_last(), k - 1);
    } else {
        lemma_magnitude_of_prefix(s.drop_last(), k);
        assert(s.drop_last().take(k) =~= s.take(k));
    }
}

/// Reads a boolean.
pub fn parse_bool(text: &str) -> (value: Option<bool>)
    ensures
        value == bool_of(text@),
{
    let owned = text.to_owned();
    if owned == "true".to_owned() {
        Some(true)
    } else if owned == "false".to_owned() {
        Some(false)
    } else {
        None
    }
}

/// Reads a decimal integer.
pub fn parse_int(text: &str) -> (value: Option<i64>)
    ensures
        value == int_of(text@),
{
    if !text.is_ascii() {
        proof {
            let i = choose|i: int| 0 <= i < text@.len() && !('\0' <= #[trigger] text@[i] <= '\u{7f}');
            if text@[0] == '-' || text@[0] == '+' {
                assert(text@.skip(1)[i - 1] == text@[i]);
            }
        }
        return None;
    }
    let bytes = text.as_bytes();
    let n = bytes.len();
    if n == 0 {
        return None;
    }
    let first = bytes[0];
    let negative = first == 45;
    let start: usize = if first == 45 || first == 43 {
        1
    } else {
        0
    };
    if start == n {
        return None;
    }
    let ghost digits = text@.skip(start as int);
    let limit: u64 = if negative {
        9223372036854775808
    } else {
        9223372036854775807
    };
    let mut total: u64 = 0;
    let mut i: usize = start;
    while i < n
        invariant
            start <= i <= n,
            start < n,
            start <= 1,
            n == text@.len(),
            text.is_ascii(),
            bytes@ == Seq::new(text@.len(), |i: int| text@[i] as u8),
            text@.skip(0) == text@,
            negative == (text@[0] == '-'),
            (start == 1) == (text@[0] == '-' || text@[0] == '+'),
            digits == text@.skip(start as int),
            all_digits(digits.take(i - start)),
            total == magnitude(digits.take(i - start)),
            limit == if negative { 9223372036854775808u64 } else { 9223372036854775807u64 },
            total <= limit,
        decreases n - i,
    {
        let b = bytes[i];
        let ghost seen = digits.take(i - start);
        let ghost next = digits.take(i + 1 - start);
        proof {
            assert(next.drop_last() =~= seen);
            assert(next.last() == text@[i as int]);
        }
        if b < 48 || b > 57 {
            return None;
        }
        let d = (b - 48) as u64;
        if total > (limit - d) / 10 {
            proof {
                if all_digits(digits) {
                    lemma_magnitude_of_prefix(digits, i + 1 - start);
                }
            }
            return None;
        }
        total = total * 10 + d;
        i += 1;
    }
    proof {
        assert(digits.take(n - start) =~= digits);
    }
    if negative {
        if total == 9223372036854775808 {
            Some(i64::MIN)
        } else {
            Some(-(total as i64))
        }
    } else {
        Some(total as i64)
    }
}

} // verus!
