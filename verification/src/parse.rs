//! Parsing of command-line counts: non-negative decimal integers, as
//! `str::parse::<u32>` accepts them (an optional leading `+`, then at least
//! one ASCII digit, and a value that fits in `u32`).

use vstd::prelude::*;
use vstd::string::StringSliceAdditionalSpecFns;

verus! {

/// One byte is an ASCII decimal digit.
pub open spec fn is_ascii_digit(b: u8) -> bool {
    48 <= b && b <= 57
}

pub open spec fn all_ascii_digits(s: Seq<u8>) -> bool {
    forall|i: int| 0 <= i < s.len() ==> is_ascii_digit(#[trigger] s[i])
}

/// Numeric value of a run of ASCII decimal digits, most significant first.
pub open spec fn digits_value(s: Seq<u8>) -> int
    decreases s.len(),
{
    if s.len() == 0 {
        0
    } else {
        digits_value(s.drop_last()) * 10 + (s.last() - 48)
    }
}

/// The digits of a byte string once an optional leading `+` is stripped.
pub open spec fn spec_digits(s: Seq<u8>) -> Seq<u8> {
    if s.len() > 0 && s[0] == 43 {
        s.skip(1)
    } else {
        s
    }
}

/// The number a byte string denotes: an optional leading `+`, then at least
/// one decimal digit, with a value of at most `u32::MAX`; anything else
/// denotes nothing.
pub open spec fn spec_parse_u32(s: Seq<u8>) -> Option<u32> {
    let digits = spec_digits(s);
    if digits.len() > 0 && all_ascii_digits(digits) && digits_value(digits) <= u32::MAX {
        Some(digits_value(digits) as u32)
    } else {
        None
    }
}

proof fn lemma_digits_value_nonneg(s: Seq<u8>)
    requires
        all_ascii_digits(s),
    ensures
        digits_value(s) >= 0,
    decreases s.len(),
{
    if s.len() > 0 {
        assert(all_ascii_digits(s.drop_last()));
        lemma_digits_value_nonneg(s.drop_last());
    }
}

/// The value of a digit string is at least the value of any of its prefixes.
proof fn lemma_digits_value_prefix(s: Seq<u8>, k: int)
    requires
        all_ascii_digits(s),
        0 <= k <= s.len(),
    ensures
        digits_value(s.take(k)) <= digits_value(s),
    decreases s.len(),
{
    if k < s.len() {
        assert(all_ascii_digits(s.drop_last()));
        assert(s.drop_last().take(k) =~= s.take(k));
        lemma_digits_value_prefix(s.drop_last(), k);
        lemma_digits_value_nonneg(s.drop_last());
    } else {
        assert(s.take(k) =~= s);
    }
}

/// What `str::parse::<u32>` computes on this string, written out: `Some`
/// exactly on an optional `+` followed by decimal digits whose value fits.
pub fn parse_u32(s: &str) -> (r: Option<u32>)
    ensures
        r == spec_parse_u32(s.spec_bytes()),
{
    let bytes: &[u8] = s.as_bytes();
    let start: usize = if bytes.len() > 0 && bytes[0] == 43 {
        1
    } else {
        0
    };
    let ghost digits = spec_digits(s.spec_bytes());
    proof {
        assert(digits =~= bytes@.skip(start as int));
    }
    if bytes.len() == start {
        assert(digits.len() == 0);
        return None;
    }
    let mut acc: u64 = 0;
    let mut i: usize = start;
    while i < bytes.len()
        invariant
            start <= i <= bytes.len(),
            start <= 1,
            bytes@ == s.spec_bytes(),
            digits == spec_digits(s.spec_bytes()),
            digits == bytes@.skip(start as int),
            acc <= u32::MAX,
            all_ascii_digits(digits.take(i - start)),
            acc == digits_value(digits.take(i - start)),
        decreases bytes.len() - i,
    {
        let b = bytes[i];
        let ghost j = i - start;
        assert(digits[j] == bytes@[i as int]);
        if b < 48 || b > 57 {
            assert(!is_ascii_digit(digits[j]));
            return None;
        }
        let d: u64 = (b - 48) as u64;
        let next: u64 = acc * 10 + d;
        proof {
            assert(digits.take(j + 1).drop_last() =~= digits.take(j));
            assert(digits.take(j + 1).last() == digits[j]);
            assert(all_ascii_digits(digits.take(j + 1)));
            assert(digits_value(digits.take(j + 1)) == acc * 10 + d);
        }
        if next > 0xffff_ffffu64 {
            proof {
                if all_ascii_digits(digits) {
                    lemma_digits_value_prefix(digits, j + 1);
                }
            }
            return None;
        }
        acc = next;
        i += 1;
    }
    assert(digits.take(i - start) =~= digits);
    Some(acc as u32)
}

} // verus!
