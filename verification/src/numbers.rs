//! Decimal integer text, as the standard integer parsers and printers read and
//! write it.
use vstd::prelude::*;
use crate::text::{decimal, digit_char, push_char, push_decimal};

verus! {

pub open spec fn is_digit(c: char) -> bool {
    '0' <= c <= '9'
}

pub open spec fn digit_value(c: char) -> int {
    (c as int) - ('0' as int)
}

pub open spec fn all_digits(s: Seq<char>) -> bool {
    forall|k: int| 0 <= k < s.len() ==> is_digit(#[trigger] s[k])
}

/// The number a run of decimal digits denotes.
pub open spec fn digits_value(s: Seq<char>) -> int
    decreases s.len(),
{
    if s.len() == 0 {
        0
    } else {
        digits_value(s.drop_last()) * 10 + digit_value(s.last())
    }
}

/// The digits after an optional leading `+`.
pub open spec fn unsigned_digits(s: Seq<char>) -> Seq<char> {
    if s.len() > 0 && s[0] == '+' {
        s.drop_first()
    } else {
        s
    }
}

/// `u64::from_str`: an optional `+`, at least one digit, and a value that fits.
pub open spec fn spec_parse_u64(s: Seq<char>) -> Option<u64> {
    let d = unsigned_digits(s);
    if d.len() > 0 && all_digits(d) && digits_value(d) <= u64::MAX {
        Some(digits_value(d) as u64)
    } else {
        None
    }
}

/// `i64::from_str`: an optional sign, at least one digit, and a value that fits.
pub open spec fn spec_parse_i64(s: Seq<char>) -> Option<i64> {
    if s.len() > 0 && s[0] == '-' {
        let d = s.drop_first();
        if d.len() > 0 && all_digits(d) && digits_value(d) <= 0x8000_0000_0000_0000 {
            Some((-digits_value(d)) as i64)
        } else {
            None
        }
    } else {
        let d = unsigned_digits(s);
        if d.len() > 0 && all_digits(d) && digits_value(d) <= i64::MAX {
            Some(digits_value(d) as i64)
        } else {
            None
        }
    }
}

/// The decimal text of a signed number.
pub open spec fn signed_decimal(n: int) -> Seq<char> {
    if n < 0 {
        seq!['-'] + decimal((-n) as nat)
    } else {
        decimal(n as nat)
    }
}

proof fn lemma_digits_value_grows(s: Seq<char>, k: int)
    requires
        0 <= k <= s.len(),
        all_digits(s),
    ensures
        0 <= digits_value(s.take(k)) <= digits_value(s),
    decreases s.len() - k,
{
    if k < s.len() {
        lemma_digits_value_grows(s, k + 1);
        assert(s.take(k + 1).drop_last() =~= s.take(k));
        assert(is_digit(s[k]));
    } else {
        assert(s.take(k) =~= s);
        lemma_digits_nonnegative(s);
    }
}

proof fn lemma_digits_nonnegative(s: Seq<char>)
    requires
        all_digits(s),
    ensures
        digits_value(s) >= 0,
    decreases s.len(),
{
    if s.len() > 0 {
        assert(all_digits(s.drop_last()));
        lemma_digits_nonnegative(s.drop_last());
        assert(is_digit(s.last()));
    }
}

/// The magnitude of a run of digits, when all are digits and it fits the bound.
fn digits_magnitude(d: &Vec<char>, start: usize, bound: u64) -> (r: Option<u64>)
    requires
        start <= d.len(),
    ensures
        ({
            let s = d@.skip(start as int);
            match r {
                Some(v) => s.len() > 0 && all_digits(s) && digits_value(s) == v && v <= bound,
                None => !(s.len() > 0 && all_digits(s) && digits_value(s) <= bound),
            }
        }),
{
    let ghost s = d@.skip(start as int);
    if start == d.len() {
        return None;
    }
    let mut acc: u64 = 0;
    let mut k: usize = start;
    while k < d.len()
        invariant
            start <= k <= d.len(),
            s == d@.skip(start as int),
            all_digits(s.take(k - start)),
            acc == digits_value(s.take(k - start)),
            acc <= bound,
        decreases d.len() - k,
    {
        let c = d[k];
        let ghost i = k - start;
        proof {
            assert(s[i as int] == c);
            assert(s.take(i + 1).drop_last() =~= s.take(i as int));
        }
        if !('0' <= c && c <= '9') {
            proof {
                assert(!is_digit(s[i as int]));
            }
            return None;
        }
        let v: u64 = (c as u32 - '0' as u32) as u64;
        assert(v == digit_value(c));
        let next = match acc.checked_mul(10) {
            Some(m) => m.checked_add(v),
            None => None,
        };
        match next {
            Some(n) => {
                if n > bound {
                    proof {
                        assert(all_digits(s.take(i + 1)));
                        if all_digits(s) {
                            lemma_digits_value_grows(s, i + 1);
                        }
                    }
                    return None;
                }
                acc = n;
            },
            None => {
                proof {
                    assert(all_digits(s.take(i + 1)));
                    if all_digits(s) {
                        lemma_digits_value_grows(s, i + 1);
                    }
                }
                return None;
            },
        }
        k = k + 1;
    }
    proof {
        assert(s.take(d.len() - start) =~= s);
    }
    Some(acc)
}

/// `str::parse::<u64>`.
pub fn parse_u64_text(text: &Vec<char>) -> (r: Option<u64>)
    ensures
        r == spec_parse_u64(text@),
{
    let start: usize = if text.len() > 0 && text[0] == '+' {
        1
    } else {
        0
    };
    proof {
        assert(unsigned_digits(text@) =~= text@.skip(start as int));
    }
    digits_magnitude(text, start, u64::MAX)
}

/// `str::parse::<i64>`.
pub fn parse_i64_text(text: &Vec<char>) -> (r: Option<i64>)
    ensures
        r == spec_parse_i64(text@),
{
    if text.len() > 0 && text[0] == '-' {
        proof {
            assert(text@.drop_first() =~= text@.skip(1));
        }
        match digits_magnitude(text, 1, 0x8000_0000_0000_0000) {
            Some(m) => {
                if m == 0x8000_0000_0000_0000 {
                    Some(i64::MIN)
                } else {
                    Some(-(m as i64))
                }
            },
            None => None,
        }
    } else {
        let start: usize = if text.len() > 0 && text[0] == '+' {
            1
        } else {
            0
        };
        proof {
            assert(unsigned_digits(text@) =~= text@.skip(start as int));
        }
        match digits_magnitude(text, start, i64::MAX as u64) {
            Some(m) => Some(m as i64),
            None => None,
        }
    }
}

/// Appends the decimal text of a signed number.
pub fn push_signed_decimal(s: &mut String, n: i64)
    ensures
        final(s)@ == old(s)@ + signed_decimal(n as int),
{
    if n < 0 {
        push_char(s, '-');
        let m: u64 = ((-(n + 1)) as u64) + 1;
        push_decimal(s, m);
    } else {
        push_decimal(s, n as u64);
    }
}

/// The digits of a decimal numeral read back to its number.
pub proof fn lemma_decimal_digits(n: nat)
    ensures
        all_digits(decimal(n)),
        digits_value(decimal(n)) == n,
        decimal(n).len() > 0,
    decreases n,
{
    if n >= 10 {
        lemma_decimal_digits(n / 10);
        let d = decimal(n);
        assert(d.drop_last() =~= decimal(n / 10));
        lemma_digit_char((n % 10) as int);
        assert forall|k: int| 0 <= k < d.len() implies is_digit(#[trigger] d[k]) by {
            if k < d.len() - 1 {
                assert(d[k] == decimal(n / 10)[k]);
            }
        }
        assert(d.last() == digit_char((n % 10) as int));
        assert(digits_value(d) == digits_value(decimal(n / 10)) * 10 + (n % 10));
        assert(n == (n / 10) * 10 + n % 10);
    } else {
        lemma_digit_char(n as int);
        let d = decimal(n);
        assert(d.drop_last() =~= Seq::<char>::empty());
        assert(digits_value(d) == digits_value(d.drop_last()) * 10 + digit_value(d.last()));
    }
}

pub proof fn lemma_digit_char(d: int)
    requires
        0 <= d < 10,
    ensures
        is_digit(digit_char(d)),
        digit_value(digit_char(d)) == d,
{
}

/// A number printed in decimal parses back to itself.
pub proof fn lemma_u64_text_round_trip(n: u64)
    ensures
        spec_parse_u64(decimal(n as nat)) == Some(n),
{
    lemma_decimal_digits(n as nat);
    let d = decimal(n as nat);
    assert(is_digit(d[0]));
    assert(unsigned_digits(d) == d);
}

} // verus!
