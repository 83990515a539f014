//! Reading integers from text the way `str::parse` reads them.

use vstd::prelude::*;
use crate::text::{decimal, digit_char};

verus! {

/// A decimal digit.
pub open spec fn is_digit(c: char) -> bool {
    '0' <= c && c <= '9'
}

/// The value of a string of decimal digits.
pub open spec fn digits_value(s: Seq<char>) -> nat
    decreases s.len(),
{
    if s.len() == 0 {
        0
    } else {
        digits_value(s.drop_last()) * 10 + (s.last() as nat - '0' as nat) as nat
    }
}

/// Every character is a decimal digit.
pub open spec fn all_digits(d: Seq<char>) -> bool {
    forall|i: int| 0 <= i < d.len() ==> is_digit(#[trigger] d[i])
}

/// The text without its leading `+`, if it has one.
pub open spec fn unsigned_digits(s: Seq<char>) -> Seq<char> {
    if s.len() > 0 && s[0] == '+' {
        s.drop_first()
    } else {
        s
    }
}

/// How `str::parse::<u64>` reads a text: an optional `+`, then one or more
/// decimal digits whose value fits in a `u64`.
pub open spec fn spec_parse_u64(s: Seq<char>) -> Option<nat> {
    let d = unsigned_digits(s);
    if d.len() > 0 && all_digits(d) && digits_value(d) <= u64::MAX {
        Some(digits_value(d))
    } else {
        None
    }
}

/// How `str::parse::<i32>` reads a text: an optional `+` or `-`, then one or
/// more decimal digits whose signed value fits in an `i32`.
pub open spec fn spec_parse_i32(s: Seq<char>) -> Option<int> {
    if s.len() > 0 && s[0] == '-' {
        let d = s.drop_first();
        if d.len() > 0 && all_digits(d) && digits_value(d) <= 0x8000_0000 {
            Some(-(digits_value(d) as int))
        } else {
            None
        }
    } else {
        let d = unsigned_digits(s);
        if d.len() > 0 && all_digits(d) && digits_value(d) <= i32::MAX {
            Some(digits_value(d) as int)
        } else {
            None
        }
    }
}

proof fn lemma_digits_value_grows(s: Seq<char>, c: char)
    requires
        is_digit(c),
    ensures
        digits_value(s.push(c)) == digits_value(s) * 10 + (c as nat - '0' as nat),
        digits_value(s.push(c)) >= digits_value(s),
{
    assert(s.push(c).drop_last() =~= s);
}

proof fn lemma_digits_prefix_bound(s: Seq<char>, k: int)
    requires
        0 <= k <= s.len(),
        all_digits(s),
    ensures
        digits_value(s.subrange(0, k)) <= digits_value(s),
    decreases s.len() - k,
{
    if k < s.len() {
        lemma_digits_prefix_bound(s, k + 1);
        assert(s.subrange(0, k + 1) =~= s.subrange(0, k).push(s[k]));
        lemma_digits_value_grows(s.subrange(0, k), s[k]);
    } else {
        assert(s.subrange(0, k) =~= s);
    }
}

/// Reads the characters of `value` from `start` on as a decimal number, when
/// they are all digits and their value is at most `limit`.
fn read_digits(value: &str, start: usize, limit: u64) -> (r: Option<u64>)
    requires
        start < value@.len(),
    ensures
        ({
            let d = value@.subrange(start as int, value@.len() as int);
            match r {
                Some(n) => all_digits(d) && digits_value(d) == n && n <= limit,
                None => !(all_digits(d) && digits_value(d) <= limit),
            }
        }),
{
    let n = value.unicode_len();
    let ghost d = value@.subrange(start as int, n as int);
    let mut acc: u64 = 0;
    let mut i: usize = start;
    while i < n
        invariant
            n == value@.len(),
            start <= i <= n,
            start < n,
            d == value@.subrange(start as int, n as int),
            forall|k: int| start <= k < i ==> is_digit(#[trigger] value@[k]),
            acc as nat == digits_value(value@.subrange(start as int, i as int)),
            acc <= limit,
        decreases n - i,
    {
        let c = value.get_char(i);
        if !('0' <= c && c <= '9') {
            assert(d[i - start] == c);
            assert(!is_digit(d[i - start]));
            return None;
        }
        let digit = (c as u32 - '0' as u32) as u64;
        let ghost next = value@.subrange(start as int, i + 1);
        proof {
            assert(next =~= value@.subrange(start as int, i as int).push(c));
            lemma_digits_value_grows(value@.subrange(start as int, i as int), c);
        }
        if digit > limit || acc > (limit - digit) / 10 {
            proof {
                if digit > limit {
                    assert(digits_value(next) > limit);
                } else {
                    assert(digits_value(next) > limit) by (nonlinear_arith)
                        requires
                            digits_value(next) == acc * 10 + digit,
                            digit <= limit,
                            acc > (limit - digit) / 10,
                    ;
                }
                if all_digits(d) {
                    lemma_digits_prefix_bound(d, i + 1 - start);
                    assert(d.subrange(0, i + 1 - start) =~= next);
                }
            }
            return None;
        }
        assert(acc * 10 + digit <= limit) by (nonlinear_arith)
            requires
                digit <= limit,
                acc <= (limit - digit) / 10,
        ;
        acc = acc * 10 + digit;
        i = i + 1;
    }
    assert(value@.subrange(start as int, n as int) =~= d);
    Some(acc)
}

/// Reads a `u64` as `str::parse::<u64>` does.
pub fn parse_u64(value: &str) -> (r: Option<u64>)
    ensures
        match r {
            Some(n) => spec_parse_u64(value@) == Some(n as nat),
            None => spec_parse_u64(value@) is None,
        },
{
    let n = value.unicode_len();
    let mut start: usize = 0;
    if n > 0 && value.get_char(0) == '+' {
        start = 1;
    }
    assert(unsigned_digits(value@) =~= value@.subrange(start as int, n as int));
    if start == n {
        return None;
    }
    read_digits(value, start, u64::MAX)
}

/// Reads an `i32` as `str::parse::<i32>` does.
pub fn parse_i32(value: &str) -> (r: Option<i32>)
    ensures
        match r {
            Some(x) => spec_parse_i32(value@) == Some(x as int),
            None => spec_parse_i32(value@) is None,
        },
{
    let n = value.unicode_len();
    if n > 0 && value.get_char(0) == '-' {
        assert(value@.drop_first() =~= value@.subrange(1, n as int));
        if n == 1 {
            return None;
        }
        match read_digits(value, 1, 0x8000_0000) {
            Some(v) => {
                if v == 0x8000_0000 {
                    Some(i32::MIN)
                } else {
                    let w = v as i32;
                    Some(-w)
                }
            },
            None => None,
        }
    } else {
        let mut start: usize = 0;
        if n > 0 && value.get_char(0) == '+' {
            start = 1;
        }
        assert(unsigned_digits(value@) =~= value@.subrange(start as int, n as int));
        if start == n {
            return None;
        }
        match read_digits(value, start, 0x7fff_ffff) {
            Some(v) => Some(v as i32),
            None => None,
        }
    }
}

proof fn lemma_decimal_digits(n: nat)
    ensures
        decimal(n).len() > 0,
        all_digits(decimal(n)),
        digits_value(decimal(n)) == n,
    decreases n,
{
    let d = if n < 10 { n } else { n % 10 };
    assert(is_digit(digit_char(d)) && digit_char(d) as nat - '0' as nat == d);
    if n < 10 {
        assert(decimal(n).drop_last() =~= Seq::<char>::empty());
        assert(digits_value(Seq::<char>::empty()) == 0);
    } else {
        assert(decimal(n) == decimal(n / 10).push(digit_char(n % 10)));
        lemma_decimal_digits(n / 10);
        lemma_digits_value_grows(decimal(n / 10), digit_char(n % 10));
    }
}

/// Reading back the decimal text of a number gives the number: what
/// `u64_text` writes, `parse_u64` reads as the same value.
pub proof fn law_decimal_read_back(n: nat)
    requires
        n <= u64::MAX,
    ensures
        spec_parse_u64(decimal(n)) == Some(n),
{
    lemma_decimal_digits(n);
    assert(is_digit(decimal(n)[0]));
}

} // verus!
