//! Decimal text for integers: printing and parsing with exact contracts.

use vstd::prelude::*;

verus! {

/// The character for one decimal digit value.
pub open spec fn digit_char(d: int) -> char {
    if d == 0 {
        '0'
    } else if d == 1 {
        '1'
    } else if d == 2 {
        '2'
    } else if d == 3 {
        '3'
    } else if d == 4 {
        '4'
    } else if d == 5 {
        '5'
    } else if d == 6 {
        '6'
    } else if d == 7 {
        '7'
    } else if d == 8 {
        '8'
    } else {
        '9'
    }
}

/// Decimal text of a non-negative integer, without sign or leading zeros.
pub open spec fn spec_nat_chars(n: int) -> Seq<char>
    decreases n,
{
    if n < 10 {
        seq![digit_char(n)]
    } else {
        spec_nat_chars(n / 10) + seq![digit_char(n % 10)]
    }
}

/// Decimal text of a signed integer: `-` followed by the magnitude when
/// negative, the plain magnitude otherwise.
pub open spec fn spec_int_chars(v: int) -> Seq<char> {
    if v < 0 {
        seq!['-'] + spec_nat_chars(-v)
    } else {
        spec_nat_chars(v)
    }
}

fn digit_to_char(d: u64) -> (c: char)
    requires
        d < 10,
    ensures
        c == digit_char(d as int),
{
    if d == 0 {
        '0'
    } else if d == 1 {
        '1'
    } else if d == 2 {
        '2'
    } else if d == 3 {
        '3'
    } else if d == 4 {
        '4'
    } else if d == 5 {
        '5'
    } else if d == 6 {
        '6'
    } else if d == 7 {
        '7'
    } else if d == 8 {
        '8'
    } else {
        '9'
    }
}

/// Decimal digits of a `u64`, most significant first.
pub fn u64_to_chars(n: u64) -> (r: Vec<char>)
    ensures
        r@ == spec_nat_chars(n as int),
    decreases n,
{
    if n < 10 {
        let mut r: Vec<char> = Vec::new();
        r.push(digit_to_char(n));
        proof {
            assert(r@ =~= spec_nat_chars(n as int));
        }
        r
    } else {
        let mut r = u64_to_chars(n / 10);
        r.push(digit_to_char(n % 10));
        proof {
            assert(r@ =~= spec_nat_chars(n as int));
        }
        r
    }
}

/// Decimal text of an `i64`, as `ToString` writes it.
pub fn i64_to_chars(v: i64) -> (r: Vec<char>)
    ensures
        r@ == spec_int_chars(v as int),
{
    if v >= 0 {
        u64_to_chars(v as u64)
    } else {
        let mag: u64 = ((-(v + 1)) as u64) + 1;
        assert(mag as int == -(v as int));
        let digits = u64_to_chars(mag);
        let mut r: Vec<char> = Vec::new();
        r.push('-');
        let mut i: usize = 0;
        while i < digits.len()
            invariant
                i <= digits.len(),
                digits@ == spec_nat_chars(-(v as int)),
                r@ == seq!['-'] + digits@.take(i as int),
            decreases digits.len() - i,
        {
            let c = digits[i];
            r.push(c);
            proof {
                assert(digits@.take(i + 1int) =~= digits@.take(i as int).push(c));
                assert(seq!['-'] + digits@.take(i + 1int) =~= (seq!['-'] + digits@.take(
                    i as int,
                )).push(c));
            }
            i = i + 1;
        }
        proof {
            assert(digits@.take(digits@.len() as int) =~= digits@);
        }
        r
    }
}

/// Whether a character is a decimal digit.
pub open spec fn is_digit_char(c: char) -> bool {
    '0' <= c && c <= '9'
}

/// The value of one decimal digit character.
pub open spec fn digit_val(c: char) -> int {
    c as int - '0' as int
}

/// Whether every character of the text is a decimal digit.
pub open spec fn all_digits(s: Seq<char>) -> bool {
    forall|i: int| 0 <= i < s.len() ==> is_digit_char(s[i])
}

/// The integer value of a digit string, most significant digit first.
pub open spec fn spec_digits_val(s: Seq<char>) -> int
    decreases s.len(),
{
    if s.len() == 0 {
        0
    } else {
        spec_digits_val(s.take(s.len() - 1)) * 10 + digit_val(s[s.len() - 1])
    }
}

/// What `str::parse::<i64>` accepts: an optional sign, then one or more
/// decimal digits, the value within the `i64` range.
pub open spec fn spec_parse_i64(s: Seq<char>) -> Option<i64> {
    let signed = s.len() > 0 && (s[0] == '-' || s[0] == '+');
    let digits = if signed {
        s.skip(1)
    } else {
        s
    };
    let neg = s.len() > 0 && s[0] == '-';
    if digits.len() == 0 || !all_digits(digits) {
        None
    } else {
        let v = if neg {
            -spec_digits_val(digits)
        } else {
            spec_digits_val(digits)
        };
        if i64::MIN <= v <= i64::MAX {
            Some(v as i64)
        } else {
            None
        }
    }
}

/// What `str::parse::<usize>` accepts: an optional `+`, then one or more
/// decimal digits, the value within the `usize` range.
pub open spec fn spec_parse_usize(s: Seq<char>) -> Option<usize> {
    let signed = s.len() > 0 && s[0] == '+';
    let digits = if signed {
        s.skip(1)
    } else {
        s
    };
    if digits.len() == 0 || !all_digits(digits) {
        None
    } else {
        let v = spec_digits_val(digits);
        if v <= usize::MAX {
            Some(v as usize)
        } else {
            None
        }
    }
}

proof fn lemma_digits_val_nonneg(s: Seq<char>)
    requires
        all_digits(s),
    ensures
        spec_digits_val(s) >= 0,
    decreases s.len(),
{
    if s.len() > 0 {
        assert(all_digits(s.take(s.len() - 1)));
        lemma_digits_val_nonneg(s.take(s.len() - 1));
    }
}

proof fn lemma_digits_val_grows(s: Seq<char>, i: int)
    requires
        all_digits(s),
        0 <= i <= s.len(),
    ensures
        spec_digits_val(s) >= spec_digits_val(s.take(i)),
    decreases s.len() - i,
{
    if i == s.len() {
        assert(s.take(i) =~= s);
    } else {
        lemma_digits_val_grows(s, i + 1);
        assert(s.take(i + 1).take(i) =~= s.take(i));
        assert(all_digits(s.take(i + 1)));
        assert(all_digits(s.take(i)));
        lemma_digits_val_nonneg(s.take(i));
        assert(spec_digits_val(s.take(i + 1)) == spec_digits_val(s.take(i)) * 10 + digit_val(
            s.take(i + 1)[i],
        ));
        assert(digit_val(s.take(i + 1)[i]) >= 0);
    }
}

/// The value of a digit run, accumulated while it stays small enough to be
/// a candidate `i64` or `usize`; anything that outgrows `u64::MAX` is
/// already out of range for both.
fn digits_value(cs: &Vec<char>, start: usize) -> (r: Option<u128>)
    requires
        start <= cs@.len(),
    ensures
        match r {
            Some(v) => all_digits(cs@.skip(start as int)) && cs@.len() - start >= 1 && v
                == spec_digits_val(cs@.skip(start as int)) && v <= u64::MAX,
            None => cs@.len() - start < 1 || !all_digits(cs@.skip(start as int)) || spec_digits_val(
                cs@.skip(start as int),
            ) > u64::MAX,
        },
{
    let ghost digits = cs@.skip(start as int);
    if start == cs.len() {
        return None;
    }
    let mut acc: u128 = 0;
    let mut i: usize = start;
    while i < cs.len()
        invariant
            start <= i <= cs@.len(),
            digits == cs@.skip(start as int),
            all_digits(digits.take(i - start)),
            acc == spec_digits_val(digits.take(i - start)),
            acc <= u64::MAX,
        decreases cs@.len() - i,
    {
        let c = cs[i];
        if !('0' <= c && c <= '9') {
            proof {
                assert(digits[i - start] == c);
                assert(!all_digits(digits));
            }
            return None;
        }
        let d: u128 = (c as u32 - '0' as u32) as u128;
        proof {
            assert(digits.take(i - start + 1).take(i - start) =~= digits.take(i - start));
            assert(digits.take(i - start + 1)[i - start] == c);
        }
        let next: u128 = acc * 10 + d;
        if next > u64::MAX as u128 {
            proof {
                assert(spec_digits_val(digits.take(i - start + 1)) == next);
                assert(all_digits(digits.take(i - start + 1)));
                lemma_digits_val_grows(digits.take(i - start + 1), i - start + 1);
                if all_digits(digits) {
                    lemma_digits_val_sub(digits, i - start + 1);
                }
            }
            return None;
        }
        acc = next;
        i = i + 1;
    }
    proof {
        assert(digits.take(cs@.len() - start) =~= digits);
    }
    Some(acc)
}

/// A prefix's digit value bounds the whole: the value of `s` is at least the
/// value of its first `i` digits.
proof fn lemma_digits_val_sub(s: Seq<char>, i: int)
    requires
        all_digits(s),
        0 <= i <= s.len(),
    ensures
        spec_digits_val(s) >= spec_digits_val(s.take(i)),
{
    lemma_digits_val_grows(s, i);
}

/// Parse decimal text as `str::parse::<i64>` does.
pub fn parse_i64_chars(cs: &Vec<char>) -> (r: Option<i64>)
    ensures
        r == spec_parse_i64(cs@),
{
    let n = cs.len();
    if n == 0 {
        return None;
    }
    let first = cs[0];
    let signed = first == '-' || first == '+';
    let neg = first == '-';
    let start: usize = if signed {
        1
    } else {
        0
    };
    let ghost digits = if signed {
        cs@.skip(1)
    } else {
        cs@
    };
    proof {
        if !signed {
            assert(cs@.skip(0) =~= cs@);
        }
    }
    match digits_value(cs, start) {
        None => {
            proof {
                if cs@.len() - start >= 1 && all_digits(digits) {
                    lemma_digits_val_nonneg(digits);
                    assert(spec_digits_val(digits) > u64::MAX);
                }
            }
            None
        },
        Some(v) => {
            if neg {
                if v > 9223372036854775808u128 {
                    None
                } else if v == 9223372036854775808u128 {
                    Some(i64::MIN)
                } else {
                    Some(-(v as i64))
                }
            } else {
                if v > i64::MAX as u128 {
                    None
                } else {
                    Some(v as i64)
                }
            }
        },
    }
}

/// Parse decimal text as `str::parse::<usize>` does.
pub fn parse_usize_chars(cs: &Vec<char>) -> (r: Option<usize>)
    ensures
        r == spec_parse_usize(cs@),
{
    let n = cs.len();
    if n == 0 {
        return None;
    }
    let first = cs[0];
    let signed = first == '+';
    let start: usize = if signed {
        1
    } else {
        0
    };
    let ghost digits = if signed {
        cs@.skip(1)
    } else {
        cs@
    };
    proof {
        if !signed {
            assert(cs@.skip(0) =~= cs@);
        }
    }
    match digits_value(cs, start) {
        None => {
            proof {
                if cs@.len() - start >= 1 && all_digits(digits) {
                    lemma_digits_val_nonneg(digits);
                    assert(spec_digits_val(digits) > u64::MAX);
                }
            }
            None
        },
        Some(v) => {
            if v > usize::MAX as u128 {
                None
            } else {
                Some(v as usize)
            }
        },
    }
}





/// The digit character of a digit value reads back as that value.
pub proof fn lemma_digit_char_val(d: int)
    requires
        0 <= d < 10,
    ensures
        is_digit_char(digit_char(d)),
        digit_val(digit_char(d)) == d,
{
}

/// Decimal text of a non-negative integer is all digits and reads back as
/// the same value.
pub proof fn lemma_nat_chars_value(m: int)
    requires
        m >= 0,
    ensures
        spec_nat_chars(m).len() >= 1,
        all_digits(spec_nat_chars(m)),
        spec_digits_val(spec_nat_chars(m)) == m,
    decreases m,
{
    if m < 10 {
        lemma_digit_char_val(m);
        let s = spec_nat_chars(m);
        assert(s.take(s.len() - 1) =~= Seq::<char>::empty());
        assert(s[s.len() - 1] == digit_char(m));
        assert(spec_digits_val(Seq::<char>::empty()) == 0);
        assert(spec_digits_val(s) == 0 * 10 + digit_val(digit_char(m)));
        assert forall|i: int| 0 <= i < s.len() implies is_digit_char(s[i]) by {
            assert(s[i] == digit_char(m));
        }
    } else {
        lemma_nat_chars_value(m / 10);
        lemma_digit_char_val(m % 10);
        let pre = spec_nat_chars(m / 10);
        let s = spec_nat_chars(m);
        assert(s.take(s.len() - 1) =~= pre);
        assert(s[s.len() - 1] == digit_char(m % 10));
        assert(spec_digits_val(s) == spec_digits_val(pre) * 10 + digit_val(digit_char(m % 10)));
        assert((m / 10) * 10 + m % 10 == m) by (nonlinear_arith);
        assert forall|i: int| 0 <= i < s.len() implies is_digit_char(s[i]) by {
            if i < pre.len() {
                assert(s[i] == pre[i]);
            }
        }
    }
}

/// Printing an `i64` and parsing the text yields the value back.
pub proof fn lemma_int_chars_roundtrip(v: int)
    requires
        i64::MIN <= v <= i64::MAX,
    ensures
        spec_parse_i64(spec_int_chars(v)) == Some(v as i64),
{
    if v >= 0 {
        lemma_nat_chars_value(v);
        let s = spec_nat_chars(v);
        assert(is_digit_char(s[0]));
        assert(s[0] != '-' && s[0] != '+');
        assert(spec_parse_i64(s) == Some(v as i64));
    } else {
        lemma_nat_chars_value(-v);
        let s = spec_int_chars(v);
        assert(s[0] == '-');
        assert(s.skip(1) =~= spec_nat_chars(-v));
        assert(spec_parse_i64(s) == Some(v as i64));
    }
}

/// Decimal text of an integer never reads as a boolean word: its first
/// character is a digit or the minus sign.
pub proof fn lemma_int_chars_head(v: int)
    ensures
        spec_int_chars(v).len() >= 1,
        spec_int_chars(v)[0] == '-' || is_digit_char(spec_int_chars(v)[0]),
{
    if v >= 0 {
        lemma_nat_chars_value(v);
    }
}


/// Powers of ten.
pub open spec fn pow10(n: nat) -> int
    decreases n,
{
    if n == 0 {
        1
    } else {
        10 * pow10((n - 1) as nat)
    }
}

/// A digit string's value lies below ten to its length.
pub proof fn lemma_digits_val_lt_pow(s: Seq<char>)
    requires
        all_digits(s),
    ensures
        0 <= spec_digits_val(s) < pow10(s.len()),
    decreases s.len(),
{
    if s.len() > 0 {
        let pre = s.take(s.len() - 1);
        assert forall|j: int| 0 <= j < pre.len() implies is_digit_char(#[trigger] pre[j]) by {
            assert(pre[j] == s[j]);
        }
        lemma_digits_val_lt_pow(pre);
        assert(digit_val(s[s.len() - 1]) <= 9);
    }
}

} // verus!
