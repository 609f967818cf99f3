//! Decimal text for the integer-valued flags: parsing and printing, verified
//! against one mathematical description of the decimal notation.

use vstd::prelude::*;
use crate::text::is_digit;

verus! {

/// The numeric value of one decimal digit character.
pub open spec fn digit_val(c: char) -> int {
    c as int - 48
}

/// Every character of the sequence is a decimal digit.
pub open spec fn all_digits(s: Seq<char>) -> bool {
    forall|i: int| 0 <= i < s.len() ==> is_digit(#[trigger] s[i])
}

/// The value of a digit string, most significant digit first.
pub open spec fn digits_val(s: Seq<char>) -> int
    decreases s.len(),
{
    if s.len() == 0 {
        0
    } else {
        digits_val(s.drop_last()) * 10 + digit_val(s.last())
    }
}

/// What standard decimal parsing makes of the text: an optional single sign,
/// then at least one digit and nothing else; anything other shape is refused.
pub open spec fn spec_parse_int(s: Seq<char>) -> Option<int> {
    if s.len() == 0 {
        None
    } else {
        let ds = if s[0] == '-' || s[0] == '+' {
            s.subrange(1, s.len() as int)
        } else {
            s
        };
        if ds.len() == 0 || !all_digits(ds) {
            None
        } else if s[0] == '-' {
            Some(-digits_val(ds))
        } else {
            Some(digits_val(ds))
        }
    }
}

/// Decimal parsing narrowed to `i64`: values out of range are refused.
pub open spec fn spec_parse_i64(s: Seq<char>) -> Option<i64> {
    match spec_parse_int(s) {
        Some(v) => if i64::MIN <= v <= i64::MAX {
            Some(v as i64)
        } else {
            None
        },
        None => None,
    }
}

/// Decimal parsing narrowed to `i128`: values out of range are refused.
pub open spec fn spec_parse_i128(s: Seq<char>) -> Option<i128> {
    match spec_parse_int(s) {
        Some(v) => if i128::MIN <= v <= i128::MAX {
            Some(v as i128)
        } else {
            None
        },
        None => None,
    }
}

/// The digit character of one value below ten.
pub open spec fn digit_char(d: int) -> char {
    if d == 0 {
        '0'
    } else if d == 1 {
        '1'
    } else if d == 2 {
        '2'
    } else if d == 3 {
        '3'
    } else if d == 4 {
        '4'
    } else if d == 5 {
        '5'
    } else if d == 6 {
        '6'
    } else if d == 7 {
        '7'
    } else if d == 8 {
        '8'
    } else {
        '9'
    }
}

/// The decimal digits of a nonnegative value, no leading zero but for the
/// value zero itself.
pub open spec fn spec_udigits(n: int) -> Seq<char>
    decreases n,
{
    if n < 10 {
        seq![digit_char(n)]
    } else {
        spec_udigits(n / 10).push(digit_char(n % 10))
    }
}

/// The decimal text of an integer: a minus sign for a negative value, then
/// its digits.
pub open spec fn spec_int_text(v: int) -> Seq<char> {
    if v < 0 {
        seq!['-'] + spec_udigits(-v)
    } else {
        spec_udigits(v)
    }
}

proof fn lemma_digits_val_nonneg(s: Seq<char>)
    requires
        all_digits(s),
    ensures
        digits_val(s) >= 0,
    decreases s.len(),
{
    if s.len() > 0 {
        assert(all_digits(s.drop_last()));
        lemma_digits_val_nonneg(s.drop_last());
    }
}

/// A digit string is worth at least any of its prefixes.
proof fn lemma_digits_val_prefix(s: Seq<char>, i: int)
    requires
        all_digits(s),
        0 <= i <= s.len(),
    ensures
        digits_val(s) >= digits_val(s.subrange(0, i)),
    decreases s.len() - i,
{
    if i == s.len() {
        assert(s.subrange(0, i) =~= s);
    } else {
        lemma_digits_val_prefix(s, i + 1);
        let t = s.subrange(0, i + 1);
        assert(t.drop_last() =~= s.subrange(0, i));
        assert(all_digits(s.subrange(0, i)));
        lemma_digits_val_nonneg(s.subrange(0, i));
        assert(digits_val(t) == digits_val(s.subrange(0, i)) * 10 + digit_val(s[i]));
    }
}

fn exec_digit_char(d: u8) -> (c: char)
    requires
        d < 10,
    ensures
        c == digit_char(d as int),
{
    if d == 0 {
        '0'
    } else if d == 1 {
        '1'
    } else if d == 2 {
        '2'
    } else if d == 3 {
        '3'
    } else if d == 4 {
        '4'
    } else if d == 5 {
        '5'
    } else if d == 6 {
        '6'
    } else if d == 7 {
        '7'
    } else if d == 8 {
        '8'
    } else {
        '9'
    }
}

/// Parses the full text as an `i128`, exactly as standard decimal parsing
/// would: `None` on an empty text, a stray character, a lone sign, or a value
/// out of range.
pub fn parse_i128(s: &str) -> (r: Option<i128>)
    ensures
        r == spec_parse_i128(s@),
{
    let n = s.unicode_len();
    if n == 0 {
        return None;
    }
    let c0 = s.get_char(0);
    let neg = c0 == '-';
    let start: usize = if neg || c0 == '+' {
        1
    } else {
        0
    };
    let ghost ds = if s@[0] == '-' || s@[0] == '+' {
        s@.subrange(1, s@.len() as int)
    } else {
        s@
    };
    proof {
        assert(s@.subrange(0, s@.len() as int) =~= s@);
        assert(ds =~= s@.subrange(start as int, n as int));
    }
    if start == n {
        return None;
    }
    let limit: u128 = if neg {
        170141183460469231731687303715884105728u128
    } else {
        170141183460469231731687303715884105727u128
    };
    let mut acc: u128 = 0;
    let mut i = start;
    while i < n
        invariant
            start <= i <= n,
            start < n,
            n == s@.len(),
            start == 0 || start == 1,
            neg == (s@[0] == '-'),
            start == 1 <==> (s@[0] == '-' || s@[0] == '+'),
            limit == if neg {
                170141183460469231731687303715884105728u128
            } else {
                170141183460469231731687303715884105727u128
            },
            ds =~= s@.subrange(start as int, n as int),
            all_digits(s@.subrange(start as int, i as int)),
            acc == digits_val(s@.subrange(start as int, i as int)),
            acc <= limit,
        decreases n - i,
    {
        let c = s.get_char(i);
        if !('0' <= c && c <= '9') {
            proof {
                assert(0 <= i - start < ds.len());
                assert(!is_digit(ds[i - start]));
                assert(!all_digits(ds));
            }
            return None;
        }
        let d = ((c as u8) - 48) as u128;
        let ghost pre = s@.subrange(start as int, i as int);
        let ghost cur = s@.subrange(start as int, i as int + 1);
        proof {
            assert(cur.drop_last() =~= pre);
            assert(cur.last() == s@[i as int]);
            assert(digits_val(cur) == acc * 10 + d);
        }
        if acc > (limit - d) / 10 {
            proof {
                assert(acc * 10 + d > limit) by {
                    let x = limit - d;
                    assert(acc >= x / 10 + 1);
                    assert((x / 10 + 1) * 10 == x / 10 * 10 + 10);
                    assert(x / 10 * 10 + x % 10 == x);
                };
                assert(all_digits(ds) ==> digits_val(ds) > limit) by {
                    if all_digits(ds) {
                        lemma_digits_val_prefix(ds, i + 1 - start);
                        assert(ds.subrange(0, i + 1 - start) =~= cur);
                    }
                };
                assert(ds.len() > 0);
                assert(s@.subrange(0, s@.len() as int) =~= s@);
                assert(spec_parse_i128(s@) is None);
            }
            return None;
        }
        acc = acc * 10 + d;
        i = i + 1;
        proof {
            assert(s@.subrange(start as int, i as int) =~= cur);
        }
    }
    proof {
        assert(s@.subrange(start as int, n as int) =~= ds);
        assert(acc == digits_val(ds));
        assert(all_digits(ds));
    }
    if neg {
        if acc == 170141183460469231731687303715884105728u128 {
            Some(i128::MIN)
        } else {
            Some(-(acc as i128))
        }
    } else {
        Some(acc as i128)
    }
}

/// Parses the full text as an `i64`, exactly as standard decimal parsing
/// would.
pub fn parse_i64(s: &str) -> (r: Option<i64>)
    ensures
        r == spec_parse_i64(s@),
{
    match parse_i128(s) {
        Some(v) => if i64::MIN as i128 <= v && v <= i64::MAX as i128 {
            Some(v as i64)
        } else {
            None
        },
        None => None,
    }
}

fn push_udigits(n: u128, out: &mut String)
    ensures
        final(out)@ == old(out)@ + spec_udigits(n as int),
    decreases n,
{
    if n >= 10 {
        push_udigits(n / 10, out);
    }
    let c = exec_digit_char((n % 10) as u8);
    out.push(c);
    proof {
        if n < 10 {
            assert(final(out)@ =~= old(out)@ + spec_udigits(n as int));
        } else {
            assert(final(out)@ =~= old(out)@ + spec_udigits(n as int));
        }
    }
}

/// The decimal text of an `i128`.
pub fn i128_to_text(v: i128) -> (r: String)
    ensures
        r@ == spec_int_text(v as int),
{
    let mut out = String::new();
    if v < 0 {
        out.push('-');
        let m: u128 = ((-(v + 1)) as u128) + 1;
        assert(m == -(v as int));
        push_udigits(m, &mut out);
        proof {
            assert(out@ =~= spec_int_text(v as int));
        }
    } else {
        push_udigits(v as u128, &mut out);
        proof {
            assert(out@ =~= spec_int_text(v as int));
        }
    }
    out
}

/// The decimal text of an `i64`.
pub fn i64_to_text(v: i64) -> (r: String)
    ensures
        r@ == spec_int_text(v as int),
{
    i128_to_text(v as i128)
}

proof fn lemma_udigits_wf(n: int)
    requires
        n >= 0,
    ensures
        all_digits(spec_udigits(n)),
        spec_udigits(n).len() >= 1,
        digits_val(spec_udigits(n)) == n,
    decreases n,
{
    if n < 10 {
        assert(is_digit(digit_char(n)));
        assert(digit_val(digit_char(n)) == n);
        let s = spec_udigits(n);
        assert(s.len() == 1);
        assert(s.last() == digit_char(n));
        assert(s.drop_last() =~= Seq::<char>::empty());
        assert(digits_val(s.drop_last()) == 0);
        assert(digits_val(s) == digits_val(s.drop_last()) * 10 + digit_val(s.last()));
    } else {
        lemma_udigits_wf(n / 10);
        let s = spec_udigits(n);
        assert(s.drop_last() =~= spec_udigits(n / 10));
        assert(is_digit(digit_char(n % 10)));
        assert(digits_val(s) == (n / 10) * 10 + digit_val(digit_char(n % 10)));
        assert(n / 10 * 10 + n % 10 == n);
    }
}

/// Printing an integer and parsing the text back yields the same integer.
pub proof fn lemma_int_text_round_trip(v: int)
    ensures
        spec_parse_int(spec_int_text(v)) == Some(v),
{
    if v < 0 {
        lemma_udigits_wf(-v);
        let s = spec_int_text(v);
        assert(s[0] == '-');
        assert(s.subrange(1, s.len() as int) =~= spec_udigits(-v));
    } else {
        lemma_udigits_wf(v);
        let s = spec_int_text(v);
        assert(is_digit(s[0]));
        assert(s[0] != '-' && s[0] != '+');
    }
}

} // verus!
