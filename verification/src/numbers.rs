//! Decimal digit strings and their numeric values.
//!
//! A token part (the text before or after the `d` separator) parses as a
//! number exactly when it is a non-empty run of ASCII digits whose value fits
//! in an `i32`. Anything else — the empty string, a non-digit character, or a
//! value past `i32::MAX` — counts as absent.
use vstd::prelude::*;

verus! {

/// An ASCII decimal digit.
pub open spec fn is_digit(c: char) -> bool {
    '0' <= c && c <= '9'
}

/// The numeric value of one digit character.
pub open spec fn digit_val(c: char) -> int {
    c as int - '0' as int
}

/// Every character of `s` is a decimal digit.
pub open spec fn all_digits(s: Seq<char>) -> bool {
    forall|k: int| 0 <= k < s.len() ==> is_digit(#[trigger] s[k])
}

/// The value of a digit string read in base ten (0 for the empty string).
pub open spec fn digits_value(s: Seq<char>) -> int
    decreases s.len(),
{
    if s.len() == 0 {
        0
    } else {
        10 * digits_value(s.drop_last()) + digit_val(s.last())
    }
}

/// `s` parses as a number: non-empty, all digits, and within `i32` range.
pub open spec fn parses(s: Seq<char>) -> bool {
    s.len() > 0 && all_digits(s) && digits_value(s) <= i32::MAX
}

/// The value of a digit string is never negative.
pub proof fn lemma_digits_value_nonneg(s: Seq<char>)
    requires
        all_digits(s),
    ensures
        digits_value(s) >= 0,
    decreases s.len(),
{
    if s.len() > 0 {
        assert(all_digits(s.drop_last()));
        lemma_digits_value_nonneg(s.drop_last());
    }
}

/// Extending a digit string on the right never decreases its value.
pub proof fn lemma_digits_value_prefix(s: Seq<char>, i: int)
    requires
        all_digits(s),
        0 <= i <= s.len(),
    ensures
        digits_value(s.subrange(0, i)) <= digits_value(s),
    decreases s.len() - i,
{
    if i < s.len() {
        let t = s.subrange(0, i + 1);
        assert(t.drop_last() =~= s.subrange(0, i));
        assert(all_digits(t.drop_last()));
        lemma_digits_value_nonneg(t.drop_last());
        lemma_digits_value_prefix(s, i + 1);
    } else {
        assert(s.subrange(0, i) =~= s);
    }
}

/// The character for one digit value.
pub open spec fn digit_char(d: int) -> char
    recommends
        0 <= d <= 9,
{
    if d == 0 {
        '0'
    } else if d == 1 {
        '1'
    } else if d == 2 {
        '2'
    } else if d == 3 {
        '3'
    } else if d == 4 {
        '4'
    } else if d == 5 {
        '5'
    } else if d == 6 {
        '6'
    } else if d == 7 {
        '7'
    } else if d == 8 {
        '8'
    } else {
        '9'
    }
}

/// The base-ten rendering of a non-negative number, without leading zeros
/// (except for the single digit of zero itself).
pub open spec fn digits_of(n: int) -> Seq<char>
    recommends
        n >= 0,
    decreases n when n >= 0
{
    if n <= 9 {
        seq![digit_char(n)]
    } else {
        digits_of(n / 10).push(digit_char(n % 10))
    }
}

/// The character of a digit value is a digit and reads back as that value.
pub proof fn lemma_digit_char_val(d: int)
    requires
        0 <= d <= 9,
    ensures
        is_digit(digit_char(d)),
        digit_val(digit_char(d)) == d,
{
}

/// The rendering of a non-negative number is a digit string that parses back
/// to that number.
pub proof fn lemma_digits_of(n: int)
    requires
        n >= 0,
    ensures
        digits_of(n).len() >= 1,
        all_digits(digits_of(n)),
        digits_value(digits_of(n)) == n,
    decreases n,
{
    if n <= 9 {
        lemma_digit_char_val(n);
        let s = digits_of(n);
        assert(s == seq![digit_char(n)]);
        assert(s.drop_last() =~= Seq::<char>::empty());
        assert(digits_value(Seq::<char>::empty()) == 0);
        assert(digits_value(s) == 10 * digits_value(s.drop_last()) + digit_val(s.last()));
    } else {
        lemma_digits_of(n / 10);
        lemma_digit_char_val(n % 10);
        vstd::arithmetic::div_mod::lemma_fundamental_div_mod(n, 10);
        let s = digits_of(n);
        assert(s == digits_of(n / 10).push(digit_char(n % 10)));
        assert(s.drop_last() =~= digits_of(n / 10));
        assert(digits_value(s) == 10 * digits_value(digits_of(n / 10)) + digit_val(s.last()));
        assert(forall|k: int| 0 <= k < s.len() ==> is_digit(#[trigger] s[k]));
    }
}

/// Parses `s` as a base-ten number: `Some` exactly when `s` is a non-empty
/// digit string whose value fits in an `i32`, and then the parsed value.
pub fn parse_number(s: &str) -> (r: Option<i32>)
    ensures
        r == (if parses(s@) {
            Some(digits_value(s@) as i32)
        } else {
            None::<i32>
        }),
{
    let n = s.unicode_len();
    if n == 0 {
        return None;
    }
    let mut acc: i32 = 0;
    let mut j: usize = 0;
    while j < n
        invariant
            0 <= j <= n,
            n == s@.len(),
            all_digits(s@.subrange(0, j as int)),
            acc == digits_value(s@.subrange(0, j as int)),
            0 <= acc <= i32::MAX,
        decreases n - j,
    {
        let c = s.get_char(j);
        if !(c >= '0' && c <= '9') {
            assert(!all_digits(s@));
            return None;
        }
        let d: i32 = (c as u32 - '0' as u32) as i32;
        proof {
            assert(s@.subrange(0, j + 1).drop_last() =~= s@.subrange(0, j as int));
        }
        if acc > (i32::MAX - d) / 10 {
            proof {
                assert(digits_value(s@.subrange(0, j + 1)) > i32::MAX);
                if parses(s@) {
                    lemma_digits_value_prefix(s@, j + 1);
                }
            }
            return None;
        }
        acc = acc * 10 + d;
        j = j + 1;
    }
    proof {
        assert(s@.subrange(0, n as int) =~= s@);
    }
    Some(acc)
}

} // verus!
