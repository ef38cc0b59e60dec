//! Dice terms and the normalization of one raw dice token into a term.
//!
//! A token is split on its first `d`. Whichever side is a non-empty digit
//! string within `i32` range counts as present; a missing side falls back to
//! a default (count 1 when the count is absent, sides 1 when the sides are
//! absent), and a token with neither side present has no dice term at all. A
//! token without any `d` is a bare integer constant, not a roll.
use vstd::prelude::*;

use crate::errors::ParseError;
use crate::numbers::digits_of;
use crate::numbers::digits_value;
use crate::numbers::is_digit;
use crate::numbers::lemma_digits_of;
use crate::numbers::parse_number;
use crate::numbers::parses;
use crate::tokens::dice_tokens;
use crate::tokens::lemma_digit_run_exact;
use crate::tokens::lemma_single_token;
use crate::tokens::token_end;

verus! {

/// One component of a dice expression: either an actual roll (`is_dice`) of
/// `count` dice with `sides` faces each, or a bare integer constant, stored
/// in `sides` with a count of one and `is_dice` false.
#[derive(Clone, Copy, PartialEq, Eq, Structural, Debug)]
pub struct Dice {
    /// Faces per die for a roll; the constant's value otherwise.
    pub sides: i32,
    /// Number of dice rolled; 1 for a bare constant.
    pub count: i32,
    /// Whether this term is an actual roll rather than a bare constant.
    pub is_dice: bool,
}

/// The position of the first `d` in `t` at or after `i`, or `t.len()` when
/// there is none.
pub open spec fn first_d_from(t: Seq<char>, i: int) -> int
    recommends
        0 <= i <= t.len(),
    decreases t.len() - i when 0 <= i <= t.len()
{
    if i < t.len() {
        if t[i] == 'd' {
            i
        } else {
            first_d_from(t, i + 1)
        }
    } else {
        i
    }
}

/// The position of the first `d` in `t`, or `t.len()` when there is none.
pub open spec fn first_d(t: Seq<char>) -> int {
    first_d_from(t, 0)
}

/// The dice term a raw token denotes, if any. The token is split on its
/// first `d`; a side is present when it parses as a number. With no `d` the
/// whole token must parse and denotes a bare constant; with a `d`, a missing
/// count defaults to 1, missing sides default to 1, and a token with neither
/// side present denotes no term.
pub open spec fn normalized(t: Seq<char>) -> Option<Dice> {
    let p = first_d(t);
    if p == t.len() {
        if parses(t) {
            Some(Dice { sides: digits_value(t) as i32, count: 1, is_dice: false })
        } else {
            None
        }
    } else {
        let left = t.subrange(0, p);
        let right = t.subrange(p + 1, t.len() as int);
        if parses(left) && parses(right) {
            Some(
                Dice {
                    sides: digits_value(right) as i32,
                    count: digits_value(left) as i32,
                    is_dice: true,
                },
            )
        } else if parses(right) {
            Some(Dice { sides: digits_value(right) as i32, count: 1, is_dice: true })
        } else if parses(left) {
            Some(Dice { sides: 1, count: digits_value(left) as i32, is_dice: true })
        } else {
            None
        }
    }
}

/// The first `d` lies between `i` and the end, is a `d` when within the
/// string, and nothing before it is a `d`.
pub proof fn lemma_first_d_from(t: Seq<char>, i: int)
    requires
        0 <= i <= t.len(),
    ensures
        i <= first_d_from(t, i) <= t.len(),
        first_d_from(t, i) < t.len() ==> t[first_d_from(t, i)] == 'd',
        forall|k: int| i <= k < first_d_from(t, i) ==> t[k] != 'd',
    decreases t.len() - i,
{
    if i < t.len() && t[i] != 'd' {
        lemma_first_d_from(t, i + 1);
    }
}

/// The first `d` is exactly the position before which no `d` occurs.
pub proof fn lemma_first_d_is(t: Seq<char>, p: int)
    requires
        0 <= p <= t.len(),
        p < t.len() ==> t[p] == 'd',
        forall|k: int| 0 <= k < p ==> t[k] != 'd',
    ensures
        first_d(t) == p,
{
    lemma_first_d_from(t, 0);
    let q = first_d(t);
    if q < p {
        assert(t[q] == 'd');
    } else if p < q {
        assert(t[p] != 'd');
    }
}

/// A digit is never the separator character.
pub proof fn lemma_digit_not_d(c: char)
    requires
        is_digit(c),
    ensures
        c != 'd',
{
}

/// Finds the first `d` of `token`, or its length when there is none.
fn find_first_d(token: &str, n: usize) -> (p: usize)
    requires
        n == token@.len(),
    ensures
        p == first_d(token@),
        p <= n,
{
    let mut i: usize = 0;
    while i < n
        invariant
            0 <= i <= n,
            n == token@.len(),
            first_d(token@) == first_d_from(token@, i as int),
        decreases n - i,
    {
        let c = token.get_char(i);
        if c == 'd' {
            return i;
        }
        i = i + 1;
    }
    i
}

/// Builds the dice term for one raw token, or reports that the token is
/// invalid: `Ok` exactly when the token denotes a term, and then that term;
/// a token with no parsable number on either side of its `d` (or no `d` and
/// no parsable number at all) is an `InvalidDiceFormat` error.
pub fn parse_dice(dice: &str) -> (r: Result<Dice, ParseError>)
    ensures
        match r {
            Ok(d) => normalized(dice@) == Some(d),
            Err(e) => normalized(dice@) is None && e == ParseError::InvalidDiceFormat,
        },
{
    let n = dice.unicode_len();
    let p = find_first_d(dice, n);
    if p == n {
        match parse_number(dice) {
            Some(v) => Ok(Dice { sides: v, count: 1, is_dice: false }),
            None => Err(ParseError::InvalidDiceFormat),
        }
    } else {
        let left = dice.substring_char(0, p);
        let right = dice.substring_char(p + 1, n);
        proof {
            lemma_first_d_from(dice@, 0);
        }
        let count = parse_number(left);
        let sides = parse_number(right);
        match (count, sides) {
            (Some(c), Some(s)) => Ok(Dice { sides: s, count: c, is_dice: true }),
            (None, Some(s)) => Ok(Dice { sides: s, count: 1, is_dice: true }),
            (Some(c), None) => Ok(Dice { sides: 1, count: c, is_dice: true }),
            (None, None) => Err(ParseError::InvalidDiceFormat),
        }
    }
}

/// The canonical text of a dice term: `{count}d{sides}` for a roll, the bare
/// value for a constant.
pub open spec fn canonical(d: Dice) -> Seq<char> {
    if d.is_dice {
        digits_of(d.count as int) + seq!['d'] + digits_of(d.sides as int)
    } else {
        digits_of(d.sides as int)
    }
}

/// Law: a token of two parsable numbers around a `d` denotes a roll of
/// exactly those numbers — the count from the left one, the sides from the
/// right one.
pub proof fn lemma_normalize_count_and_sides(a: Seq<char>, b: Seq<char>)
    requires
        parses(a),
        parses(b),
    ensures
        normalized(a + seq!['d'] + b) == Some(
            Dice { sides: digits_value(b) as i32, count: digits_value(a) as i32, is_dice: true },
        ),
{
    let t = a + seq!['d'] + b;
    assert forall|k: int| 0 <= k < a.len() implies t[k] != 'd' by {
        assert(t[k] == a[k]);
        lemma_digit_not_d(a[k]);
    }
    assert(t[a.len() as int] == 'd');
    lemma_first_d_is(t, a.len() as int);
    assert(t.subrange(0, a.len() as int) =~= a);
    assert(t.subrange(a.len() as int + 1, t.len() as int) =~= b);
}

/// Law: a token of digits alone, with no `d`, denotes a bare constant with a
/// count of one and the parsed value stored as its `sides`.
pub proof fn lemma_normalize_bare_constant(a: Seq<char>)
    requires
        parses(a),
    ensures
        normalized(a) == Some(
            Dice { sides: digits_value(a) as i32, count: 1, is_dice: false },
        ),
{
    assert forall|k: int| 0 <= k < a.len() implies a[k] != 'd' by {
        lemma_digit_not_d(a[k]);
    }
    lemma_first_d_is(a, a.len() as int);
}

/// Law: a token of a `d` followed by a parsable number, with no leading
/// count, denotes a roll of one die with that many sides.
pub proof fn lemma_normalize_default_count(b: Seq<char>)
    requires
        parses(b),
    ensures
        normalized(seq!['d'] + b) == Some(
            Dice { sides: digits_value(b) as i32, count: 1, is_dice: true },
        ),
{
    let t = seq!['d'] + b;
    assert(t[0] == 'd');
    lemma_first_d_is(t, 0);
    assert(t.subrange(0, 0) =~= Seq::<char>::empty());
    assert(t.subrange(1, t.len() as int) =~= b);
}

/// Law: a token of a parsable number followed by a trailing `d`, with no
/// sides, denotes a roll of that many dice with one side each.
pub proof fn lemma_normalize_default_sides(a: Seq<char>)
    requires
        parses(a),
    ensures
        normalized(a + seq!['d']) == Some(
            Dice { sides: 1, count: digits_value(a) as i32, is_dice: true },
        ),
{
    let t = a + seq!['d'];
    assert forall|k: int| 0 <= k < a.len() implies t[k] != 'd' by {
        assert(t[k] == a[k]);
        lemma_digit_not_d(a[k]);
    }
    assert(t[a.len() as int] == 'd');
    lemma_first_d_is(t, a.len() as int);
    assert(t.subrange(0, a.len() as int) =~= a);
    assert(t.subrange(a.len() as int + 1, t.len() as int) =~= Seq::<char>::empty());
}

/// Law: round trip — tokenizing the canonical text of a valid dice term
/// yields that text back as the single dice token, and normalizing it yields
/// an equal term, so normalization is idempotent on its own canonical output.
/// Valid means the term could have come out of normalization: non-negative
/// fields, and a count of one for a bare constant.
pub proof fn lemma_canonical_round_trip(d: Dice)
    requires
        d.count >= 0,
        d.sides >= 0,
        !d.is_dice ==> d.count == 1,
    ensures
        dice_tokens(canonical(d)) == seq![canonical(d)],
        normalized(canonical(d)) == Some(d),
{
    let t = canonical(d);
    lemma_digits_of(d.sides as int);
    if d.is_dice {
        let a = digits_of(d.count as int);
        let b = digits_of(d.sides as int);
        lemma_digits_of(d.count as int);
        lemma_normalize_count_and_sides(a, b);
        assert forall|k: int| 0 <= k < a.len() implies is_digit(#[trigger] t[k]) by {
            assert(t[k] == a[k]);
        }
        assert(t[a.len() as int] == 'd');
        lemma_digit_run_exact(t, 0, a.len() as int);
        assert forall|k: int| a.len() + 1 <= k < t.len() implies is_digit(#[trigger] t[k]) by {
            assert(t[k] == b[k - a.len() - 1]);
        }
        lemma_digit_run_exact(t, a.len() as int + 1, t.len() as int);
        assert(token_end(t, 0) == t.len());
        lemma_single_token(t);
    } else {
        lemma_normalize_bare_constant(t);
        lemma_digit_run_exact(t, 0, t.len() as int);
        assert(token_end(t, 0) == t.len());
        lemma_single_token(t);
    }
}

/// Law: a token that contains a `d` but no digit at all on either side
/// denotes no term.
pub proof fn lemma_normalize_no_digits(t: Seq<char>)
    requires
        first_d(t) < t.len(),
        forall|k: int| 0 <= k < t.len() ==> !is_digit(#[trigger] t[k]),
    ensures
        normalized(t) is None,
{
    lemma_first_d_from(t, 0);
    let p = first_d(t);
    let left = t.subrange(0, p);
    let right = t.subrange(p + 1, t.len() as int);
    if left.len() > 0 {
        assert(!is_digit(left[0]));
    }
    if right.len() > 0 {
        assert(!is_digit(right[0]));
    }
}

} // verus!
