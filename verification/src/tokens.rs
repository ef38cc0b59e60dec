//! Tokenizing: extracting the two token streams from a raw query string.
//!
//! A dice token is a maximal substring of the shape "zero or more digits,
//! then an optional `d` followed by one or more digits" — that is, either a
//! bare integer, or an optional count, a `d`, and a side count. The scan is
//! left to right and matches are never empty and never overlap. An operator
//! token is any one of the characters `+`, `-`, `*`, `/`, in source order.
//! The two streams are extracted independently.
use vstd::prelude::*;

use crate::numbers::is_digit;

verus! {

/// The end of the maximal run of digits starting at position `i`.
pub open spec fn digit_run_end(s: Seq<char>, i: int) -> int
    recommends
        0 <= i <= s.len(),
    decreases s.len() - i when 0 <= i <= s.len()
{
    if i < s.len() && is_digit(s[i]) {
        digit_run_end(s, i + 1)
    } else {
        i
    }
}

/// The end of the dice token starting at position `i`, or `i` itself when no
/// token starts there. A token is a digit run, optionally extended by a `d`
/// and a second, non-empty digit run; a lone digit run before a `d` with no
/// digits after it stops before the `d`.
pub open spec fn token_end(s: Seq<char>, i: int) -> int
    recommends
        0 <= i <= s.len(),
{
    let a = digit_run_end(s, i);
    if a < s.len() && s[a] == 'd' && a + 1 < s.len() && is_digit(s[a + 1]) {
        digit_run_end(s, a + 1)
    } else {
        a
    }
}

/// The dice tokens of `s` at or after position `i`: the scan takes the token
/// at each position where one starts, skips past it, and moves one character
/// forward where none does.
pub open spec fn dice_tokens_from(s: Seq<char>, i: int) -> Seq<Seq<char>>
    decreases s.len() - i when 0 <= i <= s.len()
{
    if i >= s.len() {
        Seq::empty()
    } else {
        let e = token_end(s, i);
        if i < e <= s.len() {
            seq![s.subrange(i, e)] + dice_tokens_from(s, e)
        } else {
            dice_tokens_from(s, i + 1)
        }
    }
}

/// All dice tokens of `s`, in source order.
pub open spec fn dice_tokens(s: Seq<char>) -> Seq<Seq<char>> {
    dice_tokens_from(s, 0)
}

/// An arithmetic operator character.
pub open spec fn is_operator_char(c: char) -> bool {
    c == '+' || c == '-' || c == '*' || c == '/'
}

/// The operator characters of `s`, in source order.
pub open spec fn operator_chars(s: Seq<char>) -> Seq<char>
    decreases s.len(),
{
    if s.len() == 0 {
        Seq::empty()
    } else if is_operator_char(s.last()) {
        operator_chars(s.drop_last()).push(s.last())
    } else {
        operator_chars(s.drop_last())
    }
}

/// Every character of the operator stream is an operator character.
pub proof fn lemma_operator_chars(s: Seq<char>)
    ensures
        forall|k: int|
            0 <= k < operator_chars(s).len() ==> is_operator_char(
                #[trigger] operator_chars(s)[k],
            ),
    decreases s.len(),
{
    if s.len() > 0 {
        lemma_operator_chars(s.drop_last());
        let rest = operator_chars(s.drop_last());
        if is_operator_char(s.last()) {
            assert(operator_chars(s) == rest.push(s.last()));
            assert forall|k: int| 0 <= k < operator_chars(s).len() implies is_operator_char(
                #[trigger] operator_chars(s)[k],
            ) by {
                if k < rest.len() {
                    assert(operator_chars(s)[k] == rest[k]);
                } else {
                    assert(operator_chars(s)[k] == s.last());
                }
            }
        }
    }
}

/// A digit run ends exactly at the first position that is past a stretch of
/// digits and holds no digit.
pub proof fn lemma_digit_run_exact(s: Seq<char>, i: int, j: int)
    requires
        0 <= i <= j <= s.len(),
        forall|k: int| i <= k < j ==> is_digit(#[trigger] s[k]),
        j == s.len() || !is_digit(s[j]),
    ensures
        digit_run_end(s, i) == j,
    decreases j - i,
{
    if i < j {
        lemma_digit_run_exact(s, i + 1, j);
    }
}

/// A non-empty string that is one whole token tokenizes to itself alone.
pub proof fn lemma_single_token(s: Seq<char>)
    requires
        s.len() > 0,
        token_end(s, 0) == s.len(),
    ensures
        dice_tokens(s) == seq![s],
{
    assert(s.subrange(0, s.len() as int) =~= s);
    assert(dice_tokens_from(s, s.len() as int) =~= Seq::<Seq<char>>::empty());
    assert(dice_tokens(s) =~= seq![s]);
}

/// Returns the end of the maximal digit run of `text` starting at `start`.
fn digit_run(text: &str, start: usize, n: usize) -> (e: usize)
    requires
        start <= n,
        n == text@.len(),
    ensures
        e == digit_run_end(text@, start as int),
        start <= e <= n,
{
    let mut j: usize = start;
    while j < n
        invariant_except_break
            start <= j <= n,
            n == text@.len(),
            digit_run_end(text@, start as int) == digit_run_end(text@, j as int),
        ensures
            start <= j <= n,
            digit_run_end(text@, start as int) == j,
        decreases n - j,
    {
        let c = text.get_char(j);
        if !(c >= '0' && c <= '9') {
            assert(digit_run_end(text@, j as int) == j);
            break;
        }
        j = j + 1;
    }
    j
}

/// Extracts the dice tokens of `text`, in source order, each as a substring.
pub fn find_dice_tokens<'a>(text: &'a str) -> (r: Vec<&'a str>)
    ensures
        r@.len() == dice_tokens(text@).len(),
        forall|k: int| 0 <= k < r@.len() ==> #[trigger] r@[k]@ == dice_tokens(text@)[k],
{
    let n = text.unicode_len();
    let mut r: Vec<&'a str> = Vec::new();
    let ghost mut done: Seq<Seq<char>> = Seq::empty();
    let mut i: usize = 0;
    while i < n
        invariant
            0 <= i <= n,
            n == text@.len(),
            dice_tokens(text@) == done + dice_tokens_from(text@, i as int),
            r@.len() == done.len(),
            forall|k: int| 0 <= k < r@.len() ==> #[trigger] r@[k]@ == done[k],
        decreases n - i,
    {
        let a = digit_run(text, i, n);
        let mut e = a;
        if a < n {
            let c = text.get_char(a);
            if c == 'd' && a + 1 < n {
                let c2 = text.get_char(a + 1);
                if c2 >= '0' && c2 <= '9' {
                    e = digit_run(text, a + 1, n);
                }
            }
        }
        assert(e == token_end(text@, i as int));
        if e > i {
            let tok = text.substring_char(i, e);
            r.push(tok);
            proof {
                done = done.push(tok@);
                assert(dice_tokens(text@) =~= done + dice_tokens_from(text@, e as int));
            }
            i = e;
        } else {
            assert(dice_tokens_from(text@, i as int) == dice_tokens_from(text@, i + 1));
            i = i + 1;
        }
    }
    proof {
        assert(dice_tokens(text@) =~= done);
    }
    r
}

/// Extracts the operator tokens of `text`, in source order, each as a
/// single-character substring.
pub fn find_operator_tokens<'a>(text: &'a str) -> (r: Vec<&'a str>)
    ensures
        r@.len() == operator_chars(text@).len(),
        forall|k: int| 0 <= k < r@.len() ==> #[trigger] r@[k]@ == seq![operator_chars(text@)[k]],
{
    let n = text.unicode_len();
    let mut r: Vec<&'a str> = Vec::new();
    let mut i: usize = 0;
    while i < n
        invariant
            0 <= i <= n,
            n == text@.len(),
            r@.len() == operator_chars(text@.subrange(0, i as int)).len(),
            forall|k: int| 0 <= k < r@.len() ==> #[trigger] r@[k]@ == seq![
                operator_chars(text@.subrange(0, i as int))[k],
            ],
        decreases n - i,
    {
        let c = text.get_char(i);
        proof {
            assert(text@.subrange(0, i + 1).drop_last() =~= text@.subrange(0, i as int));
        }
        if c == '+' || c == '-' || c == '*' || c == '/' {
            let tok = text.substring_char(i, i + 1);
            proof {
                assert(tok@ =~= seq![text@[i as int]]);
            }
            r.push(tok);
        }
        i = i + 1;
    }
    proof {
        assert(text@.subrange(0, n as int) =~= text@);
    }
    r
}

} // verus!
