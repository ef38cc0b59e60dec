use dice_query::tokens::{find_dice_tokens, find_operator_tokens};

#[test]
fn sample_expression_tokens() {
    let text = "1d6 + 3d4 * d20";
    assert_eq!(find_dice_tokens(text), vec!["1d6", "3d4", "d20"]);
    assert_eq!(find_operator_tokens(text), vec!["+", "*"]);
}

#[test]
fn empty_string_has_no_tokens() {
    assert_eq!(find_dice_tokens(""), Vec::<&str>::new());
    assert_eq!(find_operator_tokens(""), Vec::<&str>::new());
}

#[test]
fn no_matches_in_plain_text() {
    assert_eq!(find_dice_tokens("abc xyz"), Vec::<&str>::new());
    assert_eq!(find_operator_tokens("abc xyz"), Vec::<&str>::new());
}

#[test]
fn trailing_separator_stays_out_of_the_token() {
    // A token needs digits after its `d`; "12d" matches only as "12".
    assert_eq!(find_dice_tokens("12d"), vec!["12"]);
    assert_eq!(find_dice_tokens("12d+"), vec!["12"]);
}

#[test]
fn separator_needs_digits_somewhere() {
    assert_eq!(find_dice_tokens("d"), Vec::<&str>::new());
    assert_eq!(find_dice_tokens("dd6"), vec!["d6"]);
    assert_eq!(find_dice_tokens("1dd6"), vec!["1", "d6"]);
}

#[test]
fn all_four_operators_in_order() {
    let text = "1+2-3*4/5";
    assert_eq!(find_operator_tokens(text), vec!["+", "-", "*", "/"]);
    assert_eq!(find_dice_tokens(text), vec!["1", "2", "3", "4", "5"]);
}

#[test]
fn operators_without_spacing() {
    assert_eq!(find_dice_tokens("2d6+d4"), vec!["2d6", "d4"]);
    assert_eq!(find_operator_tokens("2d6+d4"), vec!["+"]);
}
