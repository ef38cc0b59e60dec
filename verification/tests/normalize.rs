use dice_query::dice::{parse_dice, Dice};
use dice_query::errors::ParseError;
use dice_query::tokens::find_dice_tokens;

#[test]
fn full_token_gives_count_and_sides() {
    assert_eq!(
        parse_dice("1d6"),
        Ok(Dice { sides: 6, count: 1, is_dice: true })
    );
    assert_eq!(
        parse_dice("3d4"),
        Ok(Dice { sides: 4, count: 3, is_dice: true })
    );
    assert_eq!(
        parse_dice("10d20"),
        Ok(Dice { sides: 20, count: 10, is_dice: true })
    );
}

#[test]
fn pure_digits_give_bare_constant() {
    assert_eq!(
        parse_dice("7"),
        Ok(Dice { sides: 7, count: 1, is_dice: false })
    );
    assert_eq!(
        parse_dice("0"),
        Ok(Dice { sides: 0, count: 1, is_dice: false })
    );
    assert_eq!(
        parse_dice("2147483647"),
        Ok(Dice { sides: 2147483647, count: 1, is_dice: false })
    );
}

#[test]
fn missing_count_defaults_to_one() {
    assert_eq!(
        parse_dice("d20"),
        Ok(Dice { sides: 20, count: 1, is_dice: true })
    );
    assert_eq!(
        parse_dice("d8"),
        Ok(Dice { sides: 8, count: 1, is_dice: true })
    );
}

#[test]
fn missing_sides_default_to_one() {
    assert_eq!(
        parse_dice("3d"),
        Ok(Dice { sides: 1, count: 3, is_dice: true })
    );
    assert_eq!(
        parse_dice("12d"),
        Ok(Dice { sides: 1, count: 12, is_dice: true })
    );
}

#[test]
fn no_digits_is_invalid() {
    assert_eq!(parse_dice("d"), Err(ParseError::InvalidDiceFormat));
    assert_eq!(parse_dice(""), Err(ParseError::InvalidDiceFormat));
    assert_eq!(parse_dice("xd"), Err(ParseError::InvalidDiceFormat));
    assert_eq!(parse_dice("dx"), Err(ParseError::InvalidDiceFormat));
}

#[test]
fn overflowing_part_counts_as_absent() {
    // One side past i32::MAX: the other side still carries the term.
    assert_eq!(
        parse_dice("3d99999999999"),
        Ok(Dice { sides: 1, count: 3, is_dice: true })
    );
    assert_eq!(
        parse_dice("99999999999d6"),
        Ok(Dice { sides: 6, count: 1, is_dice: true })
    );
    // Both sides past i32::MAX, or a bare constant past it: no term.
    assert_eq!(
        parse_dice("99999999999d99999999999"),
        Err(ParseError::InvalidDiceFormat)
    );
    assert_eq!(parse_dice("2147483648"), Err(ParseError::InvalidDiceFormat));
}

#[test]
fn round_trip_dice_term() {
    let d = parse_dice("3d4").unwrap();
    let canonical = format!("{}d{}", d.count, d.sides);
    assert_eq!(canonical, "3d4");
    let tokens = find_dice_tokens(&canonical);
    assert_eq!(tokens, vec!["3d4"]);
    assert_eq!(parse_dice(tokens[0]), Ok(d));
}

#[test]
fn round_trip_bare_constant() {
    let d = parse_dice("15").unwrap();
    let canonical = format!("{}", d.sides);
    assert_eq!(canonical, "15");
    let tokens = find_dice_tokens(&canonical);
    assert_eq!(tokens, vec!["15"]);
    assert_eq!(parse_dice(tokens[0]), Ok(d));
}

#[test]
fn round_trip_defaulted_sides() {
    let d = parse_dice("3d").unwrap();
    let canonical = format!("{}d{}", d.count, d.sides);
    assert_eq!(canonical, "3d1");
    let tokens = find_dice_tokens(&canonical);
    assert_eq!(tokens, vec!["3d1"]);
    assert_eq!(parse_dice(tokens[0]), Ok(d));
}

#[test]
fn round_trip_defaulted_count() {
    let d = parse_dice("d20").unwrap();
    let canonical = format!("{}d{}", d.count, d.sides);
    assert_eq!(canonical, "1d20");
    let tokens = find_dice_tokens(&canonical);
    assert_eq!(tokens, vec!["1d20"]);
    assert_eq!(parse_dice(tokens[0]), Ok(d));
}
