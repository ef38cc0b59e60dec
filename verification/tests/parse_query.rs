use dice_query::dice::Dice;
use dice_query::errors::ParseError;
use dice_query::query::{DiceQuery, QueryOperator};

#[test]
fn new_query_is_unparsed() {
    let q = DiceQuery::new("1d6");
    assert!(q.dice.is_empty());
    assert!(q.operations.is_empty());
    assert_eq!(q.result, -1);
}

#[test]
fn parse_sample_expression() {
    let mut q = DiceQuery::new("1d6 + 3d4 * d20");
    assert_eq!(q.parse_query(), Ok(()));
    assert_eq!(
        q.dice,
        vec![
            Dice { sides: 6, count: 1, is_dice: true },
            Dice { sides: 4, count: 3, is_dice: true },
            Dice { sides: 20, count: 1, is_dice: true },
        ]
    );
    assert_eq!(
        q.operations,
        vec![QueryOperator::Add, QueryOperator::Multiply]
    );
    assert_eq!(q.result, -1);
}

#[test]
fn parse_empty_string_succeeds_with_nothing() {
    let mut q = DiceQuery::new("");
    assert_eq!(q.parse_query(), Ok(()));
    assert!(q.dice.is_empty());
    assert!(q.operations.is_empty());
}

#[test]
fn parse_mixed_terms() {
    let mut q = DiceQuery::new("2d8 - 5");
    assert_eq!(q.parse_query(), Ok(()));
    assert_eq!(
        q.dice,
        vec![
            Dice { sides: 8, count: 2, is_dice: true },
            Dice { sides: 5, count: 1, is_dice: false },
        ]
    );
    assert_eq!(q.operations, vec![QueryOperator::Subtract]);
}

#[test]
fn invalid_token_aborts_whole_parse() {
    let mut q = DiceQuery::new("1d6 + 99999999999d99999999999");
    assert_eq!(q.parse_query(), Err(ParseError::InvalidDiceFormat));
    // No partial result is kept.
    assert!(q.dice.is_empty());
    assert!(q.operations.is_empty());
    assert_eq!(q.result, -1);
}

#[test]
fn operator_canonical_text() {
    assert_eq!(QueryOperator::Add.as_str(), "+");
    assert_eq!(QueryOperator::Subtract.as_str(), "-");
    assert_eq!(QueryOperator::Multiply.as_str(), "*");
    assert_eq!(QueryOperator::Divide.as_str(), "/");
}

#[test]
fn error_messages_name_the_failure() {
    assert_eq!(
        ParseError::InvalidDiceFormat.message(),
        "invalid dice format: expected digits on at least one side of 'd'"
    );
    assert_eq!(
        ParseError::PatternCompilationFailed.message(),
        "token pattern failed to compile"
    );
    assert_eq!(
        ParseError::UnrecognizedOperator.message(),
        "unrecognized operator: expected one of + - * /"
    );
}
