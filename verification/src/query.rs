//! One parse job over one query string: the query container, the operator
//! enumeration, and the parse that fills the container from its source text.
use vstd::prelude::*;

use crate::dice::Dice;
use crate::dice::normalized;
use crate::dice::parse_dice;
use crate::errors::ParseError;
use crate::tokens::dice_tokens;
use crate::tokens::find_dice_tokens;
use crate::tokens::find_operator_tokens;
use crate::tokens::is_operator_char;
use crate::tokens::lemma_operator_chars;
use crate::tokens::operator_chars;

verus! {

/// One of the four arithmetic operators a query may connect its terms with.
#[derive(Clone, Copy, PartialEq, Eq, Structural, Debug)]
pub enum QueryOperator {
    Add,
    Subtract,
    Multiply,
    Divide,
}

/// The operator denoted by one operator character.
pub open spec fn operator_of_char(c: char) -> QueryOperator
    recommends
        is_operator_char(c),
{
    if c == '+' {
        QueryOperator::Add
    } else if c == '-' {
        QueryOperator::Subtract
    } else if c == '*' {
        QueryOperator::Multiply
    } else {
        QueryOperator::Divide
    }
}

impl QueryOperator {
    /// The operator's canonical single-character text.
    pub open spec fn spec_char(&self) -> char {
        match self {
            QueryOperator::Add => '+',
            QueryOperator::Subtract => '-',
            QueryOperator::Multiply => '*',
            QueryOperator::Divide => '/',
        }
    }

    /// The operator's canonical textual form.
    pub fn as_str(&self) -> (r: &'static str)
        ensures
            r@ == seq![self.spec_char()],
    {
        proof {
            reveal_strlit("+");
            reveal_strlit("-");
            reveal_strlit("*");
            reveal_strlit("/");
        }
        let r = match self {
            QueryOperator::Add => "+",
            QueryOperator::Subtract => "-",
            QueryOperator::Multiply => "*",
            QueryOperator::Divide => "/",
        };
        proof {
            assert(r@ =~= seq![self.spec_char()]);
        }
        r
    }
}

/// One parse job over one query string. `parse_query` fills `dice` and
/// `operations` from `query`; `result` is a placeholder for a later
/// evaluator and stays at its unset sentinel of -1 here.
pub struct DiceQuery<'a> {
    /// The dice terms of the query, in source order.
    pub dice: Vec<Dice>,
    /// The operators of the query, in source order.
    pub operations: Vec<QueryOperator>,
    /// The query's numeric result; -1 until an evaluator sets it.
    pub result: i32,
    /// The source text the terms and operators come from.
    pub query: &'a str,
}

impl<'a> DiceQuery<'a> {
    /// Builds an unparsed query over `query`: no terms, no operators, and an
    /// unset result.
    pub fn new(query: &'a str) -> (r: DiceQuery<'a>)
        ensures
            r.dice@ == Seq::<Dice>::empty(),
            r.operations@ == Seq::<QueryOperator>::empty(),
            r.result == -1,
            r.query == query,
    {
        let r = DiceQuery { dice: Vec::<Dice>::new(), operations: Vec::<QueryOperator>::new(), result: -1, query };
        proof {
            assert(r.dice@ =~= Seq::<Dice>::empty());
            assert(r.operations@ =~= Seq::<QueryOperator>::empty());
        }
        r
    }

    /// Parses the source text: fills `dice` with the dice term of each dice
    /// token and `operations` with the operator of each operator token, both
    /// in source order and extracted independently, and leaves the text and
    /// the result untouched. Succeeds exactly when every dice token denotes
    /// a term; one that does not makes the whole parse an
    /// `InvalidDiceFormat` error that leaves the container unchanged — no
    /// partial result is kept.
    pub fn parse_query(&mut self) -> (r: Result<(), ParseError>)
        ensures
            ({
                let toks = dice_tokens(old(self).query@);
                let ops = operator_chars(old(self).query@);
                match r {
                    Ok(()) => {
                        &&& forall|k: int| 0 <= k < toks.len() ==> (#[trigger] normalized(toks[k])) is Some
                        &&& final(self).dice@.len() == toks.len()
                        &&& forall|k: int|
                            0 <= k < toks.len() ==> Some(#[trigger] final(self).dice@[k])
                                == normalized(toks[k])
                        &&& final(self).operations@.len() == ops.len()
                        &&& forall|k: int|
                            0 <= k < ops.len() ==> #[trigger] final(self).operations@[k]
                                == operator_of_char(ops[k])
                        &&& final(self).query == old(self).query
                        &&& final(self).result == old(self).result
                    },
                    Err(e) => {
                        &&& e == ParseError::InvalidDiceFormat
                        &&& exists|k: int|
                            0 <= k < toks.len() && (#[trigger] normalized(toks[k])) is None
                        &&& *final(self) == *old(self)
                    },
                }
            }),
    {
        let q = self.query;
        let tokens = find_dice_tokens(q);
        let mut dice: Vec<Dice> = Vec::new();
        let mut i: usize = 0;
        while i < tokens.len()
            invariant
                q == old(self).query,
                0 <= i <= tokens@.len(),
                tokens@.len() == dice_tokens(q@).len(),
                forall|k: int|
                    0 <= k < tokens@.len() ==> #[trigger] tokens@[k]@ == dice_tokens(q@)[k],
                dice@.len() == i,
                forall|k: int|
                    0 <= k < i ==> Some(dice@[k]) == #[trigger] normalized(dice_tokens(q@)[k]),
            decreases tokens@.len() - i,
        {
            match parse_dice(tokens[i]) {
                Ok(d) => {
                    dice.push(d);
                },
                Err(e) => {
                    assert(normalized(dice_tokens(q@)[i as int]) is None);
                    return Err(e);
                },
            }
            i = i + 1;
        }
        let ops = find_operator_tokens(q);
        let mut operations: Vec<QueryOperator> = Vec::new();
        let mut j: usize = 0;
        proof {
            lemma_operator_chars(q@);
        }
        while j < ops.len()
            invariant
                q == old(self).query,
                0 <= j <= ops@.len(),
                ops@.len() == operator_chars(q@).len(),
                forall|k: int|
                    0 <= k < ops@.len() ==> #[trigger] ops@[k]@ == seq![operator_chars(q@)[k]],
                forall|k: int|
                    0 <= k < ops@.len() ==> is_operator_char(#[trigger] operator_chars(q@)[k]),
                operations@.len() == j,
                forall|k: int|
                    0 <= k < j ==> #[trigger] operations@[k] == operator_of_char(
                        operator_chars(q@)[k],
                    ),
            decreases ops@.len() - j,
        {
            let t = ops[j];
            assert(t@.len() == 1);
            let c = t.get_char(0);
            let op = if c == '*' {
                QueryOperator::Multiply
            } else if c == '/' {
                QueryOperator::Divide
            } else if c == '-' {
                QueryOperator::Subtract
            } else {
                assert(c == '+');
                QueryOperator::Add
            };
            operations.push(op);
            j = j + 1;
        }
        self.dice = dice;
        self.operations = operations;
        Ok(())
    }
}

} // verus!
