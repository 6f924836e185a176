//! The grammar of expressions.
//!
//! An expression is a chain of terms joined by `+`, `-` and `==`, which
//! all bind alike and group to the left. A term is a literal, a variable
//! or an expression in parentheses.

use crate::parser::ast::{BinaryVerb, ExpressionNode, SpecExpr, SpecTerm, TermNode};
use crate::parser::common::{
    is_reserved, lemma_parts_advance, lemma_token_bounds, parse_symbol, spells_reserved, symbol,
};
use crate::parser::lexer::{char_is_digit, char_is_name_start, is_digit, is_name_start, lemma_scan, scan, CharClass};
use crate::parser::syntax::{
    advanced, failure, token_start, word_end, Failure, Source, SyntaxError, SyntaxErrorKind,
};
use vstd::prelude::*;

verus! {

/// The number that a decimal digit stands for.
pub open spec fn digit_value(c: char) -> int {
    c as int - '0' as int
}

/// The number that a run of decimal digits stands for.
pub open spec fn decimal(digits: Seq<char>) -> int
    decreases digits.len(),
{
    if digits.len() == 0 {
        0
    } else {
        decimal(digits.drop_last()) * 10 + digit_value(digits.last())
    }
}

/// Whether an integer literal starts at `at`: a digit, or a sign with a
/// digit right behind it.
pub open spec fn number_starts(input: Seq<char>, at: int) -> bool {
    0 <= at < input.len() && (is_digit(input[at]) || ((input[at] == '+' || input[at] == '-') && at
        + 1 < input.len() && is_digit(input[at + 1])))
}

/// Where the integer literal that starts at `at` ends.
pub open spec fn number_end(input: Seq<char>, at: int) -> int {
    if is_digit(input[at]) {
        scan(input, at, CharClass::Digit)
    } else {
        scan(input, at + 1, CharClass::Digit)
    }
}

/// The integer literal that starts at `at`. Its value has to fit into 32
/// bits with sign.
pub open spec fn number(input: Seq<char>, at: int) -> Result<(SpecExpr, int), Failure> {
    let first = if is_digit(input[at]) {
        at
    } else {
        at + 1
    };
    let end = number_end(input, at);
    let magnitude = decimal(input.subrange(first, end));
    let value = if input[at] == '-' {
        -magnitude
    } else {
        magnitude
    };
    if i32::MIN <= value <= i32::MAX {
        Ok((SpecExpr::Term(SpecTerm::Integer(value as i32)), end))
    } else {
        Err(failure(SyntaxErrorKind::IntegerOutOfRange, at))
    }
}

/// The text literal whose opening quote stands at `at`: everything up to
/// the next quote, as it stands.
pub open spec fn string_literal(input: Seq<char>, at: int) -> Result<(SpecExpr, int), Failure> {
    let end = scan(input, at + 1, CharClass::Quoted);
    if end >= input.len() {
        Err(failure(SyntaxErrorKind::UnterminatedString, at))
    } else {
        Ok((SpecExpr::Term(SpecTerm::String(input.subrange(at + 1, end))), end + 1))
    }
}

/// The term that the word at `at` stands for: a truth value or a variable.
pub open spec fn word_term(input: Seq<char>, at: int) -> Result<(SpecExpr, int), Failure> {
    let end = word_end(input, at);
    let word = input.subrange(at, end);
    if word == "true"@ {
        Ok((SpecExpr::Term(SpecTerm::Boolean(true)), end))
    } else if word == "false"@ {
        Ok((SpecExpr::Term(SpecTerm::Boolean(false)), end))
    } else if is_reserved(word) {
        Err(failure(SyntaxErrorKind::ReservedWord, at))
    } else {
        Ok((SpecExpr::Term(SpecTerm::Variable(word)), end))
    }
}

/// The operator that stands as the next token, if one does.
pub open spec fn verb(input: Seq<char>, pos: int) -> Option<(BinaryVerb, int)> {
    let at = token_start(input, pos);
    if 0 <= at < input.len() && input[at] == '+' {
        Some((BinaryVerb::Plus, at + 1))
    } else if 0 <= at < input.len() && input[at] == '-' {
        Some((BinaryVerb::Minus, at + 1))
    } else if 0 <= at && at + 1 < input.len() && input[at] == '=' && input[at + 1] == '=' {
        Some((BinaryVerb::Compare, at + 2))
    } else {
        None
    }
}

/// A term as the next token or tokens.
pub open spec fn term(input: Seq<char>, pos: int) -> Result<(SpecExpr, int), Failure>
    decreases input.len() - pos, 0nat,
{
    let at = token_start(input, pos);
    if pos < 0 || at >= input.len() {
        Err(failure(SyntaxErrorKind::ExpectedExpression, at))
    } else if input[at] == '(' {
        proof {
            lemma_scan(input, pos, CharClass::Space);
        }
        match expr(input, at + 1) {
            Err(error) => Err(error),
            Ok((inner, after_inner)) => match symbol(
                input,
                after_inner,
                ')',
                SyntaxErrorKind::ExpectedCloseParen,
            ) {
                Err(error) => Err(error),
                Ok(end) => Ok((inner, end)),
            },
        }
    } else if input[at] == '"' {
        string_literal(input, at)
    } else if number_starts(input, at) {
        number(input, at)
    } else if is_name_start(input[at]) {
        word_term(input, at)
    } else {
        Err(failure(SyntaxErrorKind::ExpectedExpression, at))
    }
}

/// The chain of operators and terms that continues the expression `lhs`
/// from `pos` on. Each operator takes all that stands to its left as its
/// left operand.
pub open spec fn operations(input: Seq<char>, pos: int, lhs: SpecExpr) -> Result<
    (SpecExpr, int),
    Failure,
>
    decreases input.len() - pos, 1nat,
{
    match verb(input, pos) {
        Some((verb, after_verb)) if advanced(input, pos, after_verb) => match term(
            input,
            after_verb,
        ) {
            Err(error) => Err(error),
            Ok((rhs, end)) => if advanced(input, after_verb, end) {
                operations(
                    input,
                    end,
                    SpecExpr::BinaryOperation { verb, lhs: Box::new(lhs), rhs: Box::new(rhs) },
                )
            } else {
                Ok((lhs, pos))
            },
        },
        _ => Ok((lhs, pos)),
    }
}

/// An expression as the next tokens: a term and the chain that follows it.
pub open spec fn expr(input: Seq<char>, pos: int) -> Result<(SpecExpr, int), Failure>
    decreases input.len() - pos, 2nat,
{
    match term(input, pos) {
        Err(error) => Err(error),
        Ok((first, end)) => if advanced(input, pos, end) {
            operations(input, end, first)
        } else {
            Ok((first, end))
        },
    }
}

/// A digit stands for a number from 0 to 9.
pub proof fn lemma_digit_value(c: char)
    requires
        is_digit(c),
    ensures
        0 <= digit_value(c) <= 9,
{
}

/// Appending digits to a run does not make the number smaller.
pub proof fn lemma_decimal_grows(input: Seq<char>, first: int, middle: int, end: int)
    requires
        0 <= first <= middle <= end <= input.len(),
        forall|i: int| first <= i < end ==> is_digit(#[trigger] input[i]),
    ensures
        0 <= decimal(input.subrange(first, middle)) <= decimal(input.subrange(first, end)),
    decreases end - first,
{
    if first < end {
        let digits = input.subrange(first, end);
        assert(digits.drop_last() =~= input.subrange(first, end - 1));
        assert(digits.last() == input[end - 1]);
        lemma_digit_value(input[end - 1]);
        if middle < end {
            lemma_decimal_grows(input, first, middle, end - 1);
        } else {
            lemma_decimal_grows(input, first, end - 1, end - 1);
        }
    }
}

/// A term, a chain and an expression, where they are found, end behind
/// the position they were looked for from, inside the input.
pub proof fn lemma_term_advances(input: Seq<char>, pos: int)
    requires
        0 <= pos <= input.len(),
    ensures
        term(input, pos) matches Ok((_, end)) ==> advanced(input, pos, end),
    decreases input.len() - pos, 0nat,
{
    lemma_token_bounds(input, pos);
    let at = token_start(input, pos);
    if at < input.len() {
        if input[at] == '(' {
            lemma_expr_advances(input, at + 1);
            if let Ok((_, after_inner)) = expr(input, at + 1) {
                lemma_parts_advance(input, after_inner);
            }
        } else if input[at] == '"' {
            lemma_scan(input, at + 1, CharClass::Quoted);
        } else if number_starts(input, at) {
            if is_digit(input[at]) {
                lemma_scan(input, at, CharClass::Digit);
            } else {
                lemma_scan(input, at + 1, CharClass::Digit);
            }
        } else if is_name_start(input[at]) {
            lemma_scan(input, at, CharClass::Name);
        }
    }
}

/// See [`lemma_term_advances`].
pub proof fn lemma_operations_advance(input: Seq<char>, pos: int, lhs: SpecExpr)
    requires
        0 <= pos <= input.len(),
    ensures
        operations(input, pos, lhs) matches Ok((_, end)) ==> pos <= end <= input.len(),
    decreases input.len() - pos, 1nat,
{
    if let Some((verb, after_verb)) = verb(input, pos) {
        if advanced(input, pos, after_verb) {
            if let Ok((rhs, end)) = term(input, after_verb) {
                if advanced(input, after_verb, end) {
                    lemma_operations_advance(
                        input,
                        end,
                        SpecExpr::BinaryOperation { verb, lhs: Box::new(lhs), rhs: Box::new(rhs) },
                    );
                }
            }
        }
    }
}

/// See [`lemma_term_advances`].
pub proof fn lemma_expr_advances(input: Seq<char>, pos: int)
    requires
        0 <= pos <= input.len(),
    ensures
        expr(input, pos) matches Ok((_, end)) ==> advanced(input, pos, end),
    decreases input.len() - pos, 2nat,
{
    lemma_term_advances(input, pos);
    if let Ok((first, end)) = term(input, pos) {
        lemma_operations_advance(input, end, first);
    }
}

/// An expression is its first term and the chain behind it, and a chain
/// an operator, a term and the chain behind them: the rules read on from
/// where the rule before them ended, since that is always further on.
pub proof fn lemma_expr_unfolds(input: Seq<char>, pos: int, lhs: SpecExpr)
    requires
        0 <= pos <= input.len(),
    ensures
        expr(input, pos) == match term(input, pos) {
            Err(error) => Err(error),
            Ok((first, end)) => operations(input, end, first),
        },
        operations(input, pos, lhs) == match verb(input, pos) {
            None => Ok((lhs, pos)),
            Some((verb, after_verb)) => match term(input, after_verb) {
                Err(error) => Err(error),
                Ok((rhs, end)) => operations(
                    input,
                    end,
                    SpecExpr::BinaryOperation { verb, lhs: Box::new(lhs), rhs: Box::new(rhs) },
                ),
            },
        },
{
    lemma_term_advances(input, pos);
    lemma_token_bounds(input, pos);
    if let Some((_, after_verb)) = verb(input, pos) {
        lemma_term_advances(input, after_verb);
    }
}

/// Reads the integer literal that starts at `at`.
fn parse_number(source: &Source, at: usize) -> (result: Result<(ExpressionNode, usize), SyntaxError>)
    requires
        number_starts(source@, at as int),
    ensures
        match result {
            Ok((node, end)) => number(source@, at as int) == Ok::<(SpecExpr, int), Failure>(
                (node@, end as int),
            ) && at < end <= source@.len(),
            Err(error) => number(source@, at as int) == Err::<(SpecExpr, int), Failure>(error@) && error.position <= source@.len(),
        },
{
    let length = source.len();
    let negative = source.has_char(at, '-');
    let first = if char_is_digit(source.char_at(at)) {
        at
    } else {
        at + 1
    };
    let end = source.run_end(first, CharClass::Digit);
    proof {
        lemma_scan(source@, first as int, CharClass::Digit);
    }
    let mut magnitude: i64 = 0;
    let mut i: usize = first;
    while i < end
        invariant
            first <= i <= end <= source@.len(),
            at < source@.len(),
            first == if is_digit(source@[at as int]) { at as int } else { at + 1 },
            end == scan(source@, first as int, CharClass::Digit),
            negative == (source@[at as int] == '-'),
            forall|j: int| first <= j < end ==> is_digit(#[trigger] source@[j]),
            magnitude == decimal(source@.subrange(first as int, i as int)),
            0 <= magnitude <= 0x8000_0000,
        decreases end - i,
    {
        let c = source.char_at(i);
        proof {
            let digits = source@.subrange(first as int, i + 1);
            assert(digits.drop_last() =~= source@.subrange(first as int, i as int));
            assert(digits.last() == c);
            lemma_digit_value(c);
            assert(decimal(digits) == magnitude * 10 + digit_value(c));
            lemma_decimal_grows(source@, first as int, i + 1, end as int);
        }
        let digit = (c as u32 - '0' as u32) as i64;
        let next = magnitude * 10 + digit;
        if next > 0x8000_0000 {
            return Err(SyntaxError { kind: SyntaxErrorKind::IntegerOutOfRange, position: at });
        }
        magnitude = next;
        i += 1;
    }
    let value = if negative {
        -magnitude
    } else {
        magnitude
    };
    if value > 0x7fff_ffff {
        Err(SyntaxError { kind: SyntaxErrorKind::IntegerOutOfRange, position: at })
    } else {
        Ok((ExpressionNode::Term(TermNode::Integer(value as i32)), end))
    }
}

/// Reads the text literal whose opening quote stands at `at`.
fn parse_string_literal(source: &Source, at: usize) -> (result: Result<
    (ExpressionNode, usize),
    SyntaxError,
>)
    requires
        at < source@.len(),
    ensures
        match result {
            Ok((node, end)) => string_literal(source@, at as int) == Ok::<(SpecExpr, int), Failure>(
                (node@, end as int),
            ) && at < end <= source@.len(),
            Err(error) => string_literal(source@, at as int) == Err::<(SpecExpr, int), Failure>(
                error@,
            ) && error.position <= source@.len(),
        },
{
    let length = source.len();
    let end = source.run_end(at + 1, CharClass::Quoted);
    if end >= length {
        Err(SyntaxError { kind: SyntaxErrorKind::UnterminatedString, position: at })
    } else {
        Ok((ExpressionNode::Term(TermNode::String(source.slice(at + 1, end))), end + 1))
    }
}

/// Reads the word at `at` as a term.
fn parse_word_term(source: &Source, at: usize) -> (result: Result<
    (ExpressionNode, usize),
    SyntaxError,
>)
    requires
        at < source@.len(),
        is_name_start(source@[at as int]),
    ensures
        match result {
            Ok((node, end)) => word_term(source@, at as int) == Ok::<(SpecExpr, int), Failure>(
                (node@, end as int),
            ) && at < end <= source@.len(),
            Err(error) => word_term(source@, at as int) == Err::<(SpecExpr, int), Failure>(error@) && error.position <= source@.len(),
        },
{
    let end = source.word_end(at);
    proof {
        lemma_scan(source@, at as int, CharClass::Name);
    }
    if source.spells(at, end, "true") {
        Ok((ExpressionNode::Term(TermNode::Boolean(true)), end))
    } else if source.spells(at, end, "false") {
        Ok((ExpressionNode::Term(TermNode::Boolean(false)), end))
    } else if spells_reserved(source, at, end) {
        Err(SyntaxError { kind: SyntaxErrorKind::ReservedWord, position: at })
    } else {
        Ok((ExpressionNode::Term(TermNode::Variable(source.slice(at, end))), end))
    }
}

/// Reads an operator, if one is the next token.
fn parse_verb(source: &Source, pos: usize) -> (result: Option<(BinaryVerb, usize)>)
    requires
        pos <= source@.len(),
    ensures
        match result {
            Some((found, end)) => verb(source@, pos as int) == Some((found, end as int))
                && pos < end <= source@.len(),
            None => verb(source@, pos as int) is None,
        },
{
    let at = source.token_start(pos);
    if source.has_char(at, '+') {
        Some((BinaryVerb::Plus, at + 1))
    } else if source.has_char(at, '-') {
        Some((BinaryVerb::Minus, at + 1))
    } else if source.has_char(at, '=') && source.has_char(at + 1, '=') {
        Some((BinaryVerb::Compare, at + 2))
    } else {
        None
    }
}

/// Reads a term.
pub fn parse_term(source: &Source, pos: usize) -> (result: Result<
    (ExpressionNode, usize),
    SyntaxError,
>)
    requires
        pos <= source@.len(),
    ensures
        match result {
            Ok((node, end)) => term(source@, pos as int) == Ok::<(SpecExpr, int), Failure>(
                (node@, end as int),
            ) && pos < end <= source@.len(),
            Err(error) => term(source@, pos as int) == Err::<(SpecExpr, int), Failure>(error@) && error.position <= source@.len(),
        },
    decreases source@.len() - pos, 0nat,
{
    let at = source.token_start(pos);
    if at >= source.len() {
        return Err(SyntaxError { kind: SyntaxErrorKind::ExpectedExpression, position: at });
    }
    let c = source.char_at(at);
    if c == '(' {
        let (inner, after_inner) = match parse_expr(source, at + 1) {
            Ok(found) => found,
            Err(error) => {
                return Err(error);
            },
        };
        match parse_symbol(source, after_inner, ')', SyntaxErrorKind::ExpectedCloseParen) {
            Ok(end) => Ok((inner, end)),
            Err(error) => Err(error),
        }
    } else if c == '"' {
        parse_string_literal(source, at)
    } else if char_is_digit(c) || ((c == '+' || c == '-') && at + 1 < source.len()
        && char_is_digit(source.char_at(at + 1))) {
        parse_number(source, at)
    } else if char_is_name_start(c) {
        parse_word_term(source, at)
    } else {
        Err(SyntaxError { kind: SyntaxErrorKind::ExpectedExpression, position: at })
    }
}

/// Reads an expression.
pub fn parse_expr(source: &Source, pos: usize) -> (result: Result<
    (ExpressionNode, usize),
    SyntaxError,
>)
    requires
        pos <= source@.len(),
    ensures
        match result {
            Ok((node, end)) => expr(source@, pos as int) == Ok::<(SpecExpr, int), Failure>(
                (node@, end as int),
            ) && pos < end <= source@.len(),
            Err(error) => expr(source@, pos as int) == Err::<(SpecExpr, int), Failure>(error@) && error.position <= source@.len(),
        },
    decreases source@.len() - pos, 2nat,
{
    let (first, after_first) = match parse_term(source, pos) {
        Ok(found) => found,
        Err(error) => {
            return Err(error);
        },
    };
    let mut lhs = first;
    let mut end = after_first;
    loop
        invariant
            pos < end <= source@.len(),
            operations(source@, end as int, lhs@) == expr(source@, pos as int),
        decreases source@.len() - end,
    {
        let (verb, after_verb) = match parse_verb(source, end) {
            Some(found) => found,
            None => {
                return Ok((lhs, end));
            },
        };
        let (rhs, after_rhs) = match parse_term(source, after_verb) {
            Ok(found) => found,
            Err(error) => {
                return Err(error);
            },
        };
        lhs = ExpressionNode::BinaryOperation { verb, lhs: Box::new(lhs), rhs: Box::new(rhs) };
        end = after_rhs;
    }
}

} // verus!
