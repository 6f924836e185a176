//! Laws of the grammar: what is written is read back.

use crate::parser::ast::{SpecExpr, SpecTerm};
use crate::parser::common::symbol;
use crate::parser::expression::{
    decimal, digit_value, expr, lemma_expr_unfolds, number, number_starts, operations, term, verb,
};
use crate::parser::lexer::{in_class, is_digit, lemma_scan_finds_run, CharClass};
use crate::parser::source::{expr_source, is_name, is_writable_expr, verb_source};
use crate::parser::syntax::{stands_at, token_start, word_end, Failure, SyntaxErrorKind};
use crate::text::{digit_text, integer_text, natural_text};
use vstd::prelude::*;

verus! {

/// Whether a word or a number that ends at `end` ends there for the
/// grammar too: the input ends, or goes on with a character that no word
/// and no number holds.
pub open spec fn ends_token(input: Seq<char>, end: int) -> bool {
    end == input.len() || (0 <= end < input.len() && !in_class(CharClass::Name, input[end]))
}

/// Where a text stands, each of its characters stands.
pub proof fn lemma_stands_at(input: Seq<char>, at: int, text: Seq<char>)
    requires
        stands_at(input, at, text),
    ensures
        0 <= at,
        at + text.len() <= input.len(),
        forall|i: int| 0 <= i < text.len() ==> #[trigger] input[at + i] == text[i],
{
    assert forall|i: int| 0 <= i < text.len() implies #[trigger] input[at + i] == text[i] by {
        assert(input.subrange(at, at + text.len())[i] == input[at + i]);
    }
}

/// Where two texts stand one behind the other, each of them stands.
pub proof fn lemma_stands_at_split(input: Seq<char>, at: int, first: Seq<char>, second: Seq<char>)
    requires
        stands_at(input, at, first + second),
    ensures
        stands_at(input, at, first),
        stands_at(input, at + first.len(), second),
{
    lemma_stands_at(input, at, first + second);
    assert forall|i: int| 0 <= i < first.len() implies input[at + i] == first[i] by {
        assert((first + second)[i] == first[i]);
    }
    assert forall|i: int| 0 <= i < second.len() implies input[at + first.len() + i]
        == second[i] by {
        assert((first + second)[first.len() + i] == second[i]);
        assert(input[at + (first.len() + i)] == (first + second)[first.len() + i]);
    }
    assert(input.subrange(at, at + first.len()) =~= first);
    assert(input.subrange(at + first.len(), at + first.len() + second.len()) =~= second);
}

/// A token starts where it is looked for, unless white space stands there.
pub proof fn lemma_token_starts_here(input: Seq<char>, at: int)
    requires
        0 <= at <= input.len(),
        at < input.len() ==> !in_class(CharClass::Space, input[at]),
    ensures
        token_start(input, at) == at,
{
}

/// A token behind one space starts behind the space.
pub proof fn lemma_token_starts_behind_space(input: Seq<char>, at: int)
    requires
        0 <= at < input.len(),
        input[at] == ' ',
        at + 1 < input.len() ==> !in_class(CharClass::Space, input[at + 1]),
    ensures
        token_start(input, at) == at + 1,
{
    lemma_token_starts_here(input, at + 1);
}

/// The text of a digit is one character, the digit itself.
pub proof fn lemma_digit_text(digit: int)
    requires
        0 <= digit <= 9,
    ensures
        digit_text(digit).len() == 1,
        is_digit(digit_text(digit)[0]),
        digit_value(digit_text(digit)[0]) == digit,
{
    reveal_strlit("0");
    reveal_strlit("1");
    reveal_strlit("2");
    reveal_strlit("3");
    reveal_strlit("4");
    reveal_strlit("5");
    reveal_strlit("6");
    reveal_strlit("7");
    reveal_strlit("8");
    reveal_strlit("9");
}

/// The decimal text of a natural number is a run of digits, at least one,
/// that stands for the number.
pub proof fn lemma_natural_text(n: nat)
    ensures
        natural_text(n).len() >= 1,
        forall|i: int| 0 <= i < natural_text(n).len() ==> is_digit(#[trigger] natural_text(n)[i]),
        decimal(natural_text(n)) == n,
    decreases n,
{
    let text = natural_text(n);
    if n < 10 {
        lemma_digit_text(n as int);
        assert(text.drop_last() =~= Seq::<char>::empty());
        assert(decimal(text.drop_last()) == 0);
    } else {
        lemma_natural_text(n / 10);
        lemma_digit_text((n % 10) as int);
        let head = natural_text(n / 10);
        let last = digit_text((n % 10) as int);
        assert(text == head + last);
        assert(text.drop_last() =~= head);
        assert(text.last() == last[0]);
    }
}

/// The text of an integer is read back as the literal of that integer.
pub proof fn lemma_integer_reads_back(input: Seq<char>, at: int, value: i32)
    requires
        stands_at(input, at, integer_text(value as int)),
        ends_token(input, at + integer_text(value as int).len()),
    ensures
        term(input, at) == Ok::<(SpecExpr, int), Failure>(
            (SpecExpr::Term(SpecTerm::Integer(value)), at + integer_text(value as int).len()),
        ),
{
    let written = integer_text(value as int);
    let end = at + written.len();
    lemma_stands_at(input, at, written);
    let magnitude: nat = if value < 0 {
        (-value) as nat
    } else {
        value as nat
    };
    let digits = natural_text(magnitude);
    lemma_natural_text(magnitude);
    reveal_strlit("-");
    let first: int = if value < 0 {
        at + 1
    } else {
        at
    };
    assert(end == first + digits.len());
    assert forall|i: int| first <= i < end implies is_digit(#[trigger] input[i]) by {
        assert(input[at + (i - at)] == written[i - at]);
        assert(written[i - at] == digits[i - first]);
    }
    assert(is_digit(input[first]));
    assert(input[at + 0] == written[0]);
    if value < 0 {
        assert(input[at] == '-');
    }
    lemma_token_starts_here(input, at);
    assert(number_starts(input, at));
    lemma_scan_finds_run(input, first, end, CharClass::Digit);
    if value < 0 {
        lemma_stands_at_split(input, at, "-"@, digits);
    }
    assert(input.subrange(first, end) == digits);
}

/// What is written is read back: the decimal text of a 32-bit integer,
/// where no letter, digit or underscore follows it, is read as the
/// literal of that integer.
pub proof fn lemma_written_integer_reads_back(value: i32, following: Seq<char>)
    requires
        following.len() == 0 || !in_class(CharClass::Name, following[0]),
    ensures
        term(integer_text(value as int) + following, 0) == Ok::<(SpecExpr, int), Failure>(
            (SpecExpr::Term(SpecTerm::Integer(value)), integer_text(value as int).len() as int),
        ),
{
    let written = integer_text(value as int);
    let input = written + following;
    assert(input.subrange(0, written.len() as int) =~= written);
    if following.len() > 0 {
        assert(input[written.len() as int] == following[0]);
    }
    lemma_integer_reads_back(input, 0, value);
}

/// The text of a truth value is read back as its literal.
pub proof fn lemma_boolean_reads_back(input: Seq<char>, at: int, value: bool)
    requires
        stands_at(input, at, expr_source(SpecExpr::Term(SpecTerm::Boolean(value)))),
        ends_token(input, at + expr_source(SpecExpr::Term(SpecTerm::Boolean(value))).len()),
    ensures
        term(input, at) == Ok::<(SpecExpr, int), Failure>(
            (
                SpecExpr::Term(SpecTerm::Boolean(value)),
                at + expr_source(SpecExpr::Term(SpecTerm::Boolean(value))).len(),
            ),
        ),
{
    let written = expr_source(SpecExpr::Term(SpecTerm::Boolean(value)));
    let end = at + written.len();
    reveal_strlit("true");
    reveal_strlit("false");
    lemma_stands_at(input, at, written);
    assert(input[at + 0] == written[0]);
    assert forall|i: int| at <= i < end implies in_class(CharClass::Name, #[trigger] input[i]) by {
        assert(input[at + (i - at)] == written[i - at]);
    }
    lemma_token_starts_here(input, at);
    lemma_scan_finds_run(input, at, end, CharClass::Name);
    assert("true"@ != "false"@);
}

/// A name is read back as the variable of that name.
pub proof fn lemma_variable_reads_back(input: Seq<char>, at: int, name: Seq<char>)
    requires
        is_name(name),
        stands_at(input, at, name),
        ends_token(input, at + name.len()),
    ensures
        term(input, at) == Ok::<(SpecExpr, int), Failure>(
            (SpecExpr::Term(SpecTerm::Variable(name)), at + name.len()),
        ),
        word_end(input, at) == at + name.len(),
        token_start(input, at) == at,
{
    let end = at + name.len();
    lemma_stands_at(input, at, name);
    assert(input[at + 0] == name[0]);
    assert forall|i: int| at <= i < end implies in_class(CharClass::Name, #[trigger] input[i]) by {
        assert(input[at + (i - at)] == name[i - at]);
    }
    lemma_token_starts_here(input, at);
    lemma_scan_finds_run(input, at, end, CharClass::Name);
}

/// A text between double quotes, with none inside, is read back as the
/// literal of that text.
pub proof fn lemma_string_reads_back(input: Seq<char>, at: int, text: Seq<char>)
    requires
        forall|i: int| 0 <= i < text.len() ==> #[trigger] text[i] != '"',
        stands_at(input, at, expr_source(SpecExpr::Term(SpecTerm::String(text)))),
    ensures
        term(input, at) == Ok::<(SpecExpr, int), Failure>(
            (SpecExpr::Term(SpecTerm::String(text)), at + text.len() + 2),
        ),
{
    let written = seq!['"'] + text + seq!['"'];
    lemma_stands_at(input, at, written);
    assert(input[at + 0] == written[0]);
    assert(input[at + (text.len() + 1)] == written[text.len() as int + 1]);
    assert forall|i: int| at + 1 <= i < at + 1 + text.len() implies in_class(
        CharClass::Quoted,
        #[trigger] input[i],
    ) by {
        assert(input[at + (i - at)] == written[i - at]);
        assert(written[i - at] == text[i - at - 1]);
    }
    lemma_token_starts_here(input, at);
    lemma_scan_finds_run(input, at + 1, at + 1 + text.len(), CharClass::Quoted);
    lemma_stands_at_split(input, at, seq!['"'] + text, seq!['"']);
    lemma_stands_at_split(input, at, seq!['"'], text);
    assert(input.subrange(at + 1, at + 1 + text.len()) == text);
}

/// The text of an expression is not empty and starts with a character of
/// its first token: it starts with no white space and with no parenthesis.
pub proof fn lemma_expr_source_starts(tree: SpecExpr)
    requires
        is_writable_expr(tree),
    ensures
        expr_source(tree).len() >= 1,
        !in_class(CharClass::Space, expr_source(tree)[0]),
        expr_source(tree)[0] != '(',
        expr_source(tree)[0] != '{',
        expr_source(tree)[0] != '}',
    decreases tree,
{
    match tree {
        SpecExpr::Term(SpecTerm::Variable(name)) => {},
        SpecExpr::Term(SpecTerm::Boolean(value)) => {
            reveal_strlit("true");
            reveal_strlit("false");
        },
        SpecExpr::Term(SpecTerm::Integer(value)) => {
            reveal_strlit("-");
            if value < 0 {
                lemma_natural_text((-value) as nat);
            } else {
                lemma_natural_text(value as nat);
            }
        },
        SpecExpr::Term(SpecTerm::String(text)) => {},
        SpecExpr::BinaryOperation { verb, lhs, rhs } => {
            lemma_expr_source_starts(*lhs);
            assert(expr_source(tree)[0] == expr_source(*lhs)[0]);
        },
    }
}

/// A term that is no operation is read back from its text.
pub proof fn lemma_term_reads_back(input: Seq<char>, at: int, tree: SpecExpr)
    requires
        tree is Term,
        is_writable_expr(tree),
        stands_at(input, at, expr_source(tree)),
        ends_token(input, at + expr_source(tree).len()),
    ensures
        term(input, at) == Ok::<(SpecExpr, int), Failure>((tree, at + expr_source(tree).len())),
{
    match tree {
        SpecExpr::Term(SpecTerm::Variable(name)) => {
            lemma_variable_reads_back(input, at, name);
        },
        SpecExpr::Term(SpecTerm::Boolean(value)) => {
            lemma_boolean_reads_back(input, at, value);
        },
        SpecExpr::Term(SpecTerm::Integer(value)) => {
            lemma_integer_reads_back(input, at, value);
        },
        SpecExpr::Term(SpecTerm::String(text)) => {
            lemma_string_reads_back(input, at, text);
        },
        _ => {},
    }
}

/// Reading the text of an expression arrives behind the text with the
/// expression in hand, whatever follows: from there the grammar looks for
/// operators that continue it.
pub proof fn lemma_expr_reads(input: Seq<char>, at: int, tree: SpecExpr)
    requires
        is_writable_expr(tree),
        stands_at(input, at, expr_source(tree)),
        ends_token(input, at + expr_source(tree).len()),
    ensures
        expr(input, at) == operations(input, at + expr_source(tree).len(), tree),
    decreases tree,
{
    let written = expr_source(tree);
    let end = at + written.len();
    lemma_stands_at(input, at, written);
    match tree {
        SpecExpr::Term(_) => {
            lemma_term_reads_back(input, at, tree);
            lemma_expr_unfolds(input, at, tree);
        },
        SpecExpr::BinaryOperation { verb: operator, lhs, rhs } => {
            let left = expr_source(*lhs);
            let sign = verb_source(operator);
            let operand = if *rhs is BinaryOperation {
                seq!['('] + expr_source(*rhs) + seq![')']
            } else {
                expr_source(*rhs)
            };
            let space = seq![' '];
            assert(written == left + space + sign + space + operand);
            lemma_stands_at_split(input, at, left + space + sign + space, operand);
            lemma_stands_at_split(input, at, left + space + sign, space);
            lemma_stands_at_split(input, at, left + space, sign);
            lemma_stands_at_split(input, at, left, space);
            let after_left = at + left.len();
            let at_sign = after_left + 1;
            let after_sign = at_sign + sign.len();
            let at_operand = after_sign + 1;
            lemma_stands_at(input, after_left, space);
            lemma_stands_at(input, at_sign, sign);
            lemma_stands_at(input, after_sign, space);
            lemma_stands_at(input, at_operand, operand);
            assert(input[after_left + 0] == space[0]);
            assert(input[after_sign + 0] == space[0]);
            assert(input[at_sign + 0] == sign[0]);
            if operator is Compare {
                assert(input[at_sign + 1] == sign[1]);
            }
            lemma_expr_source_starts(*rhs);
            assert(input[at_operand + 0] == operand[0]);
            // The left operand, then the operator behind one space.
            lemma_expr_reads(input, at, *lhs);
            lemma_expr_unfolds(input, after_left, *lhs);
            lemma_token_starts_behind_space(input, after_left);
            assert(verb(input, after_left) == Some((operator, after_sign)));
            // The right operand behind one space.
            lemma_token_starts_behind_space(input, after_sign);
            lemma_token_starts_here(input, at_operand);
            assert(term(input, after_sign) == term(input, at_operand));
            if *rhs is BinaryOperation {
                let inner = expr_source(*rhs);
                lemma_stands_at_split(input, at_operand, seq!['('] + inner, seq![')']);
                lemma_stands_at_split(input, at_operand, seq!['('], inner);
                let close = at_operand + 1 + inner.len();
                lemma_stands_at(input, close, seq![')']);
                assert(input[close + 0] == seq![')'][0]);
                lemma_expr_reads(input, at_operand + 1, *rhs);
                lemma_expr_unfolds(input, close, *rhs);
                lemma_token_starts_here(input, close);
                assert(verb(input, close) is None);
                assert(expr(input, at_operand + 1) == Ok::<(SpecExpr, int), Failure>(
                    (*rhs, close),
                ));
                assert(symbol(input, close, ')', SyntaxErrorKind::ExpectedCloseParen) == Ok::<
                    int,
                    Failure,
                >(close + 1));
                assert(term(input, at_operand) == Ok::<(SpecExpr, int), Failure>((*rhs, end)));
            } else {
                lemma_term_reads_back(input, at_operand, *rhs);
            }
        },
    }
}

/// What is written is read back: the text of an expression, in front of
/// the `;` or the `)` that ends it, is read as that expression.
pub proof fn lemma_expr_reads_back(input: Seq<char>, at: int, tree: SpecExpr)
    requires
        is_writable_expr(tree),
        stands_at(input, at, expr_source(tree)),
        at + expr_source(tree).len() < input.len(),
        input[at + expr_source(tree).len()] == ';' || input[at + expr_source(tree).len()] == ')',
    ensures
        expr(input, at) == Ok::<(SpecExpr, int), Failure>((tree, at + expr_source(tree).len())),
{
    let end = at + expr_source(tree).len();
    lemma_stands_at(input, at, expr_source(tree));
    lemma_expr_reads(input, at, tree);
    lemma_expr_unfolds(input, end, tree);
    lemma_token_starts_here(input, end);
    assert(verb(input, end) is None);
}

} // verus!
