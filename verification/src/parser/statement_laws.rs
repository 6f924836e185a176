//! Laws of the grammar of statements: what is written is read back.

use crate::parser::ast::{type_text, SpecExpr, SpecStmt, SpecTerm, Type};
use crate::parser::block::{
    assignment, assignment_starts, block, closed_expr, condition, definition, statement,
    statements,
};
use crate::parser::common::{declared_type, identifier, symbol, type_decl};
use crate::parser::expression::{expr, lemma_expr_unfolds, term};
use crate::parser::laws::{
    ends_token, lemma_expr_reads_back, lemma_expr_source_starts, lemma_stands_at,
    lemma_stands_at_split, lemma_token_starts_behind_space, lemma_token_starts_here,
};
use crate::parser::lexer::{in_class, is_name_start, lemma_scan, lemma_scan_finds_run, CharClass};
use crate::parser::source::{
    are_writable, body_source, decl_source, expr_source, is_name, is_writable_expr,
    is_writable_stmt, stmt_source,
};
use crate::parser::syntax::{stands_at, token_start, word_end, Failure, SyntaxErrorKind};
use vstd::prelude::*;

verus! {

/// Whether `word` is made like a name: a letter or an underscore, then
/// letters, digits and underscores. The reserved words are.
pub open spec fn is_word(word: Seq<char>) -> bool {
    &&& word.len() >= 1
    &&& is_name_start(word[0])
    &&& forall|i: int| 0 <= i < word.len() ==> in_class(CharClass::Name, #[trigger] word[i])
}

/// The reserved words and the words for the types are made like names,
/// and no two of them are the same.
pub proof fn lemma_fixed_words()
    ensures
        is_word("function"@),
        is_word("var"@),
        is_word("if"@),
        is_word("return"@),
        is_word("true"@),
        is_word("false"@),
        is_word("int"@),
        is_word("bool"@),
        is_word("string"@),
        "var"@ != "if"@,
        "var"@ != "return"@,
        "if"@ != "return"@,
        "int"@ != "bool"@,
        "int"@ != "string"@,
        "bool"@ != "string"@,
        "var"@.len() == 3,
        "if"@.len() == 2,
        "return"@.len() == 6,
        "function"@.len() == 8,
{
    reveal_strlit("function");
    reveal_strlit("var");
    reveal_strlit("if");
    reveal_strlit("return");
    reveal_strlit("true");
    reveal_strlit("false");
    reveal_strlit("int");
    reveal_strlit("bool");
    reveal_strlit("string");
}

/// A word that stands at `at`, with no letter, digit or underscore behind
/// it, is the word that the grammar finds there.
pub proof fn lemma_word_stands(input: Seq<char>, at: int, word: Seq<char>)
    requires
        is_word(word),
        stands_at(input, at, word),
        ends_token(input, at + word.len()),
    ensures
        token_start(input, at) == at,
        word_end(input, at) == at + word.len(),
        input.subrange(at, at + word.len()) == word,
        input[at] != '{',
        input[at] != '}',
        input[at] != ')',
{
    let end = at + word.len();
    lemma_stands_at(input, at, word);
    assert(input[at + 0] == word[0]);
    assert forall|i: int| at <= i < end implies in_class(CharClass::Name, #[trigger] input[i]) by {
        assert(input[at + (i - at)] == word[i - at]);
    }
    lemma_token_starts_here(input, at);
    lemma_scan_finds_run(input, at, end, CharClass::Name);
}

/// Where a token is looked for from does not matter to a term or an
/// expression, only where it starts.
pub proof fn lemma_expr_from_token(input: Seq<char>, pos: int)
    requires
        0 <= pos <= input.len(),
    ensures
        term(input, pos) == term(input, token_start(input, pos)),
        expr(input, pos) == expr(input, token_start(input, pos)),
{
    let at = token_start(input, pos);
    lemma_scan(input, pos, CharClass::Space);
    lemma_token_starts_here(input, at);
    let any = SpecExpr::Term(SpecTerm::Boolean(true));
    lemma_expr_unfolds(input, pos, any);
    lemma_expr_unfolds(input, at, any);
}

/// The word for a type, behind one space, is read back as the type.
pub proof fn lemma_type_reads_back(input: Seq<char>, pos: int, declared: Type)
    requires
        0 <= pos < input.len(),
        input[pos] == ' ',
        stands_at(input, pos + 1, type_text(declared)),
        ends_token(input, pos + 1 + type_text(declared).len()),
    ensures
        declared_type(input, pos) == Ok::<(Type, int), Failure>(
            (declared, pos + 1 + type_text(declared).len()),
        ),
{
    lemma_fixed_words();
    lemma_word_stands(input, pos + 1, type_text(declared));
    lemma_token_starts_behind_space(input, pos);
}

/// A typed name is read back from its text, which may stand behind a
/// space.
pub proof fn lemma_decl_reads_back(
    input: Seq<char>,
    pos: int,
    start: int,
    name: Seq<char>,
    declared: Type,
)
    requires
        0 <= pos <= start,
        token_start(input, pos) == start,
        is_name(name),
        stands_at(input, start, decl_source(name, declared)),
        ends_token(input, start + decl_source(name, declared).len()),
    ensures
        type_decl(input, pos) == Ok::<((Seq<char>, Type), int), Failure>(
            ((name, declared), start + decl_source(name, declared).len()),
        ),
{
    let written = decl_source(name, declared);
    let colon = seq![':', ' '];
    lemma_stands_at_split(input, start, name + colon, type_text(declared));
    lemma_stands_at_split(input, start, name, colon);
    let after_name = start + name.len();
    lemma_stands_at(input, after_name, colon);
    assert(input[after_name + 0] == colon[0]);
    assert(input[after_name + 1] == colon[1]);
    lemma_word_stands(input, start, name);
    assert(identifier(input, pos) == Ok::<(Seq<char>, int), Failure>((name, after_name)));
    lemma_token_starts_here(input, after_name);
    assert(symbol(input, after_name, ':', SyntaxErrorKind::ExpectedColon) == Ok::<int, Failure>(
        after_name + 1,
    ));
    lemma_type_reads_back(input, after_name + 1, declared);
}

/// An expression and its `;` are read back from their text, which may
/// stand behind a space.
pub proof fn lemma_closed_expr_reads_back(input: Seq<char>, pos: int, start: int, tree: SpecExpr)
    requires
        0 <= pos <= start,
        token_start(input, pos) == start,
        is_writable_expr(tree),
        stands_at(input, start, expr_source(tree)),
        start + expr_source(tree).len() < input.len(),
        input[start + expr_source(tree).len()] == ';',
    ensures
        closed_expr(input, pos) == Ok::<(SpecExpr, int), Failure>(
            (tree, start + expr_source(tree).len() + 1),
        ),
{
    let end = start + expr_source(tree).len();
    lemma_stands_at(input, start, expr_source(tree));
    lemma_expr_from_token(input, pos);
    lemma_expr_reads_back(input, start, tree);
    lemma_token_starts_here(input, end);
}

/// Whether what stands at `at` ends an expression statement or carries
/// the expression on: a `;`, or a space and an operator.
pub open spec fn ends_or_continues(input: Seq<char>, at: int) -> bool {
    &&& 0 <= at < input.len()
    &&& {
        ||| input[at] == ';'
        ||| {
            &&& input[at] == ' '
            &&& at + 1 < input.len()
            &&& {
                ||| input[at + 1] == '+'
                ||| input[at + 1] == '-'
                ||| (input[at + 1] == '=' && at + 2 < input.len() && input[at + 2] == '=')
            }
        }
    }
}

/// The text of an expression is the start of no other statement: it
/// starts with no `{`, its first word is none of `var`, `if` and `return`,
/// and no single `=` stands behind its first word.
pub proof fn lemma_expr_starts_no_other_statement(input: Seq<char>, at: int, tree: SpecExpr)
    requires
        is_writable_expr(tree),
        stands_at(input, at, expr_source(tree)),
        ends_or_continues(input, at + expr_source(tree).len()),
    ensures
        0 <= at < input.len(),
        input[at] != '{',
        input.subrange(at, word_end(input, at)) != "var"@,
        input.subrange(at, word_end(input, at)) != "if"@,
        input.subrange(at, word_end(input, at)) != "return"@,
        !assignment_starts(input, at),
    decreases tree,
{
    let written = expr_source(tree);
    let end = at + written.len();
    lemma_stands_at(input, at, written);
    lemma_expr_source_starts(tree);
    assert(input[at + 0] == written[0]);
    lemma_fixed_words();
    match tree {
        SpecExpr::Term(SpecTerm::Variable(name)) => {
            lemma_word_stands(input, at, name);
            if input[end] == ' ' {
                lemma_token_starts_behind_space(input, end);
            } else {
                lemma_token_starts_here(input, end);
            }
        },
        SpecExpr::Term(SpecTerm::Boolean(value)) => {
            reveal_strlit("true");
            reveal_strlit("false");
            reveal_strlit("var");
            reveal_strlit("if");
            reveal_strlit("return");
            lemma_word_stands(input, at, written);
        },
        SpecExpr::Term(SpecTerm::Integer(value)) => {
            reveal_strlit("-");
            if value < 0 {
                crate::parser::laws::lemma_natural_text((-value) as nat);
            } else {
                crate::parser::laws::lemma_natural_text(value as nat);
            }
            assert(!is_name_start(input[at]));
            assert(input.subrange(at, at) =~= Seq::<char>::empty());
        },
        SpecExpr::Term(SpecTerm::String(text)) => {
            assert(!is_name_start(input[at]));
            assert(input.subrange(at, at) =~= Seq::<char>::empty());
        },
        SpecExpr::BinaryOperation { verb, lhs, rhs } => {
            let left = expr_source(*lhs);
            let sign = crate::parser::source::verb_source(verb);
            let space = seq![' '];
            let operand = if *rhs is BinaryOperation {
                seq!['('] + expr_source(*rhs) + seq![')']
            } else {
                expr_source(*rhs)
            };
            assert(written == left + space + sign + space + operand);
            lemma_stands_at_split(input, at, left + space + sign + space, operand);
            lemma_stands_at_split(input, at, left + space + sign, space);
            lemma_stands_at_split(input, at, left + space, sign);
            lemma_stands_at_split(input, at, left, space);
            let after_left = at + left.len();
            lemma_stands_at(input, after_left, space);
            lemma_stands_at(input, after_left + 1, sign);
            assert(input[after_left + 0] == space[0]);
            assert(input[after_left + 1 + 0] == sign[0]);
            if verb is Compare {
                assert(input[after_left + 1 + 1] == sign[1]);
            }
            lemma_expr_starts_no_other_statement(input, at, *lhs);
        },
    }
}

/// The text of a statement is not empty and starts with the first
/// character of a token that is no `}`.
pub proof fn lemma_stmt_source_starts(stmt: SpecStmt)
    requires
        is_writable_stmt(stmt),
    ensures
        stmt_source(stmt).len() >= 1,
        !in_class(CharClass::Space, stmt_source(stmt)[0]),
        stmt_source(stmt)[0] != '}',
{
    reveal_strlit("var");
    reveal_strlit("if");
    reveal_strlit("return");
    match stmt {
        SpecStmt::VariableDefinition { name, declared_type, value } => {},
        SpecStmt::Assignment { lhs, rhs } => {
            assert(stmt_source(stmt)[0] == lhs[0]);
        },
        SpecStmt::Expression(value) => {
            lemma_expr_source_starts(value);
            assert(stmt_source(stmt)[0] == expr_source(value)[0]);
        },
        SpecStmt::Block(body) => {},
        SpecStmt::IfStatement { condition, block } => {},
        SpecStmt::Return(value) => {},
    }
}

/// Where the text of a body stands, the text of each of its statements
/// stands, behind a space and the texts of the statements before it.
pub proof fn lemma_body_parts(input: Seq<char>, start: int, stmts: Seq<SpecStmt>, count: int)
    requires
        0 <= count <= stmts.len(),
        stands_at(input, start, body_source(stmts, stmts.len() as int)),
    ensures
        stands_at(input, start, body_source(stmts, count)),
        count < stmts.len() ==> {
            &&& input[start + body_source(stmts, count).len()] == ' '
            &&& stands_at(
                input,
                start + body_source(stmts, count).len() + 1,
                stmt_source(stmts[count]),
            )
            &&& body_source(stmts, count + 1).len() == body_source(stmts, count).len() + 1
                + stmt_source(stmts[count]).len()
        },
    decreases stmts.len() - count,
{
    if count < stmts.len() {
        lemma_body_parts(input, start, stmts, count + 1);
        let before = body_source(stmts, count);
        let space = seq![' '];
        let this = stmt_source(stmts[count]);
        assert(body_source(stmts, count + 1) == before + space + this);
        lemma_stands_at_split(input, start, before + space, this);
        lemma_stands_at_split(input, start, before, space);
        lemma_stands_at(input, start + before.len(), space);
        assert(input[start + before.len() + 0] == space[0]);
    }
}

/// The text of a declaration is read as that declaration.
pub proof fn lemma_definition_reads_back(input: Seq<char>, at: int, stmt: SpecStmt)
    requires
        stmt is VariableDefinition,
        is_writable_stmt(stmt),
        stands_at(input, at, stmt_source(stmt)),
    ensures
        statement(input, at) == Ok::<(SpecStmt, int), Failure>(
            (stmt, at + stmt_source(stmt).len()),
        ),
{
    let written = stmt_source(stmt);
    let end = at + written.len();
    lemma_stands_at(input, at, written);
    lemma_stmt_source_starts(stmt);
    assert(input[at + 0] == written[0]);
    lemma_fixed_words();
    let name = stmt->name;
    let declared_type = stmt->declared_type;
    let value = stmt->value;
    let space = seq![' '];
    let decl = decl_source(name, declared_type);
    let equals = seq![' ', '=', ' '];
    let tree = expr_source(value);
    let semicolon = seq![';'];
    assert(written == "var"@ + space + decl + equals + tree + semicolon);
    lemma_stands_at_split(input, at, "var"@ + space + decl + equals + tree, semicolon);
    lemma_stands_at_split(input, at, "var"@ + space + decl + equals, tree);
    lemma_stands_at_split(input, at, "var"@ + space + decl, equals);
    lemma_stands_at_split(input, at, "var"@ + space, decl);
    lemma_stands_at_split(input, at, "var"@, space);
    let at_decl = at + 4;
    let after_decl = at_decl + decl.len();
    let at_tree = after_decl + 3;
    let after_tree = at_tree + tree.len();
    lemma_stands_at(input, at + 3, space);
    assert(input[at + 3 + 0] == space[0]);
    lemma_stands_at(input, after_decl, equals);
    assert(input[after_decl + 0] == equals[0]);
    assert(input[after_decl + 1] == equals[1]);
    assert(input[after_decl + 2] == equals[2]);
    lemma_stands_at(input, after_tree, semicolon);
    assert(input[after_tree + 0] == semicolon[0]);
    lemma_word_stands(input, at, "var"@);
    lemma_stands_at(input, at_decl, decl);
    assert(input[at_decl + 0] == decl[0]);
    assert(decl[0] == name[0]);
    lemma_token_starts_behind_space(input, at + 3);
    lemma_decl_reads_back(input, at + 3, at_decl, name, declared_type);
    lemma_token_starts_behind_space(input, after_decl);
    assert(symbol(input, after_decl, '=', SyntaxErrorKind::ExpectedEquals) == Ok::<
        int,
        Failure,
    >(after_decl + 2));
    lemma_expr_source_starts(value);
    lemma_stands_at(input, at_tree, tree);
    assert(input[at_tree + 0] == tree[0]);
    lemma_token_starts_behind_space(input, after_decl + 2);
    lemma_closed_expr_reads_back(input, after_decl + 2, at_tree, value);
    assert(definition(input, at + 3) == Ok::<(SpecStmt, int), Failure>((stmt, end)));
}

/// The text of an assignment is read as that assignment.
pub proof fn lemma_assignment_reads_back(input: Seq<char>, at: int, stmt: SpecStmt)
    requires
        stmt is Assignment,
        is_writable_stmt(stmt),
        stands_at(input, at, stmt_source(stmt)),
    ensures
        statement(input, at) == Ok::<(SpecStmt, int), Failure>(
            (stmt, at + stmt_source(stmt).len()),
        ),
{
    let written = stmt_source(stmt);
    let end = at + written.len();
    lemma_stands_at(input, at, written);
    lemma_stmt_source_starts(stmt);
    assert(input[at + 0] == written[0]);
    lemma_fixed_words();
    let lhs = stmt->lhs;
    let rhs = stmt->rhs;
    let equals = seq![' ', '=', ' '];
    let tree = expr_source(rhs);
    let semicolon = seq![';'];
    assert(written == lhs + equals + tree + semicolon);
    lemma_stands_at_split(input, at, lhs + equals + tree, semicolon);
    lemma_stands_at_split(input, at, lhs + equals, tree);
    lemma_stands_at_split(input, at, lhs, equals);
    let after_name = at + lhs.len();
    let at_tree = after_name + 3;
    let after_tree = at_tree + tree.len();
    lemma_stands_at(input, after_name, equals);
    assert(input[after_name + 0] == equals[0]);
    assert(input[after_name + 1] == equals[1]);
    assert(input[after_name + 2] == equals[2]);
    lemma_stands_at(input, after_tree, semicolon);
    assert(input[after_tree + 0] == semicolon[0]);
    lemma_word_stands(input, at, lhs);
    lemma_token_starts_behind_space(input, after_name);
    assert(assignment_starts(input, at));
    lemma_expr_source_starts(rhs);
    lemma_stands_at(input, at_tree, tree);
    assert(input[at_tree + 0] == tree[0]);
    lemma_token_starts_behind_space(input, after_name + 2);
    lemma_closed_expr_reads_back(input, after_name + 2, at_tree, rhs);
    assert(assignment(input, at) == Ok::<(SpecStmt, int), Failure>((stmt, end)));
}

/// The text of an expression statement is read as that statement.
pub proof fn lemma_expression_statement_reads_back(input: Seq<char>, at: int, stmt: SpecStmt)
    requires
        stmt is Expression,
        is_writable_stmt(stmt),
        stands_at(input, at, stmt_source(stmt)),
    ensures
        statement(input, at) == Ok::<(SpecStmt, int), Failure>(
            (stmt, at + stmt_source(stmt).len()),
        ),
{
    let written = stmt_source(stmt);
    let end = at + written.len();
    lemma_stands_at(input, at, written);
    lemma_stmt_source_starts(stmt);
    assert(input[at + 0] == written[0]);
    lemma_fixed_words();
    let value = stmt->Expression_0;
    let tree = expr_source(value);
    let semicolon = seq![';'];
    lemma_stands_at_split(input, at, tree, semicolon);
    let after_tree = at + tree.len();
    lemma_stands_at(input, after_tree, semicolon);
    assert(input[after_tree + 0] == semicolon[0]);
    lemma_expr_starts_no_other_statement(input, at, value);
    lemma_expr_source_starts(value);
    lemma_stands_at(input, at, tree);
    assert(input[at + 0] == tree[0]);
    lemma_token_starts_here(input, at);
    lemma_closed_expr_reads_back(input, at, at, value);
}

/// The text of a return is read as that return.
pub proof fn lemma_return_reads_back(input: Seq<char>, at: int, stmt: SpecStmt)
    requires
        stmt is Return,
        is_writable_stmt(stmt),
        stands_at(input, at, stmt_source(stmt)),
    ensures
        statement(input, at) == Ok::<(SpecStmt, int), Failure>(
            (stmt, at + stmt_source(stmt).len()),
        ),
{
    let written = stmt_source(stmt);
    let end = at + written.len();
    lemma_stands_at(input, at, written);
    lemma_stmt_source_starts(stmt);
    assert(input[at + 0] == written[0]);
    lemma_fixed_words();
    let value = stmt->Return_0;
    let space = seq![' '];
    let tree = expr_source(value);
    let semicolon = seq![';'];
    assert(written == "return"@ + space + tree + semicolon);
    lemma_stands_at_split(input, at, "return"@ + space + tree, semicolon);
    lemma_stands_at_split(input, at, "return"@ + space, tree);
    lemma_stands_at_split(input, at, "return"@, space);
    let at_tree = at + 7;
    let after_tree = at_tree + tree.len();
    lemma_stands_at(input, at + 6, space);
    assert(input[at + 6 + 0] == space[0]);
    lemma_stands_at(input, after_tree, semicolon);
    assert(input[after_tree + 0] == semicolon[0]);
    lemma_word_stands(input, at, "return"@);
    lemma_expr_source_starts(value);
    lemma_stands_at(input, at_tree, tree);
    assert(input[at_tree + 0] == tree[0]);
    lemma_token_starts_behind_space(input, at + 6);
    lemma_closed_expr_reads_back(input, at + 6, at_tree, value);
}

/// The text of the head of a conditional, up to the `{` that opens its
/// body, is read as its condition.
pub proof fn lemma_if_head_reads_back(input: Seq<char>, at: int, stmt: SpecStmt)
    requires
        stmt is IfStatement,
        is_writable_stmt(stmt),
        stands_at(input, at, stmt_source(stmt)),
    ensures
        0 <= at < input.len(),
        input[at] != '{',
        word_end(input, at) == at + 2,
        input.subrange(at, at + 2) == "if"@,
        condition(input, at + 2) == Ok::<(SpecExpr, int), Failure>(
            (stmt->condition, at + 5 + expr_source(stmt->condition).len()),
        ),
        symbol(
            input,
            at + 5 + expr_source(stmt->condition).len(),
            '{',
            SyntaxErrorKind::ExpectedOpenBrace,
        ) == Ok::<int, Failure>(at + 7 + expr_source(stmt->condition).len()),
        stands_at(
            input,
            at + 7 + expr_source(stmt->condition).len(),
            body_source(stmt->block, stmt->block.len() as int),
        ),
        stands_at(
            input,
            at + 7 + expr_source(stmt->condition).len() + body_source(
                stmt->block,
                stmt->block.len() as int,
            ).len(),
            seq![' ', '}'],
        ),
        stmt_source(stmt).len() == 9 + expr_source(stmt->condition).len() + body_source(
            stmt->block,
            stmt->block.len() as int,
        ).len(),
{
    let written = stmt_source(stmt);
    let end = at + written.len();
    lemma_stands_at(input, at, written);
    lemma_stmt_source_starts(stmt);
    assert(input[at + 0] == written[0]);
    lemma_fixed_words();
    let tested = stmt->condition;
    let body = stmt->block;
    let open = seq![' ', '('];
    let tree = expr_source(tested);
    let then = seq![')', ' ', '{'];
    let inner = body_source(body, body.len() as int);
    let close = seq![' ', '}'];
    assert(written == "if"@ + open + tree + then + inner + close);
    lemma_stands_at_split(input, at, "if"@ + open + tree + then + inner, close);
    lemma_stands_at_split(input, at, "if"@ + open + tree + then, inner);
    lemma_stands_at_split(input, at, "if"@ + open + tree, then);
    lemma_stands_at_split(input, at, "if"@ + open, tree);
    lemma_stands_at_split(input, at, "if"@, open);
    let at_tree = at + 4;
    let after_tree = at_tree + tree.len();
    lemma_stands_at(input, at + 2, open);
    assert(input[at + 2 + 0] == open[0]);
    assert(input[at + 2 + 1] == open[1]);
    lemma_stands_at(input, after_tree, then);
    assert(input[after_tree + 0] == then[0]);
    assert(input[after_tree + 1] == then[1]);
    assert(input[after_tree + 2] == then[2]);
    lemma_word_stands(input, at, "if"@);
    lemma_token_starts_behind_space(input, at + 2);
    assert(symbol(input, at + 2, '(', SyntaxErrorKind::ExpectedOpenParen) == Ok::<int, Failure>(
        at_tree,
    ));
    lemma_expr_source_starts(tested);
    lemma_stands_at(input, at_tree, tree);
    assert(input[at_tree + 0] == tree[0]);
    lemma_expr_reads_back(input, at_tree, tested);
    lemma_token_starts_here(input, after_tree);
    lemma_token_starts_behind_space(input, after_tree + 1);
}

/// What is written is read back: the text of a statement is read as that
/// statement.
pub proof fn lemma_statement_reads_back(input: Seq<char>, at: int, stmt: SpecStmt)
    requires
        is_writable_stmt(stmt),
        stands_at(input, at, stmt_source(stmt)),
    ensures
        statement(input, at) == Ok::<(SpecStmt, int), Failure>(
            (stmt, at + stmt_source(stmt).len()),
        ),
    decreases stmt, 0nat,
{
    match stmt {
        SpecStmt::VariableDefinition { .. } => {
            lemma_definition_reads_back(input, at, stmt);
        },
        SpecStmt::Assignment { .. } => {
            lemma_assignment_reads_back(input, at, stmt);
        },
        SpecStmt::Expression(_) => {
            lemma_expression_statement_reads_back(input, at, stmt);
        },
        SpecStmt::Block(body) => {
            let written = stmt_source(stmt);
            let inner = body_source(body, body.len() as int);
            let close = seq![' ', '}'];
            lemma_stands_at(input, at, written);
            assert(input[at + 0] == written[0]);
            assert(written == seq!['{'] + inner + close);
            lemma_stands_at_split(input, at, seq!['{'] + inner, close);
            lemma_stands_at_split(input, at, seq!['{'], inner);
            lemma_body_reads_back(input, at + 1, body, 0);
            assert(body.take(0) =~= Seq::<SpecStmt>::empty());
        },
        SpecStmt::IfStatement { condition: tested, block: body } => {
            lemma_if_head_reads_back(input, at, stmt);
            lemma_fixed_words();
            let at_body = at + 7 + expr_source(tested).len();
            lemma_body_reads_back(input, at_body, body, 0);
            assert(body.take(0) =~= Seq::<SpecStmt>::empty());
            assert(block(input, at_body - 2) == Ok::<(Seq<SpecStmt>, int), Failure>(
                (body, at + stmt_source(stmt).len()),
            ));
        },
        SpecStmt::Return(_) => {
            lemma_return_reads_back(input, at, stmt);
        },
    }
}

/// The statements of a body, from the one at `count` on, are read back
/// from their text, up to the `}` that closes the body behind one space.
pub proof fn lemma_body_reads_back(input: Seq<char>, start: int, stmts: Seq<SpecStmt>, count: int)
    requires
        are_writable(stmts, stmts.len() as int),
        0 <= count <= stmts.len(),
        stands_at(input, start, body_source(stmts, stmts.len() as int)),
        stands_at(
            input,
            start + body_source(stmts, stmts.len() as int).len(),
            seq![' ', '}'],
        ),
    ensures
        statements(input, start + body_source(stmts, count).len(), stmts.take(count)) == Ok::<
            (Seq<SpecStmt>, int),
            Failure,
        >((stmts, start + body_source(stmts, stmts.len() as int).len() + 2)),
    decreases stmts, stmts.len() - count,
{
    let whole = body_source(stmts, stmts.len() as int);
    let close = seq![' ', '}'];
    lemma_body_parts(input, start, stmts, count);
    let here = start + body_source(stmts, count).len();
    lemma_stands_at(input, start, whole);
    lemma_stands_at(input, start, body_source(stmts, count));
    crate::parser::block::lemma_statements_unfold(input, here, stmts.take(count));
    if count < stmts.len() {
        let this = stmts[count];
        lemma_writable_each(stmts, stmts.len() as int, count);
        lemma_stmt_source_starts(this);
        lemma_stands_at(input, here + 1, stmt_source(this));
        assert(input[here + 1 + 0] == stmt_source(this)[0]);
        lemma_token_starts_behind_space(input, here);
        lemma_statement_reads_back(input, here + 1, this);
        assert(stmts.take(count).push(this) =~= stmts.take(count + 1));
        lemma_body_reads_back(input, start, stmts, count + 1);
    } else {
        lemma_stands_at(input, here, close);
        assert(input[here + 0] == close[0]);
        assert(input[here + 1] == close[1]);
        lemma_token_starts_behind_space(input, here);
        assert(stmts.take(count) =~= stmts);
    }
}

/// Where the first statements of a list can be written, each of them can.
pub proof fn lemma_writable_each(stmts: Seq<SpecStmt>, count: int, index: int)
    requires
        0 <= index < count <= stmts.len(),
        are_writable(stmts, count),
    ensures
        is_writable_stmt(stmts[index]),
    decreases count,
{
    if index < count - 1 {
        lemma_writable_each(stmts, count - 1, index);
    }
}

} // verus!
