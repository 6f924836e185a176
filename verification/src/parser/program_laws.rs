//! Laws of the grammar of functions and programs: what is written is
//! read back.

use crate::parser::ast::{type_text, SpecFunction, SpecParam, SpecProgram, SpecStmt, Type};
use crate::parser::block::block;
use crate::parser::common::{declared_type, identifier, symbol};
use crate::parser::function::{function, parameter_list, parameters, return_type};
use crate::parser::laws::{
    lemma_stands_at, lemma_stands_at_split, lemma_token_starts_behind_space,
    lemma_token_starts_here,
};
use crate::parser::lexer::{in_class, CharClass};
use crate::parser::program::{functions, program};
use crate::parser::source::{
    body_source, decl_source, function_source, functions_source, is_name, is_writable_function,
    is_writable_program, params_source, program_source, return_source,
};
use crate::parser::statement_laws::{
    lemma_body_reads_back, lemma_decl_reads_back, lemma_fixed_words, lemma_type_reads_back,
    lemma_word_stands,
};
use crate::parser::syntax::{stands_at, token_start, Failure, SyntaxErrorKind};
use vstd::prelude::*;

verus! {

/// Where the text of a parameter list stands, the text of each of its
/// parameters stands, the first at the start and each other one behind a
/// comma and a space.
pub proof fn lemma_params_parts(input: Seq<char>, start: int, params: Seq<SpecParam>, count: int)
    requires
        1 <= count <= params.len(),
        stands_at(input, start, params_source(params, params.len() as int)),
    ensures
        stands_at(input, start, params_source(params, count)),
        count < params.len() ==> {
            &&& input[start + params_source(params, count).len()] == ','
            &&& input[start + params_source(params, count).len() + 1] == ' '
            &&& stands_at(
                input,
                start + params_source(params, count).len() + 2,
                decl_source(params[count].name, params[count].declared_type),
            )
            &&& params_source(params, count + 1).len() == params_source(params, count).len() + 2
                + decl_source(params[count].name, params[count].declared_type).len()
        },
    decreases params.len() - count,
{
    if count < params.len() {
        lemma_params_parts(input, start, params, count + 1);
        let before = params_source(params, count);
        let comma = seq![',', ' '];
        let this = decl_source(params[count].name, params[count].declared_type);
        assert(params_source(params, count + 1) == before + comma + this);
        lemma_stands_at_split(input, start, before + comma, this);
        lemma_stands_at_split(input, start, before, comma);
        lemma_stands_at(input, start + before.len(), comma);
        assert(input[start + before.len() + 0] == comma[0]);
        assert(input[start + before.len() + 1] == comma[1]);
    }
}

/// The text of a typed name starts with the first character of the name
/// and is longer than the name.
pub proof fn lemma_decl_source_starts(name: Seq<char>, declared: Type)
    requires
        is_name(name),
    ensures
        decl_source(name, declared).len() >= 3,
        decl_source(name, declared)[0] == name[0],
{
}

/// The parameters from the one at `count` on are read back from their
/// text, up to the `)` that closes the list.
pub proof fn lemma_parameter_list_reads_back(
    input: Seq<char>,
    start: int,
    params: Seq<SpecParam>,
    count: int,
)
    requires
        0 <= count < params.len(),
        forall|i: int| 0 <= i < params.len() ==> is_name(#[trigger] params[i].name),
        stands_at(input, start, params_source(params, params.len() as int)),
        start + params_source(params, params.len() as int).len() < input.len(),
        input[start + params_source(params, params.len() as int).len()] == ')',
    ensures
        parameter_list(
            input,
            if count == 0 {
                start
            } else {
                start + params_source(params, count).len() + 1
            },
            params.take(count),
        ) == Ok::<(Seq<SpecParam>, int), Failure>(
            (params, start + params_source(params, params.len() as int).len() + 1),
        ),
    decreases params.len() - count,
{
    let whole = params_source(params, params.len() as int);
    let this = params[count];
    let decl = decl_source(this.name, this.declared_type);
    lemma_decl_source_starts(this.name, this.declared_type);
    lemma_stands_at(input, start, whole);
    let pos = if count == 0 {
        start
    } else {
        start + params_source(params, count).len() + 1
    };
    let at_decl = if count == 0 {
        start
    } else {
        start + params_source(params, count).len() + 2
    };
    if count == 0 {
        lemma_params_parts(input, start, params, 1);
        assert(params_source(params, 1) == decl);
    } else {
        lemma_params_parts(input, start, params, count);
    }
    lemma_stands_at(input, at_decl, decl);
    assert(input[at_decl + 0] == decl[0]);
    if count == 0 {
        lemma_token_starts_here(input, start);
    } else {
        lemma_token_starts_behind_space(input, pos);
    }
    let after_decl = at_decl + decl.len();
    assert(after_decl == start + params_source(params, count + 1).len());
    if count + 1 < params.len() {
        lemma_params_parts(input, start, params, count + 1);
    } else {
        assert(params_source(params, count + 1) == whole);
    }
    assert(input[after_decl] == ',' || input[after_decl] == ')');
    lemma_decl_reads_back(input, pos, at_decl, this.name, this.declared_type);
    lemma_token_starts_here(input, after_decl);
    let done = params.take(count).push(
        SpecParam { name: this.name, declared_type: this.declared_type },
    );
    assert(done =~= params.take(count + 1));
    if count + 1 < params.len() {
        lemma_parameter_list_reads_back(input, start, params, count + 1);
    } else {
        assert(params.take(count + 1) =~= params);
    }
}

/// What stands between the parentheses of a declaration is read back as
/// its parameters.
pub proof fn lemma_parameters_read_back(input: Seq<char>, start: int, params: Seq<SpecParam>)
    requires
        forall|i: int| 0 <= i < params.len() ==> is_name(#[trigger] params[i].name),
        stands_at(input, start, params_source(params, params.len() as int)),
        start + params_source(params, params.len() as int).len() < input.len(),
        input[start + params_source(params, params.len() as int).len()] == ')',
    ensures
        parameters(input, start) == Ok::<(Seq<SpecParam>, int), Failure>(
            (params, start + params_source(params, params.len() as int).len() + 1),
        ),
{
    lemma_stands_at(input, start, params_source(params, params.len() as int));
    if params.len() == 0 {
        lemma_token_starts_here(input, start);
        assert(params =~= Seq::<SpecParam>::empty());
    } else {
        lemma_params_parts(input, start, params, 1);
        let first = decl_source(params[0].name, params[0].declared_type);
        lemma_decl_source_starts(params[0].name, params[0].declared_type);
        lemma_stands_at(input, start, first);
        assert(input[start + 0] == first[0]);
        lemma_token_starts_here(input, start);
        lemma_parameter_list_reads_back(input, start, params, 0);
        assert(params.take(0) =~= Seq::<SpecParam>::empty());
    }
}

/// The return type of a declaration is read back from its text, in
/// front of the space and the `{` that open the body.
pub proof fn lemma_return_type_reads_back(input: Seq<char>, pos: int, returned: Option<Type>)
    requires
        stands_at(input, pos, return_source(returned) + seq![' ', '{']),
    ensures
        return_type(input, pos) == Ok::<(Option<Type>, int), Failure>(
            (returned, pos + return_source(returned).len()),
        ),
        symbol(
            input,
            pos + return_source(returned).len(),
            '{',
            SyntaxErrorKind::ExpectedOpenBrace,
        ) == Ok::<int, Failure>(pos + return_source(returned).len() + 2),
{
    let open = seq![' ', '{'];
    lemma_stands_at_split(input, pos, return_source(returned), open);
    let after = pos + return_source(returned).len();
    lemma_stands_at(input, after, open);
    assert(input[after + 0] == open[0]);
    assert(input[after + 1] == open[1]);
    lemma_token_starts_behind_space(input, after);
    match returned {
        Some(declared) => {
            let arrow = seq![' ', '-', '>', ' '];
            lemma_stands_at_split(input, pos, arrow, type_text(declared));
            lemma_stands_at(input, pos, arrow);
            assert(input[pos + 0] == arrow[0]);
            assert(input[pos + 1] == arrow[1]);
            assert(input[pos + 2] == arrow[2]);
            assert(input[pos + 3] == arrow[3]);
            lemma_token_starts_behind_space(input, pos);
            lemma_type_reads_back(input, pos + 3, declared);
        },
        None => {},
    }
}

/// What is written is read back: the text of a function declaration is
/// read as that declaration.
pub proof fn lemma_function_reads_back(input: Seq<char>, at: int, declared: SpecFunction)
    requires
        is_writable_function(declared),
        stands_at(input, at, function_source(declared)),
    ensures
        function(input, at) == Ok::<(SpecFunction, int), Failure>(
            (declared, at + function_source(declared).len()),
        ),
{
    let written = function_source(declared);
    let space = seq![' '];
    let name = declared.name;
    let open = seq!['('];
    let params = params_source(declared.parameters, declared.parameters.len() as int);
    let close = seq![')'];
    let returned = return_source(declared.return_type);
    let brace = seq![' ', '{'];
    let body = body_source(declared.block, declared.block.len() as int);
    let end = seq![' ', '}'];
    lemma_fixed_words();
    assert(written == "function"@ + space + name + open + params + close + returned + brace + body
        + end);
    let head = "function"@ + space + name + open + params + close;
    lemma_stands_at_split(input, at, head + returned + brace + body, end);
    lemma_stands_at_split(input, at, head + returned + brace, body);
    lemma_stands_at_split(input, at, head + returned, brace);
    lemma_stands_at_split(input, at, head, returned);
    lemma_stands_at_split(input, at, "function"@ + space + name + open + params, close);
    lemma_stands_at_split(input, at, "function"@ + space + name + open, params);
    lemma_stands_at_split(input, at, "function"@ + space + name, open);
    lemma_stands_at_split(input, at, "function"@ + space, name);
    lemma_stands_at_split(input, at, "function"@, space);
    let at_name = at + 9;
    let after_name = at_name + name.len();
    let at_params = after_name + 1;
    let after_params = at_params + params.len();
    let after_close = after_params + 1;
    lemma_stands_at(input, at + 8, space);
    assert(input[at + 8 + 0] == space[0]);
    lemma_stands_at(input, after_name, open);
    assert(input[after_name + 0] == open[0]);
    lemma_stands_at(input, after_params, close);
    assert(input[after_params + 0] == close[0]);
    lemma_word_stands(input, at, "function"@);
    lemma_word_stands(input, at_name, name);
    lemma_token_starts_behind_space(input, at + 8);
    assert(identifier(input, at + 8) == Ok::<(Seq<char>, int), Failure>((name, after_name)));
    lemma_token_starts_here(input, after_name);
    assert(symbol(input, after_name, '(', SyntaxErrorKind::ExpectedOpenParen) == Ok::<
        int,
        Failure,
    >(at_params));
    lemma_parameters_read_back(input, at_params, declared.parameters);
    // The return type and the brace that opens the body.
    let after_returned = after_close + returned.len();
    lemma_stands_at(input, after_close, returned);
    lemma_stands_at(input, after_returned, brace);
    assert(input.subrange(after_close, after_close + (returned + brace).len()) =~= returned
        + brace) by {
        assert forall|i: int| 0 <= i < (returned + brace).len() implies input[after_close + i] == (
        returned + brace)[i] by {
            if i < returned.len() {
                assert(input[after_close + i] == returned[i]);
            } else {
                assert(input[after_returned + (i - returned.len())] == brace[i - returned.len()]);
            }
        }
    }
    lemma_return_type_reads_back(input, after_close, declared.return_type);
    lemma_body_reads_back(input, after_returned + 2, declared.block, 0);
    assert(declared.block.take(0) =~= Seq::<SpecStmt>::empty());
    assert(block(input, after_returned) == Ok::<(Seq<SpecStmt>, int), Failure>(
        (declared.block, at + written.len()),
    ));
}

/// Where the text of a program stands from the start, the text of each
/// of its functions stands, behind the texts of those before it and in
/// front of a line feed.
pub proof fn lemma_functions_parts(input: Seq<char>, declared: Seq<SpecFunction>, count: int)
    requires
        0 <= count <= declared.len(),
        stands_at(input, 0, functions_source(declared, declared.len() as int)),
    ensures
        stands_at(input, 0, functions_source(declared, count)),
        count < declared.len() ==> {
            &&& stands_at(
                input,
                functions_source(declared, count).len() as int,
                function_source(declared[count]),
            )
            &&& functions_source(declared, count + 1).len() == functions_source(
                declared,
                count,
            ).len() + function_source(declared[count]).len() + 1
            &&& input[functions_source(declared, count + 1).len() - 1] == '\n'
        },
    decreases declared.len() - count,
{
    if count < declared.len() {
        lemma_functions_parts(input, declared, count + 1);
        let before = functions_source(declared, count);
        let this = function_source(declared[count]);
        let line_feed = seq!['\n'];
        assert(functions_source(declared, count + 1) == before + this + line_feed);
        lemma_stands_at_split(input, 0, before + this, line_feed);
        lemma_stands_at_split(input, 0, before, this);
        let at_feed = before.len() as int + this.len();
        lemma_stands_at(input, at_feed, line_feed);
        assert(input[at_feed + 0] == line_feed[0]);
    }
}

/// A function that is read at the next token is one more function read.
pub proof fn lemma_functions_step(
    input: Seq<char>,
    pos: int,
    here: int,
    end: int,
    this: SpecFunction,
    done: Seq<SpecFunction>,
)
    requires
        0 <= pos <= here < input.len(),
        token_start(input, pos) == here,
        function(input, here) == Ok::<(SpecFunction, int), Failure>((this, end)),
    ensures
        functions(input, pos, done) == functions(input, end, done.push(this)),
{
}

/// Where only white space is left, the functions read so far are all.
pub proof fn lemma_functions_end(input: Seq<char>, pos: int, done: Seq<SpecFunction>)
    requires
        0 <= pos,
        token_start(input, pos) >= input.len(),
    ensures
        functions(input, pos, done) == Ok::<Seq<SpecFunction>, Failure>(done),
{
}

/// A token behind one line feed starts behind the line feed.
pub proof fn lemma_token_starts_behind_line_feed(input: Seq<char>, at: int)
    requires
        0 <= at < input.len(),
        input[at] == '\n',
        at + 1 < input.len() ==> !in_class(CharClass::Space, input[at + 1]),
    ensures
        token_start(input, at) == at + 1,
{
    lemma_token_starts_here(input, at + 1);
}

/// The text of a function starts with a letter.
pub proof fn lemma_function_source_starts(declared: SpecFunction)
    ensures
        function_source(declared).len() >= 1,
        !in_class(CharClass::Space, function_source(declared)[0]),
{
    reveal_strlit("function");
}

/// Where the functions behind the first `count` are looked for from: the
/// start of the text, or the line feed behind the function before.
pub open spec fn resume_at(declared: Seq<SpecFunction>, count: int) -> int {
    if count == 0 {
        0
    } else {
        functions_source(declared, count).len() - 1
    }
}

/// In the text of a program, the next token behind the first `count`
/// functions is the function at `count`, or the end of the text.
pub proof fn lemma_function_place(input: Seq<char>, declared: Seq<SpecFunction>, count: int)
    requires
        0 <= count <= declared.len(),
        input == functions_source(declared, declared.len() as int),
    ensures
        0 <= resume_at(declared, count) <= functions_source(declared, count).len()
            <= input.len(),
        token_start(input, resume_at(declared, count)) == functions_source(declared, count).len(),
        count < declared.len() ==> {
            &&& functions_source(declared, count).len() < input.len()
            &&& stands_at(
                input,
                functions_source(declared, count).len() as int,
                function_source(declared[count]),
            )
            &&& resume_at(declared, count + 1) == functions_source(declared, count).len()
                + function_source(declared[count]).len()
        },
        count == declared.len() ==> functions_source(declared, count).len() == input.len(),
{
    assert(input.subrange(0, input.len() as int) =~= input);
    lemma_functions_parts(input, declared, count);
    let here = functions_source(declared, count).len() as int;
    let pos = resume_at(declared, count);
    lemma_stands_at(input, 0, functions_source(declared, count));
    if count > 0 {
        lemma_functions_parts(input, declared, count - 1);
        assert(input[pos] == '\n');
    }
    if count < declared.len() {
        let written = function_source(declared[count]);
        lemma_function_source_starts(declared[count]);
        lemma_stands_at(input, here, written);
        assert(input[here + 0] == written[0]);
    }
    if count == 0 {
        lemma_token_starts_here(input, here);
    } else {
        lemma_token_starts_behind_line_feed(input, pos);
    }
}

/// The functions from the one at `count` on are read back from the text
/// of a program.
pub proof fn lemma_functions_read_back(input: Seq<char>, declared: Seq<SpecFunction>, count: int)
    requires
        0 <= count <= declared.len(),
        forall|i: int| 0 <= i < declared.len() ==> is_writable_function(#[trigger] declared[i]),
        input == functions_source(declared, declared.len() as int),
    ensures
        functions(input, resume_at(declared, count), declared.take(count)) == Ok::<
            Seq<SpecFunction>,
            Failure,
        >(declared),
    decreases declared.len() - count,
{
    lemma_function_place(input, declared, count);
    let here = functions_source(declared, count).len() as int;
    let pos = resume_at(declared, count);
    if count < declared.len() {
        let this = declared[count];
        lemma_function_reads_back(input, here, this);
        lemma_functions_step(
            input,
            pos,
            here,
            here + function_source(this).len(),
            this,
            declared.take(count),
        );
        assert(declared.take(count).push(this) =~= declared.take(count + 1));
        lemma_functions_read_back(input, declared, count + 1);
    } else {
        assert(declared.take(count) =~= declared);
        lemma_functions_end(input, pos, declared);
    }
}

/// What is written is read back: the text of a program is read as that
/// program.
pub proof fn lemma_program_reads_back(written: SpecProgram)
    requires
        is_writable_program(written),
    ensures
        program(program_source(written)) == Ok::<SpecProgram, Failure>(written),
{
    lemma_functions_read_back(program_source(written), written.nodes, 0);
    assert(written.nodes.take(0) =~= Seq::<SpecFunction>::empty());
}

} // verus!
