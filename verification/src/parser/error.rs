//! What the parser reports: where in the text a failure lies, and what
//! it is.

use crate::parser::expression::number_end;
use crate::parser::lexer::{char_is_digit, scan, CharClass};
use crate::parser::syntax::{word_end, Failure, Source, SyntaxError, SyntaxErrorKind};
use crate::text::{format_natural, natural_text};
use itertools::Itertools;
use vstd::prelude::*;
use vstd::string::StringExecFns;

verus! {

/// A place in the source text: the line and the column, both counted from
/// one, and the text of the line.
#[derive(Debug, PartialEq, Eq)]
pub struct LineInfo {
    pub position: (usize, usize),
    pub line: String,
}

/// The model of a [`LineInfo`].
pub struct SpecLineInfo {
    pub position: (usize, usize),
    pub line: Seq<char>,
}

impl View for LineInfo {
    type V = SpecLineInfo;

    open spec fn view(&self) -> SpecLineInfo {
        SpecLineInfo { position: self.position, line: self.line@ }
    }
}

/// A failure to parse.
#[derive(Debug, PartialEq, Eq)]
pub enum ParseError {
    /// One failure, with its place in the text.
    Error { message: String, line: LineInfo },
    /// Several failures, in the order in which they were found.
    ErrorList(Vec<ParseError>),
}

/// The model of a [`ParseError`].
pub enum SpecParseError {
    Error { message: Seq<char>, line: SpecLineInfo },
    ErrorList(Seq<SpecParseError>),
}

/// The model of one failure.
pub open spec fn error_view(error: ParseError) -> SpecParseError
    decreases error,
{
    match error {
        ParseError::Error { message, line } => SpecParseError::Error {
            message: message@,
            line: line@,
        },
        ParseError::ErrorList(list) => SpecParseError::ErrorList(errors_view(list@)),
    }
}

/// The models of a list of failures, in order.
pub open spec fn errors_view(errors: Seq<ParseError>) -> Seq<SpecParseError>
    decreases errors,
{
    Seq::new(
        errors.len(),
        |i: int|
            if 0 <= i < errors.len() {
                error_view(errors[i])
            } else {
                arbitrary()
            },
    )
}

impl View for ParseError {
    type V = SpecParseError;

    open spec fn view(&self) -> SpecParseError {
        error_view(*self)
    }
}

/// The number of line feeds before `pos`.
pub open spec fn lines_before(input: Seq<char>, pos: int) -> int
    decreases pos,
{
    if pos <= 0 {
        0
    } else if input[pos - 1] == '\n' {
        lines_before(input, pos - 1) + 1
    } else {
        lines_before(input, pos - 1)
    }
}

/// Where the line that holds `pos` starts.
pub open spec fn line_start(input: Seq<char>, pos: int) -> int
    decreases pos,
{
    if pos <= 0 {
        0
    } else if input[pos - 1] == '\n' {
        pos
    } else {
        line_start(input, pos - 1)
    }
}

/// A count from zero as a count from one, held to the range of `usize`.
pub open spec fn from_one(count: int) -> usize {
    if count < usize::MAX {
        (count + 1) as usize
    } else {
        usize::MAX
    }
}

/// The place of `pos` in `input`.
pub open spec fn line_info(input: Seq<char>, pos: int) -> SpecLineInfo {
    SpecLineInfo {
        position: (from_one(lines_before(input, pos)), from_one(pos - line_start(input, pos))),
        line: input.subrange(line_start(input, pos), scan(input, pos, CharClass::Line)),
    }
}

/// What is wrong where the grammar fails with `kind`.
pub open spec fn complaint(kind: SyntaxErrorKind) -> Seq<char> {
    match kind {
        SyntaxErrorKind::ExpectedFunction => "Expected a function declaration"@,
        SyntaxErrorKind::ExpectedName => "Expected a name"@,
        SyntaxErrorKind::ReservedWord => "Reserved word "@,
        SyntaxErrorKind::ExpectedOpenParen => "Expected ("@,
        SyntaxErrorKind::ExpectedCloseParen => "Expected )"@,
        SyntaxErrorKind::ExpectedCommaOrCloseParen => "Expected , or )"@,
        SyntaxErrorKind::ExpectedColon => "Expected :"@,
        SyntaxErrorKind::ExpectedType => "Expected a type"@,
        SyntaxErrorKind::InvalidType => "Invalid type "@,
        SyntaxErrorKind::ExpectedOpenBrace => "Expected {"@,
        SyntaxErrorKind::ExpectedCloseBrace => "Expected }"@,
        SyntaxErrorKind::ExpectedEquals => "Expected ="@,
        SyntaxErrorKind::ExpectedSemicolon => "Expected ;"@,
        SyntaxErrorKind::ExpectedExpression => "Expected an expression"@,
        SyntaxErrorKind::UnterminatedString => "Text literal is not closed"@,
        SyntaxErrorKind::IntegerOutOfRange => "Can't convert to int: "@,
    }
}

/// The token that a failure of `kind` at `at` is about, where its message
/// quotes one: the word or the number that stands there.
pub open spec fn quoted_token(input: Seq<char>, kind: SyntaxErrorKind, at: int) -> Seq<char> {
    match kind {
        SyntaxErrorKind::ReservedWord | SyntaxErrorKind::InvalidType => input.subrange(
            at,
            word_end(input, at),
        ),
        SyntaxErrorKind::IntegerOutOfRange if at < input.len() => input.subrange(
            at,
            number_end(input, at),
        ),
        _ => Seq::empty(),
    }
}

/// The report of a failure of the grammar on `input`.
pub open spec fn report(input: Seq<char>, failure: Failure) -> SpecParseError {
    SpecParseError::Error {
        message: complaint(failure.kind) + quoted_token(input, failure.kind, failure.position),
        line: line_info(input, failure.position),
    }
}

/// The text that names a place: `Error at (line, column): ` and the line.
pub open spec fn place_text(line: SpecLineInfo) -> Seq<char> {
    "Error at ("@ + natural_text(line.position.0 as nat) + ", "@ + natural_text(
        line.position.1 as nat,
    ) + "): "@ + line.line
}

/// The text of a failure: its place, and on a line of its own what is
/// wrong; for a list, the texts of its failures one behind the other.
pub open spec fn description(error: SpecParseError) -> Seq<char>
    decreases error, 0int,
{
    match error {
        SpecParseError::Error { message, line } => place_text(line) + "\n\t"@ + message,
        SpecParseError::ErrorList(list) => descriptions(list, list.len() as int),
    }
}

/// The texts of the first `count` failures of `list`, one behind the other.
pub open spec fn descriptions(list: Seq<SpecParseError>, count: int) -> Seq<char>
    decreases list, count,
{
    if count <= 0 || count > list.len() {
        Seq::empty()
    } else {
        descriptions(list, count - 1) + description(list[count - 1])
    }
}

/// The failures among `results`, in order.
pub open spec fn failures<T>(results: Seq<Result<T, ParseError>>) -> Seq<ParseError>
    decreases results.len(),
{
    if results.len() == 0 {
        Seq::empty()
    } else {
        match results.last() {
            Ok(_) => failures(results.drop_last()),
            Err(error) => failures(results.drop_last()).push(error),
        }
    }
}

/// The values among `results`, in order.
pub open spec fn successes<T>(results: Seq<Result<T, ParseError>>) -> Seq<T>
    decreases results.len(),
{
    if results.len() == 0 {
        Seq::empty()
    } else {
        match results.last() {
            Ok(value) => successes(results.drop_last()).push(value),
            Err(_) => successes(results.drop_last()),
        }
    }
}

/// Calls `Itertools::partition_result` on the results in order. It hands
/// back the values of the `Ok` results in one list and the errors of the
/// `Err` results in another, each in the order of the input.
#[verifier::external_body]
fn partition_results<T>(results: Vec<Result<T, ParseError>>) -> (parts: (Vec<T>, Vec<ParseError>))
    ensures
        parts.0@ == successes(results@),
        parts.1@ == failures(results@),
{
    results.into_iter().partition_result()
}

impl LineInfo {
    /// Finds the place of `pos` in `source`.
    pub fn locate(source: &Source, pos: usize) -> (place: LineInfo)
        requires
            pos <= source@.len(),
        ensures
            place@ == line_info(source@, pos as int),
    {
        let mut lines: usize = 0;
        let mut start: usize = 0;
        let mut i: usize = 0;
        while i < pos
            invariant
                i <= pos <= source@.len(),
                lines == lines_before(source@, i as int),
                start == line_start(source@, i as int),
                lines <= i,
                start <= i,
            decreases pos - i,
        {
            i += 1;
            if source.char_at(i - 1) == '\n' {
                lines += 1;
                start = i;
            }
        }
        let end = source.run_end(pos, CharClass::Line);
        LineInfo {
            position: (lines.saturating_add(1), (pos - start).saturating_add(1)),
            line: source.slice(start, end),
        }
    }
}

/// The text that says what is wrong where the grammar fails with `kind`.
fn complaint_text(kind: SyntaxErrorKind) -> (text: &'static str)
    ensures
        text@ == complaint(kind),
{
    match kind {
        SyntaxErrorKind::ExpectedFunction => "Expected a function declaration",
        SyntaxErrorKind::ExpectedName => "Expected a name",
        SyntaxErrorKind::ReservedWord => "Reserved word ",
        SyntaxErrorKind::ExpectedOpenParen => "Expected (",
        SyntaxErrorKind::ExpectedCloseParen => "Expected )",
        SyntaxErrorKind::ExpectedCommaOrCloseParen => "Expected , or )",
        SyntaxErrorKind::ExpectedColon => "Expected :",
        SyntaxErrorKind::ExpectedType => "Expected a type",
        SyntaxErrorKind::InvalidType => "Invalid type ",
        SyntaxErrorKind::ExpectedOpenBrace => "Expected {",
        SyntaxErrorKind::ExpectedCloseBrace => "Expected }",
        SyntaxErrorKind::ExpectedEquals => "Expected =",
        SyntaxErrorKind::ExpectedSemicolon => "Expected ;",
        SyntaxErrorKind::ExpectedExpression => "Expected an expression",
        SyntaxErrorKind::UnterminatedString => "Text literal is not closed",
        SyntaxErrorKind::IntegerOutOfRange => "Can't convert to int: ",
    }
}

impl LineInfo {
    /// The text that names the place.
    pub fn describe(&self) -> (text: String)
        ensures
            text@ == place_text(self@),
    {
        let line_number = format_natural(self.position.0 as u64);
        let column = format_natural(self.position.1 as u64);
        String::from_str("Error at (").concat(line_number.as_str()).concat(", ").concat(
            column.as_str(),
        ).concat("): ").concat(self.line.as_str())
    }
}

/// The texts of the failures of `list`, one behind the other.
fn describe_all(list: &Vec<ParseError>) -> (text: String)
    ensures
        text@ == descriptions(errors_view(list@), list.len() as int),
    decreases list,
{
    let mut text = String::new();
    let mut i: usize = 0;
    while i < list.len()
        invariant
            i <= list.len(),
            text@ == descriptions(errors_view(list@), i as int),
        decreases list.len() - i,
    {
        let next = list[i].describe();
        assert(errors_view(list@)[i as int] == list[i as int]@);
        text = text.concat(next.as_str());
        i += 1;
    }
    text
}

impl ParseError {
    /// The text of the failure, for a reader.
    pub fn describe(&self) -> (text: String)
        ensures
            text@ == description(self@),
        decreases self,
    {
        match self {
            ParseError::Error { message, line } => line.describe().concat("\n\t").concat(
                message.as_str(),
            ),
            ParseError::ErrorList(list) => describe_all(list),
        }
    }

    /// The report of a failure of the grammar: what is wrong, with the
    /// offending word or number where there is one, and the place.
    pub fn from_syntax(source: &Source, error: SyntaxError) -> (reported: ParseError)
        requires
            error.position <= source@.len(),
        ensures
            reported@ == report(source@, error@),
    {
        let at = error.position;
        let end = match error.kind {
            SyntaxErrorKind::ReservedWord | SyntaxErrorKind::InvalidType => source.word_end(at),
            SyntaxErrorKind::IntegerOutOfRange => {
                if at < source.len() && char_is_digit(source.char_at(at)) {
                    source.run_end(at, CharClass::Digit)
                } else if at < source.len() {
                    source.run_end(at + 1, CharClass::Digit)
                } else {
                    at
                }
            },
            _ => at,
        };
        let message = String::from_str(complaint_text(error.kind));
        let token = source.slice(at, end);
        assert(source@.subrange(at as int, at as int) =~= Seq::<char>::empty());
        ParseError::Error {
            message: message.concat(token.as_str()),
            line: LineInfo::locate(source, at),
        }
    }

    /// Gathers results into one: the values where every result is a value,
    /// else the list of all the failures among them.
    pub fn merge<T>(results: Vec<Result<T, ParseError>>) -> (merged: Result<Vec<T>, ParseError>)
        ensures
            match merged {
                Ok(values) => failures(results@).len() == 0 && values@ == successes(results@),
                Err(error) => failures(results@).len() > 0 && (error matches ParseError::ErrorList(
                    list,
                ) && list@ == failures(results@)),
            },
    {
        let (values, errors) = partition_results(results);
        if errors.is_empty() {
            Ok(values)
        } else {
            Err(ParseError::ErrorList(errors))
        }
    }
}

} // verus!
