//! The source text as the grammar reads it, and the failures of the grammar.

use crate::parser::lexer::{chars_of, scan, scan_run, CharClass};
use vstd::prelude::*;
use vstd::string::{StrSliceExecFns, StringExecFns};

verus! {

/// What the grammar found wrong at a position.
#[derive(Debug, PartialEq, Eq, Clone, Copy, Structural)]
pub enum SyntaxErrorKind {
    /// Something other than a function declaration stands on the top level.
    ExpectedFunction,
    /// A name is missing.
    ExpectedName,
    /// A reserved word stands where a name is needed.
    ReservedWord,
    /// A `(` is missing.
    ExpectedOpenParen,
    /// A `)` is missing.
    ExpectedCloseParen,
    /// A parameter is followed by something other than `,` or `)`.
    ExpectedCommaOrCloseParen,
    /// The `:` between a name and its type is missing.
    ExpectedColon,
    /// A type is missing.
    ExpectedType,
    /// A word stands for a type and is none of `int`, `bool`, `string`.
    InvalidType,
    /// A `{` is missing.
    ExpectedOpenBrace,
    /// The text ends inside a block.
    ExpectedCloseBrace,
    /// The `=` of a declaration is missing.
    ExpectedEquals,
    /// The `;` that ends a statement is missing.
    ExpectedSemicolon,
    /// An expression is missing.
    ExpectedExpression,
    /// A text literal is not closed before the text ends.
    UnterminatedString,
    /// An integer literal does not fit into 32 bits.
    IntegerOutOfRange,
}

/// A failure of the grammar: what is wrong, and at which character.
#[derive(Debug, PartialEq, Eq, Clone, Copy)]
pub struct SyntaxError {
    pub kind: SyntaxErrorKind,
    pub position: usize,
}

/// The model of a [`SyntaxError`].
pub struct Failure {
    pub kind: SyntaxErrorKind,
    pub position: int,
}

impl View for SyntaxError {
    type V = Failure;

    open spec fn view(&self) -> Failure {
        Failure { kind: self.kind, position: self.position as int }
    }
}

/// The failure of `kind` at `position`.
pub open spec fn failure(kind: SyntaxErrorKind, position: int) -> Failure {
    Failure { kind, position }
}

/// Where the next token starts: the first position from `pos` on that
/// holds no white space.
pub open spec fn token_start(input: Seq<char>, pos: int) -> int {
    scan(input, pos, CharClass::Space)
}

/// Where the word that starts at `at` ends. There is no word, and the end
/// is `at`, unless a letter or an underscore stands at `at`.
pub open spec fn word_end(input: Seq<char>, at: int) -> int {
    if 0 <= at < input.len() && crate::parser::lexer::is_name_start(input[at]) {
        scan(input, at, CharClass::Name)
    } else {
        at
    }
}

/// Whether `literal` stands in `input` at `at`.
pub open spec fn stands_at(input: Seq<char>, at: int, literal: Seq<char>) -> bool {
    0 <= at && at + literal.len() <= input.len() && input.subrange(at, at + literal.len())
        == literal
}

/// Whether a rule that was applied at `from` and ended at `end` has read
/// something of the input. A rule that succeeds always has: the grammar
/// asks so only where a rule is applied again and again, to show that it
/// cannot be applied for ever.
pub open spec fn advanced(input: Seq<char>, from: int, end: int) -> bool {
    0 <= from < end <= input.len()
}

/// A source text, held both as text and as its characters.
pub struct Source<'a> {
    text: &'a str,
    chars: Vec<char>,
}

impl<'a> View for Source<'a> {
    type V = Seq<char>;

    closed spec fn view(&self) -> Seq<char> {
        self.text@
    }
}

impl<'a> Source<'a> {
    #[verifier::type_invariant]
    spec fn agrees(self) -> bool {
        self.chars@ == self.text@
    }

    /// The source that holds `text`.
    pub fn new(text: &'a str) -> (source: Source<'a>)
        ensures
            source@ == text@,
    {
        Source { text, chars: chars_of(text) }
    }

    /// The number of characters.
    pub fn len(&self) -> (len: usize)
        ensures
            len == self@.len(),
    {
        proof {
            use_type_invariant(self);
        }
        self.chars.len()
    }

    /// The character at `at`.
    pub fn char_at(&self, at: usize) -> (c: char)
        requires
            at < self@.len(),
        ensures
            c == self@[at as int],
    {
        proof {
            use_type_invariant(self);
        }
        self.chars[at]
    }

    /// Whether `c` stands at `at`.
    pub fn has_char(&self, at: usize, c: char) -> (result: bool)
        ensures
            result == (at < self@.len() && self@[at as int] == c),
    {
        proof {
            use_type_invariant(self);
        }
        at < self.chars.len() && self.chars[at] == c
    }

    /// Finds where the next token starts.
    pub fn token_start(&self, pos: usize) -> (at: usize)
        requires
            pos <= self@.len(),
        ensures
            at == token_start(self@, pos as int),
            pos <= at <= self@.len() <= usize::MAX,
    {
        proof {
            use_type_invariant(self);
        }
        scan_run(&self.chars, pos, CharClass::Space)
    }

    /// Finds the end of the run of characters of `class` that starts at `pos`.
    pub fn run_end(&self, pos: usize, class: CharClass) -> (end: usize)
        requires
            pos <= self@.len(),
        ensures
            end == scan(self@, pos as int, class),
            pos <= end <= self@.len() <= usize::MAX,
    {
        proof {
            use_type_invariant(self);
        }
        scan_run(&self.chars, pos, class)
    }

    /// Finds the end of the word that starts at `at`.
    pub fn word_end(&self, at: usize) -> (end: usize)
        requires
            at <= self@.len(),
        ensures
            end == word_end(self@, at as int),
            at <= end <= self@.len() <= usize::MAX,
    {
        proof {
            use_type_invariant(self);
        }
        if at < self.chars.len() && crate::parser::lexer::char_is_name_start(self.chars[at]) {
            scan_run(&self.chars, at, CharClass::Name)
        } else {
            at
        }
    }

    /// Whether the characters from `start` to `end` spell `literal`.
    pub fn spells(&self, start: usize, end: usize, literal: &str) -> (result: bool)
        requires
            start <= end <= self@.len(),
        ensures
            result == (self@.subrange(start as int, end as int) == literal@),
    {
        proof {
            use_type_invariant(self);
        }
        let ghost word = self@.subrange(start as int, end as int);
        let length = literal.unicode_len();
        if end - start != length {
            return false;
        }
        let mut i: usize = 0;
        while i < length
            invariant
                i <= length,
                length == literal@.len(),
                end - start == length,
                start <= end <= self.chars.len(),
                self.chars@ == self@,
                word == self@.subrange(start as int, end as int),
                forall|j: int| 0 <= j < i ==> word[j] == literal@[j],
            decreases length - i,
        {
            if self.chars[start + i] != literal.get_char(i) {
                assert(word[i as int] != literal@[i as int]);
                return false;
            }
            i += 1;
        }
        assert(word =~= literal@);
        true
    }

    /// Whether `literal` stands at `at`.
    pub fn has_literal(&self, at: usize, literal: &str) -> (result: bool)
        requires
            at <= self@.len(),
        ensures
            result == stands_at(self@, at as int, literal@),
    {
        let length = literal.unicode_len();
        if length > self.len() - at {
            return false;
        }
        self.spells(at, at + length, literal)
    }

    /// The characters from `start` to `end`, as text.
    pub fn slice(&self, start: usize, end: usize) -> (text: String)
        requires
            start <= end <= self@.len(),
        ensures
            text@ == self@.subrange(start as int, end as int),
    {
        String::from_str(self.text.substring_char(start, end))
    }
}

} // verus!
