//! The lexical layer of the grammar: character classes, white space and
//! the maximal runs of characters that words and numbers are made of.

use vstd::prelude::*;

verus! {

/// A class of characters.
#[derive(Debug, PartialEq, Eq, Clone, Copy, Structural)]
pub enum CharClass {
    /// Space, tab, line feed and carriage return.
    Space,
    /// The decimal digits.
    Digit,
    /// What a name is made of: ASCII letters, digits and the underscore.
    Name,
    /// What a text literal is made of: everything but the double quote.
    Quoted,
    /// What a line is made of: everything but the line feed.
    Line,
}

/// Whether `c` is one of the ten decimal digits.
pub open spec fn is_digit(c: char) -> bool {
    '0' <= c <= '9'
}

/// Whether `c` can start a name: an ASCII letter or the underscore.
pub open spec fn is_name_start(c: char) -> bool {
    ('a' <= c <= 'z') || ('A' <= c <= 'Z') || c == '_'
}

/// Whether `c` belongs to `class`.
pub open spec fn in_class(class: CharClass, c: char) -> bool {
    match class {
        CharClass::Space => c == ' ' || c == '\t' || c == '\n' || c == '\r',
        CharClass::Digit => is_digit(c),
        CharClass::Name => is_name_start(c) || is_digit(c),
        CharClass::Quoted => c != '"',
        CharClass::Line => c != '\n',
    }
}

/// The end of the longest run of characters of `class` that starts at `pos`.
pub open spec fn scan(input: Seq<char>, pos: int, class: CharClass) -> int
    decreases input.len() - pos,
{
    if 0 <= pos < input.len() && in_class(class, input[pos]) {
        scan(input, pos + 1, class)
    } else {
        pos
    }
}

/// A run ends inside the input, at or behind its start; it holds only
/// characters of its class, and the character behind it is of another.
pub proof fn lemma_scan(input: Seq<char>, pos: int, class: CharClass)
    requires
        0 <= pos <= input.len(),
    ensures
        pos <= scan(input, pos, class) <= input.len(),
        forall|i: int| pos <= i < scan(input, pos, class) ==> in_class(class, #[trigger] input[i]),
        scan(input, pos, class) < input.len() ==> !in_class(
            class,
            input[scan(input, pos, class)],
        ),
    decreases input.len() - pos,
{
    if pos < input.len() && in_class(class, input[pos]) {
        lemma_scan(input, pos + 1, class);
    }
}

/// A run is what it looks like: where characters of a class stand from
/// `pos` up to `end`, and the input ends there or goes on with another
/// kind of character, the run from `pos` ends at `end`.
pub proof fn lemma_scan_finds_run(input: Seq<char>, pos: int, end: int, class: CharClass)
    requires
        0 <= pos <= end <= input.len(),
        forall|i: int| pos <= i < end ==> in_class(class, #[trigger] input[i]),
        end < input.len() ==> !in_class(class, input[end]),
    ensures
        scan(input, pos, class) == end,
    decreases end - pos,
{
    if pos < end {
        lemma_scan_finds_run(input, pos + 1, end, class);
    }
}

/// The characters of `text`, in order.
pub fn chars_of(text: &str) -> (chars: Vec<char>)
    ensures
        chars@ == text@,
{
    let mut chars: Vec<char> = Vec::new();
    for c in it: text.chars()
        invariant
            chars@ == it.seq().take(it.index() as int),
            it.seq() == text@,
    {
        chars.push(c);
    }
    chars
}

/// Whether `c` is a decimal digit.
pub fn char_is_digit(c: char) -> (result: bool)
    ensures
        result == is_digit(c),
{
    '0' <= c && c <= '9'
}

/// Whether `c` can start a name.
pub fn char_is_name_start(c: char) -> (result: bool)
    ensures
        result == is_name_start(c),
{
    ('a' <= c && c <= 'z') || ('A' <= c && c <= 'Z') || c == '_'
}

/// Whether `c` belongs to `class`.
pub fn char_in_class(class: CharClass, c: char) -> (result: bool)
    ensures
        result == in_class(class, c),
{
    match class {
        CharClass::Space => c == ' ' || c == '\t' || c == '\n' || c == '\r',
        CharClass::Digit => char_is_digit(c),
        CharClass::Name => char_is_name_start(c) || char_is_digit(c),
        CharClass::Quoted => c != '"',
        CharClass::Line => c != '\n',
    }
}

/// Finds the end of the longest run of characters of `class` from `pos` on.
pub fn scan_run(source: &Vec<char>, pos: usize, class: CharClass) -> (end: usize)
    requires
        pos <= source.len(),
    ensures
        end == scan(source@, pos as int, class),
        pos <= end <= source.len(),
{
    let mut end: usize = pos;
    while end < source.len() && char_in_class(class, source[end])
        invariant
            pos <= end <= source.len(),
            scan(source@, end as int, class) == scan(source@, pos as int, class),
        decreases source.len() - end,
    {
        end += 1;
    }
    end
}

} // verus!
