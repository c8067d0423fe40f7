use vstd::prelude::*;

use crate::tree::Rule;

verus! {

/// The three configuration keys a document header must supply.
#[derive(PartialEq, Eq, Structural, Clone, Copy, Debug)]
pub enum Key {
    Title,
    Author,
    Date,
}

/// The token class a syntax error was looking for when the input
/// stopped matching the grammar.
#[derive(PartialEq, Eq, Structural, Clone, Copy, Debug)]
pub enum Expected {
    /// A formula item: quantifier, operand, negation, predicate,
    /// parenthesized formula or literal pass-through.
    Item,
    /// The `>` completing an implication arrow.
    Arrow,
    /// A closing parenthesis.
    CloseParen,
    /// The backtick closing a literal pass-through.
    CloseBacktick,
    /// A comma or the closing parenthesis of an argument list.
    CommaOrCloseParen,
    /// The colon after a premise number.
    Colon,
    /// The bracket closing a justification.
    CloseBracket,
    /// A `[` opening a justification, or the end of the line.
    JustificationOrLineEnd,
    /// The end of the line.
    LineEnd,
    /// The `-` completing a `|-` conclusion marker.
    Turnstile,
    /// The `# config` label line opening the document.
    HeaderLabel,
    /// A label, premise or conclusion line.
    BodyLine,
}

/// What went wrong, carrying the data a message needs.
///
/// `Syntax` through `SeqMismatch` report faults in the user's input;
/// `Internal` marks a tree shape the grammar can never produce, so
/// reaching it means a bug in this library, not in the input.
#[derive(PartialEq, Eq, Structural, Clone, Copy, Debug)]
#[allow(inconsistent_fields)]
pub enum ErrorKind {
    /// The input does not match the grammar at this point; names
    /// the token class that was expected.
    Syntax { expected: Expected },
    /// A node has fewer children than its rule requires.
    Arity { rule: Rule, expected: usize, got: usize },
    /// A node kept children beyond its rule's exact arity.
    ExcessArity { rule: Rule, expected: usize, got: usize },
    /// The header's label is not the literal `config`.
    BadHeaderLabel,
    /// A header line's key is none of `title`, `date`, `author`.
    InvalidKey,
    /// A header key was supplied a second time; names it.
    DuplicateKey { key: Key },
    /// A required header key never appeared.
    MissingKey { key: Key },
    /// A premise number is empty, not numeric, or too large.
    BadNumber,
    /// A premise number breaks the 1..N sequence of its section.
    SeqMismatch { expected: u32, actual: u16 },
    /// An emitter/grammar invariant was violated.
    Internal,
}

/// An error with the source span it points at.
#[derive(PartialEq, Eq, Structural, Clone, Copy, Debug)]
pub struct Error {
    pub kind: ErrorKind,
    pub start: usize,
    pub end: usize,
}

/// Build an error pointing at the span `start..end`.
pub fn custom_error(kind: ErrorKind, start: usize, end: usize) -> (e: Error)
    ensures
        e == (Error { kind, start, end }),
{
    Error { kind, start, end }
}

} // verus!
