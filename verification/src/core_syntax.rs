//! The core syntax that parser rules are translated to, and the errors the
//! translation reports.
use vstd::prelude::*;

use crate::tree::{Span, WithSpan};

verus! {

/// An interned name: rules and tokens are told apart by it.
#[derive(Clone, Copy, Debug, PartialEq, Eq, Structural, Hash)]
pub struct Symbol {
    pub id: u64,
}

/// A term of the core parser language.
#[derive(Debug)]
pub enum Term {
    Epsilon,
    Bottom,
    Sequence(TermPtr, TermPtr),
    Alternative(TermPtr, TermPtr),
    Fix(Symbol, TermPtr),
    ParserRef(Symbol),
    LexerRef(Symbol),
}

pub type TermPtr = Box<WithSpan<Term>>;

/// The translated body of a parser rule.
#[derive(Debug)]
pub struct ParserRule {
    pub active: bool,
    pub term: TermPtr,
}

/// An error in a parser definition; the name it is about is the text at the
/// span that comes with it.
#[derive(Debug, Clone, Copy, PartialEq, Eq, Structural)]
pub enum Error {
    /// A reference to a parser rule that is not defined.
    UndefinedParserRuleReference { name: Span },
    /// A second definition of a parser rule, first defined at `previous`.
    MultipleDefinition { previous: Span },
    /// A reference to a token that the lexer does not define.
    UndefinedLexicalReference { name: Span },
}

} // verus!
