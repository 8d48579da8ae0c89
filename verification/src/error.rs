//! Errors of parsing and expansion.

use crate::token::Span;
use vstd::prelude::*;
use vstd::string::StringExecFns;

verus! {

/// What a parser was looking for when it failed.
#[derive(Clone, Copy, Debug, PartialEq, Eq, Structural)]
pub enum Expected {
    Group,
    Identifier,
    Punctuation,
    Literal,
    /// The word `in` between the bound name and the range.
    KeywordIn,
    /// An integer literal that fits the range's value type.
    IntegerLiteral,
    /// One of the range operators `..` and `..=`.
    RangeOperator,
    /// The braced body of an invocation.
    BracedBody,
    /// Nothing more after the braced body.
    EndOfInput,
}

/// The kinds of failure. Each one ends the invocation.
#[derive(Clone, Copy, Debug, PartialEq, Eq, Structural)]
pub enum SeqErrorKind {
    /// A token was required where the input ended.
    UnexpectedEof(Expected),
    /// A token was present but of the wrong kind.
    UnexpectedToken(Expected),
    /// Neither `..` nor `..=` stood where a range operator was required.
    InvalidRangeSyntax,
    /// The bound name stood outside the repeated region of a body that has
    /// one.
    BoundVariableOutsideRepeatContext,
    /// A repeat section stood where a single value was being substituted.
    NestedRepeatSection,
}

/// A failure together with the place it is reported at.
#[derive(Clone, Copy, Debug, PartialEq, Eq, Structural)]
pub struct SeqError {
    pub kind: SeqErrorKind,
    pub span: Span,
}

/// An outcome with the model of its value in place of the value.
pub open spec fn modeled<T: View>(result: Result<T, SeqError>) -> Result<T::V, SeqError> {
    match result {
        Ok(value) => Ok(value@),
        Err(error) => Err(error),
    }
}

/// An outcome with the model of its value, taken down to the elements, in
/// place of the value.
pub open spec fn deep_modeled<T: DeepView>(result: Result<T, SeqError>) -> Result<T::V, SeqError> {
    match result {
        Ok(value) => Ok(value.deep_view()),
        Err(error) => Err(error),
    }
}

/// `first` in front of what a successful outcome holds.
pub open spec fn prepend<T>(first: T, rest: Result<Seq<T>, SeqError>) -> Result<Seq<T>, SeqError> {
    match rest {
        Ok(items) => Ok(seq![first] + items),
        Err(error) => Err(error),
    }
}

/// `done` in front of what a successful outcome holds.
pub open spec fn after<T>(done: Seq<T>, rest: Result<Seq<T>, SeqError>) -> Result<
    Seq<T>,
    SeqError,
> {
    match rest {
        Ok(items) => Ok(done + items),
        Err(error) => Err(error),
    }
}

/// Nothing in front of an outcome leaves it as it is.
pub proof fn lemma_after_nothing<T>(rest: Result<Seq<T>, SeqError>)
    ensures
        after(Seq::empty(), rest) == rest,
{
    if rest is Ok {
        assert(Seq::<T>::empty() + rest->Ok_0 =~= rest->Ok_0);
    }
}

/// Moving an item from the front of what is still to come to the end of
/// what is done leaves the whole unchanged.
pub proof fn lemma_prepend_shift<T>(done: Seq<T>, first: T, rest: Result<Seq<T>, SeqError>)
    ensures
        after(done, prepend(first, rest)) == after(done.push(first), rest),
{
    if rest is Ok {
        assert(done + (seq![first] + rest->Ok_0) =~= done.push(first) + rest->Ok_0);
    }
}

/// The noun a message uses for what was expected.
pub open spec fn expected_noun(expected: Expected) -> Seq<char> {
    match expected {
        Expected::Group => "group"@,
        Expected::Identifier => "identifier"@,
        Expected::Punctuation => "punctuation"@,
        Expected::Literal => "literal"@,
        Expected::KeywordIn => "`in`"@,
        Expected::IntegerLiteral => "integer literal"@,
        Expected::RangeOperator => "`..` or `..=`"@,
        Expected::BracedBody => "braced body"@,
        Expected::EndOfInput => "end of input"@,
    }
}

/// The text of the message for each kind of failure.
pub open spec fn message_text(kind: SeqErrorKind) -> Seq<char> {
    match kind {
        SeqErrorKind::UnexpectedEof(expected) => "Expecting "@ + expected_noun(expected)
            + ", got EOF"@,
        SeqErrorKind::UnexpectedToken(expected) => "Expecting "@ + expected_noun(expected),
        SeqErrorKind::InvalidRangeSyntax => "Expecting `..` or `..=`"@,
        SeqErrorKind::BoundVariableOutsideRepeatContext => "Seq identifier out of repeat section"@,
        SeqErrorKind::NestedRepeatSection => "Repeat sections cannot be nested"@,
    }
}

impl Expected {
    /// The noun a message uses for this expectation.
    pub fn noun(&self) -> (text: &'static str)
        ensures
            text@ == expected_noun(*self),
    {
        match self {
            Expected::Group => "group",
            Expected::Identifier => "identifier",
            Expected::Punctuation => "punctuation",
            Expected::Literal => "literal",
            Expected::KeywordIn => "`in`",
            Expected::IntegerLiteral => "integer literal",
            Expected::RangeOperator => "`..` or `..=`",
            Expected::BracedBody => "braced body",
            Expected::EndOfInput => "end of input",
        }
    }
}

impl SeqError {
    /// Builds an error of the given kind at the given place.
    pub fn new(kind: SeqErrorKind, span: Span) -> (error: SeqError)
        ensures
            error == (SeqError { kind, span }),
    {
        SeqError { kind, span }
    }

    /// The human-readable message of this error.
    pub fn message(&self) -> (text: String)
        ensures
            text@ == message_text(self.kind),
    {
        match self.kind {
            SeqErrorKind::UnexpectedEof(expected) => {
                String::from_str("Expecting ").concat(expected.noun()).concat(", got EOF")
            },
            SeqErrorKind::UnexpectedToken(expected) => {
                String::from_str("Expecting ").concat(expected.noun())
            },
            SeqErrorKind::InvalidRangeSyntax => String::from_str("Expecting `..` or `..=`"),
            SeqErrorKind::BoundVariableOutsideRepeatContext => {
                String::from_str("Seq identifier out of repeat section")
            },
            SeqErrorKind::NestedRepeatSection => {
                String::from_str("Repeat sections cannot be nested")
            },
        }
    }
}

} // verus!
