//! The cursor over a flat token sequence and the parser that turns the
//! sequence into its structured form.

use crate::error::{
    after, lemma_after_nothing, lemma_prepend_shift, modeled, prepend, Expected, SeqError,
    SeqErrorKind,
};
use crate::token::{
    lemma_group_view, Delimiter, Ident, IdentView, Literal, LiteralView, Punct, Span, TokenTree,
    TokenTreeView,
};
use crate::tree::{
    lemma_stream_view, SeqDelimiter, SeqGroup, SeqGroupView, SeqIdent, SeqIdentView,
    SeqTokenStream, SeqTokenTree, SeqTokenTreeView,
};
use vstd::prelude::*;

verus! {

/// The punctuation that pastes a prefix onto the identifier after it.
pub const PASTE_TOKEN: char = '~';

/// The punctuation that opens a repeat section, before its parentheses.
pub const REPEAT_SECTION_START_PUNCT: char = '#';

/// The punctuation that closes a repeat section, after its parentheses.
pub const REPEAT_SECTION_END_PUNCT: char = '*';

/// Whether the token at `i` exists and is the punctuation character `ch`.
pub open spec fn punct_char_at(tokens: Seq<TokenTreeView>, i: int, ch: char) -> bool {
    &&& 0 <= i < tokens.len()
    &&& tokens[i] matches TokenTreeView::Punct(p)
    &&& p.ch == ch
}

/// Whether the token after the one at `i` is the paste operator.
pub open spec fn paste_ahead(tokens: Seq<TokenTreeView>, i: int) -> bool {
    punct_char_at(tokens, i + 1, PASTE_TOKEN)
}

/// Whether the three tokens from `i` on are `#`, a parenthesized group and
/// `*`.
pub open spec fn repeat_section_ahead(tokens: Seq<TokenTreeView>, i: int) -> bool {
    &&& i + 2 < tokens.len()
    &&& punct_char_at(tokens, i, REPEAT_SECTION_START_PUNCT)
    &&& tokens[i + 1] matches TokenTreeView::Group(g)
    &&& g.delimiter == Delimiter::Parenthesis
    &&& punct_char_at(tokens, i + 2, REPEAT_SECTION_END_PUNCT)
}

/// The error for a token of the wrong kind, or for none, at `i`.
pub open spec fn mismatch_at(tokens: Seq<TokenTreeView>, i: int, expected: Expected) -> SeqError {
    if 0 <= i < tokens.len() {
        SeqError { kind: SeqErrorKind::UnexpectedToken(expected), span: tokens[i].span() }
    } else {
        SeqError { kind: SeqErrorKind::UnexpectedEof(expected), span: Span::MixedSite }
    }
}

/// The identifier at `i`, or the error for its absence.
pub open spec fn ident_at(tokens: Seq<TokenTreeView>, i: int) -> Result<IdentView, SeqError> {
    if 0 <= i < tokens.len() && tokens[i] is Ident {
        Ok(tokens[i]->Ident_0)
    } else {
        Err(mismatch_at(tokens, i, Expected::Identifier))
    }
}

/// The punctuation at `i`, or the error for its absence.
pub open spec fn punct_at(tokens: Seq<TokenTreeView>, i: int) -> Result<Punct, SeqError> {
    if 0 <= i < tokens.len() && tokens[i] is Punct {
        Ok(tokens[i]->Punct_0)
    } else {
        Err(mismatch_at(tokens, i, Expected::Punctuation))
    }
}

/// The literal at `i`, or the error for its absence.
pub open spec fn literal_at(tokens: Seq<TokenTreeView>, i: int) -> Result<LiteralView, SeqError> {
    if 0 <= i < tokens.len() && tokens[i] is Literal {
        Ok(tokens[i]->Literal_0)
    } else {
        Err(mismatch_at(tokens, i, Expected::Literal))
    }
}

/// The identifier that starts at `i`: `prefix ~ ident` where a paste
/// operator follows the first token, a single identifier otherwise.
pub open spec fn seq_ident_at(tokens: Seq<TokenTreeView>, i: int) -> Result<
    SeqIdentView,
    SeqError,
> {
    if paste_ahead(tokens, i) {
        match ident_at(tokens, i) {
            Err(e) => Err(e),
            Ok(prefix) => match ident_at(tokens, i + 2) {
                Err(e) => Err(e),
                Ok(ident) => Ok(SeqIdentView { prefix: Some(prefix), ident }),
            },
        }
    } else {
        match ident_at(tokens, i) {
            Err(e) => Err(e),
            Ok(ident) => Ok(SeqIdentView { prefix: None, ident }),
        }
    }
}

/// A parsed identifier has a prefix only where the paste operator stood
/// between the prefix and the identifier.
pub proof fn lemma_prefix_means_paste(tokens: Seq<TokenTreeView>, i: int)
    requires
        seq_ident_at(tokens, i) matches Ok(ident) && ident.prefix is Some,
    ensures
        punct_char_at(tokens, i + 1, PASTE_TOKEN),
        tokens[i] == TokenTreeView::Ident(seq_ident_at(tokens, i)->Ok_0.prefix->Some_0),
        tokens[i + 2] == TokenTreeView::Ident(seq_ident_at(tokens, i)->Ok_0.ident),
{
}

/// How many tokens a parsed identifier was written with.
pub open spec fn seq_ident_width(ident: SeqIdentView) -> int {
    if ident.prefix is Some {
        3
    } else {
        1
    }
}

/// How many tokens the group that starts at `i` is written with.
pub open spec fn seq_group_width(tokens: Seq<TokenTreeView>, i: int) -> int {
    if repeat_section_ahead(tokens, i) {
        3
    } else {
        1
    }
}

/// The group that starts at `i`: a repeat section where `#( ... )*` stands
/// there, the bracketed group at `i` otherwise. Either way the group's
/// contents are parsed in turn.
pub open spec fn seq_group_at(tokens: Seq<TokenTreeView>, i: int) -> Result<SeqGroupView, SeqError>
    decreases tokens, 0int,
{
    if repeat_section_ahead(tokens, i) {
        match parse_from(tokens[i + 1]->Group_0.stream, 0) {
            Ok(stream) => Ok(SeqGroupView { delimiter: SeqDelimiter::RepeatSection, stream }),
            Err(e) => Err(e),
        }
    } else if 0 <= i < tokens.len() && tokens[i] is Group {
        match parse_from(tokens[i]->Group_0.stream, 0) {
            Ok(stream) => Ok(
                SeqGroupView {
                    delimiter: SeqDelimiter::Delimiter(tokens[i]->Group_0.delimiter),
                    stream,
                },
            ),
            Err(e) => Err(e),
        }
    } else {
        Err(mismatch_at(tokens, i, Expected::Group))
    }
}

/// The nodes that the tokens from `i` to the end parse into. At each place
/// the kind of the current token decides: an identifier starts an identifier
/// node (pasted where a paste operator follows it), a group is a group node, a
/// `#` that starts the three-token pattern is a repeat section, any other
/// punctuation stands for itself, and so does a literal. A paste operator
/// after anything but an identifier is plain punctuation.
pub open spec fn parse_from(tokens: Seq<TokenTreeView>, i: int) -> Result<
    Seq<SeqTokenTreeView>,
    SeqError,
>
    decreases tokens, tokens.len() - i,
{
    if i < 0 || i >= tokens.len() {
        Ok(Seq::empty())
    } else if tokens[i] is Ident {
        match seq_ident_at(tokens, i) {
            Err(e) => Err(e),
            Ok(ident) => prepend(
                SeqTokenTreeView::SeqIdent(ident),
                parse_from(tokens, i + seq_ident_width(ident)),
            ),
        }
    } else if repeat_section_ahead(tokens, i) || tokens[i] is Group {
        match seq_group_at(tokens, i) {
            Err(e) => Err(e),
            Ok(group) => prepend(
                SeqTokenTreeView::SeqGroup(group),
                parse_from(tokens, i + seq_group_width(tokens, i)),
            ),
        }
    } else if tokens[i] is Punct {
        prepend(SeqTokenTreeView::Punct(tokens[i]->Punct_0), parse_from(tokens, i + 1))
    } else {
        match literal_at(tokens, i) {
            Err(e) => Err(e),
            Ok(literal) => prepend(SeqTokenTreeView::Literal(literal), parse_from(tokens, i + 1)),
        }
    }
}

/// The structured form of a whole token sequence.
pub open spec fn parse_stream(tokens: Seq<TokenTreeView>) -> Result<
    Seq<SeqTokenTreeView>,
    SeqError,
> {
    parse_from(tokens, 0)
}

/// A position-tracked view over a flat token sequence.
pub struct SeqParseStream<'a> {
    tokens: &'a Vec<TokenTree>,
    index: usize,
}

impl<'a> SeqParseStream<'a> {
    #[verifier::type_invariant]
    spec fn in_bounds(&self) -> bool {
        self.index <= self.tokens@.len()
    }

    /// The whole token sequence, whatever has been consumed.
    pub closed spec fn tokens(&self) -> Seq<TokenTreeView> {
        self.tokens.deep_view()
    }

    /// How many tokens have been consumed.
    pub closed spec fn index(&self) -> int {
        self.index as int
    }

    /// Starts at the first token of `stream`.
    pub fn from_token_stream(stream: &'a Vec<TokenTree>) -> (cursor: Self)
        ensures
            cursor.tokens() == stream.deep_view(),
            cursor.index() == 0,
    {
        SeqParseStream { tokens: stream, index: 0 }
    }

    /// The number of consumed tokens, which never exceeds the length.
    pub fn position(&self) -> (index: usize)
        ensures
            index == self.index(),
            index <= self.tokens().len(),
    {
        proof {
            use_type_invariant(self);
        }
        self.index
    }

    /// Goes back to an earlier position.
    fn rewind(&mut self, index: usize)
        requires
            index <= old(self).index(),
        ensures
            final(self).tokens() == old(self).tokens(),
            final(self).index() == index,
    {
        proof {
            use_type_invariant(&*self);
        }
        self.index = index;
    }

    /// Tells whether every token has been consumed.
    pub fn is_empty(&self) -> (empty: bool)
        ensures
            empty == (self.index() >= self.tokens().len()),
    {
        self.index >= self.tokens.len()
    }

    /// Tells whether the token after the current one is the paste operator.
    pub fn peek_paste_token(&self) -> (found: bool)
        ensures
            found == paste_ahead(self.tokens(), self.index()),
    {
        if self.index >= self.tokens.len() || self.index + 1 >= self.tokens.len() {
            false
        } else {
            match &self.tokens[self.index + 1] {
                TokenTree::Punct(p) => p.ch == PASTE_TOKEN,
                _ => false,
            }
        }
    }

    /// Tells whether the next three tokens are `#`, a parenthesized group
    /// and `*`.
    pub fn peek_repeat_section(&self) -> (found: bool)
        ensures
            found == repeat_section_ahead(self.tokens(), self.index()),
    {
        if self.index >= self.tokens.len() || self.tokens.len() - self.index <= 2 {
            return false;
        }
        let punct = match &self.tokens[self.index] {
            TokenTree::Punct(punct) => punct,
            _ => {
                return false;
            },
        };
        if punct.ch != REPEAT_SECTION_START_PUNCT {
            return false;
        }
        let group = match &self.tokens[self.index + 1] {
            TokenTree::Group(group) => group,
            _ => {
                return false;
            },
        };
        proof {
            lemma_group_view(*group);
        }
        match group.delimiter {
            Delimiter::Parenthesis => {},
            _ => {
                return false;
            },
        }
        let punct = match &self.tokens[self.index + 2] {
            TokenTree::Punct(punct) => punct,
            _ => {
                return false;
            },
        };
        punct.ch == REPEAT_SECTION_END_PUNCT
    }

    /// Tells whether the current token is a group.
    pub fn peek_group(&self) -> (found: bool)
        ensures
            found == (self.index() < self.tokens().len() && self.tokens()[self.index()] is Group),
    {
        if self.index >= self.tokens.len() {
            false
        } else {
            match &self.tokens[self.index] {
                TokenTree::Group(_) => true,
                _ => false,
            }
        }
    }

    /// Tells whether the current token is an identifier.
    pub fn peek_ident(&self) -> (found: bool)
        ensures
            found == (self.index() < self.tokens().len() && self.tokens()[self.index()] is Ident),
    {
        if self.index >= self.tokens.len() {
            false
        } else {
            match &self.tokens[self.index] {
                TokenTree::Ident(_) => true,
                _ => false,
            }
        }
    }

    /// Tells whether the current token is punctuation.
    pub fn peek_punct(&self) -> (found: bool)
        ensures
            found == (self.index() < self.tokens().len() && self.tokens()[self.index()] is Punct),
    {
        if self.index >= self.tokens.len() {
            false
        } else {
            match &self.tokens[self.index] {
                TokenTree::Punct(_) => true,
                _ => false,
            }
        }
    }

    /// Consumes the current token if it is an identifier.
    pub fn parse_ident(&mut self) -> (result: Result<Ident, SeqError>)
        ensures
            final(self).tokens() == old(self).tokens(),
            modeled(result) == ident_at(old(self).tokens(), old(self).index()),
            final(self).index() == old(self).index() + if result is Ok {
                1int
            } else {
                0int
            },
    {
        if self.index >= self.tokens.len() {
            Err(SeqError::new(SeqErrorKind::UnexpectedEof(Expected::Identifier), Span::MixedSite))
        } else {
            match &self.tokens[self.index] {
                TokenTree::Ident(ident) => {
                    let ident = ident.clone();
                    self.index += 1;
                    Ok(ident)
                },
                other => Err(
                    SeqError::new(
                        SeqErrorKind::UnexpectedToken(Expected::Identifier),
                        other.span(),
                    ),
                ),
            }
        }
    }

    /// Consumes the current token if it is punctuation.
    pub fn parse_punct(&mut self) -> (result: Result<Punct, SeqError>)
        ensures
            final(self).tokens() == old(self).tokens(),
            result == punct_at(old(self).tokens(), old(self).index()),
            final(self).index() == old(self).index() + if result is Ok {
                1int
            } else {
                0int
            },
    {
        if self.index >= self.tokens.len() {
            Err(SeqError::new(SeqErrorKind::UnexpectedEof(Expected::Punctuation), Span::MixedSite))
        } else {
            match &self.tokens[self.index] {
                TokenTree::Punct(punct) => {
                    let punct = *punct;
                    self.index += 1;
                    Ok(punct)
                },
                other => Err(
                    SeqError::new(
                        SeqErrorKind::UnexpectedToken(Expected::Punctuation),
                        other.span(),
                    ),
                ),
            }
        }
    }

    /// Consumes the current token if it is a literal.
    pub fn parse_literal(&mut self) -> (result: Result<Literal, SeqError>)
        ensures
            final(self).tokens() == old(self).tokens(),
            modeled(result) == literal_at(old(self).tokens(), old(self).index()),
            final(self).index() == old(self).index() + if result is Ok {
                1int
            } else {
                0int
            },
    {
        if self.index >= self.tokens.len() {
            Err(SeqError::new(SeqErrorKind::UnexpectedEof(Expected::Literal), Span::MixedSite))
        } else {
            match &self.tokens[self.index] {
                TokenTree::Literal(literal) => {
                    let literal = literal.clone();
                    self.index += 1;
                    Ok(literal)
                },
                other => Err(
                    SeqError::new(SeqErrorKind::UnexpectedToken(Expected::Literal), other.span()),
                ),
            }
        }
    }
}

impl<'a> SeqParseStream<'a> {
    /// Consumes an identifier, together with its prefix and the paste
    /// operator where one follows the current token.
    pub fn parse_seq_ident(&mut self) -> (result: Result<SeqIdent, SeqError>)
        ensures
            final(self).tokens() == old(self).tokens(),
            modeled(result) == seq_ident_at(old(self).tokens(), old(self).index()),
            final(self).index() == old(self).index() + match result {
                Ok(ident) => seq_ident_width(ident@),
                Err(_) => 0,
            },
    {
        proof {
            use_type_invariant(&*self);
        }
        let start = self.index;
        if self.peek_paste_token() {
            let prefix = match self.parse_ident() {
                Ok(prefix) => prefix,
                Err(error) => {
                    return Err(error);
                },
            };
            match self.parse_punct() {
                Ok(_) => {},
                Err(error) => {
                    self.rewind(start);
                    return Err(error);
                },
            }
            match self.parse_ident() {
                Ok(ident) => Ok(SeqIdent { prefix: Some(prefix), ident }),
                Err(error) => {
                    self.rewind(start);
                    Err(error)
                },
            }
        } else {
            match self.parse_ident() {
                Ok(ident) => Ok(SeqIdent { prefix: None, ident }),
                Err(error) => Err(error),
            }
        }
    }

    /// Consumes a group and parses its contents: the three tokens of a
    /// repeat section where they stand here, one bracketed group otherwise.
    pub fn parse_seq_group(&mut self) -> (result: Result<SeqGroup, SeqError>)
        ensures
            final(self).tokens() == old(self).tokens(),
            modeled(result) == seq_group_at(old(self).tokens(), old(self).index()),
            final(self).index() == old(self).index() + if result is Ok {
                seq_group_width(old(self).tokens(), old(self).index())
            } else {
                0
            },
        decreases
            old(self).tokens(),
            (if repeat_section_ahead(old(self).tokens(), old(self).index()) {
                1int
            } else {
                0int
            }),
    {
        proof {
            use_type_invariant(&*self);
        }
        let start = self.index;
        let len = self.tokens.len();
        if self.peek_repeat_section() {
            assert(start + 2 < len);
            self.index += 1;
            let group = match self.parse_seq_group() {
                Ok(group) => group,
                Err(error) => {
                    self.rewind(start);
                    return Err(error);
                },
            };
            match self.parse_punct() {
                Ok(_) => {},
                Err(error) => {
                    self.rewind(start);
                    return Err(error);
                },
            }
            Ok(SeqGroup { delimiter: SeqDelimiter::RepeatSection, stream: group.stream })
        } else if self.index >= len {
            Err(SeqError::new(SeqErrorKind::UnexpectedEof(Expected::Group), Span::MixedSite))
        } else {
            let tokens: &'a Vec<TokenTree> = self.tokens;
            match &tokens[self.index] {
                TokenTree::Group(group) => {
                    proof {
                        lemma_group_view(*group);
                    }
                    let mut inner = SeqParseStream::from_token_stream(&group.stream);
                    match SeqTokenStream::seq_parse(&mut inner) {
                        Ok(stream) => {
                            assert(self.index < tokens@.len());
                            self.index += 1;
                            Ok(
                                SeqGroup {
                                    delimiter: SeqDelimiter::Delimiter(group.delimiter),
                                    stream,
                                },
                            )
                        },
                        Err(error) => Err(error),
                    }
                },
                other => Err(
                    SeqError::new(SeqErrorKind::UnexpectedToken(Expected::Group), other.span()),
                ),
            }
        }
    }
}

impl SeqTokenStream {
    /// Parses every token that `input` has left into nodes. On failure the
    /// cursor is where it was.
    pub fn seq_parse(input: &mut SeqParseStream) -> (result: Result<SeqTokenStream, SeqError>)
        ensures
            final(input).tokens() == old(input).tokens(),
            modeled(result) == parse_from(old(input).tokens(), old(input).index()),
            final(input).index() == if result is Ok {
                old(input).tokens().len() as int
            } else {
                old(input).index()
            },
        decreases old(input).tokens(), 2int,
    {
        let start = input.position();
        let ghost tokens = input.tokens();
        let mut nodes: Vec<SeqTokenTree> = Vec::new();
        proof {
            assert(nodes.deep_view() =~= Seq::empty());
            lemma_after_nothing(parse_from(tokens, start as int));
        }
        while !input.is_empty()
            invariant
                input.tokens() == tokens,
                tokens == old(input).tokens(),
                start == old(input).index(),
                start <= input.index() <= tokens.len(),
                parse_from(tokens, start as int) == after(
                    nodes.deep_view(),
                    parse_from(tokens, input.index()),
                ),
            decreases tokens.len() - input.index(),
        {
            let ghost done = nodes.deep_view();
            let ghost here = input.index();
            let node = if input.peek_ident() {
                match input.parse_seq_ident() {
                    Ok(ident) => SeqTokenTree::SeqIdent(ident),
                    Err(error) => {
                        input.rewind(start);
                        return Err(error);
                    },
                }
            } else if input.peek_repeat_section() || input.peek_group() {
                match input.parse_seq_group() {
                    Ok(group) => SeqTokenTree::SeqGroup(group),
                    Err(error) => {
                        input.rewind(start);
                        return Err(error);
                    },
                }
            } else if input.peek_punct() {
                match input.parse_punct() {
                    Ok(punct) => SeqTokenTree::Punct(punct),
                    Err(error) => {
                        input.rewind(start);
                        return Err(error);
                    },
                }
            } else {
                match input.parse_literal() {
                    Ok(literal) => SeqTokenTree::Literal(literal),
                    Err(error) => {
                        input.rewind(start);
                        return Err(error);
                    },
                }
            };
            proof {
                lemma_prepend_shift(done, node@, parse_from(tokens, input.index()));
                assert(parse_from(tokens, here) == prepend(
                    node@,
                    parse_from(tokens, input.index()),
                ));
            }
            nodes.push(node);
            assert(nodes.deep_view() =~= done.push(node@));
        }
        let stream = SeqTokenStream { tokens: nodes };
        proof {
            lemma_stream_view(stream);
            assert(stream@ + Seq::<SeqTokenTreeView>::empty() =~= stream@);
        }
        Ok(stream)
    }

    /// Parses a whole token sequence into its structured form.
    pub fn parse(tokens: &Vec<TokenTree>) -> (result: Result<SeqTokenStream, SeqError>)
        ensures
            modeled(result) == parse_stream(tokens.deep_view()),
    {
        let mut input = SeqParseStream::from_token_stream(tokens);
        SeqTokenStream::seq_parse(&mut input)
    }
}

} // verus!
