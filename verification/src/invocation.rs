//! The invocation as a whole: its head (`name in lower..upper`), its braced
//! body, and the expansion of the body over the range.

use crate::error::{deep_modeled, modeled, Expected, SeqError, SeqErrorKind};
use crate::instantiate::{collected, instantiate_each, instantiate_stream, try_collect, InstMode};
use crate::literal::{bound_value, bound_value_of, has_int_literal_shape, is_int_literal};
use crate::parse::{parse_stream, punct_char_at};
use crate::range::{SeqRange, SeqRangeKind};
use crate::token::{
    lemma_group_view, Delimiter, Ident, IdentView, Spacing, Span, TokenTree, TokenTreeView,
};
use crate::tree::{stream_has_repeat_section, SeqTokenStream, SeqTokenTreeView};
use vstd::prelude::*;
use vstd::string::StringExecFns;

verus! {

/// A parsed invocation: the bound name, the range and the structured body.
#[derive(Debug, PartialEq, Eq)]
pub struct SeqInvocation {
    pub ident: Ident,
    pub range: SeqRange,
    pub body: SeqTokenStream,
}

/// The model of a [`SeqInvocation`].
pub ghost struct SeqInvocationView {
    pub ident: IdentView,
    pub range: SeqRange,
    pub body: Seq<SeqTokenTreeView>,
}

impl View for SeqInvocation {
    type V = SeqInvocationView;

    open spec fn view(&self) -> SeqInvocationView {
        SeqInvocationView { ident: self.ident@, range: self.range, body: self.body@ }
    }
}

/// A token of the head, and the place where a failure to read it is
/// reported.
pub ghost struct HeadItem {
    pub token: TokenTreeView,
    pub at: Span,
}

/// The head as its parser meets it: the tokens with the invisible groups
/// looked through, and the place of an invisible group that stands at the
/// end with nothing in it.
pub ghost struct Head {
    pub items: Seq<HeadItem>,
    pub pending: Option<Span>,
}

/// Whether a token is a group without visible brackets.
pub open spec fn is_invisible_group(token: TokenTreeView) -> bool {
    token matches TokenTreeView::Group(group) && group.delimiter == Delimiter::Invisible
}

/// The first place, if there is one, and the second otherwise.
pub open spec fn first_place(pending: Option<Span>, span: Span) -> Span {
    match pending {
        Some(first) => first,
        None => span,
    }
}

/// The tokens with every invisible group replaced by what it holds, at any
/// depth. A failure to read a token is reported at the token, or at the
/// outermost invisible group that the parser has to enter to reach it:
/// `pending` is the place of such a group while nothing has been met in it.
pub open spec fn visible(tokens: Seq<TokenTreeView>, pending: Option<Span>) -> Head
    decreases tokens,
{
    if tokens.len() == 0 {
        Head { items: Seq::empty(), pending }
    } else {
        let front = visible(tokens.drop_last(), pending);
        let last = tokens.last();
        if is_invisible_group(last) {
            let inner = visible(
                last->Group_0.stream,
                Some(first_place(front.pending, last.span())),
            );
            Head { items: front.items + inner.items, pending: inner.pending }
        } else {
            Head {
                items: front.items.push(
                    HeadItem { token: last, at: first_place(front.pending, last.span()) },
                ),
                pending: None,
            }
        }
    }
}

/// The tokens of a head.
pub open spec fn head_tokens(head: Head) -> Seq<TokenTreeView> {
    head.items.map_values(|item: HeadItem| item.token)
}

/// Where a failure to read the token at `i` is reported: `None` where the
/// input has ended.
pub open spec fn report_at(head: Head, i: int) -> Option<Span> {
    if 0 <= i < head.items.len() {
        Some(head.items[i].at)
    } else {
        head.pending
    }
}

/// The error for a token of the wrong kind, or for none, at `i`.
pub open spec fn head_mismatch(head: Head, i: int, expected: Expected) -> SeqError {
    match report_at(head, i) {
        Some(span) => SeqError { kind: SeqErrorKind::UnexpectedToken(expected), span },
        None => SeqError { kind: SeqErrorKind::UnexpectedEof(expected), span: Span::MixedSite },
    }
}

/// The words that cannot be a bound name: `_` and the keywords of the
/// language, in use or set aside.
pub open spec fn reserved_words() -> Seq<Seq<char>> {
    seq![
        "_"@, "abstract"@, "as"@, "become"@, "box"@, "break"@, "const"@, "continue"@, "crate"@,
        "do"@, "else"@, "enum"@, "extern"@, "false"@, "final"@, "fn"@, "for"@, "if"@, "impl"@,
        "in"@, "let"@, "loop"@, "macro"@, "match"@, "mod"@, "move"@, "mut"@, "override"@, "priv"@,
        "pub"@, "ref"@, "return"@, "Self"@, "self"@, "static"@, "struct"@, "super"@, "trait"@,
        "true"@, "type"@, "typeof"@, "unsafe"@, "unsized"@, "use"@, "virtual"@, "where"@, "while"@,
        "yield"@,
    ]
}

/// The bound name: the first token has to be an identifier and no reserved
/// word.
pub open spec fn bound_name_at(head: Head) -> Result<IdentView, SeqError> {
    let tokens = head_tokens(head);
    if tokens.len() > 0 && tokens[0] is Ident && !reserved_words().contains(
        tokens[0]->Ident_0.name,
    ) {
        Ok(tokens[0]->Ident_0)
    } else {
        Err(head_mismatch(head, 0, Expected::Identifier))
    }
}

/// Whether the token at `i` is the word `in`.
pub open spec fn keyword_in_at(tokens: Seq<TokenTreeView>, i: int) -> bool {
    &&& 0 <= i < tokens.len()
    &&& tokens[i] matches TokenTreeView::Ident(ident)
    &&& ident.name == "in"@
}

/// Whether the token at `i` is a literal with the shape of an integer
/// literal.
pub open spec fn is_bound_literal(tokens: Seq<TokenTreeView>, i: int) -> bool {
    &&& 0 <= i < tokens.len()
    &&& tokens[i] matches TokenTreeView::Literal(literal)
    &&& has_int_literal_shape(literal.text)
}

/// The value of the token at `i` as a bound of the range: the token has to
/// be an integer literal whose value fits.
pub open spec fn bound_value_at(tokens: Seq<TokenTreeView>, i: int) -> Option<u64> {
    if 0 <= i < tokens.len() && tokens[i] is Literal {
        bound_value_of(tokens[i]->Literal_0.text)
    } else {
        None
    }
}

/// The bound at `i`, given what it reads as. A token that is no integer
/// literal is refused like any token of the wrong kind; an integer literal
/// whose value does not fit is refused at the literal itself.
pub open spec fn bound_at(head: Head, i: int, value: Option<u64>) -> Result<u64, SeqError> {
    let tokens = head_tokens(head);
    if !is_bound_literal(tokens, i) {
        Err(head_mismatch(head, i, Expected::IntegerLiteral))
    } else {
        match value {
            Some(value) => Ok(value),
            None => Err(
                SeqError {
                    kind: SeqErrorKind::UnexpectedToken(Expected::IntegerLiteral),
                    span: tokens[i].span(),
                },
            ),
        }
    }
}

/// Whether the token at `i` is a dot glued to the punctuation after it.
pub open spec fn joint_dot_at(tokens: Seq<TokenTreeView>, i: int) -> bool {
    &&& 0 <= i < tokens.len()
    &&& tokens[i] matches TokenTreeView::Punct(p)
    &&& p.ch == '.'
    &&& p.spacing == Spacing::Joint
}

/// The range operator that starts at `i`, if one does: `..=` is tried before
/// `..`.
pub open spec fn range_kind_at(tokens: Seq<TokenTreeView>, i: int) -> Option<SeqRangeKind> {
    if joint_dot_at(tokens, i) && joint_dot_at(tokens, i + 1) && punct_char_at(tokens, i + 2, '=') {
        Some(SeqRangeKind::RangeInclusive)
    } else if joint_dot_at(tokens, i) && punct_char_at(tokens, i + 1, '.') {
        Some(SeqRangeKind::Range)
    } else {
        None
    }
}

/// The error for what stands at `i` in place of a range operator.
pub open spec fn range_error(head: Head, i: int) -> SeqError {
    match report_at(head, i) {
        Some(span) => SeqError { kind: SeqErrorKind::InvalidRangeSyntax, span },
        None => SeqError {
            kind: SeqErrorKind::UnexpectedEof(Expected::RangeOperator),
            span: Span::MixedSite,
        },
    }
}

/// Where the upper bound stands: after the range operator, which starts at
/// the fourth token.
pub open spec fn upper_bound_index(tokens: Seq<TokenTreeView>) -> int {
    match range_kind_at(tokens, 3) {
        Some(SeqRangeKind::RangeInclusive) => 6,
        _ => 5,
    }
}

/// The tokens inside the braces at `i`, if a braced group stands there.
pub open spec fn body_at(tokens: Seq<TokenTreeView>, i: int) -> Option<Seq<TokenTreeView>> {
    if 0 <= i < tokens.len() && tokens[i] is Group && tokens[i]->Group_0.delimiter
        == Delimiter::Brace {
        Some(tokens[i]->Group_0.stream)
    } else {
        None
    }
}

/// The invocation that a head spells, given what the two bounds read as
/// (`None` for a bound whose value does not fit). The parts are checked from
/// left to right and the first failure is reported: the bound name, which is
/// an identifier and no reserved word, `in`, the lower bound, the range
/// operator, the upper bound, the braced body and its contents, and last
/// that no token follows the body.
pub open spec fn head_with_bounds(head: Head, lower: Option<u64>, upper: Option<u64>) -> Result<
    SeqInvocationView,
    SeqError,
> {
    let tokens = head_tokens(head);
    let at = upper_bound_index(tokens);
    if bound_name_at(head) is Err {
        Err(bound_name_at(head)->Err_0)
    } else if !keyword_in_at(tokens, 1) {
        Err(head_mismatch(head, 1, Expected::KeywordIn))
    } else if bound_at(head, 2, lower) is Err {
        Err(bound_at(head, 2, lower)->Err_0)
    } else if range_kind_at(tokens, 3) is None {
        Err(range_error(head, 3))
    } else if bound_at(head, at, upper) is Err {
        Err(bound_at(head, at, upper)->Err_0)
    } else if body_at(tokens, at + 1) is None {
        Err(head_mismatch(head, at + 1, Expected::BracedBody))
    } else if parse_stream(body_at(tokens, at + 1)->Some_0) is Err {
        Err(parse_stream(body_at(tokens, at + 1)->Some_0)->Err_0)
    } else if at + 2 < tokens.len() {
        Err(
            SeqError {
                kind: SeqErrorKind::UnexpectedToken(Expected::EndOfInput),
                span: tokens[at + 2].span(),
            },
        )
    } else {
        Ok(
            SeqInvocationView {
                ident: bound_name_at(head)->Ok_0,
                range: SeqRange {
                    lower: lower->Some_0,
                    upper: upper->Some_0,
                    kind: range_kind_at(tokens, 3)->Some_0,
                },
                body: parse_stream(body_at(tokens, at + 1)->Some_0)->Ok_0,
            },
        )
    }
}

/// The invocation that `tokens` spell, given what the two bounds read as.
/// Invisible groups are looked through in the head; the body keeps them.
pub open spec fn invocation_with_bounds(
    tokens: Seq<TokenTreeView>,
    lower: Option<u64>,
    upper: Option<u64>,
) -> Result<SeqInvocationView, SeqError> {
    head_with_bounds(visible(tokens, None), lower, upper)
}

/// The invocation that `tokens` spell.
pub open spec fn parse_invocation(tokens: Seq<TokenTreeView>) -> Result<
    SeqInvocationView,
    SeqError,
> {
    let seen = head_tokens(visible(tokens, None));
    invocation_with_bounds(
        tokens,
        bound_value_at(seen, 2),
        bound_value_at(seen, upper_bound_index(seen)),
    )
}

/// The expansion of a body over a range. A body without a repeat section is
/// instantiated as a whole once per value; a body with one is instantiated
/// once, its repeat sections running over the range. The first error, if
/// any, is the result.
pub open spec fn expand(body: Seq<SeqTokenTreeView>, name: Seq<char>, range: SeqRange) -> Result<
    Seq<TokenTreeView>,
    SeqError,
> {
    if stream_has_repeat_section(body) {
        collected(instantiate_stream(body, name, InstMode::RepeatSection(range)))
    } else {
        collected(instantiate_each(body, name, range.values()))
    }
}

/// What an invocation expands to, from its tokens to the tokens that take
/// its place.
pub open spec fn expand_invocation(tokens: Seq<TokenTreeView>) -> Result<
    Seq<TokenTreeView>,
    SeqError,
> {
    match parse_invocation(tokens) {
        Ok(invocation) => expand(invocation.body, invocation.ident.name, invocation.range),
        Err(error) => Err(error),
    }
}

/// A token of the head, and the place where a failure to read it is
/// reported.
struct HeadToken<'a> {
    token: &'a TokenTree,
    at: Span,
}

/// The models of the tokens of a head.
spec fn head_items(items: Seq<HeadToken>) -> Seq<HeadItem> {
    items.map_values(|item: HeadToken| HeadItem { token: item.token@, at: item.at })
}

/// The head that the parser works on.
spec fn head_seen(items: Seq<HeadToken>, pending: Option<Span>) -> Head {
    Head { items: head_items(items), pending }
}

/// Adds to `out` the tokens of `tokens` with the invisible groups looked
/// through.
fn flatten<'a>(
    tokens: &'a Vec<TokenTree>,
    pending: Option<Span>,
    out: &mut Vec<HeadToken<'a>>,
) -> (rest: Option<Span>)
    ensures
        head_items(final(out)@) == head_items(old(out)@) + visible(
            tokens.deep_view(),
            pending,
        ).items,
        rest == visible(tokens.deep_view(), pending).pending,
    decreases tokens,
{
    let ghost before = head_items(out@);
    let ghost all = tokens.deep_view();
    let mut rest = pending;
    let mut i: usize = 0;
    proof {
        assert(all.take(0) =~= Seq::<TokenTreeView>::empty());
        assert(before + visible(all.take(0), pending).items =~= before);
    }
    while i < tokens.len()
        invariant
            i <= tokens.len(),
            all == tokens.deep_view(),
            head_items(out@) == before + visible(all.take(i as int), pending).items,
            rest == visible(all.take(i as int), pending).pending,
        decreases tokens.len() - i,
    {
        let ghost done = visible(all.take(i as int), pending);
        let ghost so_far = head_items(out@);
        proof {
            assert(all.take(i + 1).drop_last() =~= all.take(i as int));
            assert(all.take(i + 1).last() == tokens@[i as int]@);
        }
        let token = &tokens[i];
        let place = token.span();
        let at = match rest {
            Some(first) => first,
            None => place,
        };
        let inside = match token {
            TokenTree::Group(group) => {
                proof {
                    lemma_group_view(*group);
                }
                match group.delimiter {
                    Delimiter::Invisible => Some(&group.stream),
                    _ => None,
                }
            },
            _ => None,
        };
        match inside {
            Some(stream) => {
                rest = flatten(stream, Some(at), out);
                proof {
                    let inner = visible(stream.deep_view(), Some(at));
                    assert(before + done.items + inner.items =~= before + (done.items
                        + inner.items));
                }
            },
            None => {
                out.push(HeadToken { token, at });
                rest = None;
                proof {
                    let item = HeadItem { token: token@, at };
                    assert(head_items(out@) =~= so_far.push(item));
                    assert(so_far.push(item) =~= before + done.items.push(item));
                }
            },
        }
        i += 1;
    }
    proof {
        assert(all.take(i as int) =~= all);
    }
    rest
}

/// Where a failure to read the token at `i` is reported.
fn report(items: &Vec<HeadToken>, pending: Option<Span>, i: usize) -> (place: Option<Span>)
    ensures
        place == report_at(head_seen(items@, pending), i as int),
{
    if i < items.len() {
        Some(items[i].at)
    } else {
        pending
    }
}

/// The error for a token of the wrong kind, or for none, at `i`.
fn mismatch(
    items: &Vec<HeadToken>,
    pending: Option<Span>,
    i: usize,
    expected: Expected,
) -> (error: SeqError)
    ensures
        error == head_mismatch(head_seen(items@, pending), i as int, expected),
{
    match report(items, pending, i) {
        Some(span) => SeqError::new(SeqErrorKind::UnexpectedToken(expected), span),
        None => SeqError::new(SeqErrorKind::UnexpectedEof(expected), Span::MixedSite),
    }
}

/// Tells whether the token at `i` is a dot, glued to what follows if
/// `joint` is asked for.
fn dot_at(items: &Vec<HeadToken>, i: usize, joint: bool) -> (found: bool)
    ensures
        found == if joint {
            joint_dot_at(head_tokens(head_seen(items@, None)), i as int)
        } else {
            punct_char_at(head_tokens(head_seen(items@, None)), i as int, '.')
        },
{
    if i >= items.len() {
        false
    } else {
        match items[i].token {
            TokenTree::Punct(p) => p.ch == '.' && (!joint || match p.spacing {
                Spacing::Joint => true,
                Spacing::Alone => false,
            }),
            _ => false,
        }
    }
}

/// Reads the range operator that starts at `i`.
fn range_kind(items: &Vec<HeadToken>, i: usize) -> (kind: Option<SeqRangeKind>)
    requires
        i <= 3,
    ensures
        kind == range_kind_at(head_tokens(head_seen(items@, None)), i as int),
{
    let inclusive = dot_at(items, i, true) && dot_at(items, i + 1, true) && i + 2 < items.len()
        && match items[i + 2].token {
        TokenTree::Punct(p) => p.ch == '=',
        _ => false,
    };
    if inclusive {
        Some(SeqRangeKind::RangeInclusive)
    } else if dot_at(items, i, true) && dot_at(items, i + 1, false) {
        Some(SeqRangeKind::Range)
    } else {
        None
    }
}

/// Where the upper bound stands.
fn upper_index(items: &Vec<HeadToken>) -> (at: usize)
    ensures
        at == upper_bound_index(head_tokens(head_seen(items@, None))),
{
    match range_kind(items, 3) {
        Some(SeqRangeKind::RangeInclusive) => 6,
        _ => 5,
    }
}

/// Tells whether a word cannot be a bound name.
pub fn is_reserved_word(word: &String) -> (reserved: bool)
    ensures
        reserved == reserved_words().contains(word@),
{
    let words: Vec<&'static str> = vec![
        "_", "abstract", "as", "become", "box", "break", "const", "continue", "crate", "do", "else",
        "enum", "extern", "false", "final", "fn", "for", "if", "impl", "in", "let", "loop", "macro",
        "match", "mod", "move", "mut", "override", "priv", "pub", "ref", "return", "Self", "self",
        "static", "struct", "super", "trait", "true", "type", "typeof", "unsafe", "unsized", "use",
        "virtual", "where", "while", "yield",
    ];
    assert(words@.len() == reserved_words().len());
    assert forall|k: int| 0 <= k < words@.len() implies (#[trigger] words@[k])@
        == reserved_words()[k] by {}
    let mut i: usize = 0;
    while i < words.len()
        invariant
            i <= words.len(),
            words@.len() == reserved_words().len(),
            forall|k: int| 0 <= k < words@.len() ==> (#[trigger] words@[k])@ == reserved_words()[k],
            forall|k: int| 0 <= k < i ==> reserved_words()[k] != word@,
        decreases words.len() - i,
    {
        if *word == String::from_str(words[i]) {
            assert(reserved_words()[i as int] == word@);
            return true;
        }
        i += 1;
    }
    false
}

/// Reads the token at `i` as a bound of the range.
fn bound_value_in(items: &Vec<HeadToken>, i: usize) -> (value: Option<u64>)
    ensures
        value == bound_value_at(head_tokens(head_seen(items@, None)), i as int),
{
    if i >= items.len() {
        return None;
    }
    match items[i].token {
        TokenTree::Literal(literal) => bound_value(literal.text.as_str()),
        _ => None,
    }
}

/// Takes the bound at `i`, given what it reads as.
fn bound(
    items: &Vec<HeadToken>,
    pending: Option<Span>,
    i: usize,
    value: Option<u64>,
) -> (result: Result<u64, SeqError>)
    ensures
        result == bound_at(head_seen(items@, pending), i as int, value),
{
    if i < items.len() {
        match items[i].token {
            TokenTree::Literal(literal) => {
                if is_int_literal(literal.text.as_str()) {
                    return match value {
                        Some(value) => Ok(value),
                        None => Err(
                            SeqError::new(
                                SeqErrorKind::UnexpectedToken(Expected::IntegerLiteral),
                                literal.span,
                            ),
                        ),
                    };
                }
            },
            _ => {},
        }
    }
    Err(mismatch(items, pending, i, Expected::IntegerLiteral))
}

/// Assembles the invocation that a head spells from what its two bounds
/// read as.
fn assemble(
    items: &Vec<HeadToken>,
    pending: Option<Span>,
    lower: Option<u64>,
    upper: Option<u64>,
) -> (result: Result<SeqInvocation, SeqError>)
    ensures
        modeled(result) == head_with_bounds(head_seen(items@, pending), lower, upper),
{
    let ghost head = head_seen(items@, pending);
    let ghost tokens = head_tokens(head);
    assert(tokens == head_tokens(head_seen(items@, None)));
    let ident = if 0 < items.len() {
        match items[0].token {
            TokenTree::Ident(ident) if !is_reserved_word(&ident.name) => ident.clone(),
            _ => {
                return Err(mismatch(items, pending, 0, Expected::Identifier));
            },
        }
    } else {
        return Err(mismatch(items, pending, 0, Expected::Identifier));
    };
    let keyword = 1 < items.len() && match items[1].token {
        TokenTree::Ident(word) => word.name == String::from_str("in"),
        _ => false,
    };
    if !keyword {
        return Err(mismatch(items, pending, 1, Expected::KeywordIn));
    }
    let lower = match bound(items, pending, 2, lower) {
        Ok(lower) => lower,
        Err(error) => {
            return Err(error);
        },
    };
    let kind = match range_kind(items, 3) {
        Some(kind) => kind,
        None => {
            return Err(
                match report(items, pending, 3) {
                    Some(span) => SeqError::new(SeqErrorKind::InvalidRangeSyntax, span),
                    None => SeqError::new(
                        SeqErrorKind::UnexpectedEof(Expected::RangeOperator),
                        Span::MixedSite,
                    ),
                },
            );
        },
    };
    let at = upper_index(items);
    let upper = match bound(items, pending, at, upper) {
        Ok(upper) => upper,
        Err(error) => {
            return Err(error);
        },
    };
    let body_tokens = if at + 1 < items.len() {
        match items[at + 1].token {
            TokenTree::Group(group) => {
                proof {
                    lemma_group_view(*group);
                }
                match group.delimiter {
                    Delimiter::Brace => &group.stream,
                    _ => {
                        return Err(mismatch(items, pending, at + 1, Expected::BracedBody));
                    },
                }
            },
            _ => {
                return Err(mismatch(items, pending, at + 1, Expected::BracedBody));
            },
        }
    } else {
        return Err(mismatch(items, pending, at + 1, Expected::BracedBody));
    };
    let body = match SeqTokenStream::parse(body_tokens) {
        Ok(body) => body,
        Err(error) => {
            return Err(error);
        },
    };
    if at + 2 < items.len() {
        return Err(
            SeqError::new(
                SeqErrorKind::UnexpectedToken(Expected::EndOfInput),
                items[at + 2].token.span(),
            ),
        );
    }
    Ok(SeqInvocation { ident, range: SeqRange { lower, upper, kind }, body })
}

impl SeqInvocation {
    /// Assembles the invocation that `tokens` spell from what its two bounds
    /// read as.
    pub fn with_bounds(tokens: &Vec<TokenTree>, lower: Option<u64>, upper: Option<u64>) -> (result:
        Result<SeqInvocation, SeqError>)
        ensures
            modeled(result) == invocation_with_bounds(tokens.deep_view(), lower, upper),
    {
        let mut items: Vec<HeadToken> = Vec::new();
        let pending = flatten(tokens, None, &mut items);
        proof {
            let seen = visible(tokens.deep_view(), None);
            assert(head_items(items@) =~= seen.items);
        }
        assemble(&items, pending, lower, upper)
    }

    /// Parses an invocation: the bound name, `in`, the range and the braced
    /// body.
    pub fn parse(tokens: &Vec<TokenTree>) -> (result: Result<SeqInvocation, SeqError>)
        ensures
            modeled(result) == parse_invocation(tokens.deep_view()),
    {
        let mut items: Vec<HeadToken> = Vec::new();
        let pending = flatten(tokens, None, &mut items);
        proof {
            let seen = visible(tokens.deep_view(), None);
            assert(head_items(items@) =~= seen.items);
        }
        let lower = bound_value_in(&items, 2);
        let upper = bound_value_in(&items, upper_index(&items));
        assemble(&items, pending, lower, upper)
    }
}

/// Expands a parsed body over a range.
pub fn seq_impl(stream: &SeqTokenStream, name: &String, range: SeqRange) -> (result: Result<
    Vec<TokenTree>,
    SeqError,
>)
    ensures
        deep_modeled(result) == expand(stream@, name@, range),
{
    if stream.has_repeat_section() {
        try_collect(stream.instantiate(name, InstMode::RepeatSection(range)))
    } else {
        try_collect(stream.instantiate_each(name, range))
    }
}

/// Expands an invocation: parses `input` and expands its body over its
/// range. The result is the token sequence that takes the invocation's
/// place, or the one error that ends it.
pub fn seq(input: &Vec<TokenTree>) -> (result: Result<Vec<TokenTree>, SeqError>)
    ensures
        deep_modeled(result) == expand_invocation(input.deep_view()),
{
    match SeqInvocation::parse(input) {
        Ok(invocation) => seq_impl(&invocation.body, &invocation.ident.name, invocation.range),
        Err(error) => Err(error),
    }
}

} // verus!
