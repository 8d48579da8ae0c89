//! Substitution of the bound name: turning a parsed body back into tokens,
//! for one value or with each repeat section expanded over a range.

use crate::error::{
    after, deep_modeled, lemma_after_nothing, lemma_prepend_shift, prepend, SeqError,
    SeqErrorKind,
};
use crate::parse::PASTE_TOKEN;
use crate::range::SeqRange;
use crate::token::{
    lemma_group_view, Delimiter, Group, GroupView, Ident, IdentView, Literal, LiteralView, Punct,
    Spacing, Span, TokenTree, TokenTreeView,
};
use crate::tree::{
    lemma_stream_view, SeqDelimiter, SeqIdent, SeqIdentView, SeqTokenStream, SeqTokenTree,
    SeqTokenTreeView,
};
use vstd::prelude::*;
use vstd::string::StringExecFns;

verus! {

/// How a body is instantiated.
#[derive(Clone, Copy, Debug, PartialEq, Eq, Structural)]
pub enum InstMode {
    /// Everything outside repeat sections stays as it is; each repeat
    /// section is expanded once per value of the range.
    RepeatSection(SeqRange),
    /// The bound name stands for this one value everywhere.
    Whole(u64),
}

/// One token or the error that took its place.
pub type Emitted = Result<TokenTreeView, SeqError>;

/// The character for a digit below ten.
pub open spec fn digit_char(digit: nat) -> char {
    if digit == 0 {
        '0'
    } else if digit == 1 {
        '1'
    } else if digit == 2 {
        '2'
    } else if digit == 3 {
        '3'
    } else if digit == 4 {
        '4'
    } else if digit == 5 {
        '5'
    } else if digit == 6 {
        '6'
    } else if digit == 7 {
        '7'
    } else if digit == 8 {
        '8'
    } else {
        '9'
    }
}

/// A number written in base ten, without sign, separators or leading zeros.
pub open spec fn decimal_digits(n: nat) -> Seq<char>
    decreases n,
{
    if n < 10 {
        seq![digit_char(n)]
    } else {
        decimal_digits(n / 10).push(digit_char(n % 10))
    }
}

/// The paste operator as it is written back for an identifier that is not
/// the bound name.
pub open spec fn paste_punct() -> TokenTreeView {
    TokenTreeView::Punct(Punct { ch: PASTE_TOKEN, spacing: Spacing::Alone, span: Span::CallSite })
}

/// What an identifier becomes. For a single value, the bound name becomes
/// the value as a literal, or the prefix with the value's digits appended.
/// Where repeat sections run over a range, the bound name outside them is an
/// error. Any other identifier is written back as it stood, prefix and paste
/// operator included.
pub open spec fn instantiate_ident(ident: SeqIdentView, name: Seq<char>, mode: InstMode) -> Seq<
    Emitted,
> {
    if ident.ident.name == name {
        match mode {
            InstMode::RepeatSection(_) => seq![
                Err(
                    SeqError {
                        kind: SeqErrorKind::BoundVariableOutsideRepeatContext,
                        span: ident.ident.span,
                    },
                ),
            ],
            InstMode::Whole(value) => match ident.prefix {
                Some(prefix) => seq![
                    Ok(
                        TokenTreeView::Ident(
                            IdentView {
                                name: prefix.name + decimal_digits(value as nat),
                                span: prefix.span,
                            },
                        ),
                    ),
                ],
                None => seq![
                    Ok(
                        TokenTreeView::Literal(
                            LiteralView {
                                text: decimal_digits(value as nat),
                                span: Span::CallSite,
                            },
                        ),
                    ),
                ],
            },
        }
    } else {
        match ident.prefix {
            Some(prefix) => seq![
                Ok(TokenTreeView::Ident(prefix)),
                Ok(paste_punct()),
                Ok(TokenTreeView::Ident(ident.ident)),
            ],
            None => seq![Ok(TokenTreeView::Ident(ident.ident))],
        }
    }
}

/// The tokens of `items` if none of them is an error, the first error
/// otherwise.
pub open spec fn collected(items: Seq<Emitted>) -> Result<Seq<TokenTreeView>, SeqError>
    decreases items.len(),
{
    if items.len() == 0 {
        Ok(Seq::empty())
    } else {
        match items[0] {
            Err(error) => Err(error),
            Ok(token) => prepend(token, collected(items.drop_first())),
        }
    }
}

/// A group around the collected tokens, or the first error among them.
pub open spec fn grouped(delimiter: Delimiter, items: Seq<Emitted>) -> Emitted {
    match collected(items) {
        Ok(stream) => Ok(
            TokenTreeView::Group(GroupView { delimiter, stream, span: Span::CallSite }),
        ),
        Err(error) => Err(error),
    }
}

/// What one node becomes.
pub open spec fn instantiate_tree(tree: SeqTokenTreeView, name: Seq<char>, mode: InstMode) -> Seq<
    Emitted,
>
    decreases tree, 0nat, 0nat,
{
    match tree {
        SeqTokenTreeView::SeqGroup(group) => match group.delimiter {
            SeqDelimiter::Delimiter(delimiter) => seq![
                grouped(delimiter, instantiate_stream(group.stream, name, mode)),
            ],
            SeqDelimiter::RepeatSection => match mode {
                InstMode::RepeatSection(range) => instantiate_each(
                    group.stream,
                    name,
                    range.values(),
                ),
                InstMode::Whole(_) => seq![
                    Err(SeqError { kind: SeqErrorKind::NestedRepeatSection, span: Span::CallSite }),
                ],
            },
        },
        SeqTokenTreeView::SeqIdent(ident) => instantiate_ident(ident, name, mode),
        SeqTokenTreeView::Punct(punct) => seq![Ok(TokenTreeView::Punct(punct))],
        SeqTokenTreeView::Literal(literal) => seq![Ok(TokenTreeView::Literal(literal))],
    }
}

/// What a sequence of nodes becomes: what each node becomes, in order.
pub open spec fn instantiate_stream(
    stream: Seq<SeqTokenTreeView>,
    name: Seq<char>,
    mode: InstMode,
) -> Seq<Emitted>
    decreases stream, 0nat, 0nat,
{
    if stream.len() == 0 {
        Seq::empty()
    } else {
        instantiate_stream(stream.drop_last(), name, mode) + instantiate_tree(
            stream.last(),
            name,
            mode,
        )
    }
}

/// What a sequence of nodes becomes for each of `values` in turn.
pub open spec fn instantiate_each(
    stream: Seq<SeqTokenTreeView>,
    name: Seq<char>,
    values: Seq<u64>,
) -> Seq<Emitted>
    decreases stream, 1nat, values.len(),
{
    if values.len() == 0 {
        Seq::empty()
    } else {
        instantiate_each(stream, name, values.drop_last()) + instantiate_stream(
            stream,
            name,
            InstMode::Whole(values.last()),
        )
    }
}

/// The model of an emitted item.
pub open spec fn emitted_view(item: Result<TokenTree, SeqError>) -> Emitted {
    match item {
        Ok(token) => Ok(token@),
        Err(error) => Err(error),
    }
}

/// The models of emitted items, in order.
pub open spec fn emitted_views(items: Seq<Result<TokenTree, SeqError>>) -> Seq<Emitted> {
    items.map_values(|item: Result<TokenTree, SeqError>| emitted_view(item))
}

/// The text of the unsuffixed integer literal for `value`. The body makes
/// the literal with `proc_macro2::Literal::u64_unsuffixed` and takes its text
/// through the literal's `Display`; what is claimed is that this text is the
/// value in base ten.
#[verifier::external_body]
fn unsuffixed_literal_text(value: u64) -> (text: String)
    ensures
        text@ == decimal_digits(value as nat),
{
    proc_macro2::Literal::u64_unsuffixed(value).to_string()
}

/// Collects emitted items into a token sequence, stopping at the first
/// error.
pub fn try_collect(items: Vec<Result<TokenTree, SeqError>>) -> (result: Result<
    Vec<TokenTree>,
    SeqError,
>)
    ensures
        deep_modeled(result) == collected(emitted_views(items@)),
{
    let ghost all = emitted_views(items@);
    let mut tokens: Vec<TokenTree> = Vec::new();
    proof {
        assert(all.skip(0) =~= all);
        assert(tokens.deep_view() =~= Seq::empty());
        lemma_after_nothing(collected(all));
    }
    for item in it: items
        invariant
            it.seq() == items@,
            all == emitted_views(items@),
            collected(all) == after(tokens.deep_view(), collected(all.skip(it.index()))),
    {
        let ghost done = tokens.deep_view();
        let ghost k = it.index();
        proof {
            assert(all.skip(k)[0] == all[k]);
            assert(all.skip(k).drop_first() =~= all.skip(k + 1));
        }
        match item {
            Ok(token) => {
                proof {
                    lemma_prepend_shift(done, token@, collected(all.skip(k + 1)));
                }
                tokens.push(token);
                assert(tokens.deep_view() =~= done.push(token@));
            },
            Err(error) => {
                return Err(error);
            },
        }
    }
    proof {
        assert(all.skip(all.len() as int) =~= Seq::<Emitted>::empty());
        assert(tokens.deep_view() + Seq::<TokenTreeView>::empty() =~= tokens.deep_view());
    }
    Ok(tokens)
}

impl SeqIdent {
    /// Substitutes the bound name in one identifier.
    pub fn instantiate(&self, name: &String, mode: InstMode) -> (out: Vec<
        Result<TokenTree, SeqError>,
    >)
        ensures
            emitted_views(out@) == instantiate_ident(self@, name@, mode),
    {
        let mut out: Vec<Result<TokenTree, SeqError>> = Vec::new();
        if self.ident.name == *name {
            match mode {
                InstMode::RepeatSection(_) => {
                    out.push(
                        Err(
                            SeqError::new(
                                SeqErrorKind::BoundVariableOutsideRepeatContext,
                                self.ident.span,
                            ),
                        ),
                    );
                },
                InstMode::Whole(value) => {
                    let digits = unsuffixed_literal_text(value);
                    match &self.prefix {
                        Some(prefix) => {
                            let pasted = prefix.name.clone().concat(digits.as_str());
                            out.push(
                                Ok(TokenTree::Ident(Ident { name: pasted, span: prefix.span })),
                            );
                        },
                        None => {
                            out.push(
                                Ok(
                                    TokenTree::Literal(
                                        Literal { text: digits, span: Span::CallSite },
                                    ),
                                ),
                            );
                        },
                    }
                },
            }
        } else {
            match &self.prefix {
                Some(prefix) => {
                    out.push(Ok(TokenTree::Ident(prefix.clone())));
                    out.push(
                        Ok(
                            TokenTree::Punct(
                                Punct {
                                    ch: PASTE_TOKEN,
                                    spacing: Spacing::Alone,
                                    span: Span::CallSite,
                                },
                            ),
                        ),
                    );
                },
                None => {},
            }
            out.push(Ok(TokenTree::Ident(self.ident.clone())));
        }
        assert(emitted_views(out@) =~= instantiate_ident(self@, name@, mode));
        out
    }
}

impl SeqTokenTree {
    /// Turns one node back into tokens under `mode`. An ordinary group
    /// yields one item: the group around its instantiated contents, or the
    /// first error among them. A repeat section yields its contents once per
    /// value of the range, or an error where a single value is being
    /// substituted.
    pub fn instantiate(&self, name: &String, mode: InstMode) -> (out: Vec<
        Result<TokenTree, SeqError>,
    >)
        ensures
            emitted_views(out@) == instantiate_tree(self@, name@, mode),
        decreases self, 0nat,
    {
        match self {
            SeqTokenTree::SeqGroup(group) => match group.delimiter {
                SeqDelimiter::Delimiter(delimiter) => {
                    let item = match try_collect(group.stream.instantiate(name, mode)) {
                        Ok(stream) => {
                            let made = Group { delimiter, stream, span: Span::CallSite };
                            proof {
                                lemma_group_view(made);
                            }
                            Ok(TokenTree::Group(made))
                        },
                        Err(error) => Err(error),
                    };
                    let mut out: Vec<Result<TokenTree, SeqError>> = Vec::new();
                    out.push(item);
                    assert(emitted_views(out@) =~= instantiate_tree(self@, name@, mode));
                    out
                },
                SeqDelimiter::RepeatSection => match mode {
                    InstMode::RepeatSection(range) => group.stream.instantiate_each(name, range),
                    InstMode::Whole(_) => {
                        let mut out: Vec<Result<TokenTree, SeqError>> = Vec::new();
                        out.push(
                            Err(SeqError::new(SeqErrorKind::NestedRepeatSection, Span::CallSite)),
                        );
                        assert(emitted_views(out@) =~= instantiate_tree(self@, name@, mode));
                        out
                    },
                },
            },
            SeqTokenTree::SeqIdent(ident) => ident.instantiate(name, mode),
            SeqTokenTree::Punct(punct) => {
                let mut out: Vec<Result<TokenTree, SeqError>> = Vec::new();
                out.push(Ok(TokenTree::Punct(*punct)));
                assert(emitted_views(out@) =~= instantiate_tree(self@, name@, mode));
                out
            },
            SeqTokenTree::Literal(literal) => {
                let mut out: Vec<Result<TokenTree, SeqError>> = Vec::new();
                out.push(Ok(TokenTree::Literal(literal.clone())));
                assert(emitted_views(out@) =~= instantiate_tree(self@, name@, mode));
                out
            },
        }
    }
}

impl SeqTokenStream {
    /// Turns a parsed body back into tokens under `mode`: what each node
    /// becomes, in order.
    pub fn instantiate(&self, name: &String, mode: InstMode) -> (out: Vec<
        Result<TokenTree, SeqError>,
    >)
        ensures
            emitted_views(out@) == instantiate_stream(self@, name@, mode),
        decreases self, 0nat,
    {
        proof {
            lemma_stream_view(*self);
        }
        let mut out: Vec<Result<TokenTree, SeqError>> = Vec::new();
        let mut i: usize = 0;
        assert(self@.take(0) =~= Seq::<SeqTokenTreeView>::empty());
        assert(emitted_views(out@) =~= Seq::<Emitted>::empty());
        while i < self.tokens.len()
            invariant
                i <= self.tokens.len(),
                self@ == self.tokens.deep_view(),
                emitted_views(out@) == instantiate_stream(self@.take(i as int), name@, mode),
            decreases self.tokens.len() - i,
        {
            let ghost before = out@;
            let mut part = self.tokens[i].instantiate(name, mode);
            let ghost added = part@;
            out.append(&mut part);
            proof {
                assert(self@.take(i + 1).drop_last() =~= self@.take(i as int));
                assert(self@.take(i + 1).last() == self.tokens@[i as int]@);
                assert(emitted_views(before + added) =~= emitted_views(before) + emitted_views(
                    added,
                ));
            }
            i += 1;
        }
        assert(self@.take(i as int) =~= self@);
        out
    }

    /// Turns a parsed body back into tokens once for each value of `range`,
    /// in increasing order.
    pub fn instantiate_each(&self, name: &String, range: SeqRange) -> (out: Vec<
        Result<TokenTree, SeqError>,
    >)
        ensures
            emitted_views(out@) == instantiate_each(self@, name@, range.values()),
        decreases self, 1nat,
    {
        let mut out: Vec<Result<TokenTree, SeqError>> = Vec::new();
        let ghost values = range.values();
        assert(emitted_views(out@) =~= Seq::<Emitted>::empty());
        let last = match range.last() {
            Some(last) => last,
            None => {
                return out;
            },
        };
        let mut value = range.lower;
        assert(values.take(0) =~= Seq::<u64>::empty());
        loop
            invariant_except_break
                range.lower <= value <= last,
                emitted_views(out@) == instantiate_each(
                    self@,
                    name@,
                    values.take(value - range.lower),
                ),
            invariant
                values == range.values(),
                last == range.lower + range.count() - 1,
            ensures
                emitted_views(out@) == instantiate_each(self@, name@, values),
            decreases last - value,
        {
            let ghost before = out@;
            let ghost k = value - range.lower;
            let mut part = self.instantiate(name, InstMode::Whole(value));
            let ghost added = part@;
            out.append(&mut part);
            proof {
                assert(values.take(k + 1).drop_last() =~= values.take(k));
                assert(values.take(k + 1).last() == value);
                assert(emitted_views(before + added) =~= emitted_views(before) + emitted_views(
                    added,
                ));
            }
            if value == last {
                assert(values.take(k + 1) =~= values);
                break ;
            }
            value += 1;
        }
        out
    }
}

} // verus!
