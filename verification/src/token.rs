//! Lexical tokens and their mathematical models.

use vstd::prelude::*;

verus! {

/// Where a token comes from.
#[derive(Clone, Copy, Debug, PartialEq, Eq, Structural)]
pub enum Span {
    /// The token stood in the input; the number identifies it there.
    Source(usize),
    /// The token was made during expansion and resolves at the call site.
    CallSite,
    /// The token was made during expansion and resolves with mixed hygiene.
    MixedSite,
}

/// Whether a punctuation character is glued to the one that follows it.
#[derive(Clone, Copy, Debug, PartialEq, Eq, Structural)]
pub enum Spacing {
    Alone,
    Joint,
}

/// The brackets around a group.
#[derive(Clone, Copy, Debug, PartialEq, Eq, Structural)]
pub enum Delimiter {
    Parenthesis,
    Brace,
    Bracket,
    /// No visible brackets: the group only holds its tokens together.
    Invisible,
}

/// An identifier.
#[derive(Debug, PartialEq, Eq)]
pub struct Ident {
    pub name: String,
    pub span: Span,
}

/// A single punctuation character.
#[derive(Clone, Copy, Debug, PartialEq, Eq, Structural)]
pub struct Punct {
    pub ch: char,
    pub spacing: Spacing,
    pub span: Span,
}

/// A literal, kept as the text it was written with.
#[derive(Debug, PartialEq, Eq)]
pub struct Literal {
    pub text: String,
    pub span: Span,
}

/// A bracketed sequence of tokens.
#[derive(Debug, PartialEq, Eq)]
pub struct Group {
    pub delimiter: Delimiter,
    pub stream: Vec<TokenTree>,
    pub span: Span,
}

/// One lexical token.
#[derive(Debug, PartialEq, Eq)]
pub enum TokenTree {
    Group(Group),
    Ident(Ident),
    Punct(Punct),
    Literal(Literal),
}

/// The model of an [`Ident`].
pub ghost struct IdentView {
    pub name: Seq<char>,
    pub span: Span,
}

/// The model of a [`Literal`].
pub ghost struct LiteralView {
    pub text: Seq<char>,
    pub span: Span,
}

/// The model of a [`Group`].
pub ghost struct GroupView {
    pub delimiter: Delimiter,
    pub stream: Seq<TokenTreeView>,
    pub span: Span,
}

/// The model of a [`TokenTree`].
pub ghost enum TokenTreeView {
    Group(GroupView),
    Ident(IdentView),
    Punct(Punct),
    Literal(LiteralView),
}

impl View for Ident {
    type V = IdentView;

    open spec fn view(&self) -> IdentView {
        IdentView { name: self.name@, span: self.span }
    }
}

impl View for Literal {
    type V = LiteralView;

    open spec fn view(&self) -> LiteralView {
        LiteralView { text: self.text@, span: self.span }
    }
}

impl View for Group {
    type V = GroupView;

    open spec fn view(&self) -> GroupView
        decreases self,
    {
        GroupView {
            delimiter: self.delimiter,
            stream: Seq::new(
                self.stream@.len(),
                |i: int|
                    if 0 <= i < self.stream@.len() {
                        self.stream@[i].view()
                    } else {
                        arbitrary()
                    },
            ),
            span: self.span,
        }
    }
}

impl View for TokenTree {
    type V = TokenTreeView;

    open spec fn view(&self) -> TokenTreeView
        decreases self,
    {
        match self {
            TokenTree::Group(g) => TokenTreeView::Group(g.view()),
            TokenTree::Ident(i) => TokenTreeView::Ident(i.view()),
            TokenTree::Punct(p) => TokenTreeView::Punct(*p),
            TokenTree::Literal(l) => TokenTreeView::Literal(l.view()),
        }
    }
}

impl TokenTreeView {
    /// The place this token is reported at.
    pub open spec fn span(self) -> Span {
        match self {
            TokenTreeView::Group(g) => g.span,
            TokenTreeView::Ident(i) => i.span,
            TokenTreeView::Punct(p) => p.span,
            TokenTreeView::Literal(l) => l.span,
        }
    }
}

impl TokenTree {
    /// Tells whether this token is a literal.
    pub fn is_literal(&self) -> (found: bool)
        ensures
            found == (self@ is Literal),
    {
        match self {
            TokenTree::Literal(_) => true,
            _ => false,
        }
    }

    /// The place this token is reported at.
    pub fn span(&self) -> (span: Span)
        ensures
            span == self@.span(),
    {
        match self {
            TokenTree::Group(g) => {
                proof {
                    lemma_group_view(*g);
                }
                g.span
            },
            TokenTree::Ident(i) => i.span,
            TokenTree::Punct(p) => p.span,
            TokenTree::Literal(l) => l.span,
        }
    }
}

impl DeepView for TokenTree {
    type V = TokenTreeView;

    open spec fn deep_view(&self) -> TokenTreeView {
        self@
    }
}

/// The model of a group holds the models of the group's tokens, in order.
pub proof fn lemma_group_view(g: Group)
    ensures
        g@ == (GroupView { delimiter: g.delimiter, stream: g.stream.deep_view(), span: g.span }),
{
    reveal_with_fuel(<Group as View>::view, 2);
    assert(g@.stream =~= g.stream.deep_view());
}

impl Clone for Ident {
    fn clone(&self) -> (res: Self)
        ensures
            res == *self,
    {
        Ident { name: self.name.clone(), span: self.span }
    }
}

impl Clone for Literal {
    fn clone(&self) -> (res: Self)
        ensures
            res == *self,
    {
        Literal { text: self.text.clone(), span: self.span }
    }
}

impl Clone for Group {
    fn clone(&self) -> (res: Self)
        ensures
            res@ == self@,
        decreases self,
    {
        let mut stream: Vec<TokenTree> = Vec::new();
        let mut i: usize = 0;
        while i < self.stream.len()
            invariant
                i <= self.stream.len(),
                stream.len() == i,
                forall|j: int| 0 <= j < i ==> stream@[j]@ == self.stream@[j]@,
            decreases self.stream.len() - i,
        {
            let token = self.stream[i].clone();
            stream.push(token);
            i += 1;
        }
        let res = Group { delimiter: self.delimiter, stream, span: self.span };
        proof {
            lemma_group_view(res);
            lemma_group_view(*self);
            assert(res.stream.deep_view() =~= self.stream.deep_view());
        }
        res
    }
}

impl Clone for TokenTree {
    fn clone(&self) -> (res: Self)
        ensures
            res@ == self@,
        decreases self,
    {
        match self {
            TokenTree::Group(g) => TokenTree::Group(g.clone()),
            TokenTree::Ident(i) => TokenTree::Ident(i.clone()),
            TokenTree::Punct(p) => TokenTree::Punct(*p),
            TokenTree::Literal(l) => TokenTree::Literal(l.clone()),
        }
    }
}

} // verus!
