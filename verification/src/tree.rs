//! The structured form of a body: identifiers with their paste prefixes,
//! groups tagged by their brackets or as repeat sections, punctuation and
//! literals.

use crate::token::{Delimiter, Ident, IdentView, Literal, LiteralView, Punct};
use vstd::prelude::*;

verus! {

/// An identifier, bare or pasted onto a prefix (`prefix ~ ident`).
#[derive(Debug, PartialEq, Eq)]
pub struct SeqIdent {
    pub prefix: Option<Ident>,
    pub ident: Ident,
}

/// The tag of a parsed group.
#[derive(Clone, Copy, Debug, PartialEq, Eq, Structural)]
pub enum SeqDelimiter {
    /// The group was written `#( ... )*`.
    RepeatSection,
    /// An ordinary group with its brackets.
    Delimiter(Delimiter),
}

/// A parsed group.
#[derive(Debug, PartialEq, Eq)]
pub struct SeqGroup {
    pub delimiter: SeqDelimiter,
    pub stream: SeqTokenStream,
}

/// One node of a parsed body.
#[derive(Debug, PartialEq, Eq)]
pub enum SeqTokenTree {
    SeqGroup(SeqGroup),
    SeqIdent(SeqIdent),
    Punct(Punct),
    Literal(Literal),
}

/// A parsed body: its nodes in program order.
#[derive(Debug, PartialEq, Eq)]
pub struct SeqTokenStream {
    pub tokens: Vec<SeqTokenTree>,
}

/// The model of a [`SeqIdent`].
pub ghost struct SeqIdentView {
    pub prefix: Option<IdentView>,
    pub ident: IdentView,
}

/// The model of a [`SeqGroup`].
pub ghost struct SeqGroupView {
    pub delimiter: SeqDelimiter,
    pub stream: Seq<SeqTokenTreeView>,
}

/// The model of a [`SeqTokenTree`].
pub ghost enum SeqTokenTreeView {
    SeqGroup(SeqGroupView),
    SeqIdent(SeqIdentView),
    Punct(Punct),
    Literal(LiteralView),
}

impl View for SeqIdent {
    type V = SeqIdentView;

    open spec fn view(&self) -> SeqIdentView {
        SeqIdentView {
            prefix: match self.prefix {
                Some(prefix) => Some(prefix@),
                None => None,
            },
            ident: self.ident@,
        }
    }
}

impl View for SeqTokenStream {
    type V = Seq<SeqTokenTreeView>;

    open spec fn view(&self) -> Seq<SeqTokenTreeView>
        decreases self,
    {
        Seq::new(
            self.tokens@.len(),
            |i: int|
                if 0 <= i < self.tokens@.len() {
                    self.tokens@[i].view()
                } else {
                    arbitrary()
                },
        )
    }
}

impl View for SeqGroup {
    type V = SeqGroupView;

    open spec fn view(&self) -> SeqGroupView
        decreases self,
    {
        SeqGroupView { delimiter: self.delimiter, stream: self.stream.view() }
    }
}

impl View for SeqTokenTree {
    type V = SeqTokenTreeView;

    open spec fn view(&self) -> SeqTokenTreeView
        decreases self,
    {
        match self {
            SeqTokenTree::SeqGroup(g) => SeqTokenTreeView::SeqGroup(g.view()),
            SeqTokenTree::SeqIdent(i) => SeqTokenTreeView::SeqIdent(i.view()),
            SeqTokenTree::Punct(p) => SeqTokenTreeView::Punct(*p),
            SeqTokenTree::Literal(l) => SeqTokenTreeView::Literal(l.view()),
        }
    }
}

impl DeepView for SeqTokenTree {
    type V = SeqTokenTreeView;

    open spec fn deep_view(&self) -> SeqTokenTreeView {
        self@
    }
}

/// The model of a parsed body holds the models of its nodes, in order.
pub proof fn lemma_stream_view(stream: SeqTokenStream)
    ensures
        stream@ == stream.tokens.deep_view(),
{
    reveal_with_fuel(<SeqTokenStream as View>::view, 2);
    assert(stream@ =~= stream.tokens.deep_view());
}

/// Whether a repeat section stands among these nodes or inside their
/// ordinary groups. The inside of a repeat section is not searched.
pub open spec fn stream_has_repeat_section(stream: Seq<SeqTokenTreeView>) -> bool
    decreases stream,
{
    exists|i: int| 0 <= i < stream.len() && tree_has_repeat_section(stream[i])
}

/// Whether this node is a repeat section or an ordinary group that holds one.
pub open spec fn tree_has_repeat_section(tree: SeqTokenTreeView) -> bool
    decreases tree,
{
    match tree {
        SeqTokenTreeView::SeqGroup(group) => group.delimiter == SeqDelimiter::RepeatSection
            || stream_has_repeat_section(group.stream),
        _ => false,
    }
}

impl SeqTokenTree {
    /// Tells whether this node is a repeat section or holds one outside any
    /// other repeat section.
    pub fn has_repeat_section(&self) -> (found: bool)
        ensures
            found == tree_has_repeat_section(self@),
        decreases self,
    {
        match self {
            SeqTokenTree::SeqGroup(group) => {
                match group.delimiter {
                    SeqDelimiter::RepeatSection => true,
                    SeqDelimiter::Delimiter(_) => group.stream.has_repeat_section(),
                }
            },
            _ => false,
        }
    }
}

impl SeqTokenStream {
    /// Tells whether a repeat section stands anywhere in this body outside
    /// any other repeat section.
    pub fn has_repeat_section(&self) -> (found: bool)
        ensures
            found == stream_has_repeat_section(self@),
        decreases self,
    {
        proof {
            lemma_stream_view(*self);
        }
        let mut i: usize = 0;
        while i < self.tokens.len()
            invariant
                i <= self.tokens.len(),
                self@ == self.tokens.deep_view(),
                forall|j: int| 0 <= j < i ==> !tree_has_repeat_section(self@[j]),
            decreases self.tokens.len() - i,
        {
            if self.tokens[i].has_repeat_section() {
                assert(tree_has_repeat_section(self@[i as int]));
                return true;
            }
            i += 1;
        }
        false
    }
}

} // verus!
