//! Parsing loses nothing but positions: written back, a parsed body has the
//! shape of the tokens it was parsed from.

use crate::error::prepend;
use crate::laws::output::{render_ident, render_stream, render_tree};
use crate::parse::{
    parse_from, parse_stream, repeat_section_ahead, seq_group_at, seq_group_width, seq_ident_at,
    seq_ident_width,
};
use crate::token::{Delimiter, TokenTreeView};
use crate::tree::SeqTokenTreeView;
use vstd::prelude::*;

verus! {

/// What is left of a token when positions and spacing are forgotten.
pub ghost enum Shape {
    Group(Delimiter, Seq<Shape>),
    Ident(Seq<char>),
    Punct(char),
    Literal(Seq<char>),
}

/// The shape of a token.
pub open spec fn shape_of(token: TokenTreeView) -> Shape
    decreases token,
{
    match token {
        TokenTreeView::Group(group) => Shape::Group(group.delimiter, shapes_of(group.stream)),
        TokenTreeView::Ident(ident) => Shape::Ident(ident.name),
        TokenTreeView::Punct(punct) => Shape::Punct(punct.ch),
        TokenTreeView::Literal(literal) => Shape::Literal(literal.text),
    }
}

/// The shapes of a sequence of tokens, in order.
pub open spec fn shapes_of(tokens: Seq<TokenTreeView>) -> Seq<Shape>
    decreases tokens,
{
    if tokens.len() == 0 {
        Seq::empty()
    } else {
        shapes_of(tokens.drop_last()).push(shape_of(tokens.last()))
    }
}

/// The shapes of a concatenation are the shapes of its parts.
proof fn lemma_shapes_concat(front: Seq<TokenTreeView>, back: Seq<TokenTreeView>)
    ensures
        shapes_of(front + back) == shapes_of(front) + shapes_of(back),
    decreases back.len(),
{
    if back.len() == 0 {
        assert(front + back =~= front);
        assert(shapes_of(front) + shapes_of(back) =~= shapes_of(front));
    } else {
        lemma_shapes_concat(front, back.drop_last());
        assert((front + back).drop_last() =~= front + back.drop_last());
        assert((front + back).last() == back.last());
        assert(shapes_of(front + back) =~= shapes_of(front) + shapes_of(back));
    }
}

/// The shapes of one, two and three tokens.
proof fn lemma_shapes_few(a: TokenTreeView, b: TokenTreeView, c: TokenTreeView)
    ensures
        shapes_of(seq![a]) == seq![shape_of(a)],
        shapes_of(seq![a, b, c]) == seq![shape_of(a), shape_of(b), shape_of(c)],
{
    let one = seq![a];
    assert(one.drop_last() =~= Seq::<TokenTreeView>::empty());
    assert(shapes_of(one.drop_last()) =~= Seq::<Shape>::empty());
    assert(shapes_of(one) =~= seq![shape_of(a)]);
    let two = seq![a, b];
    assert(two.drop_last() =~= one);
    assert(shapes_of(two) =~= seq![shape_of(a), shape_of(b)]);
    let three = seq![a, b, c];
    assert(three.drop_last() =~= two);
    assert(shapes_of(three) =~= seq![shape_of(a), shape_of(b), shape_of(c)]);
}

/// Writing back two sequences of nodes one after the other is writing back
/// their concatenation.
proof fn lemma_render_concat(front: Seq<SeqTokenTreeView>, back: Seq<SeqTokenTreeView>)
    ensures
        render_stream(front + back) == render_stream(front) + render_stream(back),
    decreases back.len(),
{
    if back.len() == 0 {
        assert(front + back =~= front);
        assert(render_stream(front) + render_stream(back) =~= render_stream(front));
    } else {
        lemma_render_concat(front, back.drop_last());
        assert((front + back).drop_last() =~= front + back.drop_last());
        assert((front + back).last() == back.last());
        assert(render_stream(front + back) =~= render_stream(front) + render_stream(back));
    }
}

/// A sequence of one node is written back as that node.
proof fn lemma_render_single(tree: SeqTokenTreeView)
    ensures
        render_stream(seq![tree]) == render_tree(tree),
{
    let single = seq![tree];
    assert(single.drop_last() =~= Seq::<SeqTokenTreeView>::empty());
    assert(render_stream(single.drop_last()) =~= Seq::<TokenTreeView>::empty());
    assert(render_stream(single) =~= render_tree(tree));
}

/// A parsed group, written back, has the shape of the tokens it was parsed
/// from.
proof fn lemma_group_round_trip(tokens: Seq<TokenTreeView>, i: int)
    requires
        seq_group_at(tokens, i) is Ok,
    ensures
        0 <= i,
        i + seq_group_width(tokens, i) <= tokens.len(),
        shapes_of(render_tree(SeqTokenTreeView::SeqGroup(seq_group_at(tokens, i)->Ok_0)))
            == shapes_of(tokens.subrange(i, i + seq_group_width(tokens, i))),
    decreases tokens, 0int,
{
    let group = seq_group_at(tokens, i)->Ok_0;
    let tree = SeqTokenTreeView::SeqGroup(group);
    if repeat_section_ahead(tokens, i) {
        let inner = tokens[i + 1]->Group_0.stream;
        lemma_round_trip_from(inner, 0);
        assert(inner.skip(0) =~= inner);
        let written = render_tree(tree);
        let read = tokens.subrange(i, i + 3);
        assert(read =~= seq![tokens[i], tokens[i + 1], tokens[i + 2]]);
        assert(written =~= seq![written[0], written[1], written[2]]);
        lemma_shapes_few(tokens[i], tokens[i + 1], tokens[i + 2]);
        lemma_shapes_few(written[0], written[1], written[2]);
    } else {
        let inner = tokens[i]->Group_0.stream;
        lemma_round_trip_from(inner, 0);
        assert(inner.skip(0) =~= inner);
        let written = render_tree(tree);
        let read = tokens.subrange(i, i + 1);
        assert(read =~= seq![tokens[i]]);
        assert(written =~= seq![written[0]]);
        lemma_shapes_few(tokens[i], tokens[i], tokens[i]);
        lemma_shapes_few(written[0], written[0], written[0]);
    }
}

/// The nodes parsed from `i` on, written back, have the shape of the tokens
/// from `i` on.
proof fn lemma_round_trip_from(tokens: Seq<TokenTreeView>, i: int)
    requires
        0 <= i <= tokens.len(),
        parse_from(tokens, i) is Ok,
    ensures
        shapes_of(render_stream(parse_from(tokens, i)->Ok_0)) == shapes_of(tokens.skip(i)),
    decreases tokens, tokens.len() - i + 1,
{
    let nodes = parse_from(tokens, i)->Ok_0;
    if i >= tokens.len() {
        assert(tokens.skip(i) =~= Seq::<TokenTreeView>::empty());
    } else {
        let width: int = if tokens[i] is Ident {
            seq_ident_width(seq_ident_at(tokens, i)->Ok_0)
        } else if repeat_section_ahead(tokens, i) || tokens[i] is Group {
            seq_group_width(tokens, i)
        } else {
            1
        };
        let node = nodes[0];
        let rest = parse_from(tokens, i + width)->Ok_0;
        assert(parse_from(tokens, i) == prepend(node, parse_from(tokens, i + width)));
        assert(nodes == seq![node] + rest);
        let read = tokens.subrange(i, i + width);
        assert(shapes_of(render_tree(node)) == shapes_of(read)) by {
            if tokens[i] is Ident {
                let ident = seq_ident_at(tokens, i)->Ok_0;
                let written = render_ident(ident);
                if ident.prefix is Some {
                    assert(read =~= seq![tokens[i], tokens[i + 1], tokens[i + 2]]);
                    assert(written =~= seq![written[0], written[1], written[2]]);
                    lemma_shapes_few(tokens[i], tokens[i + 1], tokens[i + 2]);
                    lemma_shapes_few(written[0], written[1], written[2]);
                } else {
                    assert(read =~= seq![tokens[i]]);
                    assert(written =~= seq![written[0]]);
                    lemma_shapes_few(tokens[i], tokens[i], tokens[i]);
                    lemma_shapes_few(written[0], written[0], written[0]);
                }
            } else if repeat_section_ahead(tokens, i) || tokens[i] is Group {
                lemma_group_round_trip(tokens, i);
            } else {
                let written = render_tree(node);
                assert(read =~= seq![tokens[i]]);
                assert(written =~= seq![written[0]]);
                lemma_shapes_few(tokens[i], tokens[i], tokens[i]);
                lemma_shapes_few(written[0], written[0], written[0]);
            }
        }
        lemma_round_trip_from(tokens, i + width);
        lemma_render_concat(seq![node], rest);
        lemma_render_single(node);
        lemma_shapes_concat(render_tree(node), render_stream(rest));
        lemma_shapes_concat(read, tokens.skip(i + width));
        assert(tokens.skip(i) =~= read + tokens.skip(i + width));
    }
}

/// Parsing loses nothing but positions and spacing: the parsed body,
/// written back with nothing substituted, has the shape of the tokens.
pub proof fn law_parse_round_trip(tokens: Seq<TokenTreeView>)
    requires
        parse_stream(tokens) is Ok,
    ensures
        shapes_of(render_stream(parse_stream(tokens)->Ok_0)) == shapes_of(tokens),
{
    lemma_round_trip_from(tokens, 0);
    assert(tokens.skip(0) =~= tokens);
}

} // verus!
