//! Where each node of a body stands in the output, whatever the value, and
//! what stands there for an identifier that is not the bound name.

use crate::error::SeqError;
use crate::invocation::expand;
use crate::laws::collect::lemma_collected_oks;
use crate::laws::output::{
    lemma_each_whole, render_ident, substitute_each, substitute_stream, substitute_tree,
};
use crate::range::SeqRange;
use crate::token::TokenTreeView;
use crate::tree::{
    stream_has_repeat_section, tree_has_repeat_section, SeqDelimiter, SeqIdentView,
    SeqTokenTreeView,
};
use vstd::prelude::*;

verus! {

/// How many tokens a node becomes for a single value. The number does not
/// depend on the value: the bound name becomes one token, any other
/// identifier is written back with as many tokens as it had, and a group is
/// one token.
pub open spec fn tree_width(tree: SeqTokenTreeView, name: Seq<char>) -> int {
    match tree {
        SeqTokenTreeView::SeqGroup(group) => if group.delimiter == SeqDelimiter::RepeatSection {
            0
        } else {
            1
        },
        SeqTokenTreeView::SeqIdent(ident) => if ident.ident.name != name && ident.prefix is Some {
            3
        } else {
            1
        },
        _ => 1,
    }
}

/// How many tokens a sequence of nodes becomes for a single value.
pub open spec fn stream_width(stream: Seq<SeqTokenTreeView>, name: Seq<char>) -> int
    decreases stream.len(),
{
    if stream.len() == 0 {
        0
    } else {
        stream_width(stream.drop_last(), name) + tree_width(stream.last(), name)
    }
}

/// The node that a path leads to: the first number picks a node, and each
/// further number a node inside the group picked so far.
pub open spec fn node_at(stream: Seq<SeqTokenTreeView>, path: Seq<int>) -> Option<
    SeqTokenTreeView,
>
    decreases path.len(),
{
    if path.len() == 0 || !(0 <= path[0] < stream.len()) {
        None
    } else if path.len() == 1 {
        Some(stream[path[0]])
    } else {
        match stream[path[0]] {
            SeqTokenTreeView::SeqGroup(group) => node_at(group.stream, path.drop_first()),
            _ => None,
        }
    }
}

/// The tokens that stand in `out` where the node at `path` stands in
/// `stream`. The place is counted from the body alone: the tokens of the
/// nodes in front are skipped, and a group of the body is entered through
/// the group that stands for it.
pub open spec fn tokens_at(
    out: Seq<TokenTreeView>,
    stream: Seq<SeqTokenTreeView>,
    path: Seq<int>,
    name: Seq<char>,
) -> Seq<TokenTreeView>
    decreases path.len(),
{
    if path.len() == 0 {
        Seq::empty()
    } else {
        let from = stream_width(stream.take(path[0]), name);
        if path.len() == 1 {
            out.subrange(from, from + tree_width(stream[path[0]], name))
        } else {
            tokens_at(
                out[from]->Group_0.stream,
                stream[path[0]]->SeqGroup_0.stream,
                path.drop_first(),
                name,
            )
        }
    }
}

/// A node becomes as many tokens as its width says, for every value.
pub proof fn lemma_tree_width(tree: SeqTokenTreeView, name: Seq<char>, value: u64)
    ensures
        substitute_tree(tree, name, value).len() == tree_width(tree, name),
{
}

/// A sequence of nodes becomes as many tokens as its width says, for every
/// value.
pub proof fn lemma_stream_width(stream: Seq<SeqTokenTreeView>, name: Seq<char>, value: u64)
    ensures
        substitute_stream(stream, name, value).len() == stream_width(stream, name),
    decreases stream.len(),
{
    if stream.len() > 0 {
        lemma_stream_width(stream.drop_last(), name, value);
        lemma_tree_width(stream.last(), name, value);
    }
}

/// What a node becomes stands in the output behind what the nodes in front
/// of it become.
pub proof fn lemma_node_place(
    stream: Seq<SeqTokenTreeView>,
    name: Seq<char>,
    value: u64,
    i: int,
)
    requires
        0 <= i < stream.len(),
    ensures
        stream_width(stream.take(i), name) + tree_width(stream[i], name) <= substitute_stream(
            stream,
            name,
            value,
        ).len(),
        substitute_stream(stream, name, value).subrange(
            stream_width(stream.take(i), name),
            stream_width(stream.take(i), name) + tree_width(stream[i], name),
        ) == substitute_tree(stream[i], name, value),
    decreases stream.len(),
{
    let front = stream.drop_last();
    let from = stream_width(stream.take(i), name);
    let width = tree_width(stream[i], name);
    let out = substitute_stream(stream, name, value);
    let front_out = substitute_stream(front, name, value);
    let last_out = substitute_tree(stream.last(), name, value);
    lemma_stream_width(front, name, value);
    lemma_stream_width(stream.take(i), name, value);
    lemma_tree_width(stream.last(), name, value);
    lemma_tree_width(stream[i], name, value);
    if i == stream.len() - 1 {
        assert(stream.take(i) =~= front);
        assert(out.subrange(from, from + width) =~= last_out);
    } else {
        lemma_node_place(front, name, value, i);
        assert(front.take(i) =~= stream.take(i));
        assert(front[i] == stream[i]);
        assert(out.subrange(from, from + width) =~= front_out.subrange(from, from + width));
    }
}

/// In a body without a repeat section, an identifier that is not the bound
/// name comes out as it was written, with its prefix and paste operator if
/// it had them, at whatever depth it stands and at the same place for every
/// value.
pub proof fn law_other_identifier_at_any_depth(
    body: Seq<SeqTokenTreeView>,
    name: Seq<char>,
    value: u64,
    path: Seq<int>,
    ident: SeqIdentView,
)
    requires
        !stream_has_repeat_section(body),
        node_at(body, path) == Some(SeqTokenTreeView::SeqIdent(ident)),
        ident.ident.name != name,
    ensures
        tokens_at(substitute_stream(body, name, value), body, path, name) == render_ident(ident),
    decreases path.len(),
{
    let i = path[0];
    lemma_node_place(body, name, value, i);
    if path.len() > 1 {
        let group = body[i]->SeqGroup_0;
        let from = stream_width(body.take(i), name);
        let out = substitute_stream(body, name, value);
        lemma_stream_width(body.take(i), name, value);
        assert(tree_has_repeat_section(body[i]) ==> stream_has_repeat_section(body));
        assert(tree_width(body[i], name) == 1);
        assert(out.subrange(from, from + 1)[0] == out[from]);
        assert(out[from]->Group_0.stream == substitute_stream(group.stream, name, value));
        law_other_identifier_at_any_depth(group.stream, name, value, path.drop_first(), ident);
    }
}

/// The copies of a body stand one after the other in the output, each as
/// long as the body's width.
pub proof fn lemma_copy_place(
    body: Seq<SeqTokenTreeView>,
    name: Seq<char>,
    values: Seq<u64>,
    k: int,
)
    requires
        0 <= k < values.len(),
    ensures
        substitute_each(body, name, values).len() == values.len() * stream_width(body, name),
        k * stream_width(body, name) + stream_width(body, name) <= substitute_each(
            body,
            name,
            values,
        ).len(),
        substitute_each(body, name, values).subrange(
            k * stream_width(body, name),
            k * stream_width(body, name) + stream_width(body, name),
        ) == substitute_stream(body, name, values[k]),
    decreases values.len(),
{
    let width = stream_width(body, name);
    let front = values.drop_last();
    let count = values.len() as int;
    let out = substitute_each(body, name, values);
    let front_out = substitute_each(body, name, front);
    let last_out = substitute_stream(body, name, values.last());
    lemma_stream_width(body, name, values.last());
    lemma_copies_length(body, name, front);
    assert(count * width == (count - 1) * width + width) by (nonlinear_arith);
    if k == count - 1 {
        assert(out.subrange(k * width, k * width + width) =~= last_out);
    } else {
        lemma_copy_place(body, name, front, k);
        assert(k * width + width <= (count - 1) * width) by (nonlinear_arith)
            requires
                0 <= k < count - 1,
                0 <= width,
        ;
        assert(out.subrange(k * width, k * width + width) =~= front_out.subrange(
            k * width,
            k * width + width,
        ));
    }
}

/// All copies together are as long as the body's width times their number.
pub proof fn lemma_copies_length(body: Seq<SeqTokenTreeView>, name: Seq<char>, values: Seq<u64>)
    ensures
        substitute_each(body, name, values).len() == values.len() * stream_width(body, name),
    decreases values.len(),
{
    let width = stream_width(body, name);
    let count = values.len() as int;
    if count > 0 {
        lemma_copies_length(body, name, values.drop_last());
        lemma_stream_width(body, name, values.last());
        assert(count * width == (count - 1) * width + width) by (nonlinear_arith);
    } else {
        assert(count * width == 0) by (nonlinear_arith)
            requires
                count == 0,
        ;
    }
}

/// Over a whole expansion of a body without a repeat section: the output is
/// one copy of the body after the other, all of the same length, and in
/// every copy an identifier that is not the bound name stands at the same
/// place as it was written, with its prefix and paste operator if it had
/// them, at whatever depth.
pub proof fn law_other_identifier_in_every_copy(
    body: Seq<SeqTokenTreeView>,
    name: Seq<char>,
    range: SeqRange,
    path: Seq<int>,
    ident: SeqIdentView,
    k: int,
)
    requires
        !stream_has_repeat_section(body),
        node_at(body, path) == Some(SeqTokenTreeView::SeqIdent(ident)),
        ident.ident.name != name,
        0 <= k < range.count(),
    ensures
        expand(body, name, range) is Ok,
        expand(body, name, range)->Ok_0.len() == range.count() * stream_width(body, name),
        tokens_at(
            expand(body, name, range)->Ok_0.subrange(
                k * stream_width(body, name),
                k * stream_width(body, name) + stream_width(body, name),
            ),
            body,
            path,
            name,
        ) == render_ident(ident),
{
    let values = range.values();
    lemma_each_whole(body, name, values);
    lemma_collected_oks(substitute_each(body, name, values));
    assert(expand(body, name, range) == Ok::<Seq<TokenTreeView>, SeqError>(
        substitute_each(body, name, values),
    ));
    lemma_copy_place(body, name, values, k);
    law_other_identifier_at_any_depth(body, name, values[k], path, ident);
}

} // verus!
