//! The shape of a successful expansion: substitution over the range for a
//! body without a repeat section, and repetition of the marked section alone
//! for a body with one.

use crate::error::SeqError;
use crate::instantiate::{
    collected, decimal_digits, instantiate_each, instantiate_ident, instantiate_stream,
    instantiate_tree, paste_punct, Emitted, InstMode,
};
use crate::invocation::expand;
use crate::laws::collect::{lemma_collected_length, lemma_collected_oks, oks};
use crate::parse::{REPEAT_SECTION_END_PUNCT, REPEAT_SECTION_START_PUNCT};
use crate::range::{SeqRange, SeqRangeKind};
use crate::token::{
    Delimiter, GroupView, IdentView, LiteralView, Punct, Spacing, Span, TokenTreeView,
};
use crate::tree::{
    stream_has_repeat_section, tree_has_repeat_section, SeqDelimiter, SeqGroupView, SeqIdentView,
    SeqTokenTreeView,
};
use vstd::prelude::*;

verus! {

/// A parsed identifier written back as tokens: the identifier alone, or the
/// prefix, the paste operator and the identifier.
pub open spec fn render_ident(ident: SeqIdentView) -> Seq<TokenTreeView> {
    match ident.prefix {
        Some(prefix) => seq![
            TokenTreeView::Ident(prefix),
            paste_punct(),
            TokenTreeView::Ident(ident.ident),
        ],
        None => seq![TokenTreeView::Ident(ident.ident)],
    }
}

/// A punctuation character made during expansion.
pub open spec fn made_punct(ch: char) -> TokenTreeView {
    TokenTreeView::Punct(Punct { ch, spacing: Spacing::Alone, span: Span::CallSite })
}

/// A group made during expansion.
pub open spec fn made_group(delimiter: Delimiter, stream: Seq<TokenTreeView>) -> TokenTreeView {
    TokenTreeView::Group(GroupView { delimiter, stream, span: Span::CallSite })
}

/// A node written back as tokens with nothing substituted.
pub open spec fn render_tree(tree: SeqTokenTreeView) -> Seq<TokenTreeView>
    decreases tree,
{
    match tree {
        SeqTokenTreeView::SeqGroup(group) => match group.delimiter {
            SeqDelimiter::Delimiter(delimiter) => seq![
                made_group(delimiter, render_stream(group.stream)),
            ],
            SeqDelimiter::RepeatSection => seq![
                made_punct(REPEAT_SECTION_START_PUNCT),
                made_group(Delimiter::Parenthesis, render_stream(group.stream)),
                made_punct(REPEAT_SECTION_END_PUNCT),
            ],
        },
        SeqTokenTreeView::SeqIdent(ident) => render_ident(ident),
        SeqTokenTreeView::Punct(punct) => seq![TokenTreeView::Punct(punct)],
        SeqTokenTreeView::Literal(literal) => seq![TokenTreeView::Literal(literal)],
    }
}

/// A sequence of nodes written back as tokens with nothing substituted.
pub open spec fn render_stream(stream: Seq<SeqTokenTreeView>) -> Seq<TokenTreeView>
    decreases stream,
{
    if stream.len() == 0 {
        Seq::empty()
    } else {
        render_stream(stream.drop_last()) + render_tree(stream.last())
    }
}

/// A parsed identifier with `value` put for the bound name: the value as a
/// literal for the bare name, the prefix with the value's digits appended
/// for the pasted name, and any other identifier as it was written.
pub open spec fn substitute_ident(ident: SeqIdentView, name: Seq<char>, value: u64) -> Seq<
    TokenTreeView,
> {
    if ident.ident.name == name {
        match ident.prefix {
            Some(prefix) => seq![
                TokenTreeView::Ident(
                    IdentView {
                        name: prefix.name + decimal_digits(value as nat),
                        span: prefix.span,
                    },
                ),
            ],
            None => seq![
                TokenTreeView::Literal(
                    LiteralView { text: decimal_digits(value as nat), span: Span::CallSite },
                ),
            ],
        }
    } else {
        render_ident(ident)
    }
}

/// A node with `value` put for the bound name. Repeat sections have no
/// place in a substitution for a single value and are left out.
pub open spec fn substitute_tree(tree: SeqTokenTreeView, name: Seq<char>, value: u64) -> Seq<
    TokenTreeView,
>
    decreases tree,
{
    match tree {
        SeqTokenTreeView::SeqGroup(group) => match group.delimiter {
            SeqDelimiter::Delimiter(delimiter) => seq![
                made_group(delimiter, substitute_stream(group.stream, name, value)),
            ],
            SeqDelimiter::RepeatSection => Seq::empty(),
        },
        SeqTokenTreeView::SeqIdent(ident) => substitute_ident(ident, name, value),
        SeqTokenTreeView::Punct(punct) => seq![TokenTreeView::Punct(punct)],
        SeqTokenTreeView::Literal(literal) => seq![TokenTreeView::Literal(literal)],
    }
}

/// A sequence of nodes with `value` put for the bound name.
pub open spec fn substitute_stream(
    stream: Seq<SeqTokenTreeView>,
    name: Seq<char>,
    value: u64,
) -> Seq<TokenTreeView>
    decreases stream,
{
    if stream.len() == 0 {
        Seq::empty()
    } else {
        substitute_stream(stream.drop_last(), name, value) + substitute_tree(
            stream.last(),
            name,
            value,
        )
    }
}

/// The substitutions of a sequence of nodes for each of `values`, one after
/// the other.
pub open spec fn substitute_each(
    stream: Seq<SeqTokenTreeView>,
    name: Seq<char>,
    values: Seq<u64>,
) -> Seq<TokenTreeView>
    decreases values.len(),
{
    if values.len() == 0 {
        Seq::empty()
    } else {
        substitute_each(stream, name, values.drop_last()) + substitute_stream(
            stream,
            name,
            values.last(),
        )
    }
}

/// A body without a repeat section has none in its parts.
proof fn lemma_no_repeat_section_parts(stream: Seq<SeqTokenTreeView>)
    requires
        stream.len() > 0,
        !stream_has_repeat_section(stream),
    ensures
        !stream_has_repeat_section(stream.drop_last()),
        !tree_has_repeat_section(stream.last()),
{
    let front = stream.drop_last();
    if stream_has_repeat_section(front) {
        let i = choose|i: int| 0 <= i < front.len() && tree_has_repeat_section(front[i]);
        assert(tree_has_repeat_section(stream[i]));
    }
    if tree_has_repeat_section(stream.last()) {
        assert(tree_has_repeat_section(stream[stream.len() - 1]));
    }
}

/// For a single value, a node without a repeat section becomes its
/// substitution, with no error.
pub proof fn lemma_tree_whole(tree: SeqTokenTreeView, name: Seq<char>, value: u64)
    requires
        !tree_has_repeat_section(tree),
    ensures
        instantiate_tree(tree, name, InstMode::Whole(value)) == oks(
            substitute_tree(tree, name, value),
        ),
    decreases tree,
{
    let mode = InstMode::Whole(value);
    match tree {
        SeqTokenTreeView::SeqGroup(group) => {
            match group.delimiter {
                SeqDelimiter::Delimiter(delimiter) => {
                    lemma_stream_whole(group.stream, name, value);
                    lemma_collected_oks(substitute_stream(group.stream, name, value));
                    assert(instantiate_tree(tree, name, mode) =~= oks(
                        substitute_tree(tree, name, value),
                    ));
                },
                SeqDelimiter::RepeatSection => {},
            }
        },
        SeqTokenTreeView::SeqIdent(ident) => {
            assert(instantiate_ident(ident, name, mode) =~= oks(
                substitute_ident(ident, name, value),
            ));
        },
        SeqTokenTreeView::Punct(punct) => {
            assert(instantiate_tree(tree, name, mode) =~= oks(substitute_tree(tree, name, value)));
        },
        SeqTokenTreeView::Literal(literal) => {
            assert(instantiate_tree(tree, name, mode) =~= oks(substitute_tree(tree, name, value)));
        },
    }
}

/// For a single value, a body without a repeat section becomes its
/// substitution, with no error.
pub proof fn lemma_stream_whole(stream: Seq<SeqTokenTreeView>, name: Seq<char>, value: u64)
    requires
        !stream_has_repeat_section(stream),
    ensures
        instantiate_stream(stream, name, InstMode::Whole(value)) == oks(
            substitute_stream(stream, name, value),
        ),
    decreases stream,
{
    let mode = InstMode::Whole(value);
    if stream.len() == 0 {
        assert(instantiate_stream(stream, name, mode) =~= oks(
            substitute_stream(stream, name, value),
        ));
    } else {
        lemma_no_repeat_section_parts(stream);
        lemma_stream_whole(stream.drop_last(), name, value);
        lemma_tree_whole(stream.last(), name, value);
        assert(oks(substitute_stream(stream.drop_last(), name, value)) + oks(
            substitute_tree(stream.last(), name, value),
        ) =~= oks(substitute_stream(stream, name, value)));
    }
}

/// Over a sequence of values, a body without a repeat section becomes its
/// substitutions in the order of the values, with no error.
pub proof fn lemma_each_whole(stream: Seq<SeqTokenTreeView>, name: Seq<char>, values: Seq<u64>)
    requires
        !stream_has_repeat_section(stream),
    ensures
        instantiate_each(stream, name, values) == oks(substitute_each(stream, name, values)),
    decreases values.len(),
{
    if values.len() == 0 {
        assert(instantiate_each(stream, name, values) =~= oks(
            substitute_each(stream, name, values),
        ));
    } else {
        lemma_each_whole(stream, name, values.drop_last());
        lemma_stream_whole(stream, name, values.last());
        assert(oks(substitute_each(stream, name, values.drop_last())) + oks(
            substitute_stream(stream, name, values.last()),
        ) =~= oks(substitute_each(stream, name, values)));
    }
}

/// The values from `lower` up to, not including, `upper`.
pub open spec fn values_between(lower: u64, upper: int) -> Seq<u64> {
    Seq::new(
        if lower <= upper {
            (upper - lower) as nat
        } else {
            0
        },
        |k: int| (lower + k) as u64,
    )
}

/// A body without a repeat section, over `lower..upper` with
/// `lower <= upper`: the expansion succeeds and is the body's substitution
/// for `lower`, then for `lower + 1`, and so on up to `upper - 1`.
pub proof fn law_exclusive_range(
    body: Seq<SeqTokenTreeView>,
    name: Seq<char>,
    lower: u64,
    upper: u64,
)
    requires
        lower <= upper,
        !stream_has_repeat_section(body),
    ensures
        expand(body, name, (SeqRange { lower, upper, kind: SeqRangeKind::Range })) == Ok::<
            Seq<TokenTreeView>,
            SeqError,
        >(substitute_each(body, name, values_between(lower, upper as int))),
{
    let range = SeqRange { lower, upper, kind: SeqRangeKind::Range };
    assert(range.values() =~= values_between(lower, upper as int));
    lemma_each_whole(body, name, range.values());
    lemma_collected_oks(substitute_each(body, name, range.values()));
}

/// A body without a repeat section, over `lower..=upper` with
/// `lower <= upper`: the expansion succeeds and is the body's substitution
/// for `lower`, then for `lower + 1`, and so on up to and including `upper`.
pub proof fn law_inclusive_range(
    body: Seq<SeqTokenTreeView>,
    name: Seq<char>,
    lower: u64,
    upper: u64,
)
    requires
        lower <= upper,
        !stream_has_repeat_section(body),
    ensures
        expand(body, name, (SeqRange { lower, upper, kind: SeqRangeKind::RangeInclusive }))
            == Ok::<Seq<TokenTreeView>, SeqError>(
            substitute_each(body, name, values_between(lower, upper + 1)),
        ),
{
    let range = SeqRange { lower, upper, kind: SeqRangeKind::RangeInclusive };
    assert(range.values() =~= values_between(lower, upper + 1));
    lemma_each_whole(body, name, range.values());
    lemma_collected_oks(substitute_each(body, name, range.values()));
}

/// Whether the bound name occurs in this node, bare or pasted, at any
/// depth.
pub open spec fn tree_mentions(tree: SeqTokenTreeView, name: Seq<char>) -> bool
    decreases tree,
{
    match tree {
        SeqTokenTreeView::SeqGroup(group) => stream_mentions(group.stream, name),
        SeqTokenTreeView::SeqIdent(ident) => ident.ident.name == name,
        _ => false,
    }
}

/// Whether the bound name occurs among these nodes, bare or pasted, at any
/// depth.
pub open spec fn stream_mentions(stream: Seq<SeqTokenTreeView>, name: Seq<char>) -> bool
    decreases stream,
{
    exists|i: int| 0 <= i < stream.len() && tree_mentions(stream[i], name)
}

/// A body that does not mention the bound name has no part that does.
proof fn lemma_no_mention_parts(stream: Seq<SeqTokenTreeView>, name: Seq<char>)
    requires
        stream.len() > 0,
        !stream_mentions(stream, name),
    ensures
        !stream_mentions(stream.drop_last(), name),
        !tree_mentions(stream.last(), name),
{
    let front = stream.drop_last();
    if stream_mentions(front, name) {
        let i = choose|i: int| 0 <= i < front.len() && tree_mentions(front[i], name);
        assert(tree_mentions(stream[i], name));
    }
    if tree_mentions(stream.last(), name) {
        assert(tree_mentions(stream[stream.len() - 1], name));
    }
}

/// An identifier that is not the bound name, with or without a paste
/// prefix, comes out as it was written, whatever the mode.
pub proof fn law_other_identifier_unchanged(ident: SeqIdentView, name: Seq<char>, mode: InstMode)
    requires
        ident.ident.name != name,
    ensures
        instantiate_tree(SeqTokenTreeView::SeqIdent(ident), name, mode) == oks(
            render_ident(ident),
        ),
{
    assert(instantiate_ident(ident, name, mode) =~= oks(render_ident(ident)));
}

/// A node that holds neither the bound name nor a repeat section comes out
/// as it was written, whatever the mode.
pub proof fn lemma_tree_unchanged(tree: SeqTokenTreeView, name: Seq<char>, mode: InstMode)
    requires
        !tree_has_repeat_section(tree),
        !tree_mentions(tree, name),
    ensures
        instantiate_tree(tree, name, mode) == oks(render_tree(tree)),
    decreases tree,
{
    match tree {
        SeqTokenTreeView::SeqGroup(group) => {
            match group.delimiter {
                SeqDelimiter::Delimiter(delimiter) => {
                    law_unmentioned_body_unchanged(group.stream, name, mode);
                    lemma_collected_oks(render_stream(group.stream));
                    assert(instantiate_tree(tree, name, mode) =~= oks(render_tree(tree)));
                },
                SeqDelimiter::RepeatSection => {},
            }
        },
        SeqTokenTreeView::SeqIdent(ident) => {
            law_other_identifier_unchanged(ident, name, mode);
        },
        SeqTokenTreeView::Punct(punct) => {
            assert(instantiate_tree(tree, name, mode) =~= oks(render_tree(tree)));
        },
        SeqTokenTreeView::Literal(literal) => {
            assert(instantiate_tree(tree, name, mode) =~= oks(render_tree(tree)));
        },
    }
}

/// A body that holds neither the bound name nor a repeat section comes out
/// as it was written, whatever the mode and so for every value.
pub proof fn law_unmentioned_body_unchanged(
    stream: Seq<SeqTokenTreeView>,
    name: Seq<char>,
    mode: InstMode,
)
    requires
        !stream_has_repeat_section(stream),
        !stream_mentions(stream, name),
    ensures
        instantiate_stream(stream, name, mode) == oks(render_stream(stream)),
    decreases stream,
{
    if stream.len() == 0 {
        assert(instantiate_stream(stream, name, mode) =~= oks(render_stream(stream)));
    } else {
        lemma_no_repeat_section_parts(stream);
        lemma_no_mention_parts(stream, name);
        law_unmentioned_body_unchanged(stream.drop_last(), name, mode);
        lemma_tree_unchanged(stream.last(), name, mode);
        assert(oks(render_stream(stream.drop_last())) + oks(render_tree(stream.last())) =~= oks(
            render_stream(stream),
        ));
    }
}

/// Instantiating two sequences of nodes one after the other is
/// instantiating their concatenation.
pub proof fn lemma_instantiate_concat(
    front: Seq<SeqTokenTreeView>,
    back: Seq<SeqTokenTreeView>,
    name: Seq<char>,
    mode: InstMode,
)
    ensures
        instantiate_stream(front + back, name, mode) == instantiate_stream(front, name, mode)
            + instantiate_stream(back, name, mode),
    decreases back.len(),
{
    if back.len() == 0 {
        assert(front + back =~= front);
        assert(instantiate_stream(front, name, mode) + instantiate_stream(back, name, mode)
            =~= instantiate_stream(front, name, mode));
    } else {
        lemma_instantiate_concat(front, back.drop_last(), name, mode);
        assert((front + back).drop_last() =~= front + back.drop_last());
        assert((front + back).last() == back.last());
        assert(instantiate_stream(front + back, name, mode) =~= instantiate_stream(
            front,
            name,
            mode,
        ) + instantiate_stream(back, name, mode));
    }
}

/// A sequence of one node is instantiated as that node.
pub proof fn lemma_instantiate_single(tree: SeqTokenTreeView, name: Seq<char>, mode: InstMode)
    ensures
        instantiate_stream(seq![tree], name, mode) == instantiate_tree(tree, name, mode),
{
    let single = seq![tree];
    assert(single.drop_last() =~= Seq::<SeqTokenTreeView>::empty());
    assert(instantiate_stream(single.drop_last(), name, mode) =~= Seq::<Emitted>::empty());
    assert(instantiate_stream(single, name, mode) =~= instantiate_tree(tree, name, mode));
}

/// A repeat section around `inner`.
pub open spec fn repeat_section(inner: Seq<SeqTokenTreeView>) -> SeqTokenTreeView {
    SeqTokenTreeView::SeqGroup(
        SeqGroupView { delimiter: SeqDelimiter::RepeatSection, stream: inner },
    )
}

/// A body `before #( inner )* after`, where `before` and `after` hold
/// neither the bound name nor a repeat section and `inner` holds no repeat
/// section unless the range is empty: the expansion succeeds and is `before`
/// as written, then the substitutions of `inner` for each value of the range
/// in order, then `after` as written. `before` and `after` come out once,
/// whatever the range.
pub proof fn law_repeat_section_isolation(
    before: Seq<SeqTokenTreeView>,
    inner: Seq<SeqTokenTreeView>,
    after: Seq<SeqTokenTreeView>,
    name: Seq<char>,
    range: SeqRange,
)
    requires
        !stream_has_repeat_section(before),
        !stream_mentions(before, name),
        range.count() == 0 || !stream_has_repeat_section(inner),
        !stream_has_repeat_section(after),
        !stream_mentions(after, name),
    ensures
        expand(before + seq![repeat_section(inner)] + after, name, range) == Ok::<
            Seq<TokenTreeView>,
            SeqError,
        >(
            render_stream(before) + substitute_each(inner, name, range.values()) + render_stream(
                after,
            ),
        ),
{
    let mode = InstMode::RepeatSection(range);
    let section = repeat_section(inner);
    let body = before + seq![section] + after;
    assert(tree_has_repeat_section(body[before.len() as int]));
    lemma_instantiate_concat(before + seq![section], after, name, mode);
    lemma_instantiate_concat(before, seq![section], name, mode);
    lemma_instantiate_single(section, name, mode);
    law_unmentioned_body_unchanged(before, name, mode);
    law_unmentioned_body_unchanged(after, name, mode);
    if range.count() == 0 {
        assert(range.values() =~= Seq::<u64>::empty());
        assert(instantiate_each(inner, name, range.values()) =~= oks(
            substitute_each(inner, name, range.values()),
        ));
    } else {
        lemma_each_whole(inner, name, range.values());
    }
    let output = render_stream(before) + substitute_each(inner, name, range.values())
        + render_stream(after);
    assert(instantiate_stream(body, name, mode) =~= oks(output));
    lemma_collected_oks(output);
}

/// Whether a node is a repeat section.
pub open spec fn is_repeat_section(tree: SeqTokenTreeView) -> bool {
    tree matches SeqTokenTreeView::SeqGroup(group) && group.delimiter
        == SeqDelimiter::RepeatSection
}

/// Every node but a repeat section gives at least one item.
proof fn lemma_tree_gives_items(tree: SeqTokenTreeView, name: Seq<char>, mode: InstMode)
    requires
        !is_repeat_section(tree),
    ensures
        instantiate_tree(tree, name, mode).len() > 0,
{
}

/// A body gives at least as many items as each of its nodes.
proof fn lemma_stream_gives_items(
    stream: Seq<SeqTokenTreeView>,
    name: Seq<char>,
    mode: InstMode,
    i: int,
)
    requires
        0 <= i < stream.len(),
    ensures
        instantiate_stream(stream, name, mode).len() >= instantiate_tree(
            stream[i],
            name,
            mode,
        ).len(),
    decreases stream.len(),
{
    if i < stream.len() - 1 {
        lemma_stream_gives_items(stream.drop_last(), name, mode, i);
    }
}

/// Over a range that holds no value, a body of repeat sections alone gives
/// nothing.
proof fn lemma_repeat_sections_alone(
    stream: Seq<SeqTokenTreeView>,
    name: Seq<char>,
    range: SeqRange,
)
    requires
        range.count() == 0,
        forall|i: int| 0 <= i < stream.len() ==> is_repeat_section(#[trigger] stream[i]),
    ensures
        instantiate_stream(stream, name, InstMode::RepeatSection(range)).len() == 0,
    decreases stream.len(),
{
    if stream.len() > 0 {
        let front = stream.drop_last();
        assert forall|i: int| 0 <= i < front.len() implies is_repeat_section(
            #[trigger] front[i],
        ) by {
            assert(is_repeat_section(stream[i]));
        }
        lemma_repeat_sections_alone(front, name, range);
        let last = stream.last();
        assert(is_repeat_section(stream[stream.len() - 1]));
        assert(range.values().len() == 0);
        assert(instantiate_tree(last, name, InstMode::RepeatSection(range)).len() == 0);
    }
}

/// Over a range that holds no value (`lower..lower`, or any range whose
/// lower bound is above its last value), the expansion is empty exactly when
/// the body has no repeat section or is made of repeat sections alone. What
/// stands beside a repeat section comes out whatever the range.
pub proof fn law_empty_range(body: Seq<SeqTokenTreeView>, name: Seq<char>, range: SeqRange)
    requires
        range.count() == 0,
    ensures
        expand(body, name, range) == Ok::<Seq<TokenTreeView>, SeqError>(Seq::empty()) <==> (
        !stream_has_repeat_section(body) || forall|i: int|
            0 <= i < body.len() ==> is_repeat_section(#[trigger] body[i])),
{
    let mode = InstMode::RepeatSection(range);
    let items = instantiate_stream(body, name, mode);
    assert(range.values() =~= Seq::<u64>::empty());
    if stream_has_repeat_section(body) {
        if forall|i: int| 0 <= i < body.len() ==> is_repeat_section(#[trigger] body[i]) {
            lemma_repeat_sections_alone(body, name, range);
            assert(items =~= Seq::<Emitted>::empty());
        } else {
            let i = choose|i: int| 0 <= i < body.len() && !is_repeat_section(#[trigger] body[i]);
            lemma_tree_gives_items(body[i], name, mode);
            lemma_stream_gives_items(body, name, mode, i);
            if collected(items) is Ok {
                lemma_collected_length(items);
            }
        }
    }
}

} // verus!
