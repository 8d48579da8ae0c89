//! Exactly when an expansion fails, and with which error.

use crate::error::{SeqError, SeqErrorKind};
use crate::instantiate::{
    collected, instantiate_each, instantiate_stream, instantiate_tree, InstMode,
};
use crate::invocation::expand;
use crate::laws::collect::{
    errors_within, has_error, lemma_collected_error_within, lemma_collected_fails_iff,
    lemma_collected_oks, lemma_error_in_concat, lemma_errors_within_concat, lemma_oks_no_error,
};
use crate::laws::output::{
    law_other_identifier_unchanged, lemma_each_whole, lemma_tree_whole, render_ident,
    substitute_each, substitute_tree,
};
use crate::range::SeqRange;
use crate::token::Span;
use crate::tree::{
    stream_has_repeat_section, tree_has_repeat_section, SeqDelimiter, SeqTokenTreeView,
};
use vstd::prelude::*;

verus! {

/// Whether the bound name occurs in this node, bare or pasted, outside
/// every repeat section.
pub open spec fn tree_mentions_outside(tree: SeqTokenTreeView, name: Seq<char>) -> bool
    decreases tree,
{
    match tree {
        SeqTokenTreeView::SeqGroup(group) => match group.delimiter {
            SeqDelimiter::Delimiter(_) => stream_mentions_outside(group.stream, name),
            SeqDelimiter::RepeatSection => false,
        },
        SeqTokenTreeView::SeqIdent(ident) => ident.ident.name == name,
        _ => false,
    }
}

/// Whether the bound name occurs among these nodes, bare or pasted, outside
/// every repeat section.
pub open spec fn stream_mentions_outside(stream: Seq<SeqTokenTreeView>, name: Seq<char>) -> bool
    decreases stream,
{
    exists|i: int| 0 <= i < stream.len() && tree_mentions_outside(stream[i], name)
}

/// Whether this node is or holds a repeat section with another repeat
/// section in it.
pub open spec fn tree_has_nested_repeat_section(tree: SeqTokenTreeView) -> bool
    decreases tree,
{
    match tree {
        SeqTokenTreeView::SeqGroup(group) => match group.delimiter {
            SeqDelimiter::Delimiter(_) => stream_has_nested_repeat_section(group.stream),
            SeqDelimiter::RepeatSection => stream_has_repeat_section(group.stream),
        },
        _ => false,
    }
}

/// Whether a repeat section with another repeat section in it stands among
/// these nodes or inside their ordinary groups.
pub open spec fn stream_has_nested_repeat_section(stream: Seq<SeqTokenTreeView>) -> bool
    decreases stream,
{
    exists|i: int| 0 <= i < stream.len() && tree_has_nested_repeat_section(stream[i])
}

/// The error for a repeat section that stands where a single value is
/// substituted.
pub open spec fn nested_error() -> SeqError {
    SeqError { kind: SeqErrorKind::NestedRepeatSection, span: Span::CallSite }
}

/// Whether `error` can come out of an instantiation with repeat sections
/// running over a range: for the bound name if it stands outside the repeat
/// sections, for a nested repeat section if one is reached.
pub open spec fn is_repeat_mode_error(error: SeqError, outside: bool, nested: bool) -> bool {
    ||| outside && error.kind is BoundVariableOutsideRepeatContext
    ||| nested && error == nested_error()
}

/// A body's output holds an error exactly when the output of one of its
/// nodes does.
proof fn lemma_error_in_stream(stream: Seq<SeqTokenTreeView>, name: Seq<char>, mode: InstMode)
    ensures
        has_error(instantiate_stream(stream, name, mode)) <==> exists|i: int|
            0 <= i < stream.len() && has_error(#[trigger] instantiate_tree(stream[i], name, mode)),
    decreases stream.len(),
{
    if stream.len() == 0 {
    } else {
        let front = stream.drop_last();
        lemma_error_in_stream(front, name, mode);
        lemma_error_in_concat(
            instantiate_stream(front, name, mode),
            instantiate_tree(stream.last(), name, mode),
        );
        if has_error(instantiate_stream(front, name, mode)) {
            let i = choose|i: int|
                0 <= i < front.len() && has_error(
                    #[trigger] instantiate_tree(front[i], name, mode),
                );
            assert(has_error(instantiate_tree(stream[i], name, mode)));
        }
        if has_error(instantiate_tree(stream.last(), name, mode)) {
            assert(has_error(instantiate_tree(stream[stream.len() - 1], name, mode)));
        }
        if exists|i: int|
            0 <= i < stream.len() && has_error(#[trigger] instantiate_tree(stream[i], name, mode)) {
            let i = choose|i: int|
                0 <= i < stream.len() && has_error(
                    #[trigger] instantiate_tree(stream[i], name, mode),
                );
            if i < front.len() {
                assert(has_error(instantiate_tree(front[i], name, mode)));
            }
        }
    }
}

/// The output over a sequence of values holds an error exactly when the
/// output for one of the values does.
proof fn lemma_error_in_each(stream: Seq<SeqTokenTreeView>, name: Seq<char>, values: Seq<u64>)
    ensures
        has_error(instantiate_each(stream, name, values)) <==> exists|k: int|
            0 <= k < values.len() && has_error(
                instantiate_stream(stream, name, InstMode::Whole(#[trigger] values[k])),
            ),
    decreases values.len(),
{
    if values.len() == 0 {
    } else {
        let front = values.drop_last();
        lemma_error_in_each(stream, name, front);
        lemma_error_in_concat(
            instantiate_each(stream, name, front),
            instantiate_stream(stream, name, InstMode::Whole(values.last())),
        );
        if has_error(instantiate_each(stream, name, front)) {
            let k = choose|k: int|
                0 <= k < front.len() && has_error(
                    instantiate_stream(stream, name, InstMode::Whole(#[trigger] front[k])),
                );
            assert(has_error(instantiate_stream(stream, name, InstMode::Whole(values[k]))));
        }
        if has_error(instantiate_stream(stream, name, InstMode::Whole(values.last()))) {
            assert(has_error(
                instantiate_stream(stream, name, InstMode::Whole(values[values.len() - 1])),
            ));
        }
        if exists|k: int|
            0 <= k < values.len() && has_error(
                instantiate_stream(stream, name, InstMode::Whole(#[trigger] values[k])),
            ) {
            let k = choose|k: int|
                0 <= k < values.len() && has_error(
                    instantiate_stream(stream, name, InstMode::Whole(#[trigger] values[k])),
                );
            if k < front.len() {
                assert(has_error(instantiate_stream(stream, name, InstMode::Whole(front[k]))));
            }
        }
    }
}

/// For a single value, a node's output holds an error exactly when the node
/// is or holds a repeat section.
pub proof fn lemma_tree_whole_fails_iff(tree: SeqTokenTreeView, name: Seq<char>, value: u64)
    ensures
        has_error(instantiate_tree(tree, name, InstMode::Whole(value)))
            <==> tree_has_repeat_section(tree),
    decreases tree,
{
    let mode = InstMode::Whole(value);
    if !tree_has_repeat_section(tree) {
        lemma_tree_whole(tree, name, value);
        lemma_oks_no_error(substitute_tree(tree, name, value));
    } else {
        let group = tree->SeqGroup_0;
        match group.delimiter {
            SeqDelimiter::Delimiter(delimiter) => {
                lemma_stream_whole_fails_iff(group.stream, name, value);
                lemma_collected_fails_iff(instantiate_stream(group.stream, name, mode));
                assert(instantiate_tree(tree, name, mode)[0] is Err);
            },
            SeqDelimiter::RepeatSection => {
                assert(instantiate_tree(tree, name, mode)[0] is Err);
            },
        }
    }
}

/// For a single value, a body's output holds an error exactly when the body
/// has a repeat section.
pub proof fn lemma_stream_whole_fails_iff(
    stream: Seq<SeqTokenTreeView>,
    name: Seq<char>,
    value: u64,
)
    ensures
        has_error(instantiate_stream(stream, name, InstMode::Whole(value)))
            <==> stream_has_repeat_section(stream),
    decreases stream,
{
    let mode = InstMode::Whole(value);
    lemma_error_in_stream(stream, name, mode);
    assert forall|i: int| 0 <= i < stream.len() implies (has_error(
        #[trigger] instantiate_tree(stream[i], name, mode),
    ) <==> tree_has_repeat_section(stream[i])) by {
        lemma_tree_whole_fails_iff(stream[i], name, value);
    }
    if stream_has_repeat_section(stream) {
        let i = choose|i: int| 0 <= i < stream.len() && tree_has_repeat_section(stream[i]);
        assert(has_error(instantiate_tree(stream[i], name, mode)));
    }
}

/// With repeat sections running over `range`, a node's output holds an
/// error exactly when the bound name stands outside every repeat section,
/// or the range has a value and a repeat section holds another.
pub proof fn lemma_tree_repeat_fails_iff(tree: SeqTokenTreeView, name: Seq<char>, range: SeqRange)
    ensures
        has_error(instantiate_tree(tree, name, InstMode::RepeatSection(range))) <==> (
        tree_mentions_outside(tree, name) || (range.count() > 0 && tree_has_nested_repeat_section(
            tree,
        ))),
    decreases tree,
{
    let mode = InstMode::RepeatSection(range);
    let items = instantiate_tree(tree, name, mode);
    match tree {
        SeqTokenTreeView::SeqGroup(group) => {
            match group.delimiter {
                SeqDelimiter::Delimiter(delimiter) => {
                    lemma_stream_repeat_fails_iff(group.stream, name, range);
                    lemma_collected_fails_iff(instantiate_stream(group.stream, name, mode));
                    if items[0] is Err {
                        assert(has_error(items));
                    }
                },
                SeqDelimiter::RepeatSection => {
                    let values = range.values();
                    lemma_error_in_each(group.stream, name, values);
                    assert forall|k: int| 0 <= k < values.len() implies (has_error(
                        instantiate_stream(
                            group.stream,
                            name,
                            InstMode::Whole(#[trigger] values[k]),
                        ),
                    ) <==> stream_has_repeat_section(group.stream)) by {
                        lemma_stream_whole_fails_iff(group.stream, name, values[k]);
                    }
                    if range.count() > 0 && stream_has_repeat_section(group.stream) {
                        assert(has_error(
                            instantiate_stream(group.stream, name, InstMode::Whole(values[0])),
                        ));
                    }
                },
            }
        },
        SeqTokenTreeView::SeqIdent(ident) => {
            if ident.ident.name == name {
                assert(items[0] is Err);
            } else {
                law_other_identifier_unchanged(ident, name, mode);
                lemma_oks_no_error(render_ident(ident));
            }
        },
        SeqTokenTreeView::Punct(punct) => {},
        SeqTokenTreeView::Literal(literal) => {},
    }
}

/// With repeat sections running over `range`, a body's output holds an
/// error exactly when the bound name stands outside every repeat section,
/// or the range has a value and a repeat section holds another.
pub proof fn lemma_stream_repeat_fails_iff(
    stream: Seq<SeqTokenTreeView>,
    name: Seq<char>,
    range: SeqRange,
)
    ensures
        has_error(instantiate_stream(stream, name, InstMode::RepeatSection(range))) <==> (
        stream_mentions_outside(stream, name) || (range.count() > 0
            && stream_has_nested_repeat_section(stream))),
    decreases stream,
{
    let mode = InstMode::RepeatSection(range);
    lemma_error_in_stream(stream, name, mode);
    assert forall|i: int| 0 <= i < stream.len() implies (has_error(
        #[trigger] instantiate_tree(stream[i], name, mode),
    ) <==> (tree_mentions_outside(stream[i], name) || (range.count() > 0
        && tree_has_nested_repeat_section(stream[i])))) by {
        lemma_tree_repeat_fails_iff(stream[i], name, range);
    }
    if stream_mentions_outside(stream, name) {
        let i = choose|i: int| 0 <= i < stream.len() && tree_mentions_outside(stream[i], name);
        assert(has_error(instantiate_tree(stream[i], name, mode)));
    }
    if range.count() > 0 && stream_has_nested_repeat_section(stream) {
        let i = choose|i: int|
            0 <= i < stream.len() && tree_has_nested_repeat_section(stream[i]);
        assert(has_error(instantiate_tree(stream[i], name, mode)));
    }
}

/// A node with nested repeat sections is or holds a repeat section.
proof fn lemma_nested_tree_is_repeat_section(tree: SeqTokenTreeView)
    requires
        tree_has_nested_repeat_section(tree),
    ensures
        tree_has_repeat_section(tree),
    decreases tree,
{
    let group = tree->SeqGroup_0;
    match group.delimiter {
        SeqDelimiter::Delimiter(_) => {
            lemma_nested_is_repeat_section(group.stream);
        },
        SeqDelimiter::RepeatSection => {},
    }
}

/// A body with nested repeat sections has a repeat section.
proof fn lemma_nested_is_repeat_section(stream: Seq<SeqTokenTreeView>)
    requires
        stream_has_nested_repeat_section(stream),
    ensures
        stream_has_repeat_section(stream),
    decreases stream,
{
    let i = choose|i: int| 0 <= i < stream.len() && tree_has_nested_repeat_section(stream[i]);
    lemma_nested_tree_is_repeat_section(stream[i]);
}

/// When an expansion succeeds. A body without a repeat section always
/// expands. A body with one expands exactly when the bound name stands
/// nowhere outside the repeat sections and, unless the range is empty, no
/// repeat section holds another.
pub proof fn law_expand_succeeds_iff(body: Seq<SeqTokenTreeView>, name: Seq<char>, range: SeqRange)
    ensures
        expand(body, name, range) is Ok <==> (!stream_has_repeat_section(body) || (
        !stream_mentions_outside(body, name) && (range.count() == 0
            || !stream_has_nested_repeat_section(body)))),
{
    if stream_has_repeat_section(body) {
        lemma_stream_repeat_fails_iff(body, name, range);
        lemma_collected_fails_iff(instantiate_stream(body, name, InstMode::RepeatSection(range)));
    } else {
        lemma_each_whole(body, name, range.values());
        lemma_collected_oks(substitute_each(body, name, range.values()));
    }
}

/// A body with a repeat section in which the bound name, bare or pasted,
/// also stands outside every repeat section does not expand: the name has no
/// value there.
pub proof fn law_bound_name_outside_repeat_section(
    body: Seq<SeqTokenTreeView>,
    name: Seq<char>,
    range: SeqRange,
)
    requires
        stream_has_repeat_section(body),
        stream_mentions_outside(body, name),
    ensures
        expand(body, name, range) is Err,
{
    law_expand_succeeds_iff(body, name, range);
}

/// A body in which a repeat section holds another does not expand, unless
/// the range is empty and the bound name stands nowhere outside the repeat
/// sections: then the inner section is never reached.
pub proof fn law_nested_repeat_section(
    body: Seq<SeqTokenTreeView>,
    name: Seq<char>,
    range: SeqRange,
)
    requires
        stream_has_nested_repeat_section(body),
        range.count() > 0 || stream_mentions_outside(body, name),
    ensures
        expand(body, name, range) is Err,
{
    lemma_nested_is_repeat_section(body);
    law_expand_succeeds_iff(body, name, range);
}

/// For a single value, the only error is the one for a repeat section.
proof fn lemma_tree_whole_errors(tree: SeqTokenTreeView, name: Seq<char>, value: u64)
    ensures
        errors_within(
            instantiate_tree(tree, name, InstMode::Whole(value)),
            |error: SeqError| error == nested_error(),
        ),
    decreases tree,
{
    let mode = InstMode::Whole(value);
    let allowed = |error: SeqError| error == nested_error();
    match tree {
        SeqTokenTreeView::SeqGroup(group) => {
            match group.delimiter {
                SeqDelimiter::Delimiter(delimiter) => {
                    let inner = instantiate_stream(group.stream, name, mode);
                    lemma_stream_whole_errors(group.stream, name, value);
                    if collected(inner) is Err {
                        lemma_collected_error_within(inner, allowed);
                    }
                },
                SeqDelimiter::RepeatSection => {},
            }
        },
        _ => {},
    }
}

/// For a single value, the only error is the one for a repeat section.
proof fn lemma_stream_whole_errors(stream: Seq<SeqTokenTreeView>, name: Seq<char>, value: u64)
    ensures
        errors_within(
            instantiate_stream(stream, name, InstMode::Whole(value)),
            |error: SeqError| error == nested_error(),
        ),
    decreases stream,
{
    let mode = InstMode::Whole(value);
    let allowed = |error: SeqError| error == nested_error();
    if stream.len() > 0 {
        lemma_stream_whole_errors(stream.drop_last(), name, value);
        lemma_tree_whole_errors(stream.last(), name, value);
        lemma_errors_within_concat(
            instantiate_stream(stream.drop_last(), name, mode),
            instantiate_tree(stream.last(), name, mode),
            allowed,
        );
    }
}

/// Over a sequence of values, the only error is the one for a repeat
/// section.
proof fn lemma_each_errors(stream: Seq<SeqTokenTreeView>, name: Seq<char>, values: Seq<u64>)
    ensures
        errors_within(
            instantiate_each(stream, name, values),
            |error: SeqError| error == nested_error(),
        ),
    decreases values.len(),
{
    let allowed = |error: SeqError| error == nested_error();
    if values.len() > 0 {
        lemma_each_errors(stream, name, values.drop_last());
        lemma_stream_whole_errors(stream, name, values.last());
        lemma_errors_within_concat(
            instantiate_each(stream, name, values.drop_last()),
            instantiate_stream(stream, name, InstMode::Whole(values.last())),
            allowed,
        );
    }
}

/// With repeat sections running over `range`, every error of a node is for
/// the bound name outside the repeat sections or for a nested repeat
/// section, and only where the node has such a place.
proof fn lemma_tree_repeat_errors(tree: SeqTokenTreeView, name: Seq<char>, range: SeqRange)
    ensures
        errors_within(
            instantiate_tree(tree, name, InstMode::RepeatSection(range)),
            |error: SeqError|
                is_repeat_mode_error(
                    error,
                    tree_mentions_outside(tree, name),
                    range.count() > 0 && tree_has_nested_repeat_section(tree),
                ),
        ),
    decreases tree,
{
    let mode = InstMode::RepeatSection(range);
    let items = instantiate_tree(tree, name, mode);
    let allowed = |error: SeqError|
        is_repeat_mode_error(
            error,
            tree_mentions_outside(tree, name),
            range.count() > 0 && tree_has_nested_repeat_section(tree),
        );
    match tree {
        SeqTokenTreeView::SeqGroup(group) => {
            match group.delimiter {
                SeqDelimiter::Delimiter(delimiter) => {
                    let inner = instantiate_stream(group.stream, name, mode);
                    let inner_allowed = |error: SeqError|
                        is_repeat_mode_error(
                            error,
                            stream_mentions_outside(group.stream, name),
                            range.count() > 0 && stream_has_nested_repeat_section(group.stream),
                        );
                    lemma_stream_repeat_errors(group.stream, name, range);
                    if collected(inner) is Err {
                        lemma_collected_error_within(inner, inner_allowed);
                    }
                },
                SeqDelimiter::RepeatSection => {
                    let values = range.values();
                    lemma_each_errors(group.stream, name, values);
                    lemma_tree_repeat_fails_iff(tree, name, range);
                    assert forall|i: int|
                        0 <= i < items.len() && (#[trigger] items[i]) is Err implies allowed(
                        items[i]->Err_0,
                    ) by {
                        assert(has_error(items));
                    }
                },
            }
        },
        SeqTokenTreeView::SeqIdent(ident) => {
            if ident.ident.name != name {
                law_other_identifier_unchanged(ident, name, mode);
            }
        },
        _ => {},
    }
}

/// With repeat sections running over `range`, every error of a body is for
/// the bound name outside the repeat sections or for a nested repeat
/// section, and only where the body has such a place.
proof fn lemma_stream_repeat_errors(stream: Seq<SeqTokenTreeView>, name: Seq<char>, range: SeqRange)
    ensures
        errors_within(
            instantiate_stream(stream, name, InstMode::RepeatSection(range)),
            |error: SeqError|
                is_repeat_mode_error(
                    error,
                    stream_mentions_outside(stream, name),
                    range.count() > 0 && stream_has_nested_repeat_section(stream),
                ),
        ),
    decreases stream,
{
    let mode = InstMode::RepeatSection(range);
    let allowed = |error: SeqError|
        is_repeat_mode_error(
            error,
            stream_mentions_outside(stream, name),
            range.count() > 0 && stream_has_nested_repeat_section(stream),
        );
    if stream.len() > 0 {
        let front = stream.drop_last();
        let last = stream.last();
        lemma_stream_repeat_errors(front, name, range);
        lemma_tree_repeat_errors(last, name, range);
        let front_items = instantiate_stream(front, name, mode);
        let last_items = instantiate_tree(last, name, mode);
        assert(errors_within(front_items, allowed)) by {
            if stream_mentions_outside(front, name) {
                let i = choose|i: int|
                    0 <= i < front.len() && tree_mentions_outside(front[i], name);
                assert(tree_mentions_outside(stream[i], name));
            }
            if stream_has_nested_repeat_section(front) {
                let i = choose|i: int|
                    0 <= i < front.len() && tree_has_nested_repeat_section(front[i]);
                assert(tree_has_nested_repeat_section(stream[i]));
            }
        }
        assert(errors_within(last_items, allowed)) by {
            if tree_mentions_outside(last, name) {
                assert(tree_mentions_outside(stream[stream.len() - 1], name));
            }
            if tree_has_nested_repeat_section(last) {
                assert(tree_has_nested_repeat_section(stream[stream.len() - 1]));
            }
        }
        lemma_errors_within_concat(front_items, last_items, allowed);
    }
}

/// Which error an expansion fails with. A body without a repeat section
/// never fails. For a body with one, the error is for the bound name
/// outside the repeat sections, and then the name stands there, or it is
/// the error for a nested repeat section, and then the range has a value and
/// a repeat section holds another.
pub proof fn law_expand_errors(body: Seq<SeqTokenTreeView>, name: Seq<char>, range: SeqRange)
    requires
        expand(body, name, range) is Err,
    ensures
        stream_has_repeat_section(body),
        is_repeat_mode_error(
            expand(body, name, range)->Err_0,
            stream_mentions_outside(body, name),
            range.count() > 0 && stream_has_nested_repeat_section(body),
        ),
{
    law_expand_succeeds_iff(body, name, range);
    lemma_stream_repeat_errors(body, name, range);
    lemma_collected_error_within(
        instantiate_stream(body, name, InstMode::RepeatSection(range)),
        |error: SeqError|
            is_repeat_mode_error(
                error,
                stream_mentions_outside(body, name),
                range.count() > 0 && stream_has_nested_repeat_section(body),
            ),
    );
}

} // verus!
