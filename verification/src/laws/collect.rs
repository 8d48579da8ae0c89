//! Facts about sequences of emitted items and what collecting them gives.

use crate::error::SeqError;
use crate::instantiate::{collected, Emitted};
use crate::token::TokenTreeView;
use vstd::prelude::*;

verus! {

/// Tokens as emitted items, none of them an error.
pub open spec fn oks(tokens: Seq<TokenTreeView>) -> Seq<Emitted> {
    tokens.map_values(|token: TokenTreeView| Ok::<TokenTreeView, SeqError>(token))
}

/// Whether one of the items is an error.
pub open spec fn has_error(items: Seq<Emitted>) -> bool {
    exists|i: int| 0 <= i < items.len() && (#[trigger] items[i]) is Err
}

/// Whether the item at `k` is the first error among `items`.
pub open spec fn first_error_at(items: Seq<Emitted>, k: int) -> bool {
    &&& 0 <= k < items.len()
    &&& items[k] is Err
    &&& forall|j: int| 0 <= j < k ==> (#[trigger] items[j]) is Ok
}

/// Whether every error among the items is one that `allowed` accepts.
pub open spec fn errors_within(items: Seq<Emitted>, allowed: spec_fn(SeqError) -> bool) -> bool {
    forall|i: int| 0 <= i < items.len() && (#[trigger] items[i]) is Err ==> allowed(items[i]->Err_0)
}

/// Collecting items that are all tokens gives those tokens.
pub proof fn lemma_collected_oks(tokens: Seq<TokenTreeView>)
    ensures
        collected(oks(tokens)) == Ok::<Seq<TokenTreeView>, SeqError>(tokens),
    decreases tokens.len(),
{
    if tokens.len() == 0 {
        assert(tokens =~= Seq::empty());
    } else {
        lemma_collected_oks(tokens.drop_first());
        assert(oks(tokens).drop_first() =~= oks(tokens.drop_first()));
        assert(seq![tokens[0]] + tokens.drop_first() =~= tokens);
    }
}

/// Collecting fails exactly when one of the items is an error.
pub proof fn lemma_collected_fails_iff(items: Seq<Emitted>)
    ensures
        collected(items) is Err <==> has_error(items),
    decreases items.len(),
{
    if items.len() == 0 {
    } else {
        let rest = items.drop_first();
        lemma_collected_fails_iff(rest);
        if items[0] is Err {
        } else if has_error(rest) {
            let i = choose|i: int| 0 <= i < rest.len() && (#[trigger] rest[i]) is Err;
            assert(items[i + 1] is Err);
        } else if has_error(items) {
            let i = choose|i: int| 0 <= i < items.len() && (#[trigger] items[i]) is Err;
            assert(rest[i - 1] is Err);
        }
    }
}

/// Collecting fails with the first error among the items, and with no
/// other.
pub proof fn lemma_collected_first_error(items: Seq<Emitted>, error: SeqError)
    ensures
        collected(items) == Err::<Seq<TokenTreeView>, SeqError>(error) <==> exists|k: int|
            first_error_at(items, k) && items[k] == Err::<TokenTreeView, SeqError>(error),
    decreases items.len(),
{
    let failed = Err::<Seq<TokenTreeView>, SeqError>(error);
    let item = Err::<TokenTreeView, SeqError>(error);
    if items.len() == 0 {
    } else {
        let rest = items.drop_first();
        lemma_collected_first_error(rest, error);
        if items[0] is Err {
            if items[0] == item {
                assert(first_error_at(items, 0));
            }
            if exists|k: int| first_error_at(items, k) && items[k] == item {
                let k = choose|k: int| first_error_at(items, k) && items[k] == item;
                if k > 0 {
                    assert(items[0] is Ok);
                }
            }
        } else {
            if collected(items) == failed {
                let k = choose|k: int| first_error_at(rest, k) && rest[k] == item;
                assert forall|j: int| 0 <= j < k + 1 implies (#[trigger] items[j]) is Ok by {
                    if j > 0 {
                        assert(rest[j - 1] is Ok);
                    }
                }
                assert(first_error_at(items, k + 1) && items[k + 1] == item);
            }
            if exists|k: int| first_error_at(items, k) && items[k] == item {
                let k = choose|k: int| first_error_at(items, k) && items[k] == item;
                assert forall|j: int| 0 <= j < k - 1 implies (#[trigger] rest[j]) is Ok by {
                    assert(items[j + 1] is Ok);
                }
                assert(first_error_at(rest, k - 1) && rest[k - 1] == item);
            }
        }
    }
}

/// Tokens alone hold no error.
pub proof fn lemma_oks_no_error(tokens: Seq<TokenTreeView>)
    ensures
        !has_error(oks(tokens)),
{
}

/// A concatenation holds an error exactly when one of its parts does.
pub proof fn lemma_error_in_concat(front: Seq<Emitted>, back: Seq<Emitted>)
    ensures
        has_error(front + back) <==> has_error(front) || has_error(back),
{
    let whole = front + back;
    if has_error(front) {
        let i = choose|i: int| 0 <= i < front.len() && (#[trigger] front[i]) is Err;
        assert(whole[i] is Err);
    }
    if has_error(back) {
        let i = choose|i: int| 0 <= i < back.len() && (#[trigger] back[i]) is Err;
        assert(whole[front.len() + i] is Err);
    }
    if has_error(whole) {
        let i = choose|i: int| 0 <= i < whole.len() && (#[trigger] whole[i]) is Err;
        if i < front.len() {
            assert(front[i] is Err);
        } else {
            assert(back[i - front.len()] is Err);
        }
    }
}

/// The errors of a concatenation are those of its parts.
pub proof fn lemma_errors_within_concat(
    front: Seq<Emitted>,
    back: Seq<Emitted>,
    allowed: spec_fn(SeqError) -> bool,
)
    requires
        errors_within(front, allowed),
        errors_within(back, allowed),
    ensures
        errors_within(front + back, allowed),
{
    let whole = front + back;
    assert forall|i: int| 0 <= i < whole.len() && (#[trigger] whole[i]) is Err implies allowed(
        whole[i]->Err_0,
    ) by {
        if i < front.len() {
            assert(front[i] is Err);
        } else {
            assert(back[i - front.len()] is Err);
        }
    }
}

/// The error that collecting fails with is one of the items.
pub proof fn lemma_collected_error_within(
    items: Seq<Emitted>,
    allowed: spec_fn(SeqError) -> bool,
)
    requires
        errors_within(items, allowed),
        collected(items) is Err,
    ensures
        allowed(collected(items)->Err_0),
{
    let error = collected(items)->Err_0;
    lemma_collected_first_error(items, error);
    let k = choose|k: int|
        first_error_at(items, k) && items[k] == Err::<TokenTreeView, SeqError>(error);
    assert(items[k] is Err);
}

/// Collecting keeps every item: where it succeeds, there are as many tokens
/// as items.
pub proof fn lemma_collected_length(items: Seq<Emitted>)
    requires
        collected(items) is Ok,
    ensures
        collected(items)->Ok_0.len() == items.len(),
    decreases items.len(),
{
    if items.len() > 0 {
        lemma_collected_length(items.drop_first());
    }
}

} // verus!
