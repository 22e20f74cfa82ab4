//! Laws of the matcher algebra: what each way of building a matcher means
//! for what the matcher accepts.

use vstd::prelude::*;
use crate::chain::ChainView;
use crate::laws::order::lemma_first_accepting;
use crate::matcher::{base, extended, narrowed, re_terminated, BranchView, Guard};
use crate::narrowing::Filter;
use crate::semantics::{accepts, first_accepting, passes, Answers};
use crate::types::Update;

verus! {

/// `with` is conjunction: the branch under construction, extended by a
/// guard, accepts exactly when it accepted before and the new guard passes.
/// The other branches stay as they were.
pub proof fn lemma_with_is_conjunction<G>(
    branches: Seq<BranchView<G>>,
    guard: Guard<G>,
    update: &Update,
    answers: Answers,
    c: int,
)
    requires
        branches.len() >= 1,
    ensures
        ({
            let b = branches.len() - 1;
            let longer = extended(branches, guard);
            &&& longer.len() == branches.len()
            &&& forall|k: int| 0 <= k < b ==> longer[k] == branches[k]
            &&& accepts(longer[b], update, answers, c, b) <==> accepts(
                branches[b],
                update,
                answers,
                c,
                b,
            ) && passes(longer[b], update, answers, c, b, branches[b].guards.len() as int)
        }),
{
    let b = branches.len() - 1;
    let before = branches[b];
    let after = extended(branches, guard)[b];
    assert forall|i: int| 0 <= i < before.guards.len() implies passes(
        after,
        update,
        answers,
        c,
        b,
        i,
    ) == passes(before, update, answers, c, b, i) by {}
    if accepts(after, update, answers, c, b) {
        assert forall|i: int| 0 <= i < before.guards.len() implies #[trigger] passes(
            before,
            update,
            answers,
            c,
            b,
            i,
        ) by {
            assert(passes(after, update, answers, c, b, i));
        }
        assert(passes(after, update, answers, c, b, before.guards.len() as int));
    }
    if accepts(before, update, answers, c, b) && passes(
        after,
        update,
        answers,
        c,
        b,
        before.guards.len() as int,
    ) {
        assert forall|i: int| 0 <= i < after.guards.len() implies #[trigger] passes(
            after,
            update,
            answers,
            c,
            b,
            i,
        ) by {
            if i < before.guards.len() {
                assert(passes(before, update, answers, c, b, i));
            }
        }
    }
}

/// `common` narrows: the branch under construction, narrowed, accepts
/// exactly when it accepted before and the update carries an ordinary user
/// message.
pub proof fn lemma_common_narrows<G>(
    branches: Seq<BranchView<G>>,
    update: &Update,
    answers: Answers,
    c: int,
)
    requires
        branches.len() >= 1,
    ensures
        ({
            let b = branches.len() - 1;
            accepts(narrowed(branches)[b], update, answers, c, b) <==> accepts(
                branches[b],
                update,
                answers,
                c,
                b,
            ) && Filter::CommonMessage.admits(update)
        }),
{
    let b = branches.len() - 1;
    let before = branches[b];
    let after = narrowed(branches)[b];
    assert forall|i: int| 0 <= i < before.guards.len() implies passes(
        after,
        update,
        answers,
        c,
        b,
        i,
    ) == passes(before, update, answers, c, b, i) by {}
    if accepts(after, update, answers, c, b) {
        assert forall|i: int| 0 <= i < before.guards.len() implies #[trigger] passes(
            before,
            update,
            answers,
            c,
            b,
            i,
        ) by {
            assert(passes(after, update, answers, c, b, i));
        }
    }
    if accepts(before, update, answers, c, b) {
        assert forall|i: int| 0 <= i < after.guards.len() implies #[trigger] passes(
            after,
            update,
            answers,
            c,
            b,
            i,
        ) by {
            assert(passes(before, update, answers, c, b, i));
        }
    }
}

/// `or` is ordered alternation: in a chain whose branches are those of one
/// matcher followed by those of another, a branch of the second matcher is
/// the first to accept only where no branch of the first matcher accepts,
/// and no branch at all accepts only where none of either does. The second
/// matcher is tried on its own terms, from its first branch.
pub proof fn lemma_or_is_ordered_alternation<G, F, A>(
    chain: ChainView<G, F, A>,
    first: Seq<BranchView<G>>,
    second: Seq<BranchView<G>>,
    update: &Update,
    answers: Answers,
    c: int,
)
    requires
        chain.branches == first + second,
    ensures
        match first_accepting(chain, update, answers, c, 0) {
            Some(b) => if b < first.len() {
                &&& 0 <= b
                &&& accepts(first[b], update, answers, c, b)
                &&& forall|k: int| 0 <= k < b ==> !#[trigger] accepts(first[k], update, answers, c, k)
            } else {
                &&& b < first.len() + second.len()
                &&& forall|k: int|
                    0 <= k < first.len() ==> !#[trigger] accepts(first[k], update, answers, c, k)
                &&& accepts(second[b - first.len()], update, answers, c, b)
                &&& forall|k: int|
                    0 <= k < b - first.len() ==> !#[trigger] accepts(
                        second[k],
                        update,
                        answers,
                        c,
                        first.len() + k,
                    )
            },
            None => {
                &&& forall|k: int|
                    0 <= k < first.len() ==> !#[trigger] accepts(first[k], update, answers, c, k)
                &&& forall|k: int|
                    0 <= k < second.len() ==> !#[trigger] accepts(
                        second[k],
                        update,
                        answers,
                        c,
                        first.len() + k,
                    )
            },
        },
{
    lemma_first_accepting(chain, update, answers, c, 0);
    assert forall|k: int| 0 <= k < first.len() implies #[trigger] chain.branches[k] == first[k] by {}
    assert forall|k: int| 0 <= k < second.len() implies #[trigger] chain.branches[first.len() + k]
        == second[k] by {}
    let found = first_accepting(chain, update, answers, c, 0);
    let ahead = match found {
        Some(b) => b,
        None => (first.len() + second.len()) as int,
    };
    assert forall|k: int| 0 <= k < first.len() && k < ahead implies !#[trigger] accepts(
        first[k],
        update,
        answers,
        c,
        k,
    ) by {
        assert(!accepts(chain.branches[k], update, answers, c, k));
    }
    assert forall|k: int| 0 <= k < second.len() && first.len() + k < ahead implies !#[trigger] accepts(
        second[k],
        update,
        answers,
        c,
        first.len() + k,
    ) by {
        assert(!accepts(chain.branches[first.len() + k], update, answers, c, first.len() + k));
    }
    if let Some(b) = found {
        if b >= first.len() {
            assert(chain.branches[first.len() + (b - first.len())] == second[b - first.len()]);
        }
    }
}

/// `or_with` is `or` with a matcher built afresh: replacing the terminal
/// guard of the last branch is offering, as an alternative, the base of that
/// branch extended by the new guard.
pub proof fn lemma_or_with_is_or<G>(branches: Seq<BranchView<G>>, guard: Guard<G>)
    ensures
        re_terminated(branches, guard) == branches + extended(base(branches), guard),
{
    assert(re_terminated(branches, guard) =~= branches + extended(base(branches), guard));
}

} // verus!
