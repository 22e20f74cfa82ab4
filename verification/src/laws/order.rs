//! Laws of order: which chain runs, which branch wins, when a fallback runs,
//! and that nothing is evaluated that does not have to be.

use vstd::prelude::*;
use crate::chain::ChainView;
use crate::matcher::BranchView;
use crate::semantics::{
    accepted_by, accepts, chain_outcome, decides, dispatch, dispatch_from, due, fires,
    first_accepting, passes, satisfied, Answers, Outcome, Plan, Position,
};
use crate::types::Update;

verus! {

/// The first accepting branch from `from` on accepts, and no branch between
/// `from` and it does; where there is none, no branch from `from` on accepts.
pub proof fn lemma_first_accepting<G, F, A>(
    chain: ChainView<G, F, A>,
    update: &Update,
    answers: Answers,
    c: int,
    from: int,
)
    requires
        0 <= from,
    ensures
        match first_accepting(chain, update, answers, c, from) {
            Some(b) => {
                &&& from <= b < chain.branches.len()
                &&& accepts(chain.branches[b], update, answers, c, b)
                &&& forall|k: int|
                    from <= k < b ==> !#[trigger] accepts(chain.branches[k], update, answers, c, k)
            },
            None => forall|k: int|
                from <= k < chain.branches.len() ==> !#[trigger] accepts(
                    chain.branches[k],
                    update,
                    answers,
                    c,
                    k,
                ),
        },
    decreases chain.branches.len() - from,
{
    if from < chain.branches.len() && !accepts(chain.branches[from], update, answers, c, from) {
        lemma_first_accepting(chain, update, answers, c, from + 1);
    }
}

/// A chain owes the update something exactly when it fires: its main action
/// through the first accepting branch where a branch accepts, else its
/// fallback.
pub proof fn lemma_chain_outcome<G, F, A>(
    chain: ChainView<G, F, A>,
    update: &Update,
    answers: Answers,
    c: int,
)
    ensures
        chain_outcome(chain, update, answers, c) is Some <==> fires(chain, update, answers, c),
        match chain_outcome(chain, update, answers, c) {
            Some(Outcome::Matched { chain: named, branch }) => {
                &&& named == c
                &&& accepted_by(chain, update, answers, c, branch)
                &&& forall|k: int|
                    0 <= k < branch ==> !#[trigger] accepts(chain.branches[k], update, answers, c, k)
            },
            Some(Outcome::FellBack { chain: named }) => {
                &&& named == c
                &&& chain.fallback is Some
                &&& !satisfied(chain, update, answers, c)
            },
            Some(Outcome::Unmatched) => false,
            None => true,
        },
{
    lemma_first_accepting(chain, update, answers, c, 0);
    match first_accepting(chain, update, answers, c, 0) {
        Some(b) => {
            assert(accepted_by(chain, update, answers, c, b));
        },
        None => {
            assert(!satisfied(chain, update, answers, c)) by {
                if satisfied(chain, update, answers, c) {
                    let b = choose|b: int| accepted_by(chain, update, answers, c, b);
                    assert(!accepts(chain.branches[b], update, answers, c, b));
                }
            }
        },
    }
}

/// What the chains from `c` on owe the update is what the update is owed,
/// where no chain before `c` fires.
pub proof fn lemma_dispatch_from_decides<G, F, A>(
    plan: Plan<G, F, A>,
    update: &Update,
    answers: Answers,
    c: int,
)
    requires
        0 <= c <= plan.len(),
        forall|k: int| 0 <= k < c ==> !#[trigger] fires(plan[k], update, answers, k),
    ensures
        decides(plan, update, answers, dispatch_from(plan, update, answers, c)),
    decreases plan.len() - c,
{
    if c < plan.len() {
        lemma_chain_outcome(plan[c], update, answers, c);
        if chain_outcome(plan[c], update, answers, c) is None {
            lemma_dispatch_from_decides(plan, update, answers, c + 1);
        }
    }
}

/// The update is owed the action of the first chain that fires: the main
/// action through the first branch that accepts, or else the fallback; and
/// nothing where no chain fires.
pub proof fn lemma_dispatch_decides<G, F, A>(plan: Plan<G, F, A>, update: &Update, answers: Answers)
    ensures
        decides(plan, update, answers, dispatch(plan, update, answers)),
{
    lemma_dispatch_from_decides(plan, update, answers, 0);
}

/// An update is owed one thing only.
pub proof fn lemma_decides_unique<G, F, A>(
    plan: Plan<G, F, A>,
    update: &Update,
    answers: Answers,
    first: Outcome,
    second: Outcome,
)
    requires
        decides(plan, update, answers, first),
        decides(plan, update, answers, second),
    ensures
        first == second,
{
    assert(forall|c: int, b: int|
        accepted_by(plan[c], update, answers, c, b) ==> #[trigger] accepts(
            plan[c].branches[b],
            update,
            answers,
            c,
            b,
        ) && satisfied(plan[c], update, answers, c));
    match (first, second) {
        (Outcome::Matched { chain: c1, branch: b1 }, Outcome::Matched { chain: c2, branch: b2 }) => {
            assert(accepted_by(plan[c1], update, answers, c1, b1));
            assert(accepted_by(plan[c2], update, answers, c2, b2));
            assert(fires(plan[c1], update, answers, c1));
            assert(fires(plan[c2], update, answers, c2));
        },
        (Outcome::Matched { chain: c1, branch: b1 }, Outcome::FellBack { chain: c2 }) => {
            assert(accepted_by(plan[c1], update, answers, c1, b1));
            assert(fires(plan[c1], update, answers, c1));
            assert(fires(plan[c2], update, answers, c2));
        },
        (Outcome::FellBack { chain: c1 }, Outcome::Matched { chain: c2, branch: b2 }) => {
            assert(accepted_by(plan[c2], update, answers, c2, b2));
            assert(fires(plan[c1], update, answers, c1));
            assert(fires(plan[c2], update, answers, c2));
        },
        (Outcome::FellBack { chain: c1 }, Outcome::FellBack { chain: c2 }) => {
            assert(fires(plan[c1], update, answers, c1));
            assert(fires(plan[c2], update, answers, c2));
        },
        (Outcome::Matched { chain: c1, branch: b1 }, Outcome::Unmatched) => {
            assert(accepted_by(plan[c1], update, answers, c1, b1));
            assert(fires(plan[c1], update, answers, c1));
        },
        (Outcome::Unmatched, Outcome::Matched { chain: c2, branch: b2 }) => {
            assert(accepted_by(plan[c2], update, answers, c2, b2));
            assert(fires(plan[c2], update, answers, c2));
        },
        (Outcome::FellBack { chain: c1 }, Outcome::Unmatched) => {
            assert(fires(plan[c1], update, answers, c1));
        },
        (Outcome::Unmatched, Outcome::FellBack { chain: c2 }) => {
            assert(fires(plan[c2], update, answers, c2));
        },
        (Outcome::Unmatched, Outcome::Unmatched) => {},
    }
}

/// The first chain that fires is the one whose action runs: where chain `k`
/// fires and no earlier chain does, the update is owed what chain `k` owes
/// it, and that names chain `k`.
pub proof fn lemma_first_firing_chain_wins<G, F, A>(
    plan: Plan<G, F, A>,
    update: &Update,
    answers: Answers,
    k: int,
)
    requires
        0 <= k < plan.len(),
        fires(plan[k], update, answers, k),
        forall|j: int| 0 <= j < k ==> !#[trigger] fires(plan[j], update, answers, j),
    ensures
        Some(dispatch(plan, update, answers)) == chain_outcome(plan[k], update, answers, k),
        dispatch(plan, update, answers).chain() == Some(k),
{
    lemma_dispatch_decides(plan, update, answers);
    lemma_chain_outcome(plan[k], update, answers, k);
    let owed = chain_outcome(plan[k], update, answers, k).unwrap();
    assert(decides(plan, update, answers, owed));
    lemma_decides_unique(plan, update, answers, owed, dispatch(plan, update, answers));
}

/// Registration order decides: of two chains that fire, the later one never
/// runs. The chain that runs is the earlier one or one before it.
pub proof fn lemma_earlier_chain_wins<G, F, A>(
    plan: Plan<G, F, A>,
    update: &Update,
    answers: Answers,
    j: int,
    k: int,
)
    requires
        0 <= j < k < plan.len(),
        fires(plan[j], update, answers, j),
        fires(plan[k], update, answers, k),
    ensures
        dispatch(plan, update, answers).chain() matches Some(c) && 0 <= c <= j,
        dispatch(plan, update, answers).chain() != Some(k),
{
    lemma_dispatch_decides(plan, update, answers);
}

/// A fallback runs exactly when every branch of its matcher fails and no
/// earlier chain fires; the main action of its chain then does not run.
pub proof fn lemma_fallback_iff_no_branch_accepts<G, F, A>(
    plan: Plan<G, F, A>,
    update: &Update,
    answers: Answers,
    c: int,
)
    requires
        0 <= c < plan.len(),
    ensures
        dispatch(plan, update, answers) == (Outcome::FellBack { chain: c }) <==> {
            &&& plan[c].fallback is Some
            &&& forall|b: int|
                0 <= b < plan[c].branches.len() ==> !#[trigger] accepts(
                    plan[c].branches[b],
                    update,
                    answers,
                    c,
                    b,
                )
            &&& forall|j: int| 0 <= j < c ==> !#[trigger] fires(plan[j], update, answers, j)
        },
        dispatch(plan, update, answers) == (Outcome::FellBack { chain: c }) ==> forall|b: int|
            dispatch(plan, update, answers) != (Outcome::Matched { chain: c, branch: b }),
{
    lemma_dispatch_decides(plan, update, answers);
    let none_accepts = forall|b: int|
        0 <= b < plan[c].branches.len() ==> !#[trigger] accepts(
            plan[c].branches[b],
            update,
            answers,
            c,
            b,
        );
    assert(none_accepts <==> !satisfied(plan[c], update, answers, c)) by {
        if satisfied(plan[c], update, answers, c) {
            let b = choose|b: int| accepted_by(plan[c], update, answers, c, b);
            assert(accepts(plan[c].branches[b], update, answers, c, b));
        }
        if !none_accepts {
            let b = choose|b: int|
                0 <= b < plan[c].branches.len() && accepts(plan[c].branches[b], update, answers, c, b);
            assert(accepted_by(plan[c], update, answers, c, b));
        }
    }
    if plan[c].fallback is Some && none_accepts && (forall|j: int|
        0 <= j < c ==> !#[trigger] fires(plan[j], update, answers, j)) {
        lemma_decides_unique(
            plan,
            update,
            answers,
            Outcome::FellBack { chain: c },
            dispatch(plan, update, answers),
        );
    }
}

/// In an alternation the first branch that accepts wins, and nothing after it
/// is evaluated: where the update is owed the main action of chain `c`
/// through branch `b`, that branch accepts, no earlier branch of the chain
/// does, and no guard of a later branch or of a later chain is due.
pub proof fn lemma_first_branch_wins<G, F, A>(
    plan: Plan<G, F, A>,
    update: &Update,
    answers: Answers,
    c: int,
    b: int,
)
    requires
        dispatch(plan, update, answers) == (Outcome::Matched { chain: c, branch: b }),
    ensures
        accepted_by(plan[c], update, answers, c, b),
        forall|k: int| 0 <= k < b ==> !#[trigger] accepts(plan[c].branches[k], update, answers, c, k),
        forall|p: Position| #[trigger]
            due(plan, update, answers, p) ==> p.chain < c || (p.chain == c && p.branch <= b),
{
    lemma_dispatch_decides(plan, update, answers);
    assert(satisfied(plan[c], update, answers, c));
    assert(fires(plan[c], update, answers, c));
}

/// Once a fallback runs, no guard of a later chain is evaluated; and where no
/// action runs at all, every guard that is due belongs to a chain that does
/// not fire.
pub proof fn lemma_nothing_due_after_the_decision<G, F, A>(
    plan: Plan<G, F, A>,
    update: &Update,
    answers: Answers,
    p: Position,
)
    requires
        due(plan, update, answers, p),
    ensures
        dispatch(plan, update, answers).chain() matches Some(c) ==> p.chain <= c,
        !fires(plan[p.chain], update, answers, p.chain) ==> dispatch(plan, update, answers).chain()
            != Some(p.chain),
{
    lemma_dispatch_decides(plan, update, answers);
    match dispatch(plan, update, answers) {
        Outcome::Matched { chain, branch } => {
            assert(satisfied(plan[chain], update, answers, chain));
            assert(fires(plan[chain], update, answers, chain));
        },
        Outcome::FellBack { chain } => {
            assert(fires(plan[chain], update, answers, chain));
        },
        Outcome::Unmatched => {},
    }
}

/// Among the first `n` guards of a branch, either all pass or there is a
/// first one that does not.
proof fn lemma_first_failing_guard<G>(
    branch: BranchView<G>,
    update: &Update,
    answers: Answers,
    c: int,
    b: int,
    n: int,
)
    requires
        0 <= n,
    ensures
        (forall|i: int| 0 <= i < n ==> #[trigger] passes(branch, update, answers, c, b, i)) || (exists|
            failing: int,
        |
            0 <= failing < n && !#[trigger] passes(branch, update, answers, c, b, failing) && forall|
                i: int,
            |
                0 <= i < failing ==> #[trigger] passes(branch, update, answers, c, b, i)),
    decreases n,
{
    if n > 0 {
        lemma_first_failing_guard(branch, update, answers, c, b, n - 1);
        if forall|i: int| 0 <= i < n - 1 ==> #[trigger] passes(branch, update, answers, c, b, i) {
            if !passes(branch, update, answers, c, b, n - 1) {
                assert(0 <= n - 1 < n && !passes(branch, update, answers, c, b, n - 1) && forall|
                    i: int,
                |
                    0 <= i < n - 1 ==> #[trigger] passes(branch, update, answers, c, b, i));
            }
        }
    }
}

/// A branch that the dispatch reaches accepts under `others` exactly when it
/// accepts under `answers`, where the two agree on every guard that is due
/// under `answers`.
proof fn lemma_reached_branch_agrees<G, F, A>(
    plan: Plan<G, F, A>,
    update: &Update,
    answers: Answers,
    others: Answers,
    c: int,
    b: int,
)
    requires
        forall|p: Position| #[trigger] due(plan, update, answers, p) ==> others(p) == answers(p),
        0 <= c < plan.len(),
        0 <= b < plan[c].branches.len(),
        forall|k: int| 0 <= k < c ==> !#[trigger] fires(plan[k], update, answers, k),
        forall|k: int|
            0 <= k < b ==> !#[trigger] accepts(plan[c].branches[k], update, answers, c, k),
    ensures
        accepts(plan[c].branches[b], update, others, c, b) == accepts(
            plan[c].branches[b],
            update,
            answers,
            c,
            b,
        ),
{
    let branch = plan[c].branches[b];
    if branch.filter.admits(update) {
        lemma_first_failing_guard(branch, update, answers, c, b, branch.guards.len() as int);
        if forall|i: int|
            0 <= i < branch.guards.len() ==> #[trigger] passes(branch, update, answers, c, b, i) {
            assert forall|i: int| 0 <= i < branch.guards.len() implies #[trigger] passes(
                branch,
                update,
                others,
                c,
                b,
                i,
            ) by {
                assert(passes(branch, update, answers, c, b, i));
                assert(due(plan, update, answers, Position { chain: c, branch: b, guard: i }));
            }
        } else {
            let failing = choose|failing: int|
                0 <= failing < branch.guards.len() && !#[trigger] passes(
                    branch,
                    update,
                    answers,
                    c,
                    b,
                    failing,
                ) && forall|i: int|
                    0 <= i < failing ==> #[trigger] passes(branch, update, answers, c, b, i);
            if branch.guards[failing].field.available(update) {
                assert(due(plan, update, answers, Position { chain: c, branch: b, guard: failing }));
            }
            assert(!passes(branch, update, others, c, b, failing));
        }
    }
}

/// Only the answers of the guards that are due count: answers that agree
/// with `answers` on every guard that is due under `answers` owe the update
/// the same. What a guard that is never evaluated would have said changes
/// nothing.
pub proof fn lemma_only_due_answers_count<G, F, A>(
    plan: Plan<G, F, A>,
    update: &Update,
    answers: Answers,
    others: Answers,
)
    requires
        forall|p: Position| #[trigger] due(plan, update, answers, p) ==> others(p) == answers(p),
    ensures
        dispatch(plan, update, others) == dispatch(plan, update, answers),
{
    lemma_dispatch_decides(plan, update, answers);
    lemma_dispatch_decides(plan, update, others);
    let owed = dispatch(plan, update, answers);
    let ahead = match owed {
        Outcome::Matched { chain, .. } => chain,
        Outcome::FellBack { chain } => chain,
        Outcome::Unmatched => plan.len() as int,
    };
    assert forall|c: int| 0 <= c < ahead implies !#[trigger] fires(plan[c], update, others, c) by {
        assert(!fires(plan[c], update, answers, c));
        if satisfied(plan[c], update, others, c) {
            let b = choose|b: int| accepted_by(plan[c], update, others, c, b);
            assert forall|k: int| 0 <= k < b implies !#[trigger] accepts(
                plan[c].branches[k],
                update,
                answers,
                c,
                k,
            ) by {
                assert(!accepted_by(plan[c], update, answers, c, k));
            }
            lemma_reached_branch_agrees(plan, update, answers, others, c, b);
            assert(accepted_by(plan[c], update, answers, c, b));
        }
    }
    match owed {
        Outcome::Matched { chain, branch } => {
            lemma_reached_branch_agrees(plan, update, answers, others, chain, branch);
            assert forall|k: int| 0 <= k < branch implies !#[trigger] accepts(
                plan[chain].branches[k],
                update,
                others,
                chain,
                k,
            ) by {
                lemma_reached_branch_agrees(plan, update, answers, others, chain, k);
            }
        },
        Outcome::FellBack { chain } => {
            if satisfied(plan[chain], update, others, chain) {
                let b = choose|b: int| accepted_by(plan[chain], update, others, chain, b);
                assert forall|k: int| 0 <= k < b implies !#[trigger] accepts(
                    plan[chain].branches[k],
                    update,
                    answers,
                    chain,
                    k,
                ) by {
                    assert(!accepted_by(plan[chain], update, answers, chain, k));
                }
                lemma_reached_branch_agrees(plan, update, answers, others, chain, b);
                assert(accepted_by(plan[chain], update, answers, chain, b));
            }
        },
        Outcome::Unmatched => {},
    }
    assert(decides(plan, update, others, owed));
    lemma_decides_unique(plan, update, others, owed, dispatch(plan, update, others));
}

} // verus!
