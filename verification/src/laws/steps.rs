//! Laws of the steps: a dispatch that asks for one answer at a time asks
//! about exactly the guards that are due, in evaluation order, and decides
//! what the update is owed.

use vstd::prelude::*;
use crate::laws::order::{lemma_decides_unique, lemma_dispatch_decides};
use crate::matcher::BranchView;
use crate::semantics::{
    accepted_by, accepts, answers_of, decides, dispatch, due, fires, follows, matcher_settle,
    on_course, passes, replay, resume, satisfied, settle, Answers, Outcome, Plan, Position, Turn,
    Verdict,
};
use crate::types::Update;

verus! {

/// A verdict names a branch of the matcher, at or after the branch that
/// settling started from, and a guard asked about is the one settling started
/// from or the first of a later branch. A branch that is accepted, or that
/// holds the guard asked about, admits the update, and the update has the
/// field of a guard that is asked about.
pub proof fn lemma_verdict_in_range<G>(branches: Seq<BranchView<G>>, update: &Update, b: int, i: int)
    ensures
        match matcher_settle(branches, update, b, i) {
            Verdict::Accept { branch } => {
                &&& 0 <= branch < branches.len()
                &&& b <= branch
                &&& branches[branch].filter.admits(update)
            },
            Verdict::Ask { branch, guard } => {
                &&& 0 <= branch < branches.len()
                &&& (branch == b && guard == i) || (branch > b && guard == 0)
                &&& 0 <= guard < branches[branch].guards.len()
                &&& branches[branch].filter.admits(update)
                &&& branches[branch].guards[guard].field.available(update)
            },
            Verdict::Reject => true,
        },
    decreases branches.len() - b,
{
    if 0 <= b < branches.len() {
        if !branches[b].filter.admits(update) {
            lemma_verdict_in_range(branches, update, b + 1, 0);
        } else if 0 <= i < branches[b].guards.len() && !branches[b].guards[i].field.available(update) {
            lemma_verdict_in_range(branches, update, b + 1, 0);
        }
    }
}

/// Settling does not depend on the guard index once the index is past the
/// last guard of the branch, nor on the branch index once that is past the
/// last branch of the chain.
pub proof fn lemma_settle_past_end<G, F, A>(
    plan: Plan<G, F, A>,
    update: &Update,
    c: int,
    b: int,
    i: int,
    b2: int,
    i2: int,
)
    requires
        0 <= c < plan.len(),
        b == b2 || (b >= plan[c].branches.len() && b2 >= plan[c].branches.len()),
        i == i2 || !(0 <= b < plan[c].branches.len()) || (i >= plan[c].branches[b].guards.len()
            && i2 >= plan[c].branches[b].guards.len()),
    ensures
        settle(plan, update, c, b, i) == settle(plan, update, c, b2, i2),
{
}

/// A guard that settling asks about exists, and it is the guard settling
/// started from or one that comes after it.
pub proof fn lemma_ask_in_range<G, F, A>(plan: Plan<G, F, A>, update: &Update, c: int, b: int, i: int)
    ensures
        settle(plan, update, c, b, i) matches Turn::Ask(at) ==> {
            &&& 0 <= at.chain < plan.len()
            &&& 0 <= at.branch < plan[at.chain].branches.len()
            &&& 0 <= at.guard < plan[at.chain].branches[at.branch].guards.len()
            &&& at == (Position { chain: c, branch: b, guard: i }) || (Position {
                chain: c,
                branch: b,
                guard: i,
            }).before(at)
        },
    decreases plan.len() - c,
{
    if 0 <= c < plan.len() {
        lemma_verdict_in_range(plan[c].branches, update, b, i);
        if matcher_settle(plan[c].branches, update, b, i) is Reject && plan[c].fallback is None {
            lemma_ask_in_range(plan, update, c + 1, 0, 0);
        }
    }
}

/// Settling from a place where the dispatch can stand arrives at a guard
/// that is due, or at what the update is owed.
pub proof fn lemma_settle_on_course<G, F, A>(
    plan: Plan<G, F, A>,
    update: &Update,
    answers: Answers,
    c: int,
    b: int,
    i: int,
)
    requires
        on_course(plan, update, answers, c, b, i),
    ensures
        match settle(plan, update, c, b, i) {
            Turn::Ask(at) => due(plan, update, answers, at),
            Turn::Done(outcome) => decides(plan, update, answers, outcome),
        },
    decreases
            plan.len() - c,
            (if c < plan.len() {
                plan[c].branches.len() - b
            } else {
                0
            }),
{
    if c < plan.len() {
        let chain = plan[c];
        if b >= chain.branches.len() {
            assert(!satisfied(chain, update, answers, c)) by {
                if satisfied(chain, update, answers, c) {
                    let k = choose|k: int| accepted_by(chain, update, answers, c, k);
                    assert(!accepts(chain.branches[k], update, answers, c, k));
                }
            }
            if chain.fallback is None {
                assert(!fires(chain, update, answers, c));
                lemma_settle_on_course(plan, update, answers, c + 1, 0, 0);
            }
        } else {
            let branch = chain.branches[b];
            if !branch.filter.admits(update) {
                assert(!accepts(branch, update, answers, c, b));
                lemma_settle_on_course(plan, update, answers, c, b + 1, 0);
            } else if i >= branch.guards.len() {
                assert(accepts(branch, update, answers, c, b));
                assert(accepted_by(chain, update, answers, c, b));
            } else if !branch.guards[i].field.available(update) {
                assert(!passes(branch, update, answers, c, b, i));
                assert(!accepts(branch, update, answers, c, b));
                lemma_settle_on_course(plan, update, answers, c, b + 1, 0);
            }
        }
    }
}

/// After a guard that was due has answered, the dispatch stands where
/// `resume` goes on from.
pub proof fn lemma_resume_on_course<G, F, A>(
    plan: Plan<G, F, A>,
    update: &Update,
    answers: Answers,
    at: Position,
)
    requires
        due(plan, update, answers, at),
    ensures
        answers(at) ==> on_course(plan, update, answers, at.chain, at.branch, at.guard + 1),
        !answers(at) ==> on_course(plan, update, answers, at.chain, at.branch + 1, 0),
{
    let branch = plan[at.chain].branches[at.branch];
    if answers(at) {
        assert(passes(branch, update, answers, at.chain, at.branch, at.guard));
    } else {
        assert(!passes(branch, update, answers, at.chain, at.branch, at.guard));
        assert(!accepts(branch, update, answers, at.chain, at.branch));
    }
}

/// The steps of a dispatch arrive at what the update is owed. Where every
/// answer of the transcript is the answer that `answers` gives for the guard
/// asked about, the dispatch stands at a guard that is due, or it is done and
/// has decided what `dispatch` says.
pub proof fn lemma_replay_reaches_dispatch<G, F, A>(
    plan: Plan<G, F, A>,
    update: &Update,
    answers: Answers,
    transcript: Seq<bool>,
)
    requires
        follows(plan, update, answers, transcript),
    ensures
        match replay(plan, update, transcript) {
            Turn::Ask(at) => due(plan, update, answers, at),
            Turn::Done(outcome) => outcome == dispatch(plan, update, answers),
        },
    decreases transcript.len(),
{
    lemma_dispatch_decides(plan, update, answers);
    if transcript.len() == 0 {
        lemma_settle_on_course(plan, update, answers, 0, 0, 0);
    } else {
        let earlier = transcript.drop_last();
        assert forall|k: int| 0 <= k < earlier.len() implies (#[trigger] replay(
            plan,
            update,
            earlier.take(k),
        ) matches Turn::Ask(at) ==> answers(at) == earlier[k]) by {
            assert(earlier.take(k) == transcript.take(k));
        }
        lemma_replay_reaches_dispatch(plan, update, answers, earlier);
        assert(transcript.take(earlier.len() as int) == earlier);
        match replay(plan, update, earlier) {
            Turn::Ask(at) => {
                assert(answers(at) == transcript.last());
                lemma_resume_on_course(plan, update, answers, at);
                if answers(at) {
                    lemma_settle_on_course(plan, update, answers, at.chain, at.branch, at.guard + 1);
                } else {
                    lemma_settle_on_course(plan, update, answers, at.chain, at.branch + 1, 0);
                }
            },
            Turn::Done(_) => {},
        }
    }
    if let Turn::Done(outcome) = replay(plan, update, transcript) {
        lemma_decides_unique(plan, update, answers, outcome, dispatch(plan, update, answers));
    }
}

/// Settling passes over no guard that is due: from a place where the dispatch
/// can stand, with a guard due at or after that place, settling stops at a
/// guard, and not after the one that is due.
pub proof fn lemma_settle_skips_nothing_due<G, F, A>(
    plan: Plan<G, F, A>,
    update: &Update,
    answers: Answers,
    c: int,
    b: int,
    i: int,
    q: Position,
)
    requires
        on_course(plan, update, answers, c, b, i),
        due(plan, update, answers, q),
        !q.before(Position { chain: c, branch: b, guard: i }),
    ensures
        settle(plan, update, c, b, i) matches Turn::Ask(at) && !q.before(at),
    decreases
            plan.len() - c,
            (if c < plan.len() {
                plan[c].branches.len() - b
            } else {
                0
            }),
{
    if c < plan.len() {
        let chain = plan[c];
        if b >= chain.branches.len() {
            assert(q.chain > c);
            assert(!fires(plan[c], update, answers, c));
            lemma_settle_skips_nothing_due(plan, update, answers, c + 1, 0, 0, q);
        } else {
            let branch = chain.branches[b];
            if !branch.filter.admits(update) {
                assert(!accepts(branch, update, answers, c, b));
                lemma_settle_skips_nothing_due(plan, update, answers, c, b + 1, 0, q);
            } else if i >= branch.guards.len() {
                assert(accepts(branch, update, answers, c, b));
                assert(accepted_by(chain, update, answers, c, b));
                assert(fires(chain, update, answers, c));
                if q.chain == c && q.branch > b {
                    assert(!accepts(plan[q.chain].branches[b], update, answers, q.chain, b));
                }
                assert(false);
            } else if !branch.guards[i].field.available(update) {
                assert(!passes(branch, update, answers, c, b, i));
                assert(!accepts(branch, update, answers, c, b));
                if q.chain == c && q.branch == b && q.guard > i {
                    assert(passes(plan[q.chain].branches[q.branch], update, answers, c, b, i));
                }
                lemma_settle_skips_nothing_due(plan, update, answers, c, b + 1, 0, q);
            }
        }
    }
}

/// A transcript that follows the answers does so up to any point.
pub proof fn lemma_follows_prefix<G, F, A>(
    plan: Plan<G, F, A>,
    update: &Update,
    answers: Answers,
    transcript: Seq<bool>,
    n: int,
)
    requires
        follows(plan, update, answers, transcript),
        0 <= n <= transcript.len(),
    ensures
        follows(plan, update, answers, transcript.take(n)),
{
    let prefix = transcript.take(n);
    assert forall|k: int| 0 <= k < prefix.len() implies (#[trigger] replay(
        plan,
        update,
        prefix.take(k),
    ) matches Turn::Ask(at) ==> answers(at) == prefix[k]) by {
        assert(prefix.take(k) == transcript.take(k));
    }
}

/// One more answer moves the dispatch on from the guard it was waiting on,
/// and leaves a dispatch that is done where it is.
pub proof fn lemma_replay_step<G, F, A>(
    plan: Plan<G, F, A>,
    update: &Update,
    transcript: Seq<bool>,
    n: int,
)
    requires
        0 <= n < transcript.len(),
    ensures
        replay(plan, update, transcript.take(n + 1)) == match replay(
            plan,
            update,
            transcript.take(n),
        ) {
            Turn::Ask(at) => resume(plan, update, at, transcript[n]),
            Turn::Done(outcome) => Turn::Done(outcome),
        },
{
    let longer = transcript.take(n + 1);
    assert(longer.drop_last() == transcript.take(n));
    assert(longer.last() == transcript[n]);
}

/// Up to any point of a transcript that follows the answers, a guard that is
/// due has been asked about, or the dispatch waits on a guard that does not
/// come after it.
proof fn lemma_due_guard_is_reached<G, F, A>(
    plan: Plan<G, F, A>,
    update: &Update,
    answers: Answers,
    transcript: Seq<bool>,
    q: Position,
    n: int,
)
    requires
        follows(plan, update, answers, transcript),
        due(plan, update, answers, q),
        0 <= n <= transcript.len(),
    ensures
        (exists|k: int| 0 <= k < n && #[trigger] replay(plan, update, transcript.take(k)) == Turn::Ask(q))
            || (replay(plan, update, transcript.take(n)) matches Turn::Ask(at) && !q.before(at)),
    decreases n,
{
    if n == 0 {
        assert(transcript.take(0) == Seq::<bool>::empty());
        lemma_settle_skips_nothing_due(plan, update, answers, 0, 0, 0, q);
    } else {
        lemma_due_guard_is_reached(plan, update, answers, transcript, q, n - 1);
        if !(exists|k: int|
            0 <= k < n - 1 && #[trigger] replay(plan, update, transcript.take(k)) == Turn::Ask(q)) {
            let at = replay(plan, update, transcript.take(n - 1))->Ask_0;
            if at == q {
                assert(replay(plan, update, transcript.take(n - 1)) == Turn::Ask(q));
            } else {
                lemma_replay_step(plan, update, transcript, n - 1);
                lemma_follows_prefix(plan, update, answers, transcript, n - 1);
                lemma_replay_reaches_dispatch(plan, update, answers, transcript.take(n - 1));
                lemma_resume_on_course(plan, update, answers, at);
                assert(answers(at) == transcript[n - 1]);
                if answers(at) {
                    lemma_settle_skips_nothing_due(
                        plan,
                        update,
                        answers,
                        at.chain,
                        at.branch,
                        at.guard + 1,
                        q,
                    );
                } else {
                    if q.chain == at.chain && q.branch == at.branch {
                        assert(passes(
                            plan[q.chain].branches[q.branch],
                            update,
                            answers,
                            at.chain,
                            at.branch,
                            at.guard,
                        ));
                    }
                    lemma_settle_skips_nothing_due(
                        plan,
                        update,
                        answers,
                        at.chain,
                        at.branch + 1,
                        0,
                        q,
                    );
                }
            }
        }
    }
}

/// A dispatch that is done has asked about every guard that was due.
pub proof fn lemma_every_due_guard_is_asked<G, F, A>(
    plan: Plan<G, F, A>,
    update: &Update,
    answers: Answers,
    transcript: Seq<bool>,
    q: Position,
)
    requires
        follows(plan, update, answers, transcript),
        replay(plan, update, transcript) is Done,
        due(plan, update, answers, q),
    ensures
        exists|k: int|
            0 <= k < transcript.len() && #[trigger] replay(plan, update, transcript.take(k))
                == Turn::Ask(q),
{
    lemma_due_guard_is_reached(plan, update, answers, transcript, q, transcript.len() as int);
    assert(transcript.take(transcript.len() as int) == transcript);
}

/// The guards that a dispatch asks about come in evaluation order: a guard
/// asked about later comes after a guard asked about earlier.
pub proof fn lemma_asked_in_order<G, F, A>(
    plan: Plan<G, F, A>,
    update: &Update,
    transcript: Seq<bool>,
    j: int,
    k: int,
)
    requires
        0 <= j < k <= transcript.len(),
        replay(plan, update, transcript.take(k)) is Ask,
    ensures
        replay(plan, update, transcript.take(j)) matches Turn::Ask(earlier) && earlier.before(
            replay(plan, update, transcript.take(k))->Ask_0,
        ),
    decreases k - j,
{
    lemma_replay_step(plan, update, transcript, k - 1);
    let at = replay(plan, update, transcript.take(k - 1))->Ask_0;
    if transcript[k - 1] {
        lemma_ask_in_range(plan, update, at.chain, at.branch, at.guard + 1);
    } else {
        lemma_ask_in_range(plan, update, at.chain, at.branch + 1, 0);
    }
    if j < k - 1 {
        lemma_asked_in_order(plan, update, transcript, j, k - 1);
    }
}

/// A transcript follows the answers that it records, where each of its
/// answers was asked for.
pub proof fn lemma_follows_own_answers<G, F, A>(
    plan: Plan<G, F, A>,
    update: &Update,
    transcript: Seq<bool>,
)
    requires
        forall|k: int|
            0 <= k < transcript.len() ==> #[trigger] replay(plan, update, transcript.take(k)) is Ask,
    ensures
        follows(plan, update, answers_of(plan, update, transcript), transcript),
{
    let answers = answers_of(plan, update, transcript);
    assert forall|k: int| 0 <= k < transcript.len() implies (#[trigger] replay(
        plan,
        update,
        transcript.take(k),
    ) matches Turn::Ask(at) ==> answers(at) == transcript[k]) by {
        let at = replay(plan, update, transcript.take(k))->Ask_0;
        if answers(at) {
            let j = choose|j: int|
                0 <= j < transcript.len() && #[trigger] replay(plan, update, transcript.take(j))
                    == Turn::Ask(at) && transcript[j];
            if j < k {
                lemma_asked_in_order(plan, update, transcript, j, k);
            } else if k < j {
                lemma_asked_in_order(plan, update, transcript, k, j);
            }
        }
    }
}

/// The answer of a guard gates the action, whenever it arrives: after a yes
/// from the last guard of a branch that admits the update, the dispatch is
/// done and owes the main action of the chain through that branch; after a
/// no from any guard, it never owes the main action through that branch.
pub proof fn lemma_answer_gates_the_action<G, F, A>(
    plan: Plan<G, F, A>,
    update: &Update,
    at: Position,
)
    requires
        0 <= at.chain < plan.len(),
        0 <= at.branch < plan[at.chain].branches.len(),
        0 <= at.guard < plan[at.chain].branches[at.branch].guards.len(),
    ensures
        at.guard == plan[at.chain].branches[at.branch].guards.len() - 1
            && plan[at.chain].branches[at.branch].filter.admits(update) ==> resume(
            plan,
            update,
            at,
            true,
        ) == Turn::Done(Outcome::Matched { chain: at.chain, branch: at.branch }),
        resume(plan, update, at, false) != Turn::Done(
            Outcome::Matched { chain: at.chain, branch: at.branch },
        ),
{
    lemma_verdict_in_range(plan[at.chain].branches, update, at.branch + 1, 0);
    if matcher_settle(plan[at.chain].branches, update, at.branch + 1, 0) is Reject
        && plan[at.chain].fallback is None {
        lemma_later_chains_decide_later(plan, update, at.chain + 1, 0, 0);
    }
}

/// A dispatch that settles from chain `c` on owes no action of an earlier
/// chain.
pub proof fn lemma_later_chains_decide_later<G, F, A>(
    plan: Plan<G, F, A>,
    update: &Update,
    c: int,
    b: int,
    i: int,
)
    requires
        0 <= c,
    ensures
        match settle(plan, update, c, b, i) {
            Turn::Done(outcome) => outcome.chain() matches Some(named) ==> c <= named < plan.len(),
            Turn::Ask(at) => c <= at.chain < plan.len(),
        },
    decreases plan.len() - c,
{
    if c < plan.len() {
        if matcher_settle(plan[c].branches, update, b, i) is Reject && plan[c].fallback is None {
            lemma_later_chains_decide_later(plan, update, c + 1, 0, 0);
        }
    }
}

} // verus!
