//! What dispatching means.
//!
//! The meaning is stated twice. `dispatch` says which action an update is owed
//! once every guard has an answer: the first chain that fires, and in it the
//! first branch that accepts. `settle` and `resume` say what the dispatcher
//! does step by step, asking for one answer at a time. The laws of this crate
//! show that the steps arrive at what `dispatch` says.

use vstd::prelude::*;
use crate::chain::ChainView;
use crate::matcher::BranchView;
use crate::types::Update;

verus! {

/// The place of a guard: the chain, the branch of its matcher, and the index
/// of the guard in the branch.
pub struct Position {
    pub chain: int,
    pub branch: int,
    pub guard: int,
}

/// The boolean that each guard gives for the update at hand.
pub type Answers = spec_fn(Position) -> bool;

/// The chains of a dispatcher, in registration order.
pub type Plan<G, F, A> = Seq<ChainView<G, F, A>>;

/// What an update is owed.
pub enum Outcome {
    /// The main action of `chain`, whose matcher accepted through `branch`.
    Matched { chain: int, branch: int },
    /// The fallback of `chain`, none of whose branches accepted.
    FellBack { chain: int },
    /// No action: no chain fired.
    Unmatched,
}

/// Where a matcher stands after settling.
pub enum Verdict {
    Accept { branch: int },
    Reject,
    Ask { branch: int, guard: int },
}

/// Where a dispatch stands: waiting for the answer of one guard, or done.
pub enum Turn {
    Ask(Position),
    Done(Outcome),
}

impl Outcome {
    /// The chain whose action the outcome names.
    pub open spec fn chain(self) -> Option<int> {
        match self {
            Outcome::Matched { chain, .. } => Some(chain),
            Outcome::FellBack { chain } => Some(chain),
            Outcome::Unmatched => None,
        }
    }
}

impl Position {
    /// Whether `self` comes before `other` in evaluation order.
    pub open spec fn before(self, other: Position) -> bool {
        ||| self.chain < other.chain
        ||| self.chain == other.chain && self.branch < other.branch
        ||| self.chain == other.chain && self.branch == other.branch && self.guard < other.guard
    }
}

/// Whether guard `i` of the branch passes: the update has the field the guard
/// is over, and the guard says yes.
pub open spec fn passes<G>(
    branch: BranchView<G>,
    update: &Update,
    answers: Answers,
    c: int,
    b: int,
    i: int,
) -> bool {
    branch.guards[i].field.available(update) && answers(Position { chain: c, branch: b, guard: i })
}

/// Whether the branch accepts: its narrowing admits the update and every
/// guard passes.
pub open spec fn accepts<G>(
    branch: BranchView<G>,
    update: &Update,
    answers: Answers,
    c: int,
    b: int,
) -> bool {
    &&& branch.filter.admits(update)
    &&& forall|i: int|
        0 <= i < branch.guards.len() ==> #[trigger] passes(branch, update, answers, c, b, i)
}

/// Whether branch `b` of the chain exists and accepts.
pub open spec fn accepted_by<G, F, A>(
    chain: ChainView<G, F, A>,
    update: &Update,
    answers: Answers,
    c: int,
    b: int,
) -> bool {
    0 <= b < chain.branches.len() && accepts(chain.branches[b], update, answers, c, b)
}

/// Whether some branch of the chain accepts.
pub open spec fn satisfied<G, F, A>(
    chain: ChainView<G, F, A>,
    update: &Update,
    answers: Answers,
    c: int,
) -> bool {
    exists|b: int| accepted_by(chain, update, answers, c, b)
}

/// Whether the chain fires: a branch accepts, or the chain has a fallback.
pub open spec fn fires<G, F, A>(
    chain: ChainView<G, F, A>,
    update: &Update,
    answers: Answers,
    c: int,
) -> bool {
    satisfied(chain, update, answers, c) || chain.fallback is Some
}

/// The first branch from `from` on that accepts.
pub open spec fn first_accepting<G, F, A>(
    chain: ChainView<G, F, A>,
    update: &Update,
    answers: Answers,
    c: int,
    from: int,
) -> Option<int>
    decreases chain.branches.len() - from,
{
    if from < 0 || from >= chain.branches.len() {
        None
    } else if accepts(chain.branches[from], update, answers, c, from) {
        Some(from)
    } else {
        first_accepting(chain, update, answers, c, from + 1)
    }
}

/// What the chain owes the update, if it fires.
pub open spec fn chain_outcome<G, F, A>(
    chain: ChainView<G, F, A>,
    update: &Update,
    answers: Answers,
    c: int,
) -> Option<Outcome> {
    match first_accepting(chain, update, answers, c, 0) {
        Some(b) => Some(Outcome::Matched { chain: c, branch: b }),
        None => if chain.fallback is Some {
            Some(Outcome::FellBack { chain: c })
        } else {
            None
        },
    }
}

/// What the chains from `c` on owe the update.
pub open spec fn dispatch_from<G, F, A>(
    plan: Plan<G, F, A>,
    update: &Update,
    answers: Answers,
    c: int,
) -> Outcome
    decreases plan.len() - c,
{
    if c < 0 || c >= plan.len() {
        Outcome::Unmatched
    } else {
        match chain_outcome(plan[c], update, answers, c) {
            Some(outcome) => outcome,
            None => dispatch_from(plan, update, answers, c + 1),
        }
    }
}

/// What the update is owed.
pub open spec fn dispatch<G, F, A>(plan: Plan<G, F, A>, update: &Update, answers: Answers) -> Outcome {
    dispatch_from(plan, update, answers, 0)
}

/// Whether `outcome` is what the update is owed, said without recursion: the
/// chain it names is the first that fires, and the branch it names is the
/// first of that chain that accepts.
pub open spec fn decides<G, F, A>(
    plan: Plan<G, F, A>,
    update: &Update,
    answers: Answers,
    outcome: Outcome,
) -> bool {
    match outcome {
        Outcome::Matched { chain, branch } => {
            &&& 0 <= chain < plan.len()
            &&& forall|c: int| 0 <= c < chain ==> !#[trigger] fires(plan[c], update, answers, c)
            &&& accepted_by(plan[chain], update, answers, chain, branch)
            &&& forall|b: int|
                0 <= b < branch ==> !#[trigger] accepts(
                    plan[chain].branches[b],
                    update,
                    answers,
                    chain,
                    b,
                )
        },
        Outcome::FellBack { chain } => {
            &&& 0 <= chain < plan.len()
            &&& forall|c: int| 0 <= c < chain ==> !#[trigger] fires(plan[c], update, answers, c)
            &&& plan[chain].fallback is Some
            &&& !satisfied(plan[chain], update, answers, chain)
        },
        Outcome::Unmatched => forall|c: int|
            0 <= c < plan.len() ==> !#[trigger] fires(plan[c], update, answers, c),
    }
}

/// Whether a dispatch with these answers can stand at guard `i` of branch
/// `b` of chain `c`: no earlier chain fired, no earlier branch of the chain
/// accepted, and every earlier guard of the branch passed.
pub open spec fn on_course<G, F, A>(
    plan: Plan<G, F, A>,
    update: &Update,
    answers: Answers,
    c: int,
    b: int,
    i: int,
) -> bool {
    &&& 0 <= c <= plan.len()
    &&& forall|k: int| 0 <= k < c ==> !#[trigger] fires(plan[k], update, answers, k)
    &&& c < plan.len() ==> {
        &&& 0 <= b <= plan[c].branches.len()
        &&& forall|k: int|
            0 <= k < b ==> !#[trigger] accepts(plan[c].branches[k], update, answers, c, k)
        &&& b < plan[c].branches.len() ==> {
            &&& 0 <= i <= plan[c].branches[b].guards.len()
            &&& forall|k: int|
                0 <= k < i ==> #[trigger] passes(plan[c].branches[b], update, answers, c, b, k)
        }
    }
}

/// Whether the guard at `p` is evaluated in a dispatch with these answers:
/// no earlier chain fired, no earlier branch of its chain accepted, its
/// branch admits the update, every earlier guard of the branch passed, and
/// the update has the field the guard is over.
pub open spec fn due<G, F, A>(
    plan: Plan<G, F, A>,
    update: &Update,
    answers: Answers,
    p: Position,
) -> bool {
    &&& 0 <= p.chain < plan.len()
    &&& 0 <= p.branch < plan[p.chain].branches.len()
    &&& 0 <= p.guard < plan[p.chain].branches[p.branch].guards.len()
    &&& forall|c: int| 0 <= c < p.chain ==> !#[trigger] fires(plan[c], update, answers, c)
    &&& forall|b: int|
        0 <= b < p.branch ==> !#[trigger] accepts(
            plan[p.chain].branches[b],
            update,
            answers,
            p.chain,
            b,
        )
    &&& plan[p.chain].branches[p.branch].filter.admits(update)
    &&& forall|i: int|
        0 <= i < p.guard ==> #[trigger] passes(
            plan[p.chain].branches[p.branch],
            update,
            answers,
            p.chain,
            p.branch,
            i,
        )
    &&& plan[p.chain].branches[p.branch].guards[p.guard].field.available(update)
}

/// Settles a matcher from guard `i` of branch `b`, the guards before `i`
/// having passed: skips what needs no answer and stops at the first guard
/// that does, or at a verdict.
pub open spec fn matcher_settle<G>(
    branches: Seq<BranchView<G>>,
    update: &Update,
    b: int,
    i: int,
) -> Verdict
    decreases branches.len() - b,
{
    if b < 0 || b >= branches.len() {
        Verdict::Reject
    } else if !branches[b].filter.admits(update) {
        matcher_settle(branches, update, b + 1, 0)
    } else if i < 0 || i >= branches[b].guards.len() {
        Verdict::Accept { branch: b }
    } else if !branches[b].guards[i].field.available(update) {
        matcher_settle(branches, update, b + 1, 0)
    } else {
        Verdict::Ask { branch: b, guard: i }
    }
}

/// Settles a dispatch from guard `i` of branch `b` of chain `c`.
pub open spec fn settle<G, F, A>(
    plan: Plan<G, F, A>,
    update: &Update,
    c: int,
    b: int,
    i: int,
) -> Turn
    decreases plan.len() - c,
{
    if c < 0 || c >= plan.len() {
        Turn::Done(Outcome::Unmatched)
    } else {
        match matcher_settle(plan[c].branches, update, b, i) {
            Verdict::Accept { branch } => Turn::Done(Outcome::Matched { chain: c, branch }),
            Verdict::Ask { branch, guard } => Turn::Ask(Position { chain: c, branch, guard }),
            Verdict::Reject => if plan[c].fallback is Some {
                Turn::Done(Outcome::FellBack { chain: c })
            } else {
                settle(plan, update, c + 1, 0, 0)
            },
        }
    }
}

/// The first turn of a dispatch.
pub open spec fn begin<G, F, A>(plan: Plan<G, F, A>, update: &Update) -> Turn {
    settle(plan, update, 0, 0, 0)
}

/// The turn after the guard at `at` has answered: on yes the next guard of
/// the branch, on no the next branch.
pub open spec fn resume<G, F, A>(
    plan: Plan<G, F, A>,
    update: &Update,
    at: Position,
    answer: bool,
) -> Turn {
    if answer {
        settle(plan, update, at.chain, at.branch, at.guard + 1)
    } else {
        settle(plan, update, at.chain, at.branch + 1, 0)
    }
}

/// The turn reached by feeding the answers of `transcript`, in order, to the
/// guards that the dispatch asks about.
pub open spec fn replay<G, F, A>(
    plan: Plan<G, F, A>,
    update: &Update,
    transcript: Seq<bool>,
) -> Turn
    decreases transcript.len(),
{
    if transcript.len() == 0 {
        begin(plan, update)
    } else {
        match replay(plan, update, transcript.drop_last()) {
            Turn::Ask(at) => resume(plan, update, at, transcript.last()),
            Turn::Done(outcome) => Turn::Done(outcome),
        }
    }
}

/// Whether each answer of the transcript is the answer that `answers` gives
/// for the guard it was asked about.
pub open spec fn follows<G, F, A>(
    plan: Plan<G, F, A>,
    update: &Update,
    answers: Answers,
    transcript: Seq<bool>,
) -> bool {
    forall|k: int|
        0 <= k < transcript.len() ==> (#[trigger] replay(plan, update, transcript.take(k))
            matches Turn::Ask(at) ==> answers(at) == transcript[k])
}

/// The answers that a transcript records: yes for the guards that were asked
/// about and said yes, no for every other guard.
pub open spec fn answers_of<G, F, A>(
    plan: Plan<G, F, A>,
    update: &Update,
    transcript: Seq<bool>,
) -> Answers {
    |p: Position|
        exists|k: int|
            0 <= k < transcript.len() && #[trigger] replay(plan, update, transcript.take(k))
                == Turn::Ask(p) && transcript[k]
}

/// How many chains a dispatch has not passed yet.
pub open spec fn chains_ahead<G, F, A>(plan: Plan<G, F, A>, turn: Turn) -> int {
    match turn {
        Turn::Ask(at) => plan.len() - at.chain,
        Turn::Done(_) => 0,
    }
}

/// How many branches of the chain at hand a dispatch has not passed yet.
pub open spec fn branches_ahead<G, F, A>(plan: Plan<G, F, A>, turn: Turn) -> int {
    match turn {
        Turn::Ask(at) => plan[at.chain].branches.len() - at.branch,
        Turn::Done(_) => 0,
    }
}

/// How many guards of the branch at hand a dispatch has not passed yet.
pub open spec fn guards_ahead<G, F, A>(plan: Plan<G, F, A>, turn: Turn) -> int {
    match turn {
        Turn::Ask(at) => plan[at.chain].branches[at.branch].guards.len() - at.guard,
        Turn::Done(_) => 0,
    }
}

} // verus!
