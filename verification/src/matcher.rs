//! Matchers: ordered branches of guards, and the algebra that builds them.

use vstd::prelude::*;
use crate::narrowing::{Field, Filter, Narrowed, Subject};
use crate::semantics::{matcher_settle, Verdict};
use crate::types::Update;

verus! {

/// A predicate over one field of an update. `G` is whatever the host can
/// evaluate, at once or after a wait; a matcher stores it and never calls
/// it.
pub struct Guard<G> {
    pub field: Field,
    pub eval: G,
}

/// What a branch of a matcher is: a narrowing, then guards in conjunction.
pub struct BranchView<G> {
    pub filter: Filter,
    pub guards: Seq<Guard<G>>,
}

struct Branch {
    filter: Filter,
    slots: Vec<usize>,
}

/// An ordered alternation of branches. The builder methods work on the last
/// branch, the one under construction.
pub struct Matcher<G> {
    guards: Vec<Guard<G>>,
    branches: Vec<Branch>,
}

/// Where a matcher stands after settling: at a verdict, or at a guard that
/// the host is to evaluate on the subject given.
pub enum Probe<'a, G> {
    Accept { branch: usize },
    Reject,
    Ask { guard: &'a G, subject: Subject<'a>, branch: usize, index: usize },
}

impl<'a, G> View for Probe<'a, G> {
    type V = Verdict;

    open spec fn view(&self) -> Verdict {
        match *self {
            Probe::Accept { branch } => Verdict::Accept { branch: branch as int },
            Probe::Reject => Verdict::Reject,
            Probe::Ask { branch, index, .. } => Verdict::Ask {
                branch: branch as int,
                guard: index as int,
            },
        }
    }
}

/// The branches with `guard` appended to the last one.
pub open spec fn extended<G>(branches: Seq<BranchView<G>>, guard: Guard<G>) -> Seq<BranchView<G>> {
    branches.update(
        branches.len() - 1,
        BranchView { filter: branches.last().filter, guards: branches.last().guards.push(guard) },
    )
}

/// The branches with the last one narrowed to ordinary user messages.
pub open spec fn narrowed<G>(branches: Seq<BranchView<G>>) -> Seq<BranchView<G>> {
    branches.update(
        branches.len() - 1,
        BranchView { filter: branches.last().filter.spec_common(), guards: branches.last().guards },
    )
}

/// The guards of a branch without the terminal one.
pub open spec fn without_terminal<G>(guards: Seq<Guard<G>>) -> Seq<Guard<G>> {
    if guards.len() > 0 {
        guards.drop_last()
    } else {
        guards
    }
}

/// The last branch without its terminal guard, as a matcher of its own.
pub open spec fn base<G>(branches: Seq<BranchView<G>>) -> Seq<BranchView<G>> {
    seq![
        BranchView {
            filter: branches.last().filter,
            guards: without_terminal(branches.last().guards),
        },
    ]
}

/// The branches followed by one more: the last branch with its terminal guard
/// replaced by `guard`.
pub open spec fn re_terminated<G>(branches: Seq<BranchView<G>>, guard: Guard<G>) -> Seq<
    BranchView<G>,
> {
    branches.push(
        BranchView {
            filter: branches.last().filter,
            guards: without_terminal(branches.last().guards).push(guard),
        },
    )
}

impl<G> View for Matcher<G> {
    type V = Seq<BranchView<G>>;

    closed spec fn view(&self) -> Seq<BranchView<G>> {
        Seq::new(self.branches@.len(), |b: int| self.branch_view(b))
    }
}

impl<G> Matcher<G> {
    #[verifier::type_invariant]
    spec fn well_formed(&self) -> bool {
        &&& self.branches@.len() >= 1
        &&& forall|b: int, i: int|
            0 <= b < self.branches@.len() && 0 <= i < self.branches@[b].slots@.len()
                ==> #[trigger] self.branches@[b].slots@[i] < self.guards@.len()
    }

    spec fn branch_view(&self, b: int) -> BranchView<G> {
        BranchView {
            filter: self.branches@[b].filter,
            guards: Seq::new(
                self.branches@[b].slots@.len(),
                |i: int| self.guards@[self.branches@[b].slots@[i] as int],
            ),
        }
    }

    /// A matcher of one branch with the given narrowing and no guard.
    pub fn new(filter: Filter) -> (matcher: Matcher<G>)
        ensures
            matcher@ == seq![BranchView { filter, guards: Seq::<Guard<G>>::empty() }],
    {
        let mut branches = Vec::new();
        branches.push(Branch { filter, slots: Vec::new() });
        let matcher = Matcher { guards: Vec::new(), branches };
        assert(matcher@[0].guards =~= Seq::<Guard<G>>::empty());
        assert(matcher@ =~= seq![BranchView { filter, guards: Seq::<Guard<G>>::empty() }]);
        matcher
    }

    /// The number of branches; there is always at least one.
    pub fn branch_count(&self) -> (count: usize)
        ensures
            count == self@.len(),
            count >= 1,
    {
        proof {
            use_type_invariant(self);
        }
        self.branches.len()
    }

    /// The number of guards of the given branch, if there is such a branch.
    pub fn guard_count(&self, branch: usize) -> (count: Option<usize>)
        ensures
            match count {
                Some(n) => branch < self@.len() && n == self@[branch as int].guards.len(),
                None => branch >= self@.len(),
            },
    {
        if branch < self.branches.len() {
            Some(self.branches[branch].slots.len())
        } else {
            None
        }
    }

    /// Narrows the branch under construction to ordinary user messages.
    pub fn common(self) -> (matcher: Matcher<G>)
        ensures
            matcher@ == narrowed(self@),
    {
        proof {
            use_type_invariant(&self);
        }
        let ghost before = self@;
        let Matcher { guards, mut branches } = self;
        let ghost old_branches = branches@;
        let last = branches.pop().unwrap();
        branches.push(Branch { filter: last.filter.common(), slots: last.slots });
        let matcher = Matcher { guards, branches };
        assert(matcher@ =~~= narrowed(before)) by {
            assert forall|b: int| 0 <= b < before.len() implies #[trigger] matcher@[b] =~~= narrowed(
                before,
            )[b] by {
                assert(matcher.branches@[b].slots == old_branches[b].slots);
            }
        }
        matcher
    }

    /// Appends a guard over `field` to the branch under construction, in
    /// conjunction with the guards already there.
    pub fn with(self, field: Field, eval: G) -> (matcher: Matcher<G>)
        ensures
            matcher@ == extended(self@, Guard { field, eval }),
    {
        proof {
            use_type_invariant(&self);
        }
        let ghost before = self@;
        let Matcher { mut guards, mut branches } = self;
        let ghost old_guards = guards@;
        let ghost old_branches = branches@;
        let slot = guards.len();
        guards.push(Guard { field, eval });
        let mut last = branches.pop().unwrap();
        let Branch { filter, mut slots } = last;
        slots.push(slot);
        branches.push(Branch { filter, slots });
        let matcher = Matcher { guards, branches };
        assert(matcher@ =~~= extended(before, Guard { field, eval })) by {
            assert forall|b: int| 0 <= b < before.len() implies #[trigger] matcher@[b] =~~= extended(
                before,
                Guard { field, eval },
            )[b] by {
                if b < before.len() - 1 {
                    assert(matcher.branches@[b] == old_branches[b]);
                    assert(matcher@[b].guards =~= before[b].guards);
                } else {
                    assert(matcher.branches@[b].slots@ == old_branches[b].slots@.push(slot));
                    assert(matcher@[b].guards =~= before[b].guards.push(Guard { field, eval }));
                }
            }
        }
        matcher
    }

    /// Offers `other` as an alternative: its branches are tried, in their
    /// order, after the branches of `self`, each from the update as it came.
    pub fn or(self, other: Matcher<G>) -> (matcher: Matcher<G>)
        ensures
            matcher@ == self@ + other@,
    {
        proof {
            use_type_invariant(&self);
            use_type_invariant(&other);
        }
        let ghost left = self@;
        let ghost right = other@;
        let Matcher { mut guards, mut branches } = self;
        let Matcher { guards: mut more, branches: others } = other;
        let ghost own_guards = guards@;
        let ghost new_guards = more@;
        let ghost own = branches@;
        let offset = guards.len();
        guards.append(&mut more);
        let total = guards.len();
        let mut next: usize = 0;
        while next < others.len()
            invariant
                next <= others@.len(),
                guards@ == own_guards + new_guards,
                offset == own_guards.len(),
                total == guards@.len(),
                branches@.len() == own.len() + next,
                forall|b: int| 0 <= b < own.len() ==> branches@[b] == own[b],
                forall|b: int, i: int|
                    0 <= b < others@.len() && 0 <= i < others@[b].slots@.len()
                        ==> #[trigger] others@[b].slots@[i] < new_guards.len(),
                forall|b: int|
                    0 <= b < next ==> {
                        let copy = #[trigger] branches@[own.len() + b];
                        &&& copy.filter == others@[b].filter
                        &&& copy.slots@.len() == others@[b].slots@.len()
                        &&& forall|i: int|
                            0 <= i < copy.slots@.len() ==> #[trigger] copy.slots@[i]
                                == others@[b].slots@[i] + offset
                    },
            decreases others@.len() - next,
        {
            let source = &others[next];
            let mut slots: Vec<usize> = Vec::new();
            let mut i: usize = 0;
            while i < source.slots.len()
                invariant
                    i <= source.slots@.len(),
                    slots@.len() == i,
                    offset + new_guards.len() == total,
                    forall|k: int|
                        0 <= k < source.slots@.len() ==> #[trigger] source.slots@[k]
                            < new_guards.len(),
                    forall|k: int| 0 <= k < i ==> #[trigger] slots@[k] == source.slots@[k] + offset,
                decreases source.slots@.len() - i,
            {
                slots.push(source.slots[i] + offset);
                i += 1;
            }
            branches.push(Branch { filter: source.filter, slots });
            next += 1;
        }
        assert forall|b: int, i: int|
            0 <= b < branches@.len() && 0 <= i < branches@[b].slots@.len() implies #[trigger] branches@[b].slots@[i]
                < guards@.len() by {
            if b >= own.len() {
                let copy = branches@[own.len() + (b - own.len())];
                assert(copy.slots@[i] == others@[b - own.len()].slots@[i] + offset);
            } else {
                assert(branches@[b] == own[b]);
            }
        }
        let matcher = Matcher { guards, branches };
        assert(matcher@ =~= left + right) by {
            assert forall|b: int| 0 <= b < left.len() + right.len() implies #[trigger] matcher@[b]
                == (left + right)[b] by {
                if b < left.len() {
                    assert(matcher.branches@[b] == own[b]);
                    assert(matcher@[b].guards =~= left[b].guards);
                } else {
                    let copy = matcher.branches@[own.len() + (b - left.len())];
                    assert(matcher@[b].guards =~= right[b - left.len()].guards);
                }
            }
        }
        matcher
    }

    /// Offers one more branch: the branch under construction with its terminal
    /// guard replaced by a guard over `field`. The new branch becomes the one
    /// under construction.
    pub fn or_with(self, field: Field, eval: G) -> (matcher: Matcher<G>)
        ensures
            matcher@ == re_terminated(self@, Guard { field, eval }),
    {
        proof {
            use_type_invariant(&self);
        }
        let ghost before = self@;
        let Matcher { mut guards, mut branches } = self;
        let ghost old_guards = guards@;
        let ghost old_branches = branches@;
        let slot = guards.len();
        guards.push(Guard { field, eval });
        let last = &branches[branches.len() - 1];
        let kept = if last.slots.len() > 0 {
            last.slots.len() - 1
        } else {
            0
        };
        let filter = last.filter;
        let mut slots: Vec<usize> = Vec::new();
        let mut i: usize = 0;
        while i < kept
            invariant
                i <= kept <= last.slots@.len(),
                slots@.len() == i,
                forall|k: int| 0 <= k < i ==> #[trigger] slots@[k] == last.slots@[k],
            decreases kept - i,
        {
            slots.push(last.slots[i]);
            i += 1;
        }
        slots.push(slot);
        branches.push(Branch { filter, slots });
        let matcher = Matcher { guards, branches };
        assert(matcher@ =~= re_terminated(before, Guard { field, eval })) by {
            let expected = re_terminated(before, Guard { field, eval });
            assert(expected.len() == before.len() + 1);
            assert forall|b: int| 0 <= b < before.len() + 1 implies #[trigger] matcher@[b]
                == expected[b] by {
                if b < before.len() {
                    assert(matcher.branches@[b] == old_branches[b]);
                    assert(matcher@[b].guards =~= before[b].guards);
                } else {
                    assert(matcher@[b].guards =~= expected[b].guards);
                }
            }
        }
        matcher
    }

    /// Appends a guard over the whole update.
    pub fn with_update(self, eval: G) -> (matcher: Matcher<G>)
        ensures
            matcher@ == extended(self@, Guard { field: Field::Update, eval }),
    {
        self.with(Field::Update, eval)
    }

    /// Appends a guard over the message of a message update.
    pub fn with_message(self, eval: G) -> (matcher: Matcher<G>)
        ensures
            matcher@ == extended(self@, Guard { field: Field::Message, eval }),
    {
        self.with(Field::Message, eval)
    }

    /// Appends a guard over the text of a message.
    pub fn with_text(self, eval: G) -> (matcher: Matcher<G>)
        ensures
            matcher@ == extended(self@, Guard { field: Field::Text, eval }),
    {
        self.with(Field::Text, eval)
    }

    /// Appends a guard over the chat identifier of a message.
    pub fn with_chat_id(self, eval: G) -> (matcher: Matcher<G>)
        ensures
            matcher@ == extended(self@, Guard { field: Field::ChatId, eval }),
    {
        self.with(Field::ChatId, eval)
    }

    /// Offers the branch under construction once more, with a guard over the
    /// text of a message in place of its terminal guard.
    pub fn or_with_text(self, eval: G) -> (matcher: Matcher<G>)
        ensures
            matcher@ == re_terminated(self@, Guard { field: Field::Text, eval }),
    {
        self.or_with(Field::Text, eval)
    }

    /// Offers the branch under construction once more, with a guard over the
    /// chat identifier in place of its terminal guard.
    pub fn or_with_chat_id(self, eval: G) -> (matcher: Matcher<G>)
        ensures
            matcher@ == re_terminated(self@, Guard { field: Field::ChatId, eval }),
    {
        self.or_with(Field::ChatId, eval)
    }

    /// The first branch whose narrowing cannot supply a payload of the given
    /// kind, if there is one.
    pub fn first_lacking(&self, kind: Narrowed) -> (lacking: Option<usize>)
        ensures
            match lacking {
                Some(b) => {
                    &&& b < self@.len()
                    &&& !self@[b as int].filter.supplies(kind)
                    &&& forall|k: int| 0 <= k < b ==> (#[trigger] self@[k]).filter.supplies(kind)
                },
                None => forall|k: int| 0 <= k < self@.len() ==> (#[trigger] self@[k]).filter.supplies(kind),
            },
    {
        let mut b: usize = 0;
        while b < self.branches.len()
            invariant
                b <= self.branches@.len(),
                forall|k: int| 0 <= k < b ==> (#[trigger] self@[k]).filter.supplies(kind),
            decreases self.branches@.len() - b,
        {
            if !self.branches[b].filter.can_supply(kind) {
                return Some(b);
            }
            b += 1;
        }
        None
    }

    /// Settles the matcher on the update from guard `guard` of branch
    /// `branch`: passes over the branches that the update is not for and the
    /// guards whose field it lacks, and stops at the first guard that needs an
    /// answer, or at a verdict. Evaluates nothing.
    pub fn settle<'a>(&'a self, update: &'a Update, branch: usize, guard: usize) -> (probe: Probe<
        'a,
        G,
    >)
        ensures
            probe@ == matcher_settle(self@, update, branch as int, guard as int),
            probe matches Probe::Ask { guard: asked, subject, branch: b, index: i } ==> {
                &&& *asked == self@[b as int].guards[i as int].eval
                &&& subject.presents(self@[b as int].guards[i as int].field, update)
            },
    {
        proof {
            use_type_invariant(self);
        }
        let mut b = branch;
        let mut i = guard;
        while b < self.branches.len()
            invariant
                self.well_formed(),
                matcher_settle(self@, update, b as int, i as int) == matcher_settle(
                    self@,
                    update,
                    branch as int,
                    guard as int,
                ),
            decreases self.branches@.len() - b,
        {
            let current = &self.branches[b];
            if current.filter.check(update) {
                if i >= current.slots.len() {
                    return Probe::Accept { branch: b };
                }
                let asked = &self.guards[current.slots[i]];
                match asked.field.project(update) {
                    Some(subject) => {
                        return Probe::Ask { guard: &asked.eval, subject, branch: b, index: i };
                    },
                    None => {},
                }
            }
            b += 1;
            i = 0;
        }
        Probe::Reject
    }
}

} // verus!
