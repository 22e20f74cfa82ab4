//! Handler chains: a matcher, the fallback it may end in, and the action.

use vstd::prelude::*;
use crate::injection::Injection;
use crate::matcher::{BranchView, Matcher};
use crate::narrowing::Narrowed;
use crate::types::Update;

verus! {

/// What a handler chain is.
pub struct ChainView<G, F, A> {
    pub branches: Seq<BranchView<G>>,
    pub fallback: Option<F>,
    pub action: A,
    pub injection: Injection,
}

/// Why a chain could not be built.
#[derive(Clone, Copy, Debug, PartialEq, Eq, Structural)]
pub enum ChainError {
    /// The action asks for a payload that the narrowing of this branch, the
    /// first such, does not supply.
    PayloadUnavailable { branch: usize },
}

/// A matcher closed by a fallback: the action that runs, without arguments,
/// when no branch accepts. Only the main action can follow. A fallback has a
/// type of its own, since it takes no argument.
pub struct OrElse<G, F> {
    matcher: Matcher<G>,
    fallback: F,
}

/// A matcher paired with its action. Immutable once built.
pub struct HandlerChain<G, F, A> {
    matcher: Matcher<G>,
    fallback: Option<F>,
    action: A,
    injection: Injection,
}

/// Whether every branch narrows to the payload the injection asks for.
pub open spec fn serves<G>(branches: Seq<BranchView<G>>, injection: Injection) -> bool {
    injection.requests() matches Some(kind) ==> forall|b: int|
        0 <= b < branches.len() ==> (#[trigger] branches[b]).filter.supplies(kind)
}

/// Whether `branch` is the first branch that does not supply `kind`.
pub open spec fn first_lacking<G>(branches: Seq<BranchView<G>>, kind: Narrowed, branch: int) -> bool {
    &&& 0 <= branch < branches.len()
    &&& !branches[branch].filter.supplies(kind)
    &&& forall|b: int| 0 <= b < branch ==> (#[trigger] branches[b]).filter.supplies(kind)
}

impl<G, F, A> ChainView<G, F, A> {
    /// A chain has a branch, and every branch narrows to the payload that the
    /// action asks for.
    pub open spec fn valid(self) -> bool {
        self.branches.len() >= 1 && serves(self.branches, self.injection)
    }
}

impl<G, F> OrElse<G, F> {
    /// The branches of the matcher that was closed.
    pub closed spec fn branches(&self) -> Seq<BranchView<G>> {
        self.matcher@
    }

    /// The fallback that closes the matcher.
    pub closed spec fn fallback(&self) -> F {
        self.fallback
    }

    /// Pairs the matcher and its fallback with the main action. Fails where a
    /// branch cannot supply the payload that the action asks for.
    pub fn by<A>(self, injection: Injection, action: A) -> (built: Result<
        HandlerChain<G, F, A>,
        ChainError,
    >)
        ensures
            built is Ok <==> serves(self.branches(), injection),
            built matches Ok(chain) ==> chain@ == (ChainView {
                branches: self.branches(),
                fallback: Some(self.fallback()),
                action,
                injection,
            }),
            built matches Err(ChainError::PayloadUnavailable { branch }) ==> first_lacking(
                self.branches(),
                injection.requests().unwrap(),
                branch as int,
            ),
    {
        HandlerChain::new(self.matcher, Some(self.fallback), injection, action)
    }
}

impl<G> Matcher<G> {
    /// Closes the matcher with a fallback action.
    pub fn or_else<F>(self, fallback: F) -> (closed: OrElse<G, F>)
        ensures
            closed.branches() == self@,
            closed.fallback() == fallback,
    {
        OrElse { matcher: self, fallback }
    }

    /// Pairs the matcher with its action. Fails where a branch cannot supply
    /// the payload that the action asks for.
    pub fn by<F, A>(self, injection: Injection, action: A) -> (built: Result<
        HandlerChain<G, F, A>,
        ChainError,
    >)
        ensures
            built is Ok <==> serves(self@, injection),
            built matches Ok(chain) ==> chain@ == (ChainView {
                branches: self@,
                fallback: None::<F>,
                action,
                injection,
            }),
            built matches Err(ChainError::PayloadUnavailable { branch }) ==> first_lacking(
                self@,
                injection.requests().unwrap(),
                branch as int,
            ),
    {
        HandlerChain::new(self, None, injection, action)
    }
}

impl<G, F, A> View for HandlerChain<G, F, A> {
    type V = ChainView<G, F, A>;

    closed spec fn view(&self) -> ChainView<G, F, A> {
        ChainView {
            branches: self.matcher@,
            fallback: self.fallback,
            action: self.action,
            injection: self.injection,
        }
    }
}

impl<G, F, A> HandlerChain<G, F, A> {
    #[verifier::type_invariant]
    spec fn well_formed(&self) -> bool {
        self@.valid()
    }

    /// Builds a chain from its parts. Fails where a branch cannot supply the
    /// payload that the action asks for.
    pub fn new(matcher: Matcher<G>, fallback: Option<F>, injection: Injection, action: A) -> (built:
        Result<HandlerChain<G, F, A>, ChainError>)
        ensures
            built is Ok <==> serves(matcher@, injection),
            built matches Ok(chain) ==> chain@ == (ChainView {
                branches: matcher@,
                fallback,
                action,
                injection,
            }),
            built matches Err(ChainError::PayloadUnavailable { branch }) ==> first_lacking(
                matcher@,
                injection.requests().unwrap(),
                branch as int,
            ),
    {
        // Every matcher has a branch, which is the first half of validity.
        let _ = matcher.branch_count();
        match injection.requested() {
            Some(kind) => match matcher.first_lacking(kind) {
                Some(branch) => Err(ChainError::PayloadUnavailable { branch }),
                None => Ok(HandlerChain { matcher, fallback, action, injection }),
            },
            None => Ok(HandlerChain { matcher, fallback, action, injection }),
        }
    }

    /// The matcher of the chain. Every chain that exists is valid.
    pub fn matcher(&self) -> (matcher: &Matcher<G>)
        ensures
            matcher@ == self@.branches,
            self@.valid(),
    {
        proof {
            use_type_invariant(self);
        }
        &self.matcher
    }

    /// The main action of the chain.
    pub fn action(&self) -> (action: &A)
        ensures
            *action == self@.action,
    {
        &self.action
    }

    /// The fallback of the chain, if it has one.
    pub fn fallback(&self) -> (fallback: Option<&F>)
        ensures
            match fallback {
                Some(f) => self@.fallback == Some(*f),
                None => self@.fallback is None,
            },
    {
        match &self.fallback {
            Some(f) => Some(f),
            None => None,
        }
    }

    /// The parameter shape of the main action.
    pub fn injection(&self) -> (injection: Injection)
        ensures
            injection == self@.injection,
    {
        self.injection
    }
}

/// What the action of a valid chain asks for is there whenever the action
/// is owed: an update that a branch admits has the payload. A parameter shape
/// that does not fit fails when the chain is built, never during a dispatch.
pub proof fn lemma_admitted_update_serves<G, F, A>(
    chain: ChainView<G, F, A>,
    update: &Update,
    b: int,
)
    requires
        chain.valid(),
        0 <= b < chain.branches.len(),
        chain.branches[b].filter.admits(update),
    ensures
        chain.injection.servable(update),
{
    if let Some(kind) = chain.injection.requests() {
        assert(chain.branches[b].filter.supplies(kind));
    }
}

} // verus!
