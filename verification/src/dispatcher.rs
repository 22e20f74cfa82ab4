//! The dispatcher: the frozen list of chains, and the steps of a dispatch.

use vstd::prelude::*;
use crate::bot::Bot;
use crate::chain::{lemma_admitted_update_serves, HandlerChain};
use crate::injection::Injected;
use crate::laws::steps::{
    lemma_ask_in_range, lemma_every_due_guard_is_asked, lemma_follows_own_answers,
    lemma_replay_reaches_dispatch, lemma_settle_past_end, lemma_verdict_in_range,
};
use crate::matcher::Probe;
use crate::narrowing::Subject;
use crate::semantics::{
    answers_of, begin, branches_ahead, chains_ahead, dispatch, due, guards_ahead, replay, resume,
    settle, Answers, Outcome, Plan, Position, Turn,
};
use crate::types::Update;

verus! {

/// The place of the guard a dispatch is waiting on. The host hands it back
/// with the answer.
#[derive(Clone, Copy, Debug, PartialEq, Eq, Structural)]
pub struct Cursor {
    pub chain: usize,
    pub branch: usize,
    pub guard: usize,
}

/// What a dispatch owes the update: at most one action, and its argument.
pub enum Decision<'a, F, A> {
    /// Run the main action of `chain` on `argument`.
    Matched { chain: usize, branch: usize, action: &'a A, argument: Injected<'a> },
    /// Run the fallback of `chain`; it takes no argument.
    FellBack { chain: usize, fallback: &'a F },
    /// Run nothing.
    Unmatched,
}

/// Which action a dispatch ran.
#[derive(Clone, Copy, Debug, PartialEq, Eq, Structural)]
pub enum Ran {
    /// The main action of `chain`, whose matcher accepted through `branch`.
    Main { chain: usize, branch: usize },
    /// The fallback of `chain`.
    Fallback { chain: usize },
    /// No action.
    Nothing,
}

/// What a dispatch did: the one action it ran, if any, and whether that
/// action failed, in which case its error went to the error handler.
#[derive(Clone, Copy, Debug, PartialEq, Eq, Structural)]
pub struct Dispatched {
    pub ran: Ran,
    pub failed: bool,
}

/// One step of a dispatch.
pub enum Step<'a, G, F, A> {
    /// Evaluate `guard` on `subject`, then resume at `at` with the answer.
    Evaluate { guard: &'a G, subject: Subject<'a>, at: Cursor },
    /// The dispatch is over.
    Decided(Decision<'a, F, A>),
}

/// Why a dispatcher could not be built.
#[derive(Clone, Copy, Debug, PartialEq, Eq, Structural)]
pub enum BuildError {
    /// No error handler was registered.
    MissingErrorHandler,
}

/// Collects chains and the error handler, then freezes them.
pub struct DispatcherBuilder<G, F, A, H> {
    bot: Bot,
    bot_name: String,
    chains: Vec<HandlerChain<G, F, A>>,
    error_handler: Option<H>,
}

/// An ordered list of chains and one error handler. Nothing changes it once
/// it is built; a dispatch only reads it.
pub struct Dispatcher<G, F, A, H> {
    bot: Bot,
    bot_name: String,
    chains: Vec<HandlerChain<G, F, A>>,
    error_handler: H,
}

impl View for Cursor {
    type V = Position;

    open spec fn view(&self) -> Position {
        Position { chain: self.chain as int, branch: self.branch as int, guard: self.guard as int }
    }
}

impl<'a, F, A> View for Decision<'a, F, A> {
    type V = Outcome;

    open spec fn view(&self) -> Outcome {
        match *self {
            Decision::Matched { chain, branch, .. } => Outcome::Matched {
                chain: chain as int,
                branch: branch as int,
            },
            Decision::FellBack { chain, .. } => Outcome::FellBack { chain: chain as int },
            Decision::Unmatched => Outcome::Unmatched,
        }
    }
}

impl View for Ran {
    type V = Outcome;

    open spec fn view(&self) -> Outcome {
        match *self {
            Ran::Main { chain, branch } => Outcome::Matched {
                chain: chain as int,
                branch: branch as int,
            },
            Ran::Fallback { chain } => Outcome::FellBack { chain: chain as int },
            Ran::Nothing => Outcome::Unmatched,
        }
    }
}

impl<'a, G, F, A> View for Step<'a, G, F, A> {
    type V = Turn;

    open spec fn view(&self) -> Turn {
        match *self {
            Step::Evaluate { at, .. } => Turn::Ask(at@),
            Step::Decided(decision) => Turn::Done(decision@),
        }
    }
}

impl<G, F, A, H> DispatcherBuilder<G, F, A, H> {
    /// The chains registered so far, in registration order.
    pub closed spec fn chains(&self) -> Plan<G, F, A> {
        Seq::new(self.chains@.len(), |c: int| self.chains@[c]@)
    }

    /// The error handler registered last, if any was.
    pub closed spec fn handler(&self) -> Option<H> {
        self.error_handler
    }

    /// The bot session the builder was made for.
    pub closed spec fn bot(&self) -> Bot {
        self.bot
    }

    /// The characters of the bot's name.
    pub closed spec fn bot_name(&self) -> Seq<char> {
        self.bot_name@
    }

    /// A builder for the given bot session, with no chain and no error
    /// handler.
    pub fn new(bot: Bot, bot_name: &str) -> (builder: Self)
        ensures
            builder.chains() == Seq::<crate::chain::ChainView<G, F, A>>::empty(),
            builder.handler() is None,
            builder.bot() == bot,
            builder.bot_name() == bot_name@,
    {
        let builder = DispatcherBuilder {
            bot,
            bot_name: bot_name.to_owned(),
            chains: Vec::new(),
            error_handler: None,
        };
        assert(builder.chains() =~= Seq::<crate::chain::ChainView<G, F, A>>::empty());
        builder
    }

    /// Registers a chain after those already registered.
    pub fn handle(self, chain: HandlerChain<G, F, A>) -> (builder: Self)
        ensures
            builder.chains() == self.chains().push(chain@),
            builder.handler() == self.handler(),
            builder.bot() == self.bot(),
            builder.bot_name() == self.bot_name(),
    {
        let ghost before = self.chains();
        let DispatcherBuilder { bot, bot_name, mut chains, error_handler } = self;
        chains.push(chain);
        let builder = DispatcherBuilder { bot, bot_name, chains, error_handler };
        assert(builder.chains() =~= before.push(chain@));
        builder
    }

    /// Registers the error handler; a later registration replaces an earlier
    /// one.
    pub fn error_handler(self, handler: H) -> (builder: Self)
        ensures
            builder.chains() == self.chains(),
            builder.handler() == Some(handler),
            builder.bot() == self.bot(),
            builder.bot_name() == self.bot_name(),
    {
        let DispatcherBuilder { bot, bot_name, chains, error_handler: _ } = self;
        DispatcherBuilder { bot, bot_name, chains, error_handler: Some(handler) }
    }

    /// Freezes the chains. Fails exactly where no error handler was
    /// registered.
    pub fn build(self) -> (built: Result<Dispatcher<G, F, A, H>, BuildError>)
        ensures
            match built {
                Ok(dispatcher) => {
                    &&& self.handler() == Some(dispatcher.handler())
                    &&& dispatcher@ == self.chains()
                    &&& dispatcher.bot() == self.bot()
                    &&& dispatcher.bot_name() == self.bot_name()
                },
                Err(error) => self.handler() is None && error == BuildError::MissingErrorHandler,
            },
    {
        let DispatcherBuilder { bot, bot_name, chains, error_handler } = self;
        match error_handler {
            Some(error_handler) => Ok(Dispatcher { bot, bot_name, chains, error_handler }),
            None => Err(BuildError::MissingErrorHandler),
        }
    }
}

impl<G, F, A, H> View for Dispatcher<G, F, A, H> {
    type V = Plan<G, F, A>;

    closed spec fn view(&self) -> Plan<G, F, A> {
        Seq::new(self.chains@.len(), |c: int| self.chains@[c]@)
    }
}

impl<G, F, A, H> Dispatcher<G, F, A, H> {
    /// The error handler.
    pub closed spec fn handler(&self) -> H {
        self.error_handler
    }

    /// The bot session the dispatcher works for.
    pub closed spec fn bot(&self) -> Bot {
        self.bot
    }

    /// The characters of the bot's name.
    pub closed spec fn bot_name(&self) -> Seq<char> {
        self.bot_name@
    }

    /// Whether what a decision hands out is what the chain it names holds:
    /// its action, and the argument that action asked for, taken from the
    /// update unmodified.
    pub open spec fn owes(&self, update: &Update, decision: Decision<'_, F, A>) -> bool {
        match decision {
            Decision::Matched { chain, branch, action, argument } => {
                &&& chain < self@.len()
                &&& branch < self@[chain as int].branches.len()
                &&& *action == self@[chain as int].action
                &&& argument.fulfils(self@[chain as int].injection, update, &self.bot(), self.bot_name())
            },
            Decision::FellBack { chain, fallback } => {
                &&& chain < self@.len()
                &&& self@[chain as int].fallback == Some(*fallback)
            },
            Decision::Unmatched => true,
        }
    }

    /// Whether what a step hands out is what the dispatcher holds at that
    /// place: the guard and the field it is over, or what the decision owes.
    pub open spec fn hands_out(&self, update: &Update, step: Step<'_, G, F, A>) -> bool {
        match step {
            Step::Evaluate { guard, subject, at } => {
                let asked = self@[at.chain as int].branches[at.branch as int].guards[at.guard as int];
                *guard == asked.eval && subject.presents(asked.field, update)
            },
            Step::Decided(decision) => self.owes(update, decision),
        }
    }

    /// Whether every answer of the transcript was given by `eval`, asked about
    /// the guard that the dispatch was waiting on, on the field that guard is
    /// over.
    pub open spec fn witnessed<'a, V: Fn(&'a G, Subject<'a>) -> bool>(
        &self,
        update: &Update,
        eval: V,
        transcript: Seq<bool>,
    ) -> bool where G: 'a {
        forall|k: int|
            0 <= k < transcript.len() ==> match #[trigger] replay(self@, update, transcript.take(k)) {
                Turn::Ask(at) => {
                    let asked = self@[at.chain].branches[at.branch].guards[at.guard];
                    exists|subject: Subject<'a>|
                        subject.presents(asked.field, update) && #[trigger] call_ensures(
                            eval,
                            (&asked.eval, subject),
                            transcript[k],
                        )
                },
                Turn::Done(_) => false,
            }
    }

    /// Whether the transcript, answer by answer the word of `eval`, leads the
    /// dispatch of the update to `outcome`.
    pub open spec fn explains<'a, V: Fn(&'a G, Subject<'a>) -> bool>(
        &self,
        update: &Update,
        eval: V,
        transcript: Seq<bool>,
        outcome: Outcome,
    ) -> bool where G: 'a {
        replay(self@, update, transcript) == Turn::Done(outcome) && self.witnessed(
            update,
            eval,
            transcript,
        )
    }

    /// Whether `eval` can be called on every guard the dispatcher holds, with
    /// the field of the update that the guard is over.
    pub open spec fn evaluable<'a, V: Fn(&'a G, Subject<'a>) -> bool>(
        &self,
        update: &Update,
        eval: V,
    ) -> bool where G: 'a {
        forall|c: int, b: int, i: int, subject: Subject<'a>|
            0 <= c < self@.len() && 0 <= b < self@[c].branches.len() && 0 <= i
                < self@[c].branches[b].guards.len() && subject.presents(
                self@[c].branches[b].guards[i].field,
                update,
            ) ==> #[trigger] call_requires(eval, (&self@[c].branches[b].guards[i].eval, subject))
    }

    /// Whether `answers` holds the word of `eval` on every guard that is due in
    /// a dispatch with these answers, asked on the field that guard is over.
    pub open spec fn answered<'a, V: Fn(&'a G, Subject<'a>) -> bool>(
        &self,
        update: &Update,
        eval: V,
        answers: Answers,
    ) -> bool where G: 'a {
        forall|p: Position| #[trigger]
            due(self@, update, answers, p) ==> {
                let asked = self@[p.chain].branches[p.branch].guards[p.guard];
                exists|subject: Subject<'a>|
                    subject.presents(asked.field, update) && #[trigger] call_ensures(
                        eval,
                        (&asked.eval, subject),
                        answers(p),
                    )
            }
    }

    /// Whether `outcome` is what the update is owed under `answers`, and
    /// `answers` holds the word of `eval` on every guard that is due.
    pub open spec fn decided_by<'a, V: Fn(&'a G, Subject<'a>) -> bool>(
        &self,
        update: &Update,
        eval: V,
        answers: Answers,
        outcome: Outcome,
    ) -> bool where G: 'a {
        outcome == dispatch(self@, update, answers) && self.answered(update, eval, answers)
    }

    /// A transcript that leads the dispatch to an outcome, each answer the
    /// word of `eval`, records answers under which the update is owed that
    /// outcome, and which hold the word of `eval` on every guard that is due.
    pub proof fn lemma_transcript_decides<'a, V: Fn(&'a G, Subject<'a>) -> bool>(
        &self,
        update: &Update,
        eval: V,
        transcript: Seq<bool>,
        outcome: Outcome,
    ) where G: 'a
        requires
            self.explains(update, eval, transcript, outcome),
        ensures
            self.decided_by(update, eval, answers_of(self@, update, transcript), outcome),
    {
        let answers = answers_of(self@, update, transcript);
        lemma_follows_own_answers(self@, update, transcript);
        lemma_replay_reaches_dispatch(self@, update, answers, transcript);
        assert forall|p: Position| #[trigger] due(self@, update, answers, p) implies {
            let asked = self@[p.chain].branches[p.branch].guards[p.guard];
            exists|subject: Subject<'a>|
                subject.presents(asked.field, update) && #[trigger] call_ensures(
                    eval,
                    (&asked.eval, subject),
                    answers(p),
                )
        } by {
            lemma_every_due_guard_is_asked(self@, update, answers, transcript, p);
            let k = choose|k: int|
                0 <= k < transcript.len() && #[trigger] replay(self@, update, transcript.take(k))
                    == Turn::Ask(p);
            assert(answers(p) == transcript[k]);
        }
    }

    /// The number of chains.
    pub fn chain_count(&self) -> (count: usize)
        ensures
            count == self@.len(),
    {
        self.chains.len()
    }

    /// The error handler: where the host sends the error of an action that
    /// failed.
    pub fn error_handler(&self) -> (handler: &H)
        ensures
            *handler == self.handler(),
    {
        &self.error_handler
    }

    /// Settles the dispatch of `update` from the given place on: passes over
    /// what needs no answer, and stops at the first guard that does or at the
    /// decision.
    fn settle<'a>(&'a self, update: &'a Update, chain: usize, branch: usize, guard: usize) -> (step:
        Step<'a, G, F, A>)
        ensures
            step@ == settle(self@, update, chain as int, branch as int, guard as int),
            self.hands_out(update, step),
    {
        let mut c = chain;
        let mut b = branch;
        let mut i = guard;
        while c < self.chains.len()
            invariant
                settle(self@, update, c as int, b as int, i as int) == settle(
                    self@,
                    update,
                    chain as int,
                    branch as int,
                    guard as int,
                ),
            decreases self.chains@.len() - c,
        {
            let current = &self.chains[c];
            let matcher = current.matcher();
            assert(self@[c as int] == current@);
            match matcher.settle(update, b, i) {
                Probe::Accept { branch: accepted } => {
                    proof {
                        lemma_verdict_in_range(matcher@, update, b as int, i as int);
                        lemma_admitted_update_serves(current@, update, accepted as int);
                    }
                    let argument = current.injection().inject(
                        update,
                        &self.bot,
                        self.bot_name.as_str(),
                    ).unwrap();
                    return Step::Decided(
                        Decision::Matched {
                            chain: c,
                            branch: accepted,
                            action: current.action(),
                            argument,
                        },
                    );
                },
                Probe::Ask { guard: asked, subject, branch: at_branch, index } => {
                    return Step::Evaluate {
                        guard: asked,
                        subject,
                        at: Cursor { chain: c, branch: at_branch, guard: index },
                    };
                },
                Probe::Reject => match current.fallback() {
                    Some(fallback) => {
                        return Step::Decided(Decision::FellBack { chain: c, fallback });
                    },
                    None => {},
                },
            }
            c += 1;
            b = 0;
            i = 0;
        }
        Step::Decided(Decision::Unmatched)
    }

    /// Starts the dispatch of `update`: the first guard to evaluate, or the
    /// decision where no guard needs evaluating. Chains are tried in
    /// registration order.
    pub fn begin<'a>(&'a self, update: &'a Update) -> (step: Step<'a, G, F, A>)
        ensures
            step@ == begin(self@, update),
            self.hands_out(update, step),
    {
        self.settle(update, 0, 0, 0)
    }

    /// Goes on with the dispatch of `update` once the guard at `at` has
    /// answered, at once or after a wait: on yes with the next guard of the
    /// branch, on no with the next branch.
    pub fn resume<'a>(&'a self, update: &'a Update, at: Cursor, answer: bool) -> (step: Step<
        'a,
        G,
        F,
        A,
    >)
        ensures
            step@ == resume(self@, update, at@, answer),
            self.hands_out(update, step),
    {
        if at.chain >= self.chains.len() {
            return Step::Decided(Decision::Unmatched);
        }
        let matcher = self.chains[at.chain].matcher();
        assert(self@[at.chain as int].branches == matcher@);
        // Counting the branches and the guards bounds both by `usize::MAX`:
        // an index at that bound is past the end, and so is the one after it.
        let _ = matcher.branch_count();
        let _ = matcher.guard_count(at.branch);
        if answer {
            if at.guard < usize::MAX {
                self.settle(update, at.chain, at.branch, at.guard + 1)
            } else {
                proof {
                    lemma_settle_past_end(
                        self@,
                        update,
                        at.chain as int,
                        at.branch as int,
                        at.guard as int,
                        at.branch as int,
                        at.guard + 1,
                    );
                }
                self.settle(update, at.chain, at.branch, at.guard)
            }
        } else {
            if at.branch < usize::MAX {
                self.settle(update, at.chain, at.branch + 1, 0)
            } else {
                proof {
                    lemma_settle_past_end(
                        self@,
                        update,
                        at.chain as int,
                        at.branch as int,
                        0,
                        at.branch + 1,
                        0,
                    );
                }
                self.settle(update, at.chain, at.branch, 0)
            }
        }
    }

    /// Decides what one update is owed, with guards that answer at once: asks
    /// `eval` for the answer of each guard that is due, in evaluation order,
    /// and returns the decision. At most one action is named; nothing is run.
    pub fn decide<'a, V: Fn(&'a G, Subject<'a>) -> bool>(
        &'a self,
        update: &'a Update,
        eval: V,
    ) -> (decision: Decision<'a, F, A>)
        requires
            self.evaluable(update, eval),
        ensures
            self.owes(update, decision),
            exists|answers: Answers| self.decided_by(update, eval, answers, decision@),
    {
        let mut step = self.begin(update);
        let ghost mut transcript = Seq::<bool>::empty();
        proof {
            lemma_ask_in_range(self@, update, 0, 0, 0);
        }
        loop
            invariant
                self.evaluable(update, eval),
                step@ == replay(self@, update, transcript),
                self.hands_out(update, step),
                self.witnessed(update, eval, transcript),
                step@ matches Turn::Ask(at) ==> {
                    &&& 0 <= at.chain < self@.len()
                    &&& 0 <= at.branch < self@[at.chain].branches.len()
                    &&& 0 <= at.guard < self@[at.chain].branches[at.branch].guards.len()
                },
            decreases
                    chains_ahead(self@, step@),
                    branches_ahead(self@, step@),
                    guards_ahead(self@, step@),
        {
            match step {
                Step::Decided(decision) => {
                    proof {
                        self.lemma_transcript_decides(update, eval, transcript, decision@);
                    }
                    return decision;
                },
                Step::Evaluate { guard, subject, at } => {
                    let answer = eval(guard, subject);
                    let ghost before = transcript;
                    proof {
                        transcript = before.push(answer);
                        assert(transcript.drop_last() == before);
                        assert(transcript.take(before.len() as int) == before);
                        assert forall|k: int| 0 <= k < before.len() implies #[trigger] transcript.take(
                            k,
                        ) == before.take(k) && transcript[k] == before[k] by {}
                        if answer {
                            lemma_ask_in_range(
                                self@,
                                update,
                                at.chain as int,
                                at.branch as int,
                                at.guard + 1,
                            );
                        } else {
                            lemma_ask_in_range(
                                self@,
                                update,
                                at.chain as int,
                                at.branch + 1,
                                0,
                            );
                        }
                    }
                    step = self.resume(update, at, answer);
                },
            }
        }
    }

    /// Whether every guard, action and fallback that the dispatcher holds,
    /// and its error handler, can be called on what a dispatch of the update
    /// hands them.
    pub open spec fn callable<'a, E>(&self, update: &Update) -> bool where
        G: Fn(Subject<'a>) -> bool + 'a,
        F: Fn() -> Result<(), E>,
        A: Fn(Injected<'a>) -> Result<(), E>,
        H: Fn(E),
     {
        &&& forall|c: int, b: int, i: int, subject: Subject<'a>|
            0 <= c < self@.len() && 0 <= b < self@[c].branches.len() && 0 <= i
                < self@[c].branches[b].guards.len() && subject.presents(
                self@[c].branches[b].guards[i].field,
                update,
            ) ==> #[trigger] call_requires(self@[c].branches[b].guards[i].eval, (subject,))
        &&& forall|c: int, argument: Injected<'a>|
            0 <= c < self@.len() && argument.fulfils(
                self@[c].injection,
                update,
                &self.bot(),
                self.bot_name(),
            ) ==> #[trigger] call_requires(self@[c].action, (argument,))
        &&& forall|c: int|
            0 <= c < self@.len() && (#[trigger] self@[c]).fallback is Some ==> call_requires(
                self@[c].fallback->Some_0,
                (),
            )
        &&& forall|error: E| #[trigger] call_requires(self.handler(), (error,))
    }

    /// Whether `answers` holds the word of each guard that is due in a
    /// dispatch with these answers, given on the field the guard is over.
    pub open spec fn guards_say<'a>(&self, update: &Update, answers: Answers) -> bool where
        G: Fn(Subject<'a>) -> bool + 'a,
     {
        forall|p: Position| #[trigger]
            due(self@, update, answers, p) ==> {
                let asked = self@[p.chain].branches[p.branch].guards[p.guard];
                exists|subject: Subject<'a>|
                    subject.presents(asked.field, update) && #[trigger] call_ensures(
                        asked.eval,
                        (subject,),
                        answers(p),
                    )
            }
    }

    /// Whether the guards, each asked when it was due, led to what `ran`
    /// names: it is what the update is owed under the answers they gave.
    pub open spec fn chosen_by_guards<'a>(&self, update: &Update, answers: Answers, ran: Ran) -> bool where
        G: Fn(Subject<'a>) -> bool + 'a,
     {
        ran@ == dispatch(self@, update, answers) && self.guards_say(update, answers)
    }

    /// Whether `result` is what the action that `ran` names gave: the main
    /// action of the chain, called on the argument it asked for, taken from
    /// the update unmodified; or the fallback of the chain, called on
    /// nothing.
    pub open spec fn gave<'a, E>(&self, update: &Update, ran: Ran, result: Result<(), E>) -> bool where
        F: Fn() -> Result<(), E>,
        A: Fn(Injected<'a>) -> Result<(), E>,
     {
        match ran {
            Ran::Main { chain, .. } => chain < self@.len() && exists|argument: Injected<'a>|
                argument.fulfils(self@[chain as int].injection, update, &self.bot(), self.bot_name())
                    && #[trigger] call_ensures(self@[chain as int].action, (argument,), result),
            Ran::Fallback { chain } => {
                &&& chain < self@.len()
                &&& self@[chain as int].fallback is Some
                &&& call_ensures(self@[chain as int].fallback->Some_0, (), result)
            },
            Ran::Nothing => result is Ok,
        }
    }

    /// Whether a failure was routed: the error handler was called exactly on
    /// the error of a result that is one.
    pub open spec fn routed<E>(&self, result: Result<(), E>, failed: bool) -> bool where H: Fn(E) {
        match result {
            Ok(_) => !failed,
            Err(error) => failed && call_ensures(self.handler(), (error,), ()),
        }
    }

    /// Whether the one action that `done` names was run and, where it
    /// failed, its error was handed to the error handler.
    pub open spec fn ran_and_routed<'a, E>(&self, update: &Update, done: Dispatched) -> bool where
        F: Fn() -> Result<(), E>,
        A: Fn(Injected<'a>) -> Result<(), E>,
        H: Fn(E),
     {
        exists|result: Result<(), E>| #[trigger]
            self.gave(update, done.ran, result) && self.routed(result, done.failed)
    }

    /// Dispatches one update to completion, with guards, actions and an
    /// error handler that are functions: evaluates each guard that is due, in
    /// evaluation order; runs the main action of the first chain with a
    /// branch that accepts, or the fallback of the first chain that has one
    /// and no such branch, whichever chain comes first; runs nothing where no
    /// chain fires. Where the action fails, hands its error to the error
    /// handler. At most one action runs.
    pub fn dispatch_one<'a, E>(&'a self, update: &'a Update) -> (done: Dispatched) where
        G: Fn(Subject<'a>) -> bool,
        F: Fn() -> Result<(), E>,
        A: Fn(Injected<'a>) -> Result<(), E>,
        H: Fn(E),

        requires
            self.callable::<E>(update),
        ensures
            exists|answers: Answers| self.chosen_by_guards(update, answers, done.ran),
            self.ran_and_routed::<E>(update, done),
    {
        let eval = |guard: &'a G, subject: Subject<'a>| -> (answer: bool)
            requires
                call_requires(*guard, (subject,)),
            ensures
                call_ensures(*guard, (subject,), answer),
            { guard(subject) };
        let decision = self.decide(update, eval);
        let ghost answers = choose|answers: Answers|
            self.decided_by(update, eval, answers, decision@);
        assert(self.guards_say(update, answers));
        let (ran, result) = match decision {
            Decision::Matched { chain, branch, action, argument } => {
                (Ran::Main { chain, branch }, action(argument))
            },
            Decision::FellBack { chain, fallback } => (Ran::Fallback { chain }, fallback()),
            Decision::Unmatched => (Ran::Nothing, Ok(())),
        };
        assert(self.gave(update, ran, result));
        let done = match result {
            Ok(_) => Dispatched { ran, failed: false },
            Err(error) => {
                let handler = self.error_handler();
                handler(error);
                Dispatched { ran, failed: true }
            },
        };
        assert(self.routed(result, done.failed));
        assert(self.chosen_by_guards(update, answers, done.ran));
        done
    }

    /// Routes the result of the action that a decision named: a failure goes
    /// to the error handler, together with its error; a success goes nowhere.
    pub fn route<E>(&self, result: Result<(), E>) -> (failure: Option<(&H, E)>)
        ensures
            match result {
                Ok(_) => failure is None,
                Err(error) => failure == Some((&self.handler(), error)),
            },
    {
        match result {
            Ok(_) => None,
            Err(error) => Some((&self.error_handler, error)),
        }
    }
}

} // verus!
