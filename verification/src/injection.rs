//! What an action asks to be handed, and what it is handed.

use vstd::prelude::*;
use crate::bot::Bot;
use crate::narrowing::{Narrowed, Payload};
use crate::types::Update;

verus! {

/// The parameter shape of an action, fixed when its chain is built.
#[derive(Clone, Copy, Debug, PartialEq, Eq, Structural)]
pub enum Injection {
    /// The action takes no parameter.
    Nothing,
    /// The action takes the narrowed payload of the given kind.
    Payload(Narrowed),
    /// The action takes the narrowed payload of the given kind together with
    /// the session context.
    WithCx(Narrowed),
}

/// A payload together with the bot session it came in on.
#[derive(Clone, Copy, Debug)]
pub struct UpdateWithCx<'a> {
    pub bot: &'a Bot,
    pub bot_name: &'a str,
    pub update: Payload<'a>,
}

/// The argument handed to an action.
#[derive(Clone, Copy, Debug)]
pub enum Injected<'a> {
    Nothing,
    Payload(Payload<'a>),
    WithCx(UpdateWithCx<'a>),
}

impl Injection {
    /// The payload kind the action asks for, if it asks for one.
    pub open spec fn requests(self) -> Option<Narrowed> {
        match self {
            Injection::Nothing => None,
            Injection::Payload(kind) => Some(kind),
            Injection::WithCx(kind) => Some(kind),
        }
    }

    /// Whether the update can serve the injection.
    pub open spec fn servable(self, update: &Update) -> bool {
        self.requests() matches Some(kind) ==> kind.present(update)
    }

    /// The payload kind the action asks for, if it asks for one.
    pub fn requested(self) -> (kind: Option<Narrowed>)
        ensures
            kind == self.requests(),
    {
        match self {
            Injection::Nothing => None,
            Injection::Payload(kind) => Some(kind),
            Injection::WithCx(kind) => Some(kind),
        }
    }

    /// Builds the argument for an action with this parameter shape: `None`
    /// exactly where the update lacks the payload asked for.
    pub fn inject<'a>(self, update: &'a Update, bot: &'a Bot, bot_name: &'a str) -> (argument:
        Option<Injected<'a>>)
        ensures
            argument is Some <==> self.servable(update),
            argument matches Some(a) ==> a.fulfils(self, update, bot, bot_name@),
    {
        match self {
            Injection::Nothing => Some(Injected::Nothing),
            Injection::Payload(kind) => match kind.extract(update) {
                Some(payload) => Some(Injected::Payload(payload)),
                None => None,
            },
            Injection::WithCx(kind) => match kind.extract(update) {
                Some(payload) => Some(Injected::WithCx(UpdateWithCx { bot, bot_name, update: payload })),
                None => None,
            },
        }
    }
}

impl<'a> Injected<'a> {
    /// Whether the argument is exactly what the injection asks for: nothing,
    /// the payload as the update carries it, or that payload with the session
    /// it came in on.
    pub open spec fn fulfils(self, injection: Injection, update: &Update, bot: &Bot, bot_name: Seq<char>) -> bool {
        match self {
            Injected::Nothing => injection == Injection::Nothing,
            Injected::Payload(payload) => injection matches Injection::Payload(kind)
                && payload.carries(kind, update),
            Injected::WithCx(cx) => {
                &&& injection matches Injection::WithCx(kind) && cx.update.carries(kind, update)
                &&& *cx.bot == *bot
                &&& cx.bot_name@ == bot_name
            },
        }
    }
}

} // verus!
