//! Narrowing an update: which updates a branch is for, and which part of an
//! update a guard looks at.

use vstd::prelude::*;
use crate::types::{CallbackQuery, Message, Update, UpdateKind};

verus! {

/// The updates a branch of a matcher is for. Narrowing comes before every
/// guard of the branch.
#[derive(Clone, Copy, Debug, PartialEq, Eq, Structural)]
pub enum Filter {
    /// Every update.
    Any,
    /// Message updates.
    Message,
    /// Message updates whose message is an ordinary user message.
    CommonMessage,
    /// Callback-query updates.
    CallbackQuery,
    /// No update at all: what is left when two narrowings exclude each other.
    Nothing,
}

/// The part of an update that a guard is a predicate over.
#[derive(Clone, Copy, Debug, PartialEq, Eq, Structural)]
pub enum Field {
    /// The whole update.
    Update,
    /// The message of a message update.
    Message,
    /// The text of a message.
    Text,
    /// The identifier of the chat of a message.
    ChatId,
}

/// The payload an update has been narrowed to.
#[derive(Clone, Copy, Debug, PartialEq, Eq, Structural)]
pub enum Narrowed {
    Update,
    Message,
    CallbackQuery,
}

/// The value a guard is evaluated on.
#[derive(Clone, Copy, Debug)]
pub enum Subject<'a> {
    Update(&'a Update),
    Message(&'a Message),
    Text(&'a str),
    ChatId(i64),
}

/// The narrowed payload of an update, borrowed from it.
#[derive(Clone, Copy, Debug)]
pub enum Payload<'a> {
    Update(&'a Update),
    Message(&'a Message),
    CallbackQuery(&'a CallbackQuery),
}

impl Filter {
    /// Whether the filter lets the update through.
    pub open spec fn admits(self, update: &Update) -> bool {
        match self {
            Filter::Any => true,
            Filter::Message => update.kind is Message,
            Filter::CommonMessage => update.kind matches UpdateKind::Message(m) && m.is_common(),
            Filter::CallbackQuery => update.kind is CallbackQuery,
            Filter::Nothing => false,
        }
    }

    /// The filter narrowed to ordinary user messages.
    pub open spec fn spec_common(self) -> Filter {
        match self {
            Filter::Any | Filter::Message | Filter::CommonMessage => Filter::CommonMessage,
            Filter::CallbackQuery | Filter::Nothing => Filter::Nothing,
        }
    }

    /// The payload kind the filter narrows an update to.
    pub open spec fn narrows_to(self) -> Narrowed {
        match self {
            Filter::Message | Filter::CommonMessage => Narrowed::Message,
            Filter::CallbackQuery => Narrowed::CallbackQuery,
            Filter::Any | Filter::Nothing => Narrowed::Update,
        }
    }

    /// Whether every update the filter admits has a payload of the given kind.
    pub open spec fn supplies(self, kind: Narrowed) -> bool {
        self == Filter::Nothing || kind == Narrowed::Update || self.narrows_to() == kind
    }

    /// Tests an update against the filter.
    pub fn check(self, update: &Update) -> (admitted: bool)
        ensures
            admitted == self.admits(update),
    {
        match self {
            Filter::Any => true,
            Filter::Message => match &update.kind {
                UpdateKind::Message(_) => true,
                _ => false,
            },
            Filter::CommonMessage => match &update.kind {
                UpdateKind::Message(m) => match &m.kind {
                    crate::types::MessageKind::Common { .. } => true,
                    _ => false,
                },
                _ => false,
            },
            Filter::CallbackQuery => match &update.kind {
                UpdateKind::CallbackQuery(_) => true,
                _ => false,
            },
            Filter::Nothing => false,
        }
    }

    /// Narrows the filter to ordinary user messages: the result admits exactly
    /// the updates that `self` admits and that carry such a message.
    pub fn common(self) -> (narrowed: Filter)
        ensures
            narrowed == self.spec_common(),
            forall|update: &Update|
                #[trigger] narrowed.admits(update) <==> self.admits(update)
                    && Filter::CommonMessage.admits(update),
    {
        match self {
            Filter::Any | Filter::Message | Filter::CommonMessage => Filter::CommonMessage,
            Filter::CallbackQuery | Filter::Nothing => Filter::Nothing,
        }
    }

    /// Decides whether the filter supplies a payload of the given kind.
    pub fn can_supply(self, kind: Narrowed) -> (supplied: bool)
        ensures
            supplied == self.supplies(kind),
    {
        match (self, kind) {
            (Filter::Nothing, _) => true,
            (_, Narrowed::Update) => true,
            (Filter::Message, Narrowed::Message) => true,
            (Filter::CommonMessage, Narrowed::Message) => true,
            (Filter::CallbackQuery, Narrowed::CallbackQuery) => true,
            _ => false,
        }
    }
}

impl Field {
    /// Whether the update has the field. A guard over a field that the update
    /// lacks fails without being evaluated.
    pub open spec fn available(self, update: &Update) -> bool {
        match self {
            Field::Update => true,
            Field::Message => update.kind is Message,
            Field::Text => update.text_view() is Some,
            Field::ChatId => update.kind is Message,
        }
    }

    /// Takes the field out of the update: `None` exactly where the update
    /// lacks it.
    pub fn project<'a>(self, update: &'a Update) -> (subject: Option<Subject<'a>>)
        ensures
            subject is Some <==> self.available(update),
            subject matches Some(s) ==> s.presents(self, update),
    {
        match self {
            Field::Update => Some(Subject::Update(update)),
            Field::Message => match &update.kind {
                UpdateKind::Message(m) => Some(Subject::Message(m)),
                _ => None,
            },
            Field::Text => match &update.kind {
                UpdateKind::Message(m) => match m.text() {
                    Some(text) => Some(Subject::Text(text)),
                    None => None,
                },
                _ => None,
            },
            Field::ChatId => match &update.kind {
                UpdateKind::Message(m) => Some(Subject::ChatId(m.chat.id)),
                _ => None,
            },
        }
    }
}

impl<'a> Subject<'a> {
    /// Whether the subject is the given field of the update, unmodified.
    pub open spec fn presents(self, field: Field, update: &Update) -> bool {
        match self {
            Subject::Update(u) => field == Field::Update && *u == *update,
            Subject::Message(m) => field == Field::Message && update.message_view() == Some(*m),
            Subject::Text(t) => field == Field::Text && update.text_view() == Some(t@),
            Subject::ChatId(id) => field == Field::ChatId && update.chat_id_view() == Some(id),
        }
    }
}

impl Narrowed {
    /// Whether the update has a payload of this kind.
    pub open spec fn present(self, update: &Update) -> bool {
        match self {
            Narrowed::Update => true,
            Narrowed::Message => update.kind is Message,
            Narrowed::CallbackQuery => update.kind is CallbackQuery,
        }
    }

    /// Borrows the payload of this kind from the update: `None` exactly where
    /// the update has none.
    pub fn extract<'a>(self, update: &'a Update) -> (payload: Option<Payload<'a>>)
        ensures
            payload is Some <==> self.present(update),
            payload matches Some(p) ==> p.carries(self, update),
    {
        match self {
            Narrowed::Update => Some(Payload::Update(update)),
            Narrowed::Message => match &update.kind {
                UpdateKind::Message(m) => Some(Payload::Message(m)),
                _ => None,
            },
            Narrowed::CallbackQuery => match &update.kind {
                UpdateKind::CallbackQuery(q) => Some(Payload::CallbackQuery(q)),
                _ => None,
            },
        }
    }
}

impl<'a> Payload<'a> {
    /// Whether the payload is the one of the given kind that the update
    /// carries, unmodified.
    pub open spec fn carries(self, kind: Narrowed, update: &Update) -> bool {
        match self {
            Payload::Update(u) => kind == Narrowed::Update && *u == *update,
            Payload::Message(m) => kind == Narrowed::Message && update.message_view() == Some(*m),
            Payload::CallbackQuery(q) => kind == Narrowed::CallbackQuery
                && update.callback_query_view() == Some(*q),
        }
    }

    /// The message, where the payload is one.
    pub fn message(&self) -> (message: Option<&'a Message>)
        ensures
            message == match *self {
                Payload::Message(m) => Some(m),
                _ => None,
            },
    {
        match self {
            Payload::Message(m) => Some(*m),
            _ => None,
        }
    }
}

} // verus!
