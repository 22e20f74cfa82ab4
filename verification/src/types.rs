//! The updates a dispatcher receives.

use vstd::prelude::*;

verus! {

/// The conversation a message belongs to.
#[derive(Clone, Debug, PartialEq, Eq)]
pub struct Chat {
    pub id: i64,
}

/// What a message carries.
#[derive(Clone, Debug, PartialEq, Eq)]
pub enum MessageKind {
    /// An ordinary message written by a user; it may have text.
    Common { text: Option<String> },
    /// A service message announcing a new chat title.
    NewChatTitle { title: String },
}

/// A message sent to a chat.
#[derive(Clone, Debug, PartialEq, Eq)]
pub struct Message {
    pub id: i32,
    pub chat: Chat,
    pub kind: MessageKind,
}

/// A press on an inline keyboard button.
#[derive(Clone, Debug, PartialEq, Eq)]
pub struct CallbackQuery {
    pub id: String,
    pub data: Option<String>,
}

/// The payload of an update: exactly one of the event kinds.
#[derive(Clone, Debug, PartialEq, Eq)]
pub enum UpdateKind {
    Message(Message),
    CallbackQuery(CallbackQuery),
}

/// One incoming event.
#[derive(Clone, Debug, PartialEq, Eq)]
pub struct Update {
    pub id: i32,
    pub kind: UpdateKind,
}

impl Message {
    /// Whether the message is an ordinary user message.
    pub open spec fn is_common(&self) -> bool {
        self.kind is Common
    }

    /// The characters of the text, where the message has one.
    pub open spec fn text_view(&self) -> Option<Seq<char>> {
        match self.kind {
            MessageKind::Common { text: Some(t) } => Some(t@),
            _ => None,
        }
    }

    /// The text of an ordinary message; `None` for a message without text and
    /// for a service message.
    pub fn text(&self) -> (text: Option<&str>)
        ensures
            match text {
                Some(s) => self.text_view() == Some(s@),
                None => self.text_view() is None,
            },
    {
        match &self.kind {
            MessageKind::Common { text: Some(t) } => Some(t.as_str()),
            _ => None,
        }
    }

    /// The identifier of the chat the message was sent to.
    pub fn chat_id(&self) -> (id: i64)
        ensures
            id == self.chat.id,
    {
        self.chat.id
    }
}

impl Update {
    /// An update with the given identifier and payload.
    pub fn new(id: i32, kind: UpdateKind) -> (update: Update)
        ensures
            update == (Update { id, kind }),
    {
        Update { id, kind }
    }

    /// The message of a message update.
    pub open spec fn message_view(&self) -> Option<Message> {
        match self.kind {
            UpdateKind::Message(m) => Some(m),
            _ => None,
        }
    }

    /// The callback query of a callback-query update.
    pub open spec fn callback_query_view(&self) -> Option<CallbackQuery> {
        match self.kind {
            UpdateKind::CallbackQuery(q) => Some(q),
            _ => None,
        }
    }

    /// The characters of the text of a message update with text.
    pub open spec fn text_view(&self) -> Option<Seq<char>> {
        match self.kind {
            UpdateKind::Message(m) => m.text_view(),
            _ => None,
        }
    }

    /// The chat identifier of a message update.
    pub open spec fn chat_id_view(&self) -> Option<i64> {
        match self.kind {
            UpdateKind::Message(m) => Some(m.chat.id),
            _ => None,
        }
    }

    /// The message, where the update is a message update.
    pub fn message(&self) -> (message: Option<&Message>)
        ensures
            match message {
                Some(m) => self.message_view() == Some(*m),
                None => self.message_view() is None,
            },
    {
        match &self.kind {
            UpdateKind::Message(m) => Some(m),
            _ => None,
        }
    }

    /// The callback query, where the update is a callback-query update.
    pub fn callback_query(&self) -> (query: Option<&CallbackQuery>)
        ensures
            match query {
                Some(q) => self.callback_query_view() == Some(*q),
                None => self.callback_query_view() is None,
            },
    {
        match &self.kind {
            UpdateKind::CallbackQuery(q) => Some(q),
            _ => None,
        }
    }
}

} // verus!
