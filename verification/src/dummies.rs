//! Ready-made values for trying a dispatcher out.

use vstd::prelude::*;
use crate::bot::Bot;
use crate::types::{Chat, Message, MessageKind};

verus! {

/// An ordinary message with the given text, sent to chat 0.
pub fn text_message(text: &str) -> (message: Message)
    ensures
        message.id == 0,
        message.chat.id == 0,
        message.is_common(),
        message.text_view() == Some(text@),
{
    Message { id: 0, chat: Chat { id: 0 }, kind: MessageKind::Common { text: Some(text.to_owned()) } }
}

/// A bot session with the empty token.
pub fn dummy_bot() -> (bot: Bot)
    ensures
        bot.token_view() == Seq::<char>::empty(),
{
    proof {
        reveal_strlit("");
    }
    let bot = Bot::builder().token("").build();
    assert(bot.token_view() =~= Seq::<char>::empty());
    bot
}

} // verus!
