use dispatching::dummies::{dummy_bot, text_message};

#[test]
fn dummy_bot_has_the_empty_token() {
    assert_eq!(dummy_bot().token(), "");
}

#[test]
fn text_message_carries_its_text() {
    let message = text_message("text");
    assert_eq!(message.text(), Some("text"));
    assert_eq!(message.chat_id(), 0);
    assert_eq!(message.id, 0);
}
