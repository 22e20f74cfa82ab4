use dispatching::bot::Bot;
use dispatching::dummies::text_message;
use dispatching::types::{CallbackQuery, Chat, Message, MessageKind, Update, UpdateKind};

#[test]
fn update_new_keeps_its_parts() {
    let update = Update::new(42, UpdateKind::Message(text_message("hello")));
    assert_eq!(update.id, 42);
    assert_eq!(update.message().unwrap().text(), Some("hello"));
    assert!(update.callback_query().is_none());
}

#[test]
fn a_callback_query_update_has_no_message() {
    let query = CallbackQuery { id: String::from("id"), data: Some(String::from("data")) };
    let update = Update::new(-1, UpdateKind::CallbackQuery(query));
    assert!(update.message().is_none());
    let query = update.callback_query().unwrap();
    assert_eq!(query.id, "id");
    assert_eq!(query.data.as_deref(), Some("data"));
}

#[test]
fn only_an_ordinary_message_with_text_has_text() {
    let empty = Message { id: 1, chat: Chat { id: 9 }, kind: MessageKind::Common { text: None } };
    assert_eq!(empty.text(), None);
    assert_eq!(empty.chat_id(), 9);
    let service = Message {
        id: 2,
        chat: Chat { id: i64::MIN },
        kind: MessageKind::NewChatTitle { title: String::from("title") },
    };
    assert_eq!(service.text(), None);
    assert_eq!(service.chat_id(), i64::MIN);
    assert_eq!(text_message("").text(), Some(""));
}

#[test]
fn a_bot_keeps_the_last_token_it_was_given() {
    assert_eq!(Bot::builder().token("a").token("b").build().token(), "b");
    assert_eq!(Bot::builder().build().token(), "");
}
