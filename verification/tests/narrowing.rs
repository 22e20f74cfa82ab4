use dispatching::dummies::{dummy_bot, text_message};
use dispatching::injection::{Injected, Injection};
use dispatching::narrowing::{Field, Filter, Narrowed, Payload, Subject};
use dispatching::types::{CallbackQuery, Chat, Message, MessageKind, Update, UpdateKind};

fn text_update() -> Update {
    Update::new(0, UpdateKind::Message(text_message("text")))
}

fn service_update() -> Update {
    Update::new(
        1,
        UpdateKind::Message(Message {
            id: 5,
            chat: Chat { id: -4 },
            kind: MessageKind::NewChatTitle { title: String::from("title") },
        }),
    )
}

fn query_update() -> Update {
    Update::new(2, UpdateKind::CallbackQuery(CallbackQuery { id: String::from("q"), data: None }))
}

#[test]
fn filters_admit_the_updates_they_are_for() {
    let all = [Filter::Any, Filter::Message, Filter::CommonMessage, Filter::CallbackQuery, Filter::Nothing];
    let on_text = [true, true, true, false, false];
    let on_service = [true, true, false, false, false];
    let on_query = [true, false, false, true, false];
    for k in 0..all.len() {
        assert_eq!(all[k].check(&text_update()), on_text[k]);
        assert_eq!(all[k].check(&service_update()), on_service[k]);
        assert_eq!(all[k].check(&query_update()), on_query[k]);
    }
}

#[test]
fn common_is_the_meet_with_ordinary_messages() {
    assert_eq!(Filter::Any.common(), Filter::CommonMessage);
    assert_eq!(Filter::Message.common(), Filter::CommonMessage);
    assert_eq!(Filter::CommonMessage.common(), Filter::CommonMessage);
    assert_eq!(Filter::CallbackQuery.common(), Filter::Nothing);
    assert_eq!(Filter::Nothing.common(), Filter::Nothing);
}

#[test]
fn a_filter_supplies_the_payload_it_narrows_to_and_the_update() {
    let all = [Filter::Any, Filter::Message, Filter::CommonMessage, Filter::CallbackQuery, Filter::Nothing];
    let message = [false, true, true, false, true];
    let query = [false, false, false, true, true];
    for k in 0..all.len() {
        assert!(all[k].can_supply(Narrowed::Update));
        assert_eq!(all[k].can_supply(Narrowed::Message), message[k]);
        assert_eq!(all[k].can_supply(Narrowed::CallbackQuery), query[k]);
    }
}

#[test]
fn project_takes_the_field_out_of_the_update() {
    let update = text_update();
    assert!(matches!(Field::Update.project(&update), Some(Subject::Update(u)) if u.id == 0));
    assert!(matches!(Field::Message.project(&update), Some(Subject::Message(m)) if m.text() == Some("text")));
    assert!(matches!(Field::Text.project(&update), Some(Subject::Text("text"))));
    assert!(matches!(Field::ChatId.project(&update), Some(Subject::ChatId(0))));
}

#[test]
fn project_gives_nothing_where_the_update_lacks_the_field() {
    let service = service_update();
    assert!(Field::Text.project(&service).is_none());
    assert!(matches!(Field::ChatId.project(&service), Some(Subject::ChatId(-4))));
    assert!(matches!(Field::Message.project(&service), Some(Subject::Message(m)) if m.id == 5));
    let query = query_update();
    assert!(matches!(Field::Update.project(&query), Some(Subject::Update(u)) if u.id == 2));
    assert!(Field::Message.project(&query).is_none());
    assert!(Field::Text.project(&query).is_none());
    assert!(Field::ChatId.project(&query).is_none());
}

#[test]
fn extract_borrows_the_payload_of_the_kind() {
    let update = text_update();
    assert!(matches!(Narrowed::Update.extract(&update), Some(Payload::Update(u)) if u.id == 0));
    let payload = Narrowed::Message.extract(&update).unwrap();
    assert_eq!(payload.message().unwrap().text(), Some("text"));
    assert!(Narrowed::CallbackQuery.extract(&update).is_none());
    let query = query_update();
    assert!(matches!(Narrowed::CallbackQuery.extract(&query), Some(Payload::CallbackQuery(q)) if q.id == "q"));
    assert!(Narrowed::Message.extract(&query).is_none());
    assert!(Narrowed::Update.extract(&query).unwrap().message().is_none());
}

#[test]
fn inject_builds_what_the_action_asked_for() {
    let bot = dummy_bot();
    let update = text_update();
    assert!(matches!(Injection::Nothing.inject(&update, &bot, "name"), Some(Injected::Nothing)));
    assert!(matches!(
        Injection::Payload(Narrowed::Message).inject(&update, &bot, "name"),
        Some(Injected::Payload(Payload::Message(m))) if m.text() == Some("text")
    ));
    match Injection::WithCx(Narrowed::Message).inject(&update, &bot, "name") {
        Some(Injected::WithCx(cx)) => {
            assert_eq!(cx.bot_name, "name");
            assert_eq!(cx.bot.token(), "");
            assert_eq!(cx.update.message().unwrap().chat_id(), 0);
        }
        _ => panic!("the update has a message"),
    }
    assert!(Injection::Payload(Narrowed::CallbackQuery).inject(&update, &bot, "name").is_none());
    assert!(Injection::WithCx(Narrowed::CallbackQuery).inject(&update, &bot, "name").is_none());
    assert!(matches!(
        Injection::WithCx(Narrowed::Update).inject(&query_update(), &bot, "name"),
        Some(Injected::WithCx(cx)) if matches!(cx.update, Payload::Update(u) if u.id == 2)
    ));
}

#[test]
fn requested_is_the_payload_kind_of_the_injection() {
    assert_eq!(Injection::Nothing.requested(), None);
    assert_eq!(Injection::Payload(Narrowed::Update).requested(), Some(Narrowed::Update));
    assert_eq!(Injection::WithCx(Narrowed::CallbackQuery).requested(), Some(Narrowed::CallbackQuery));
}
