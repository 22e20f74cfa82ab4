use dispatching::chain::ChainError;
use dispatching::injection::Injection;
use dispatching::dummies::text_message;
use dispatching::matcher::{Matcher, Probe};
use dispatching::narrowing::{Field, Filter, Narrowed, Subject};
use dispatching::types::{CallbackQuery, Update, UpdateKind};
use dispatching::updates;

fn text_update(text: &str) -> Update {
    Update::new(0, UpdateKind::Message(text_message(text)))
}

fn query_update() -> Update {
    Update::new(1, UpdateKind::CallbackQuery(CallbackQuery { id: String::from("q"), data: Some(String::from("d")) }))
}

#[test]
fn a_new_matcher_has_one_branch_without_guards() {
    let matcher: Matcher<u8> = updates::message();
    assert_eq!(matcher.branch_count(), 1);
    assert_eq!(matcher.guard_count(0), Some(0));
    assert_eq!(matcher.guard_count(1), None);
}

#[test]
fn with_appends_to_the_branch_under_construction() {
    let matcher = updates::message().with_text(1u8).with_chat_id(2u8);
    assert_eq!(matcher.branch_count(), 1);
    assert_eq!(matcher.guard_count(0), Some(2));
    let update = text_update("text");
    assert!(matches!(
        matcher.settle(&update, 0, 0),
        Probe::Ask { guard: &1, subject: Subject::Text("text"), branch: 0, index: 0 }
    ));
    assert!(matches!(
        matcher.settle(&update, 0, 1),
        Probe::Ask { guard: &2, subject: Subject::ChatId(0), branch: 0, index: 1 }
    ));
    assert!(matches!(matcher.settle(&update, 0, 2), Probe::Accept { branch: 0 }));
}

#[test]
fn or_with_repeats_the_branch_with_another_terminal_guard() {
    let matcher = updates::message().with_message(1u8).with_text(2u8).or_with_chat_id(3u8);
    assert_eq!(matcher.branch_count(), 2);
    assert_eq!(matcher.guard_count(0), Some(2));
    assert_eq!(matcher.guard_count(1), Some(2));
    let update = text_update("text");
    assert!(matches!(
        matcher.settle(&update, 1, 0),
        Probe::Ask { guard: &1, subject: Subject::Message(_), branch: 1, index: 0 }
    ));
    assert!(matches!(
        matcher.settle(&update, 1, 1),
        Probe::Ask { guard: &3, subject: Subject::ChatId(0), branch: 1, index: 1 }
    ));
}

#[test]
fn or_with_on_a_branch_without_guards_adds_a_branch_of_one_guard() {
    let matcher = updates::message().or_with_text(5u8);
    assert_eq!(matcher.branch_count(), 2);
    assert_eq!(matcher.guard_count(0), Some(0));
    assert_eq!(matcher.guard_count(1), Some(1));
    let update = text_update("text");
    assert!(matches!(matcher.settle(&update, 0, 0), Probe::Accept { branch: 0 }));
    assert!(matches!(
        matcher.settle(&update, 1, 0),
        Probe::Ask { guard: &5, subject: Subject::Text("text"), branch: 1, index: 0 }
    ));
}

#[test]
fn or_tries_the_other_matcher_after_this_one_from_the_update_as_it_came() {
    let matcher = updates::callback_query()
        .with_update(1u8)
        .or(updates::message().common().with_text(2u8).or_with_text(3u8));
    assert_eq!(matcher.branch_count(), 3);
    let update = text_update("text");
    assert!(matches!(
        matcher.settle(&update, 0, 0),
        Probe::Ask { guard: &2, subject: Subject::Text("text"), branch: 1, index: 0 }
    ));
    assert!(matches!(
        matcher.settle(&update, 2, 0),
        Probe::Ask { guard: &3, subject: Subject::Text("text"), branch: 2, index: 0 }
    ));
    let query = query_update();
    assert!(matches!(
        matcher.settle(&query, 0, 0),
        Probe::Ask { guard: &1, subject: Subject::Update(_), branch: 0, index: 0 }
    ));
    assert!(matches!(matcher.settle(&query, 1, 0), Probe::Reject));
}

#[test]
fn with_after_or_extends_the_last_branch_only() {
    let matcher = updates::message().with_text(1u8).or(updates::message().with_text(2u8)).with_chat_id(3u8);
    assert_eq!(matcher.guard_count(0), Some(1));
    assert_eq!(matcher.guard_count(1), Some(2));
    let update = text_update("text");
    assert!(matches!(matcher.settle(&update, 0, 1), Probe::Accept { branch: 0 }));
    assert!(matches!(
        matcher.settle(&update, 1, 1),
        Probe::Ask { guard: &3, subject: Subject::ChatId(0), branch: 1, index: 1 }
    ));
}

#[test]
fn settling_past_the_last_branch_rejects() {
    let matcher = updates::message().with_text(1u8);
    let update = text_update("text");
    assert!(matches!(matcher.settle(&update, 1, 0), Probe::Reject));
    assert!(matches!(matcher.settle(&update, usize::MAX, usize::MAX), Probe::Reject));
}

#[test]
fn common_narrows_the_branch_under_construction() {
    let matcher = updates::callback_query::<u8>().common();
    assert!(matches!(matcher.settle(&query_update(), 0, 0), Probe::Reject));
    assert!(matches!(matcher.settle(&text_update("text"), 0, 0), Probe::Reject));
    let matcher = updates::any::<u8>().common();
    assert!(matches!(matcher.settle(&text_update("text"), 0, 0), Probe::Accept { branch: 0 }));
    assert!(matches!(matcher.settle(&query_update(), 0, 0), Probe::Reject));
}

#[test]
fn first_lacking_names_the_first_branch_that_cannot_supply_the_payload() {
    let matcher = updates::message::<u8>().or(updates::any()).or(updates::callback_query());
    assert_eq!(matcher.first_lacking(Narrowed::Update), None);
    assert_eq!(matcher.first_lacking(Narrowed::Message), Some(1));
    assert_eq!(matcher.first_lacking(Narrowed::CallbackQuery), Some(0));
    assert_eq!(updates::callback_query::<u8>().common().first_lacking(Narrowed::Message), None);
}

#[test]
fn by_refuses_an_action_whose_payload_a_branch_cannot_supply() {
    let built = updates::message::<u8>()
        .common()
        .or(updates::callback_query())
        .by::<u8, u8>(Injection::Payload(Narrowed::Message), 1);
    assert!(matches!(built, Err(ChainError::PayloadUnavailable { branch: 1 })));
    let built = updates::message::<u8>().or_else(2u8).by(Injection::WithCx(Narrowed::CallbackQuery), 1u8);
    assert!(matches!(built, Err(ChainError::PayloadUnavailable { branch: 0 })));
}

#[test]
fn by_keeps_the_parts_of_the_chain() {
    let chain = updates::message::<u8>()
        .with_text(7)
        .or_else(2u16)
        .by(Injection::WithCx(Narrowed::Message), 3u32)
        .unwrap();
    assert_eq!(chain.matcher().guard_count(0), Some(1));
    assert_eq!(chain.fallback(), Some(&2));
    assert_eq!(*chain.action(), 3);
    assert_eq!(chain.injection(), Injection::WithCx(Narrowed::Message));
    let chain = updates::any::<u8>().by::<u16, u32>(Injection::Nothing, 4).unwrap();
    assert_eq!(chain.fallback(), None);
    assert_eq!(chain.injection().requested(), None);
}

#[test]
fn a_matcher_can_be_built_on_any_narrowing_and_field() {
    let matcher = Matcher::new(Filter::CommonMessage).with(Field::Text, 1u8).or_with(Field::Message, 2u8);
    let update = text_update("text");
    assert!(matches!(
        matcher.settle(&update, 1, 0),
        Probe::Ask { guard: &2, subject: Subject::Message(_), branch: 1, index: 0 }
    ));
}
