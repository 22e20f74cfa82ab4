use dispatching::dispatcher::{Decision, Dispatcher, DispatcherBuilder, Step};
use dispatching::dummies::{dummy_bot, text_message};
use dispatching::injection::{Injected, Injection, UpdateWithCx};
use dispatching::narrowing::{Narrowed, Payload, Subject};
use dispatching::types::{CallbackQuery, Message, Update, UpdateKind};
use dispatching::updates;
use std::convert::Infallible;
use std::future::Future;
use std::pin::Pin;
use std::rc::Rc;
use std::sync::atomic::{AtomicBool, AtomicUsize, Ordering};
use std::sync::{Arc, Mutex};
use std::task::Poll;

type Wait<T> = Pin<Box<dyn Future<Output = T>>>;

/// A guard as a host holds it: one that answers at once, or one that answers
/// after a wait.
enum Check {
    Text(Box<dyn Fn(&str) -> bool>),
    ChatId(Box<dyn Fn(&i64) -> Wait<bool>>),
}

type Fallback = Box<dyn Fn()>;
type Action = Box<dyn for<'a> Fn(Injected<'a>)>;
type OnError = Box<dyn Fn(Infallible) -> Wait<()>>;
type Tel = Dispatcher<Check, Fallback, Action, OnError>;

fn with_text(check: impl Fn(&str) -> bool + 'static) -> Check {
    Check::Text(Box::new(check))
}

fn with_chat_id<W: Future<Output = bool> + 'static>(check: impl Fn(&i64) -> W + 'static) -> Check {
    Check::ChatId(Box::new(move |id: &i64| -> Wait<bool> { Box::pin(check(id)) }))
}

fn no_params(action: impl Fn() + 'static) -> Action {
    Box::new(move |_: Injected<'_>| action())
}

fn on_message(action: impl Fn(&Message) + 'static) -> Action {
    Box::new(move |argument: Injected<'_>| match argument {
        Injected::Payload(Payload::Message(message)) => action(message),
        _ => unreachable!(),
    })
}

fn on_cx(action: impl for<'a> Fn(UpdateWithCx<'a>) + 'static) -> Action {
    Box::new(move |argument: Injected<'_>| match argument {
        Injected::WithCx(cx) => action(cx),
        _ => unreachable!(),
    })
}

fn fallback(action: impl Fn() + 'static) -> Fallback {
    Box::new(action)
}

fn on_error<W: Future<Output = ()> + 'static>(handler: impl Fn(Infallible) -> W + 'static) -> OnError {
    Box::new(move |error: Infallible| -> Wait<()> { Box::pin(handler(error)) })
}

async fn answer(check: &Check, subject: Subject<'_>) -> bool {
    match (check, subject) {
        (Check::Text(check), Subject::Text(text)) => check(text),
        (Check::ChatId(check), Subject::ChatId(id)) => check(&id).await,
        _ => unreachable!(),
    }
}

/// Drives one dispatch to its end: awaits each guard the dispatcher asks
/// about, then runs the one action it names.
async fn dispatch_one(dispatcher: &Tel, update: Update) {
    let mut step = dispatcher.begin(&update);
    loop {
        match step {
            Step::Evaluate { guard, subject, at } => {
                let answer = answer(guard, subject).await;
                step = dispatcher.resume(&update, at, answer);
            }
            Step::Decided(Decision::Matched { action, argument, .. }) => {
                action(argument);
                return;
            }
            Step::Decided(Decision::FellBack { fallback, .. }) => {
                fallback();
                return;
            }
            Step::Decided(Decision::Unmatched) => return,
        }
    }
}

fn block_on<W: Future>(wait: W) -> W::Output {
    tokio::runtime::Builder::new_current_thread().build().unwrap().block_on(wait)
}

#[test]
fn test() {
    let handled = Arc::new(AtomicBool::new(false));
    let handled2 = handled.clone();

    let dispatcher = DispatcherBuilder::new(dummy_bot(), "bot_name")
        .handle(
            updates::message()
                .common()
                .by(
                    Injection::Payload(Narrowed::Message),
                    on_message(move |message: &Message| {
                        assert_eq!(message.text().unwrap(), "text");
                        handled2.store(true, Ordering::SeqCst);
                    }),
                )
                .unwrap(),
        )
        .handle(updates::callback_query().by(Injection::Nothing, no_params(move || unreachable!())).unwrap())
        .error_handler(on_error(|_| async { unreachable!() }))
        .build()
        .unwrap();

    let message = Update::new(0, UpdateKind::Message(text_message("text")));

    block_on(dispatch_one(&dispatcher, message));

    assert!(handled.load(Ordering::SeqCst));
}

#[test]
fn or_else() {
    let in_or_else = Arc::new(AtomicBool::new(false));

    let dispatcher = DispatcherBuilder::new(dummy_bot(), "bot_name")
        .handle(
            updates::message()
                .common()
                .with_text(with_text(|text: &str| text == "text"))
                .or_else(fallback({
                    let in_or_else = in_or_else.clone();
                    move || {
                        in_or_else.store(true, Ordering::SeqCst);
                    }
                }))
                .by(Injection::Nothing, no_params(|| unreachable!()))
                .unwrap(),
        )
        .error_handler(on_error(|_| async { unreachable!() }))
        .build()
        .unwrap();

    let message = Update::new(0, UpdateKind::Message(text_message("not_text")));

    block_on(dispatch_one(&dispatcher, message));

    assert!(in_or_else.load(Ordering::SeqCst));
}

#[test]
fn or() {
    let handled = Arc::new(AtomicBool::new(false));

    let dispatcher = DispatcherBuilder::new(dummy_bot(), "bot_name")
        .handle(
            updates::message()
                .common()
                .with_text(with_text(|text: &str| text == "text"))
                .or_with_text(with_text(|text: &str| text == "text2"))
                .by(
                    Injection::Nothing,
                    no_params({
                        let handled = handled.clone();
                        move || handled.store(true, Ordering::SeqCst)
                    }),
                )
                .unwrap(),
        )
        .error_handler(on_error(|_| async { unreachable!() }))
        .build()
        .unwrap();

    let message = Update::new(0, UpdateKind::Message(text_message("text2")));

    block_on(dispatch_one(&dispatcher, message));

    assert!(handled.load(Ordering::SeqCst));
}

#[test]
fn async_guards() {
    let dispatcher = DispatcherBuilder::new(dummy_bot(), "bot_name")
        .handle(
            updates::message()
                .common()
                .with_chat_id(with_chat_id(|id: &i64| {
                    let id = id.clone();
                    async move { id == 10 }
                }))
                .by(
                    Injection::Payload(Narrowed::Message),
                    on_message(|mes: &Message| assert_eq!(mes.chat.id, 10)),
                )
                .unwrap(),
        )
        .error_handler(on_error(|_| async {}))
        .build()
        .unwrap();

    let message = Update::new(0, UpdateKind::Message(text_message("text2")));

    block_on(dispatch_one(&dispatcher, message));
}

#[test]
fn update_with_cx() {
    let dispatcher = DispatcherBuilder::new(dummy_bot(), "bot_name")
        .handle(
            updates::message()
                .common()
                .by(
                    Injection::WithCx(Narrowed::Message),
                    on_cx(|cx: UpdateWithCx<'_>| {
                        assert_eq!(cx.update.message().unwrap().text().unwrap(), "text2")
                    }),
                )
                .unwrap(),
        )
        .error_handler(on_error(|_| async {}))
        .build()
        .unwrap();

    let message = Update::new(0, UpdateKind::Message(text_message("text2")));

    block_on(dispatch_one(&dispatcher, message));
}

#[test]
fn async_guard_that_says_yes_lets_the_action_run() {
    let handled = Arc::new(AtomicBool::new(false));
    let seen = handled.clone();
    let dispatcher = DispatcherBuilder::new(dummy_bot(), "bot_name")
        .handle(
            updates::message()
                .common()
                .with_chat_id(with_chat_id(|id: &i64| {
                    let id = *id;
                    async move { id == 0 }
                }))
                .by(
                    Injection::Payload(Narrowed::Message),
                    on_message(move |mes: &Message| {
                        assert_eq!(mes.chat.id, 0);
                        seen.store(true, Ordering::SeqCst);
                    }),
                )
                .unwrap(),
        )
        .error_handler(on_error(|_| async {}))
        .build()
        .unwrap();

    block_on(dispatch_one(&dispatcher, Update::new(0, UpdateKind::Message(text_message("text2")))));

    assert!(handled.load(Ordering::SeqCst));
}

#[test]
fn the_context_names_the_bot_of_the_builder() {
    let checked = Arc::new(AtomicBool::new(false));
    let seen = checked.clone();
    let dispatcher = DispatcherBuilder::new(dummy_bot(), "bot_name")
        .handle(
            updates::message()
                .by(
                    Injection::WithCx(Narrowed::Update),
                    on_cx(move |cx: UpdateWithCx<'_>| {
                        assert_eq!(cx.bot_name, "bot_name");
                        assert_eq!(cx.bot.token(), "");
                        assert!(matches!(cx.update, Payload::Update(update) if update.id == 7));
                        seen.store(true, Ordering::SeqCst);
                    }),
                )
                .unwrap(),
        )
        .error_handler(on_error(|_| async {}))
        .build()
        .unwrap();

    block_on(dispatch_one(&dispatcher, Update::new(7, UpdateKind::Message(text_message("hi")))));

    assert!(checked.load(Ordering::SeqCst));
}

#[test]
fn only_the_earlier_of_two_matching_chains_runs() {
    let first = Arc::new(AtomicUsize::new(0));
    let second = Arc::new(AtomicUsize::new(0));
    let dispatcher = DispatcherBuilder::new(dummy_bot(), "bot_name")
        .handle(
            updates::message()
                .by(
                    Injection::Nothing,
                    no_params({
                        let first = first.clone();
                        move || {
                            first.fetch_add(1, Ordering::SeqCst);
                        }
                    }),
                )
                .unwrap(),
        )
        .handle(
            updates::message()
                .common()
                .by(
                    Injection::Nothing,
                    no_params({
                        let second = second.clone();
                        move || {
                            second.fetch_add(1, Ordering::SeqCst);
                        }
                    }),
                )
                .unwrap(),
        )
        .error_handler(on_error(|_| async {}))
        .build()
        .unwrap();

    block_on(dispatch_one(&dispatcher, Update::new(0, UpdateKind::Message(text_message("text")))));

    assert_eq!(first.load(Ordering::SeqCst), 1);
    assert_eq!(second.load(Ordering::SeqCst), 0);
}

#[test]
fn a_later_branch_is_not_evaluated_once_a_branch_accepts() {
    let handled = Arc::new(AtomicBool::new(false));
    let dispatcher = DispatcherBuilder::new(dummy_bot(), "bot_name")
        .handle(
            updates::message()
                .common()
                .with_text(with_text(|text: &str| text == "text"))
                .or_with_text(with_text(|_: &str| unreachable!()))
                .by(
                    Injection::Nothing,
                    no_params({
                        let handled = handled.clone();
                        move || handled.store(true, Ordering::SeqCst)
                    }),
                )
                .unwrap(),
        )
        .error_handler(on_error(|_| async {}))
        .build()
        .unwrap();

    block_on(dispatch_one(&dispatcher, Update::new(0, UpdateKind::Message(text_message("text")))));

    assert!(handled.load(Ordering::SeqCst));
}

#[test]
fn an_update_that_no_chain_is_for_is_dropped() {
    let dispatcher = DispatcherBuilder::new(dummy_bot(), "bot_name")
        .handle(
            updates::message()
                .with_text(with_text(|_: &str| unreachable!()))
                .by(Injection::Nothing, no_params(|| unreachable!()))
                .unwrap(),
        )
        .error_handler(on_error(|_| async { unreachable!() }))
        .build()
        .unwrap();

    let query = CallbackQuery { id: String::from("q"), data: None };
    block_on(dispatch_one(&dispatcher, Update::new(1, UpdateKind::CallbackQuery(query))));
}

#[test]
fn a_guard_that_waits_does_not_hold_up_another_dispatch() {
    let released = Arc::new(AtomicBool::new(false));
    let order = Arc::new(Mutex::new(Vec::new()));
    let dispatcher = Rc::new(
        DispatcherBuilder::new(dummy_bot(), "bot_name")
            .handle(
                updates::message()
                    .common()
                    .with_text(with_text(|text: &str| text == "slow"))
                    .with_chat_id(with_chat_id({
                        let released = released.clone();
                        move |_: &i64| {
                            let released = released.clone();
                            std::future::poll_fn(move |cx| {
                                if released.load(Ordering::SeqCst) {
                                    Poll::Ready(true)
                                } else {
                                    cx.waker().wake_by_ref();
                                    Poll::Pending
                                }
                            })
                        }
                    }))
                    .by(
                        Injection::Nothing,
                        no_params({
                            let order = order.clone();
                            move || order.lock().unwrap().push("slow")
                        }),
                    )
                    .unwrap(),
            )
            .handle(
                updates::message()
                    .common()
                    .with_text(with_text(|text: &str| text == "fast"))
                    .by(
                        Injection::Nothing,
                        no_params({
                            let order = order.clone();
                            let released = released.clone();
                            move || {
                                order.lock().unwrap().push("fast");
                                released.store(true, Ordering::SeqCst);
                            }
                        }),
                    )
                    .unwrap(),
            )
            .error_handler(on_error(|_| async { unreachable!() }))
            .build()
            .unwrap(),
    );

    let local = tokio::task::LocalSet::new();
    for text in ["slow", "fast"] {
        let dispatcher = dispatcher.clone();
        local.spawn_local(async move {
            dispatch_one(&dispatcher, Update::new(0, UpdateKind::Message(text_message(text)))).await;
        });
    }
    block_on(local);

    assert_eq!(*order.lock().unwrap(), vec!["fast", "slow"]);
}
