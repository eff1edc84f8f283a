use nparrot::capture::CaptureAdapter;
use nparrot::dispatch::{listen_for_messages, DispatchLoop, LoopState};
use nparrot::handler::{ControlSignal, Handler};
use nparrot::message::{
    DecodedMessage, Envelope, Identity, RawEvent, SourceItem, Target, TransportError,
    GIFT_WRAP_KIND, PRIVATE_DIRECT_MESSAGE_KIND,
};
use nparrot::print::PrintAdapter;

fn alice() -> Identity {
    Identity::new(vec![0xa1; 32])
}

fn bob() -> Identity {
    Identity::new(vec![0xb0; 32])
}

fn us() -> Identity {
    Identity::new(vec![0x05; 32])
}

fn elsewhere() -> Identity {
    Identity::new(vec![0x0e; 32])
}

fn target() -> Target {
    Target::new(alice(), us())
}

fn event(outer: u16, inner: u16, sender: Identity, channel: Identity, content: &str) -> SourceItem {
    SourceItem::Event(RawEvent {
        kind: outer,
        payload: Some(Envelope {
            kind: inner,
            message: DecodedMessage { sender, channel, content: content.to_string() },
        }),
    })
}

fn matching(content: &str) -> SourceItem {
    event(GIFT_WRAP_KIND, PRIVATE_DIRECT_MESSAGE_KIND, alice(), us(), content)
}

fn undecodable() -> SourceItem {
    SourceItem::Event(RawEvent { kind: GIFT_WRAP_KIND, payload: None })
}

fn failure(reason: &str) -> SourceItem {
    SourceItem::Failure(TransportError { reason: reason.to_string() })
}

#[test]
fn kind_numbers_are_those_of_the_protocol() {
    assert_eq!(GIFT_WRAP_KIND, 1059);
    assert_eq!(PRIVATE_DIRECT_MESSAGE_KIND, 14);
}

#[test]
fn identities_compare_by_key() {
    assert!(alice().same_as(&alice()));
    assert!(!alice().same_as(&bob()));
    assert!(Identity::new(vec![]).same_as(&Identity::new(vec![])));
    assert!(!Identity::new(vec![1, 2, 3]).same_as(&Identity::new(vec![1, 2])));
    assert!(!Identity::new(vec![1, 2]).same_as(&Identity::new(vec![1, 2, 3])));
    assert!(!Identity::new(vec![1, 2, 3]).same_as(&Identity::new(vec![1, 2, 4])));
    assert!(!Identity::new(vec![9, 2, 3]).same_as(&Identity::new(vec![1, 2, 3])));
    assert!(Identity::new(vec![1, 2, 3]).same_as(&Identity::new(vec![1, 2, 3]).clone()));
}

#[test]
fn target_accepts_only_its_sender_and_channel() {
    let message = |sender: Identity, channel: Identity| DecodedMessage {
        sender,
        channel,
        content: "hi".to_string(),
    };
    assert!(target().accepts(&message(alice(), us())));
    assert!(!target().accepts(&message(bob(), us())));
    assert!(!target().accepts(&message(alice(), elsewhere())));
    assert!(!target().accepts(&message(bob(), elsewhere())));
}

#[test]
fn subscription_asks_for_new_gift_wraps_of_the_channel() {
    let subscription = target().subscription();
    assert_eq!(subscription.recipient, us());
    assert_eq!(subscription.kind, 1059);
    assert_eq!(subscription.limit, 0);
    let through_loop = DispatchLoop::new(target()).subscription();
    assert_eq!(through_loop, subscription);
}

#[test]
fn only_gift_wraps_need_unwrapping() {
    assert!(RawEvent::needs_unwrapping(1059));
    assert!(!RawEvent::needs_unwrapping(14));
    assert!(!RawEvent::needs_unwrapping(1));
    assert!(!RawEvent::needs_unwrapping(0));
    assert!(!RawEvent::needs_unwrapping(1058));
    assert!(!RawEvent::needs_unwrapping(1060));
}

#[test]
fn decode_gives_the_message_of_a_wrapped_direct_message() {
    let message = DecodedMessage { sender: alice(), channel: us(), content: "x".to_string() };
    let wrapped = |outer: u16, inner: u16| RawEvent {
        kind: outer,
        payload: Some(Envelope { kind: inner, message: message.clone() }),
    };
    assert_eq!(wrapped(1059, 14).decode(), Some(&message));
    assert_eq!(wrapped(1059, 1).decode(), None);
    assert_eq!(wrapped(1059, 1059).decode(), None);
    assert_eq!(wrapped(14, 14).decode(), None);
    assert_eq!(wrapped(1, 14).decode(), None);
    assert_eq!(RawEvent { kind: 1059, payload: None }.decode(), None);
    assert_eq!(RawEvent { kind: 14, payload: None }.decode(), None);
}

#[test]
fn non_matching_stream_never_invokes_the_handler() {
    let items = vec![
        event(GIFT_WRAP_KIND, PRIVATE_DIRECT_MESSAGE_KIND, bob(), us(), "wrong sender"),
        event(GIFT_WRAP_KIND, PRIVATE_DIRECT_MESSAGE_KIND, alice(), elsewhere(), "wrong channel"),
        event(GIFT_WRAP_KIND, 1, alice(), us(), "not a direct message"),
        event(1, PRIVATE_DIRECT_MESSAGE_KIND, alice(), us(), "not a gift wrap"),
        undecodable(),
        SourceItem::Other,
    ];
    let mut printer = PrintAdapter::new();
    assert_eq!(listen_for_messages(target(), &items, &mut printer), Ok(()));
    assert!(printer.take_lines().is_empty());

    let mut capture = CaptureAdapter::new();
    assert_eq!(listen_for_messages(target(), &items, &mut capture), Ok(()));
    assert!(capture.into_message().is_err());
}

#[test]
fn handler_is_invoked_in_delivery_order() {
    let items = vec![
        matching("one"),
        SourceItem::Other,
        matching("two"),
        event(GIFT_WRAP_KIND, PRIVATE_DIRECT_MESSAGE_KIND, bob(), us(), "noise"),
        matching("three"),
        undecodable(),
        matching("one"),
    ];
    let mut printer = PrintAdapter::new();
    assert_eq!(listen_for_messages(target(), &items, &mut printer), Ok(()));
    assert_eq!(printer.take_lines(), vec!["one", "two", "three", "one"]);
}

#[test]
fn empty_stream_ends_in_success() {
    let mut printer = PrintAdapter::new();
    assert_eq!(listen_for_messages(target(), &Vec::new(), &mut printer), Ok(()));
    assert!(printer.take_lines().is_empty());
}

#[test]
fn transport_failure_ends_the_run_with_the_error() {
    let items = vec![matching("before"), failure("relay gone"), matching("after")];
    let mut printer = PrintAdapter::new();
    assert_eq!(
        listen_for_messages(target(), &items, &mut printer),
        Err(TransportError { reason: "relay gone".to_string() })
    );
    assert_eq!(printer.take_lines(), vec!["before"]);
}

#[test]
fn first_of_two_failures_is_the_one_returned() {
    let items = vec![failure("first"), failure("second")];
    let mut printer = PrintAdapter::new();
    assert_eq!(
        listen_for_messages(target(), &items, &mut printer),
        Err(TransportError { reason: "first".to_string() })
    );
}

#[test]
fn stop_ends_the_run_before_a_later_failure() {
    let items = vec![matching("A"), failure("too late")];
    let mut capture = CaptureAdapter::new();
    assert_eq!(listen_for_messages(target(), &items, &mut capture), Ok(()));
    assert_eq!(capture.into_message(), Ok("A".to_string()));
}

#[test]
fn loop_starts_subscribing_and_listens_once_subscribed() {
    let mut dispatch = DispatchLoop::new(target());
    assert!(!dispatch.is_listening());
    assert_eq!(dispatch.outcome(), None);
    dispatch.subscribed();
    assert!(dispatch.is_listening());
    assert_eq!(dispatch.outcome(), None);
    dispatch.subscribed();
    assert!(dispatch.is_listening());
}

#[test]
fn items_offered_before_the_subscription_are_ignored() {
    let mut dispatch = DispatchLoop::new(target());
    let mut printer = PrintAdapter::new();
    dispatch.offer(&matching("early"), &mut printer);
    dispatch.offer(&failure("early"), &mut printer);
    assert!(printer.take_lines().is_empty());
    assert_eq!(dispatch.outcome(), None);
    dispatch.subscribed();
    assert!(dispatch.is_listening());
}

#[test]
fn failed_subscription_stops_the_loop_with_the_error() {
    let mut dispatch = DispatchLoop::new(target());
    dispatch.source_failed(TransportError { reason: "refused".to_string() });
    assert_eq!(dispatch.outcome(), Some(Err(TransportError { reason: "refused".to_string() })));
    dispatch.subscribed();
    assert!(!dispatch.is_listening());
}

#[test]
fn listening_loop_steps_item_by_item() {
    let mut dispatch = DispatchLoop::new(target());
    dispatch.subscribed();
    let mut printer = PrintAdapter::new();
    dispatch.offer(&SourceItem::Other, &mut printer);
    assert!(dispatch.is_listening());
    assert!(printer.take_lines().is_empty());
    dispatch.offer(&matching("a"), &mut printer);
    assert!(dispatch.is_listening());
    assert_eq!(printer.take_lines(), vec!["a"]);
    dispatch.offer(&event(GIFT_WRAP_KIND, PRIVATE_DIRECT_MESSAGE_KIND, bob(), us(), "b"), &mut printer);
    assert!(dispatch.is_listening());
    assert!(printer.take_lines().is_empty());
    dispatch.offer(&failure("down"), &mut printer);
    assert!(!dispatch.is_listening());
    assert_eq!(dispatch.outcome(), Some(Err(TransportError { reason: "down".to_string() })));
}

#[test]
fn stopped_loop_does_not_resume() {
    let mut dispatch = DispatchLoop::new(target());
    dispatch.subscribed();
    let mut capture = CaptureAdapter::new();
    dispatch.offer(&matching("A"), &mut capture);
    assert_eq!(dispatch.outcome(), Some(Ok(())));
    dispatch.offer(&matching("B"), &mut capture);
    dispatch.offer(&failure("late"), &mut capture);
    dispatch.source_failed(TransportError { reason: "later".to_string() });
    dispatch.source_ended();
    dispatch.subscribed();
    assert_eq!(dispatch.outcome(), Some(Ok(())));
    assert_eq!(capture.into_message(), Ok("A".to_string()));

    let mut failed = DispatchLoop::new(target());
    failed.subscribed();
    let mut printer = PrintAdapter::new();
    failed.offer(&failure("first"), &mut printer);
    failed.offer(&matching("ignored"), &mut printer);
    failed.source_ended();
    failed.source_failed(TransportError { reason: "second".to_string() });
    assert_eq!(failed.outcome(), Some(Err(TransportError { reason: "first".to_string() })));
    assert!(printer.take_lines().is_empty());
}

#[test]
fn end_of_source_stops_a_listening_loop_in_success() {
    let mut dispatch = DispatchLoop::new(target());
    dispatch.source_ended();
    assert_eq!(dispatch.outcome(), None);
    dispatch.subscribed();
    dispatch.source_ended();
    assert_eq!(dispatch.outcome(), Some(Ok(())));
}

#[test]
fn loop_states_are_distinct() {
    assert_ne!(LoopState::Subscribing, LoopState::Listening);
    assert_ne!(LoopState::StoppedSuccess, LoopState::Listening);
    assert_ne!(
        LoopState::StoppedError(TransportError { reason: "a".to_string() }),
        LoopState::StoppedError(TransportError { reason: "b".to_string() })
    );
}

#[test]
fn signals_are_two_distinct_values() {
    assert_ne!(ControlSignal::Continue, ControlSignal::Stop);
    let mut printer = PrintAdapter::new();
    assert_eq!(printer.on_message("x".to_string()), ControlSignal::Continue);
    let mut capture = CaptureAdapter::new();
    assert_eq!(capture.on_message("x".to_string()), ControlSignal::Stop);
}
