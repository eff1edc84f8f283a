use nparrot::dispatch::listen_for_messages;
use nparrot::handler::{ControlSignal, Handler};
use nparrot::message::{DecodedMessage, Envelope, Identity, RawEvent, SourceItem, Target};
use nparrot::print::PrintAdapter;

fn message(content: &str) -> DecodedMessage {
    DecodedMessage {
        sender: Identity::new(vec![1, 2, 3]),
        channel: Identity::new(vec![4, 5, 6]),
        content: content.to_string(),
    }
}

fn delivered(message: &DecodedMessage) -> SourceItem {
    SourceItem::Event(RawEvent {
        kind: 1059,
        payload: Some(Envelope { kind: 14, message: message.clone() }),
    })
}

#[test]
fn duplicate_delivery_is_emitted_twice() {
    let once = message("again");
    let items = vec![delivered(&once), delivered(&once)];
    let target = Target::new(Identity::new(vec![1, 2, 3]), Identity::new(vec![4, 5, 6]));
    let mut printer = PrintAdapter::new();
    assert_eq!(listen_for_messages(target, &items, &mut printer), Ok(()));
    assert_eq!(printer.take_lines(), vec!["again", "again"]);
}

#[test]
fn same_content_fed_twice_gives_two_lines() {
    let mut printer = PrintAdapter::new();
    let once = message("twice");
    assert_eq!(printer.on_message(once.content.clone()), ControlSignal::Continue);
    assert_eq!(printer.on_message(once.content.clone()), ControlSignal::Continue);
    assert_eq!(printer.take_lines(), vec!["twice", "twice"]);
}

#[test]
fn fresh_printer_has_no_lines() {
    assert!(PrintAdapter::new().take_lines().is_empty());
}

#[test]
fn taking_the_lines_empties_the_queue() {
    let mut printer = PrintAdapter::new();
    printer.on_message("first".to_string());
    assert_eq!(printer.take_lines(), vec!["first"]);
    assert!(printer.take_lines().is_empty());
    printer.on_message("second".to_string());
    printer.on_message("third".to_string());
    assert_eq!(printer.take_lines(), vec!["second", "third"]);
}

#[test]
fn lines_are_kept_as_they_are() {
    let mut printer = PrintAdapter::new();
    printer.on_message("".to_string());
    printer.on_message("two\nlines".to_string());
    printer.on_message("  padded  ".to_string());
    assert_eq!(printer.take_lines(), vec!["", "two\nlines", "  padded  "]);
}
