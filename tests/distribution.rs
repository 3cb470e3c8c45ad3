use messaging::chat::{ChatAction, ChatState};
use messaging::hub::{Delivery, Hub};
use messaging::reassembly::Ingestor;
use messaging::record::Record;
use messaging::store::MessageLog;

fn drain(hub: &mut Hub, i: usize) -> Vec<(String, String)> {
    let mut out = Vec::new();
    loop {
        match hub.recv(i) {
            Delivery::Record(r) => out.push((r.author, r.body)),
            Delivery::Empty => return out,
            Delivery::Closed => return out,
        }
    }
}

#[test]
fn every_consumer_gets_every_record_in_order() {
    let mut hub = Hub::new(2);
    for (a, b) in [("A", "1"), ("B", "2"), ("A", "3")] {
        assert!(hub.send(Record::new(a, b)).is_ok());
    }
    let first = drain(&mut hub, 0);
    let second = drain(&mut hub, 1);
    let expected = vec![
        ("A".to_string(), "1".to_string()),
        ("B".to_string(), "2".to_string()),
        ("A".to_string(), "3".to_string()),
    ];
    assert_eq!(first, expected);
    assert_eq!(second, expected);
}

#[test]
fn closed_hub_drains_then_reports_closed() {
    let mut hub = Hub::new(1);
    assert!(hub.send(Record::new("A", "last")).is_ok());
    hub.close();
    assert!(hub.is_closed());
    match hub.recv(0) {
        Delivery::Record(r) => assert_eq!(r.body, "last"),
        _ => panic!("expected the queued record"),
    }
    assert!(matches!(hub.recv(0), Delivery::Closed));
    assert!(matches!(hub.recv(0), Delivery::Closed));
}

#[test]
fn open_hub_with_nothing_queued_is_empty() {
    let mut hub = Hub::new(1);
    assert!(matches!(hub.recv(0), Delivery::Empty));
}

#[test]
fn send_without_consumers_is_refused() {
    let mut hub = Hub::new(0);
    assert_eq!(hub.consumers(), 0);
    let back = hub.send(Record::new("A", "lost")).unwrap_err();
    assert_eq!(back.author, "A");
    assert_eq!(back.body, "lost");
}

#[test]
fn send_after_close_is_refused() {
    let mut hub = Hub::new(2);
    hub.close();
    assert!(hub.send(Record::new("A", "late")).is_err());
    assert!(matches!(hub.recv(1), Delivery::Closed));
}

#[test]
fn lines_reach_console_and_store() {
    let mut ingest = Ingestor::new();
    let mut hub = Hub::new(2);
    for line in ["Alice,Hello wor$", "Alice,ld", "Bob,Hi"] {
        if let Some(r) = ingest.accept_line(line) {
            assert!(hub.send(r).is_ok());
        }
    }
    hub.close();

    let mut console = Vec::new();
    loop {
        match hub.recv(0) {
            Delivery::Record(r) => console.push(r.console_line()),
            Delivery::Empty => panic!("closed hub reported empty"),
            Delivery::Closed => break,
        }
    }
    assert_eq!(console, vec!["Alice: Hello world".to_string(), "Bob: Hi".to_string()]);

    let mut log = MessageLog::new();
    while let Delivery::Record(r) = hub.recv(1) {
        log.append(r);
    }
    let snap = log.snapshot();
    assert_eq!(log.len(), 2);
    assert_eq!(snap[0].author, "Alice");
    assert_eq!(snap[0].body, "Hello world");
    assert_eq!(snap[1].author, "Bob");
    assert_eq!(snap[1].body, "Hi");
}

#[test]
fn log_keeps_order_of_appends() {
    let mut log = MessageLog::new();
    assert_eq!(log.len(), 0);
    log.append(Record::new("P", "one"));
    log.append(Record::new("Q", "two"));
    let snap = log.snapshot();
    assert_eq!(snap.len(), 2);
    assert_eq!(snap[0].body, "one");
    assert_eq!(snap[1].author, "Q");
}

#[test]
fn chat_sends_typed_text() {
    let mut s = ChatState::new();
    assert_eq!(s.title(), "Messaging app");
    s.update(ChatAction::InputChanged("hello".to_string()));
    assert_eq!(s.input, "hello");
    assert!(s.messages.is_empty());
    s.update(ChatAction::AddMessage);
    assert_eq!(s.input, "");
    assert_eq!(s.messages.len(), 1);
    assert_eq!(s.messages[0].author, "Cheuk Yin Ng");
    assert_eq!(s.messages[0].body, "hello");
}
