use messaging::reassembly::{Ingestor, LoopAction, PendingTable, ReadOutcome};
use messaging::record::Fragment;

fn fragment(author: &str, text: &str, continues: bool) -> Fragment {
    Fragment { author: author.to_string(), text: text.to_string(), continues }
}

#[test]
fn continuation_then_final_makes_one_record() {
    let mut table = PendingTable::new();
    assert!(table.ingest(fragment("X", "ab", true)).is_none());
    assert_eq!(table.len(), 1);
    let r = table.ingest(fragment("X", "c", false)).expect("record");
    assert_eq!(r.author, "X");
    assert_eq!(r.body, "abc");
    assert_eq!(table.len(), 0);
}

#[test]
fn interleaved_authors_do_not_mix() {
    let mut s = Ingestor::new();
    let mut out = Vec::new();
    for line in ["X,a$", "Y,b$", "X,c", "Y,d"] {
        if let Some(r) = s.accept_line(line) {
            out.push((r.author, r.body));
        }
    }
    assert_eq!(
        out,
        vec![("X".to_string(), "ac".to_string()), ("Y".to_string(), "bd".to_string())]
    );
    assert_eq!(s.pending_count(), 0);
}

#[test]
fn final_fragment_without_pending_text() {
    let mut table = PendingTable::new();
    let r = table.ingest(fragment("Bob", "Hi", false)).expect("record");
    assert_eq!(r.author, "Bob");
    assert_eq!(r.body, "Hi");
    assert_eq!(table.len(), 0);
}

#[test]
fn three_continuations_join_in_order() {
    let mut s = Ingestor::new();
    assert!(s.accept_line("A,1$\n").is_none());
    assert!(s.accept_line("A,2$\n").is_none());
    assert!(s.accept_line("B,x$\n").is_none());
    assert_eq!(s.pending_count(), 2);
    let r = s.accept_line("A,3\n").expect("record");
    assert_eq!(r.body, "123");
    assert_eq!(s.pending_count(), 1);
}

#[test]
fn unterminated_continuation_stays_pending() {
    let mut s = Ingestor::new();
    assert!(s.accept_line("Ghost,never ends$").is_none());
    assert!(s.accept_line("Other,done").is_some());
    assert_eq!(s.pending_count(), 1);
}

#[test]
fn empty_final_fragment_completes_pending_text() {
    let mut s = Ingestor::new();
    assert!(s.accept_line("A,abc$").is_none());
    let r = s.accept_line("A,").expect("record");
    assert_eq!(r.body, "abc");
}

#[test]
fn loop_submits_completed_records_and_stops_at_end() {
    let mut s = Ingestor::new();
    assert!(matches!(s.on_read(ReadOutcome::Line("Alice,Hello wor$\n".to_string())), LoopAction::ReadOn));
    match s.on_read(ReadOutcome::Line("Alice,ld\n".to_string())) {
        LoopAction::Submit(r) => {
            assert_eq!(r.author, "Alice");
            assert_eq!(r.body, "Hello world");
        }
        _ => panic!("expected a record"),
    }
    assert!(matches!(s.on_read(ReadOutcome::Line("Carol,pending$".to_string())), LoopAction::ReadOn));
    assert!(matches!(s.on_read(ReadOutcome::Ended), LoopAction::Stop));
    assert_eq!(s.pending_count(), 1);
}
