use messaging::record::{parse, Record};

#[test]
fn line_without_delimiter_has_unknown_author() {
    let f = parse("just some words\n");
    assert_eq!(f.author, "Unknown author");
    assert_eq!(f.text, "just some words");
    assert!(!f.continues);
}

#[test]
fn author_and_text_are_split_at_comma() {
    let f = parse("A,B");
    assert_eq!(f.author, "A");
    assert_eq!(f.text, "B");
    assert!(!f.continues);
}

#[test]
fn only_first_comma_splits() {
    let f = parse("Alice,one, two,three\r\n");
    assert_eq!(f.author, "Alice");
    assert_eq!(f.text, "one, two,three");
}

#[test]
fn author_is_not_trimmed() {
    let f = parse(" Bob ,hi");
    assert_eq!(f.author, " Bob ");
    assert_eq!(f.text, "hi");
}

#[test]
fn trailing_marker_means_continuation() {
    let f = parse("Alice,Hello wor$\n");
    assert_eq!(f.author, "Alice");
    assert_eq!(f.text, "Hello wor");
    assert!(f.continues);
}

#[test]
fn only_one_marker_is_stripped() {
    let f = parse("X,ab$$");
    assert_eq!(f.text, "ab$");
    assert!(f.continues);
}

#[test]
fn marker_inside_text_is_kept() {
    let f = parse("X,a$b");
    assert_eq!(f.text, "a$b");
    assert!(!f.continues);
}

#[test]
fn empty_line_is_empty_text_of_unknown_author() {
    let f = parse("\n");
    assert_eq!(f.author, "Unknown author");
    assert_eq!(f.text, "");
    assert!(!f.continues);
}

#[test]
fn unknown_author_continuation() {
    let f = parse("part$\n");
    assert_eq!(f.author, "Unknown author");
    assert_eq!(f.text, "part");
    assert!(f.continues);
}

#[test]
fn non_ascii_text_is_split_by_characters() {
    let f = parse("Zoë,héllo wörld$");
    assert_eq!(f.author, "Zoë");
    assert_eq!(f.text, "héllo wörld");
    assert!(f.continues);
}

#[test]
fn console_line_joins_author_and_body() {
    let r = Record::new("Alice", "Hello world");
    assert_eq!(r.console_line(), "Alice: Hello world");
}

#[test]
fn duplicate_keeps_fields() {
    let r = Record::new("Bob", "Hi");
    let d = r.duplicate();
    assert_eq!(d.author, "Bob");
    assert_eq!(d.body, "Hi");
}
