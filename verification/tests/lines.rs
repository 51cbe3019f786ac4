use unidiffr::error::ErrorKind;
use unidiffr::line::{classify_line, LineAction};

#[test]
fn added_line() {
    let (action, content) = classify_line("+egh").unwrap();
    assert_eq!(action, LineAction::Add);
    assert_eq!(content, "egh");
}

#[test]
fn removed_line() {
    let (action, content) = classify_line("-def").unwrap();
    assert_eq!(action, LineAction::Remove);
    assert_eq!(content, "def");
}

#[test]
fn kept_line() {
    let (action, content) = classify_line(" abc").unwrap();
    assert_eq!(action, LineAction::Keep);
    assert_eq!(content, "abc");
}

#[test]
fn content_is_not_trimmed() {
    let (action, content) = classify_line("+  two spaces, a tab\t and a trailing space ").unwrap();
    assert_eq!(action, LineAction::Add);
    assert_eq!(content, "  two spaces, a tab\t and a trailing space ");
    let (action, content) = classify_line("  ").unwrap();
    assert_eq!(action, LineAction::Keep);
    assert_eq!(content, " ");
}

#[test]
fn only_the_first_character_is_removed() {
    let (action, content) = classify_line("++x").unwrap();
    assert_eq!(action, LineAction::Add);
    assert_eq!(content, "+x");
    let (action, content) = classify_line("--- x").unwrap();
    assert_eq!(action, LineAction::Remove);
    assert_eq!(content, "-- x");
}

#[test]
fn line_with_prefix_only() {
    let (action, content) = classify_line("-").unwrap();
    assert_eq!(action, LineAction::Remove);
    assert_eq!(content, "");
}

#[test]
fn content_beyond_ascii_is_kept() {
    let (action, content) = classify_line("+caf\u{e9} \u{2713} \u{1f600}").unwrap();
    assert_eq!(action, LineAction::Add);
    assert_eq!(content, "caf\u{e9} \u{2713} \u{1f600}");
    assert_eq!(content.as_bytes(), "caf\u{e9} \u{2713} \u{1f600}".as_bytes());
}

#[test]
fn empty_line_is_rejected() {
    let error = classify_line("").unwrap_err();
    assert_eq!(error.kind(), ErrorKind::Format);
    assert_eq!(error.description(), "bad line prefix");
}

#[test]
fn other_prefix_is_rejected() {
    for line in ["*abc", "abc", "@@ -1,2 +3,4 @@", "\tabc", "\\ No newline at end of file"] {
        let error = classify_line(line).unwrap_err();
        assert_eq!(error.kind(), ErrorKind::Format);
        assert_eq!(error.description(), "bad line prefix");
    }
}

#[test]
fn prefix_of_several_bytes_is_rejected() {
    let error = classify_line("\u{e9}t\u{e9}").unwrap_err();
    assert_eq!(error.kind(), ErrorKind::Format);
    let error = classify_line("\u{a0}abc").unwrap_err();
    assert_eq!(error.kind(), ErrorKind::Format);
}
