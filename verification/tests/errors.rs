use unidiffr::error::{Error, ErrorKind};

#[test]
fn format_error_keeps_its_message() {
    let error = Error::from("diff misformatted");
    assert_eq!(error.kind(), ErrorKind::Format);
    assert_eq!(error.description(), "diff misformatted");
    assert_eq!(error.to_string(), "diff misformatted".to_string());
}

#[test]
fn timestamp_error_keeps_its_message() {
    let error = Error::timestamp("timestamp misformatted");
    assert_eq!(error.kind(), ErrorKind::Timestamp);
    assert_eq!(error.description(), "timestamp misformatted");
    assert_eq!(error.to_string(), "timestamp misformatted".to_string());
}

#[test]
fn error_with_empty_message() {
    let error = Error::from("");
    assert_eq!(error.kind(), ErrorKind::Format);
    assert_eq!(error.description(), "");
}
