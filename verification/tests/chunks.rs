use unidiffr::chunk::{parse_chunk_header, DiffChunk};
use unidiffr::error::ErrorKind;
use unidiffr::line::LineAction;

fn rejected(line: &str) {
    let error = parse_chunk_header(line).unwrap_err();
    assert_eq!(error.kind(), ErrorKind::Format, "{:?}", line);
    assert_eq!(error.description(), "chunk header misformatted", "{:?}", line);
}

#[test]
fn chunk_header_numbers() {
    assert_eq!(parse_chunk_header("@@ -1,2 +3,4 @@").unwrap(), (1, 2, 3, 4));
    assert_eq!(parse_chunk_header("@@ -6,3 +6,4 @@").unwrap(), (6, 3, 6, 4));
    assert_eq!(parse_chunk_header("@@ -0,0 +0,0 @@").unwrap(), (0, 0, 0, 0));
    assert_eq!(
        parse_chunk_header("@@ -1234,56789 +101112,13141516 @@").unwrap(),
        (1234, 56789, 101112, 13141516)
    );
}

#[test]
fn chunk_header_written_from_numbers() {
    let samples: [i64; 8] = [0, 1, 9, 10, 99, 100, 4294967296, i64::MAX];
    for a in samples {
        for d in samples {
            let line = format!("@@ -{},{} +{},{} @@", a, 7, 4096, d);
            assert_eq!(parse_chunk_header(&line).unwrap(), (a, 7, 4096, d));
        }
    }
}

#[test]
fn chunk_header_largest_and_smallest_numbers() {
    assert_eq!(
        parse_chunk_header("@@ -9223372036854775807,2 +3,-9223372036854775808 @@").unwrap(),
        (i64::MAX, 2, 3, i64::MIN)
    );
    rejected("@@ -9223372036854775808,2 +3,4 @@");
    rejected("@@ -1,2 +3,-9223372036854775809 @@");
    rejected("@@ -1,2 +3,99999999999999999999999999999999 @@");
    rejected("@@ -1,18446744073709551617 +3,4 @@");
    rejected("@@ -1,92233720368547758070 +3,4 @@");
}

#[test]
fn chunk_header_signs_and_leading_zeros() {
    assert_eq!(parse_chunk_header("@@ --1,+2 +-3,4 @@").unwrap(), (-1, 2, -3, 4));
    assert_eq!(parse_chunk_header("@@ -+1,2 ++3,4 @@").unwrap(), (1, 2, 3, 4));
    assert_eq!(parse_chunk_header("@@ -001,0002 +03,4 @@").unwrap(), (1, 2, 3, 4));
    assert_eq!(parse_chunk_header("@@ --0,2 +3,4 @@").unwrap(), (0, 2, 3, 4));
    assert_eq!(
        parse_chunk_header("@@ -0000000000000000000000009223372036854775807,2 +3,4 @@").unwrap(),
        (i64::MAX, 2, 3, 4)
    );
    rejected("@@ ---1,2 +3,4 @@");
    rejected("@@ -+-1,2 +3,4 @@");
    rejected("@@ --,2 +3,4 @@");
}

#[test]
fn chunk_header_without_a_count_is_rejected() {
    rejected("@@ -1 +1 @@");
    rejected("@@ -1,2 +3 @@");
    rejected("@@ -1 +3,4 @@");
}

#[test]
fn chunk_header_with_a_wrong_delimiter_is_rejected() {
    rejected("");
    rejected("@@");
    rejected("@@ ");
    rejected("@@ -");
    rejected("@@ -1");
    rejected("@@ -1,");
    rejected("@@ -1,2");
    rejected("@@ -1,2 +");
    rejected("@@ -1,2 +3");
    rejected("@@ -1,2 +3,");
    rejected("@@ -1,2 +3,4");
    rejected("@@ -1,2 +3,4 ");
    rejected("@@ -1,2 +3,4 @");
    rejected("@ -1,2 +3,4 @@");
    rejected("@@ 1,2 +3,4 @@");
    rejected("@@ -1;2 +3,4 @@");
    rejected("@@ -1,2 3,4 @@");
    rejected("@@ -1,2 -3,4 @@");
    rejected("@@ -1,2 +3.4 @@");
    rejected("@@ -1,2 +3,4 @@@");
    rejected("## -1,2 +3,4 ##");
}

#[test]
fn chunk_header_with_other_spacing_is_rejected() {
    rejected(" @@ -1,2 +3,4 @@");
    rejected("@@  -1,2 +3,4 @@");
    rejected("@@ - 1,2 +3,4 @@");
    rejected("@@ -1 ,2 +3,4 @@");
    rejected("@@ -1, 2 +3,4 @@");
    rejected("@@ -1,2  +3,4 @@");
    rejected("@@ -1,2\t+3,4 @@");
    rejected("@@ -1,2 +3,4  @@");
    rejected("@@ -1,2 +3,4 @@ ");
    rejected("@@-1,2 +3,4@@");
}

#[test]
fn chunk_header_with_something_after_it_is_rejected() {
    rejected("@@ -1,2 +3,4 @@ fn main() {");
    rejected("@@ -1,2 +3,4 @@@@ -1,2 +3,4 @@");
}

#[test]
fn chunk_header_with_other_fields_is_rejected() {
    rejected("@@ -a,2 +3,4 @@");
    rejected("@@ -1,b +3,4 @@");
    rejected("@@ -1,2 +c,4 @@");
    rejected("@@ -1,2 +3,d @@");
    rejected("@@ -,2 +3,4 @@");
    rejected("@@ -1,2 +3, @@");
    rejected("@@ -0x1,2 +3,4 @@");
    rejected("@@ -1.5,2 +3,4 @@");
    rejected("@@ -\u{661},2 +3,4 @@");
    rejected("@@ -\u{ff11},2 +3,4 @@");
}

#[test]
fn chunk_accessors() {
    let chunk = DiffChunk::from(&["@@ -10,20 +30,40 @@", "+x", " y"]).unwrap();
    assert_eq!(chunk.pre_start_line(), 10);
    assert_eq!(chunk.pre_num_lines(), 20);
    assert_eq!(chunk.post_start_line(), 30);
    assert_eq!(chunk.post_num_lines(), 40);
    assert_eq!(
        chunk.lines(),
        &vec![(LineAction::Add, "x".to_string()), (LineAction::Keep, "y".to_string())]
    );
}

#[test]
fn chunk_counts_are_not_held_against_the_body() {
    let chunk = DiffChunk::from(&["@@ -1,100 +1,200 @@", "+only"]).unwrap();
    assert_eq!(chunk.pre_num_lines(), 100);
    assert_eq!(chunk.post_num_lines(), 200);
    assert_eq!(chunk.lines().len(), 1);
}

#[test]
fn chunk_without_body() {
    let chunk = DiffChunk::from(&["@@ -1,2 +3,4 @@"]).unwrap();
    assert_eq!(chunk, DiffChunk::new(1, 2, 3, 4, vec![]));
    assert!(chunk.lines().is_empty());
}

#[test]
fn chunk_without_lines_is_rejected() {
    let none: [&str; 0] = [];
    let error = DiffChunk::from(&none).unwrap_err();
    assert_eq!(error.kind(), ErrorKind::Format);
    assert_eq!(error.description(), "chunk misformatted");
}

#[test]
fn chunk_with_a_bad_header_is_rejected() {
    let error = DiffChunk::from(&["@@ -1 +3,4 @@", "+x"]).unwrap_err();
    assert_eq!(error.kind(), ErrorKind::Format);
    assert_eq!(error.description(), "chunk header misformatted");
    let error = DiffChunk::from(&[" x", "+x"]).unwrap_err();
    assert_eq!(error.description(), "chunk header misformatted");
}

#[test]
fn chunk_with_a_bad_body_line_is_rejected() {
    for bad in ["*x", "", "x", "@@ -1,2 +3,4 @@"] {
        let error = DiffChunk::from(&["@@ -1,2 +3,4 @@", "+x", bad, " y"]).unwrap_err();
        assert_eq!(error.kind(), ErrorKind::Format);
        assert_eq!(error.description(), "bad line prefix");
    }
}

#[test]
fn chunk_header_error_comes_before_body_error() {
    let error = DiffChunk::from(&["@@ -1,2 +3,4", "*x"]).unwrap_err();
    assert_eq!(error.description(), "chunk header misformatted");
}

#[test]
fn chunk_body_keeps_white_space() {
    let chunk = DiffChunk::from(&["@@ -1,2 +3,4 @@", " \tindented ", "+", "-  "]).unwrap();
    assert_eq!(
        chunk.lines(),
        &vec![
            (LineAction::Keep, "\tindented ".to_string()),
            (LineAction::Add, "".to_string()),
            (LineAction::Remove, "  ".to_string()),
        ]
    );
}
