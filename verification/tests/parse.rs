use chrono::offset::TimeZone;
use chrono::{DateTime, Datelike, FixedOffset, Timelike};
use unidiffr::chunk::DiffChunk;
use unidiffr::diff::Unidiff;
use unidiffr::header::DiffHeader;
use unidiffr::line::LineAction;
use unidiffr::timestamp::Timestamp;

fn fields_of(time: DateTime<FixedOffset>) -> Timestamp {
    Timestamp {
        year: time.year(),
        month: time.month(),
        day: time.day(),
        hour: time.hour(),
        minute: time.minute(),
        second: time.second(),
        nanosecond: time.nanosecond(),
        offset_seconds: time.offset().local_minus_utc(),
    }
}

#[test]
#[allow(deprecated)]
fn unidiff_test_parse() {
    let file_text = "\
--- a/foo/bar/baz\t1981-03-14 01:23:45.010101 +0800
+++ b/foo/baz\t2030-03-14 01:23:45.010101 +0600
@@ -1,3 +1,4 @@
 abc
-def
+egh
+ijk
 lmn
@@ -6,3 +6,4 @@
 why
-aer
+are
+you
 reading\
    ";
    let lines = file_text.split('\n').collect::<Vec<_>>();
    let parsed_diff = Unidiff::from(&lines).unwrap();

    let diff = Unidiff::new(
        DiffHeader::new(
            "a/foo/bar/baz".to_string(),
            fields_of(
                FixedOffset::east(8 * 3600)
                    .ymd(1981, 3, 14)
                    .and_hms_nano(01, 23, 45, 010101000),
            ),
            "b/foo/baz".to_string(),
            fields_of(
                FixedOffset::east(6 * 3600)
                    .ymd(2030, 3, 14)
                    .and_hms_nano(01, 23, 45, 010101000),
            ),
        ),
        vec![
            DiffChunk::new(
                1,
                3,
                1,
                4,
                vec![
                    (LineAction::Keep, "abc".to_string()),
                    (LineAction::Remove, "def".to_string()),
                    (LineAction::Add, "egh".to_string()),
                    (LineAction::Add, "ijk".to_string()),
                    (LineAction::Keep, "lmn".to_string()),
                ],
            ),
            DiffChunk::new(
                6,
                3,
                6,
                4,
                vec![
                    (LineAction::Keep, "why".to_string()),
                    (LineAction::Remove, "aer".to_string()),
                    (LineAction::Add, "are".to_string()),
                    (LineAction::Add, "you".to_string()),
                    (LineAction::Keep, "reading".to_string()),
                ],
            ),
        ],
    );

    assert_eq!(diff, parsed_diff);
}

#[test]
#[allow(deprecated)]
fn diff_header_test_parse() {
    let from_file = "a/foo/bar/baz";
    let to_file = "a/foo/baz";
    let from_datetime_str = "1981-03-14 01:23:45.010101 +0800";
    let to_datetime_str = "2030-03-14 01:23:45.010101 +0600";

    let from_datetime = FixedOffset::east(8 * 3600)
        .ymd(1981, 3, 14)
        .and_hms_nano(01, 23, 45, 010101000);
    let to_datetime = FixedOffset::east(6 * 3600)
        .ymd(2030, 3, 14)
        .and_hms_nano(01, 23, 45, 010101000);

    let header = DiffHeader::new(
        from_file.to_string(),
        fields_of(from_datetime),
        to_file.to_string(),
        fields_of(to_datetime),
    );

    let parsed_header = DiffHeader::from(
        format!("--- {} {}", from_file, from_datetime_str).as_ref(),
        format!("+++ {} {}", to_file, to_datetime_str).as_ref(),
    )
    .unwrap();

    assert_eq!(header, parsed_header);
}

#[test]
fn diff_chunk_test_parse() {
    let chunk_lines = &[
        "@@ -1,2 +3,4 @@",
        " a",
        "-b",
        "+c",
        "-d",
        " e",
    ];

    let diff_chunk = DiffChunk::new(
        1,
        2,
        3,
        4,
        vec![
            (LineAction::Keep, "a".to_string()),
            (LineAction::Remove, "b".to_string()),
            (LineAction::Add, "c".to_string()),
            (LineAction::Remove, "d".to_string()),
            (LineAction::Keep, "e".to_string()),
        ],
    );

    let from_chunk_res = DiffChunk::from(&chunk_lines[..]);
    assert!(from_chunk_res.is_ok());
    let from_chunk = from_chunk_res.unwrap();
    assert_eq!(diff_chunk, from_chunk);
}

#[test]
fn it_works() {
}
