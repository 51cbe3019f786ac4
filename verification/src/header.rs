//! The two header lines of a diff: which files were compared, and when
//! each was last modified.

use vstd::prelude::*;
use crate::error::{format_error, timestamp_error, Error, ErrorView};
use crate::text::{
    all_in, chars_of, is_space, lemma_run_len, lemma_run_len_is, matches_at, non_space, run_len,
    skip_spaces, skip_word, space, stands_at,
};
use crate::timestamp::{parse_timestamp, timestamp_spec, Timestamp};

verus! {

/// The file path and the timestamp text of a header line that starts with
/// `marker`.
///
/// The path is the first run of characters other than white space after
/// the marker. The timestamp text is the rest of the line after the white
/// space that follows the path, as it stands. `None` if the line does not
/// start with the marker, if no path follows it, or if no white space
/// follows the path.
pub open spec fn header_fields(line: Seq<char>, marker: Seq<char>) -> Option<
    (Seq<char>, Seq<char>),
> {
    if !stands_at(line, 0, marker) {
        None
    } else {
        let after = line.skip(marker.len() as int);
        let rest = after.skip(run_len(after, space()) as int);
        let path = rest.take(run_len(rest, non_space()) as int);
        let tail = rest.skip(path.len() as int);
        let gap = run_len(tail, space());
        if path.len() == 0 || gap == 0 {
            None
        } else {
            Some((path, tail.skip(gap as int)))
        }
    }
}

/// A header line put together from its parts is taken apart into the same
/// path and the same timestamp text: the marker, optional white space, a
/// path without white space, white space, and a text that does not start
/// with white space.
pub proof fn lemma_header_fields_of_parts(
    marker: Seq<char>,
    lead: Seq<char>,
    path: Seq<char>,
    gap: Seq<char>,
    time: Seq<char>,
)
    requires
        all_in(lead, space()),
        path.len() > 0,
        all_in(path, non_space()),
        gap.len() > 0,
        all_in(gap, space()),
        time.len() == 0 || !is_space(time[0]),
    ensures
        header_fields(marker + lead + path + gap + time, marker) == Some((path, time)),
{
    let line = marker + lead + path + gap + time;
    assert(line.subrange(0, marker.len() as int) =~= marker);
    let after = line.skip(marker.len() as int);
    assert(after =~= lead + path + gap + time);
    assert(after.take(lead.len() as int) =~= lead);
    assert(after[lead.len() as int] == path[0]);
    assert(non_space()(path[0]));
    lemma_run_len_is(after, space(), lead.len() as int);
    let rest = after.skip(lead.len() as int);
    assert(rest =~= path + gap + time);
    assert(rest.take(path.len() as int) =~= path);
    assert(rest[path.len() as int] == gap[0]);
    assert(space()(gap[0]));
    lemma_run_len_is(rest, non_space(), path.len() as int);
    let tail = rest.skip(path.len() as int);
    assert(tail =~= gap + time);
    assert(tail.take(gap.len() as int) =~= gap);
    if time.len() > 0 {
        assert(tail[gap.len() as int] == time[0]);
    }
    lemma_run_len_is(tail, space(), gap.len() as int);
    assert(tail.skip(gap.len() as int) =~= time);
}

/// Takes a header line apart into the file path and the timestamp text.
///
/// A line without the marker, without a path after it, or without white
/// space after the path is a format error.
pub fn split_header_line<'a>(line: &'a str, marker: &str) -> (r: Result<(&'a str, &'a str), Error>)
    ensures
        match r {
            Ok((path, time)) => header_fields(line@, marker@) == Some((path@, time@)),
            Err(e) => header_fields(line@, marker@) is None && e@ == format_error(
                "header misformatted"@,
            ),
        },
{
    let text = chars_of(line);
    if !matches_at(&text, 0, marker) {
        return Err(Error::from("header misformatted"));
    }
    let path_start = skip_spaces(&text, marker.unicode_len());
    let path_end = skip_word(&text, path_start);
    let time_start = skip_spaces(&text, path_end);
    proof {
        let after = line@.skip(marker@.len() as int);
        lemma_run_len(after, space());
        assert(after.skip(path_start - marker@.len()) =~= line@.skip(path_start as int));
        let rest = line@.skip(path_start as int);
        lemma_run_len(rest, non_space());
        assert(rest.take(path_end - path_start) =~= line@.subrange(
            path_start as int,
            path_end as int,
        ));
        assert(rest.skip(path_end - path_start) =~= line@.skip(path_end as int));
        let tail = line@.skip(path_end as int);
        lemma_run_len(tail, space());
        assert(tail.skip(time_start - path_end) =~= line@.subrange(
            time_start as int,
            line@.len() as int,
        ));
    }
    if path_end == path_start || time_start == path_end {
        return Err(Error::from("header misformatted"));
    }
    let path = line.substring_char(path_start, path_end);
    let time = line.substring_char(time_start, text.len());
    Ok((path, time))
}

/// What a [`DiffHeader`] stands for in contracts.
pub struct HeaderView {
    pub from_file: Seq<char>,
    pub from_file_mod_datetime: Timestamp,
    pub to_file: Seq<char>,
    pub to_file_mod_datetime: Timestamp,
}

/// The header of a diff: the old and the new file, each with the time at
/// which it was last modified.
#[derive(Debug, PartialEq)]
pub struct DiffHeader {
    from_file: String,
    from_file_mod_datetime: Timestamp,
    to_file: String,
    to_file_mod_datetime: Timestamp,
}

impl View for DiffHeader {
    type V = HeaderView;

    closed spec fn view(&self) -> HeaderView {
        HeaderView {
            from_file: self.from_file@,
            from_file_mod_datetime: self.from_file_mod_datetime,
            to_file: self.to_file@,
            to_file_mod_datetime: self.to_file_mod_datetime,
        }
    }
}

/// The header made of two paths and of what was read of the two
/// timestamps: a timestamp error if either could not be read.
pub open spec fn header_of_parts(
    from_file: Seq<char>,
    from_time: Option<Timestamp>,
    to_file: Seq<char>,
    to_time: Option<Timestamp>,
) -> Result<HeaderView, ErrorView> {
    if from_time is Some && to_time is Some {
        Ok(
            HeaderView {
                from_file,
                from_file_mod_datetime: from_time->0,
                to_file,
                to_file_mod_datetime: to_time->0,
            },
        )
    } else {
        Err(timestamp_error("timestamp misformatted"@))
    }
}

/// The header that the two header lines stand for.
///
/// The first line starts with `--- ` and the second with `+++ `. A line of
/// the wrong shape is a format error, the first line before the second;
/// after that, a timestamp that cannot be read is a timestamp error.
pub open spec fn header_spec(from_line: Seq<char>, to_line: Seq<char>) -> Result<
    HeaderView,
    ErrorView,
> {
    match (header_fields(from_line, "--- "@), header_fields(to_line, "+++ "@)) {
        (Some(from), Some(to)) => header_of_parts(
            from.0,
            timestamp_spec(from.1),
            to.0,
            timestamp_spec(to.1),
        ),
        _ => Err(format_error("header misformatted"@)),
    }
}

/// Two header lines written with a path without white space, one space,
/// and a timestamp text are read back as those paths and as the times
/// that the two texts denote.
pub proof fn lemma_header_round_trip(
    from_file: Seq<char>,
    from_time: Seq<char>,
    to_file: Seq<char>,
    to_time: Seq<char>,
)
    requires
        from_file.len() > 0 && all_in(from_file, non_space()),
        to_file.len() > 0 && all_in(to_file, non_space()),
        from_time.len() == 0 || !is_space(from_time[0]),
        to_time.len() == 0 || !is_space(to_time[0]),
    ensures
        header_spec("--- "@ + from_file + " "@ + from_time, "+++ "@ + to_file + " "@ + to_time)
            == header_of_parts(
            from_file,
            timestamp_spec(from_time),
            to_file,
            timestamp_spec(to_time),
        ),
{
    reveal_strlit(" ");
    let none = Seq::<char>::empty();
    lemma_header_fields_of_parts("--- "@, none, from_file, " "@, from_time);
    lemma_header_fields_of_parts("+++ "@, none, to_file, " "@, to_time);
    assert("--- "@ + none =~= "--- "@);
    assert("+++ "@ + none =~= "+++ "@);
}

impl DiffHeader {
    /// A header with the given paths and times.
    pub fn new(
        from_file: String,
        from_file_mod_datetime: Timestamp,
        to_file: String,
        to_file_mod_datetime: Timestamp,
    ) -> (header: DiffHeader)
        ensures
            header@ == (HeaderView {
                from_file: from_file@,
                from_file_mod_datetime,
                to_file: to_file@,
                to_file_mod_datetime,
            }),
    {
        DiffHeader { from_file, from_file_mod_datetime, to_file, to_file_mod_datetime }
    }

    /// A header made of two paths and of what was read of the two
    /// timestamps, where `None` stands for a timestamp that could not be
    /// read.
    pub fn from_parts(
        from_file: &str,
        from_time: Option<Timestamp>,
        to_file: &str,
        to_time: Option<Timestamp>,
    ) -> (r: Result<DiffHeader, Error>)
        ensures
            match r {
                Ok(header) => header_of_parts(from_file@, from_time, to_file@, to_time) == Ok::<
                    HeaderView,
                    ErrorView,
                >(header@),
                Err(e) => header_of_parts(from_file@, from_time, to_file@, to_time) == Err::<
                    HeaderView,
                    ErrorView,
                >(e@),
            },
    {
        match (from_time, to_time) {
            (Some(from_file_mod_datetime), Some(to_file_mod_datetime)) => Ok(
                DiffHeader {
                    from_file: from_file.to_owned(),
                    from_file_mod_datetime,
                    to_file: to_file.to_owned(),
                    to_file_mod_datetime,
                },
            ),
            _ => Err(Error::timestamp("timestamp misformatted")),
        }
    }

    /// Reads the header from its two lines.
    pub fn from(from_line: &str, to_line: &str) -> (r: Result<DiffHeader, Error>)
        ensures
            match r {
                Ok(header) => header_spec(from_line@, to_line@) == Ok::<HeaderView, ErrorView>(
                    header@,
                ),
                Err(e) => header_spec(from_line@, to_line@) == Err::<HeaderView, ErrorView>(e@),
            },
    {
        let (from_file, from_text) = match split_header_line(from_line, "--- ") {
            Ok(fields) => fields,
            Err(e) => {
                return Err(e);
            },
        };
        let (to_file, to_text) = match split_header_line(to_line, "+++ ") {
            Ok(fields) => fields,
            Err(e) => {
                return Err(e);
            },
        };
        let from_time = match parse_timestamp(from_text) {
            Ok(time) => Some(time),
            Err(_) => None,
        };
        let to_time = match parse_timestamp(to_text) {
            Ok(time) => Some(time),
            Err(_) => None,
        };
        DiffHeader::from_parts(from_file, from_time, to_file, to_time)
    }

    /// The path of the old file.
    pub fn from_file(&self) -> (path: &str)
        ensures
            path@ == self@.from_file,
    {
        self.from_file.as_str()
    }

    /// When the old file was last modified.
    pub fn from_file_mod_datetime(&self) -> (time: Timestamp)
        ensures
            time == self@.from_file_mod_datetime,
    {
        self.from_file_mod_datetime
    }

    /// The path of the new file.
    pub fn to_file(&self) -> (path: &str)
        ensures
            path@ == self@.to_file,
    {
        self.to_file.as_str()
    }

    /// When the new file was last modified.
    pub fn to_file_mod_datetime(&self) -> (time: Timestamp)
        ensures
            time == self@.to_file_mod_datetime,
    {
        self.to_file_mod_datetime
    }
}

} // verus!
