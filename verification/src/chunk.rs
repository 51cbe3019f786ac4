//! Hunks: the `@@` line with its four numbers, and the body lines.

use vstd::prelude::*;
use crate::error::{format_error, Error, ErrorView};
use crate::line::{classify_line, line_spec, LineAction};
use crate::number::{
    decimal, fits_i64, int_prefix, int_text_value, is_digit, is_int_text, lemma_decimal,
    lemma_int_prefix_of_field, lemma_int_prefix_stands, scan_int,
};
use crate::text::{chars_of, matches_at, stands_at, texts};

verus! {

/// The hunk header line whose four integer fields are `a`, `b`, `c` and `d`.
pub open spec fn chunk_header_text(
    a: Seq<char>,
    b: Seq<char>,
    c: Seq<char>,
    d: Seq<char>,
) -> Seq<char> {
    "@@ -"@ + a + ","@ + b + " +"@ + c + ","@ + d + " @@"@
}

/// The texts found where the four integer fields of a hunk header stand:
/// at each place the longest run of an optional sign and digits.
pub open spec fn chunk_header_fields(line: Seq<char>) -> (
    Seq<char>,
    Seq<char>,
    Seq<char>,
    Seq<char>,
) {
    let a = int_prefix(line.skip(4));
    let a_end = 4 + a.len() as int;
    let b = int_prefix(line.skip(a_end + 1));
    let b_end = a_end + 1 + b.len() as int;
    let c = int_prefix(line.skip(b_end + 2));
    let c_end = b_end + 2 + c.len() as int;
    let d = int_prefix(line.skip(c_end + 1));
    (a, b, c, d)
}

/// The four numbers of a hunk header line, in the order in which they
/// stand: the start and the count of the old side, then those of the new.
///
/// `None` unless the line is exactly `@@ -a,b +c,d @@`, where each of the
/// four fields is an integer that fits in an `i64`.
pub open spec fn chunk_header_spec(line: Seq<char>) -> Option<(int, int, int, int)> {
    let (a, b, c, d) = chunk_header_fields(line);
    if line == chunk_header_text(a, b, c, d) && is_int_text(a) && is_int_text(b) && is_int_text(c)
        && is_int_text(d) && fits_i64(int_text_value(a)) && fits_i64(int_text_value(b))
        && fits_i64(int_text_value(c)) && fits_i64(int_text_value(d)) {
        Some((int_text_value(a), int_text_value(b), int_text_value(c), int_text_value(d)))
    } else {
        None
    }
}

/// Where the delimiters and the fields stand in a hunk header line.
pub proof fn lemma_chunk_header_text(a: Seq<char>, b: Seq<char>, c: Seq<char>, d: Seq<char>)
    ensures
        ({
            let line = chunk_header_text(a, b, c, d);
            let a_end = 4 + a.len() as int;
            let b_end = a_end + 1 + b.len() as int;
            let c_end = b_end + 2 + c.len() as int;
            let d_end = c_end + 1 + d.len() as int;
            &&& line.len() == d_end + 3
            &&& stands_at(line, 0, "@@ -"@)
            &&& stands_at(line, 4, a)
            &&& stands_at(line, a_end, ","@)
            &&& stands_at(line, a_end + 1, b)
            &&& stands_at(line, b_end, " +"@)
            &&& stands_at(line, b_end + 2, c)
            &&& stands_at(line, c_end, ","@)
            &&& stands_at(line, c_end + 1, d)
            &&& stands_at(line, d_end, " @@"@)
        }),
{
    reveal_strlit("@@ -");
    reveal_strlit(",");
    reveal_strlit(" +");
    reveal_strlit(" @@");
    let line = chunk_header_text(a, b, c, d);
    let a_end = 4 + a.len() as int;
    let b_end = a_end + 1 + b.len() as int;
    let c_end = b_end + 2 + c.len() as int;
    let d_end = c_end + 1 + d.len() as int;
    assert(line.subrange(0, 4) =~= "@@ -"@);
    assert(line.subrange(4, a_end) =~= a);
    assert(line.subrange(a_end, a_end + 1) =~= ","@);
    assert(line.subrange(a_end + 1, b_end) =~= b);
    assert(line.subrange(b_end, b_end + 2) =~= " +"@);
    assert(line.subrange(b_end + 2, c_end) =~= c);
    assert(line.subrange(c_end, c_end + 1) =~= ","@);
    assert(line.subrange(c_end + 1, d_end) =~= d);
    assert(line.subrange(d_end, d_end + 3) =~= " @@"@);
}

/// A line that is read as a hunk header starts with `@@ -`.
pub proof fn lemma_chunk_header_start(line: Seq<char>)
    requires
        chunk_header_spec(line) is Some,
    ensures
        stands_at(line, 0, "@@ -"@),
{
    let fields = chunk_header_fields(line);
    lemma_chunk_header_text(fields.0, fields.1, fields.2, fields.3);
}

/// A line in which the delimiters and four texts stand one after the
/// other, with nothing after them, is the hunk header line of those texts.
pub proof fn lemma_chunk_header_text_is(
    line: Seq<char>,
    a: Seq<char>,
    b: Seq<char>,
    c: Seq<char>,
    d: Seq<char>,
)
    requires
        ({
            let a_end = 4 + a.len() as int;
            let b_end = a_end + 1 + b.len() as int;
            let c_end = b_end + 2 + c.len() as int;
            let d_end = c_end + 1 + d.len() as int;
            &&& line.len() == d_end + 3
            &&& stands_at(line, 0, "@@ -"@)
            &&& stands_at(line, 4, a)
            &&& stands_at(line, a_end, ","@)
            &&& stands_at(line, a_end + 1, b)
            &&& stands_at(line, b_end, " +"@)
            &&& stands_at(line, b_end + 2, c)
            &&& stands_at(line, c_end, ","@)
            &&& stands_at(line, c_end + 1, d)
            &&& stands_at(line, d_end, " @@"@)
        }),
    ensures
        line == chunk_header_text(a, b, c, d),
{
    reveal_strlit("@@ -");
    reveal_strlit(",");
    reveal_strlit(" +");
    reveal_strlit(" @@");
    let a_end = 4 + a.len() as int;
    let b_end = a_end + 1 + b.len() as int;
    let c_end = b_end + 2 + c.len() as int;
    let d_end = c_end + 1 + d.len() as int;
    assert(line =~= line.subrange(0, 4) + line.subrange(4, a_end) + line.subrange(
        a_end,
        a_end + 1,
    ) + line.subrange(a_end + 1, b_end) + line.subrange(b_end, b_end + 2)
        + line.subrange(b_end + 2, c_end) + line.subrange(c_end, c_end + 1)
        + line.subrange(c_end + 1, d_end) + line.subrange(d_end, d_end + 3));
}

/// The fields found in the hunk header line of four integer fields are
/// those four.
pub proof fn lemma_chunk_header_fields(a: Seq<char>, b: Seq<char>, c: Seq<char>, d: Seq<char>)
    requires
        is_int_text(a),
        is_int_text(b),
        is_int_text(c),
        is_int_text(d),
    ensures
        chunk_header_fields(chunk_header_text(a, b, c, d)) == (a, b, c, d),
{
    reveal_strlit("@@ -");
    reveal_strlit(",");
    reveal_strlit(" +");
    reveal_strlit(" @@");
    let line = chunk_header_text(a, b, c, d);
    let after_a = ","@ + b + " +"@ + c + ","@ + d + " @@"@;
    let after_b = " +"@ + c + ","@ + d + " @@"@;
    let after_c = ","@ + d + " @@"@;
    let after_d = " @@"@;
    assert(line.skip(4) =~= a + after_a);
    assert(!is_digit(after_a[0]));
    lemma_int_prefix_of_field(a, after_a);
    let a_end = 4 + a.len() as int;
    let b_end = a_end + 1 + b.len() as int;
    let c_end = b_end + 2 + c.len() as int;
    assert(line.skip(a_end + 1) =~= b + after_b);
    assert(!is_digit(after_b[0]));
    lemma_int_prefix_of_field(b, after_b);
    assert(line.skip(b_end + 2) =~= c + after_c);
    assert(!is_digit(after_c[0]));
    lemma_int_prefix_of_field(c, after_c);
    assert(line.skip(c_end + 1) =~= d + after_d);
    assert(!is_digit(after_d[0]));
    lemma_int_prefix_of_field(d, after_d);
}

/// Four integer fields between the delimiters of a hunk header are read
/// back as the numbers that they denote.
pub proof fn lemma_chunk_header_of_fields(
    a: Seq<char>,
    b: Seq<char>,
    c: Seq<char>,
    d: Seq<char>,
)
    requires
        is_int_text(a) && fits_i64(int_text_value(a)),
        is_int_text(b) && fits_i64(int_text_value(b)),
        is_int_text(c) && fits_i64(int_text_value(c)),
        is_int_text(d) && fits_i64(int_text_value(d)),
    ensures
        chunk_header_spec(chunk_header_text(a, b, c, d)) == Some(
            (int_text_value(a), int_text_value(b), int_text_value(c), int_text_value(d)),
        ),
{
    lemma_chunk_header_fields(a, b, c, d);
}

/// The hunk header written with the decimal digits of four numbers that
/// are not negative is read back as those four numbers.
pub proof fn lemma_chunk_header_of_numbers(a: nat, b: nat, c: nat, d: nat)
    requires
        a <= i64::MAX,
        b <= i64::MAX,
        c <= i64::MAX,
        d <= i64::MAX,
    ensures
        chunk_header_spec(chunk_header_text(decimal(a), decimal(b), decimal(c), decimal(d)))
            == Some((a as int, b as int, c as int, d as int)),
{
    lemma_decimal(a);
    lemma_decimal(b);
    lemma_decimal(c);
    lemma_decimal(d);
    lemma_chunk_header_of_fields(decimal(a), decimal(b), decimal(c), decimal(d));
}

/// Reads the four numbers of a hunk header line.
///
/// Every delimiter has to stand exactly where the form `@@ -a,b +c,d @@`
/// has it, and nothing may follow the closing `@@`. Anything else is a
/// format error.
pub fn parse_chunk_header(line: &str) -> (r: Result<(i64, i64, i64, i64), Error>)
    ensures
        match r {
            Ok(numbers) => chunk_header_spec(line@) == Some(
                (numbers.0 as int, numbers.1 as int, numbers.2 as int, numbers.3 as int),
            ),
            Err(e) => chunk_header_spec(line@) is None && e@ == format_error(
                "chunk header misformatted"@,
            ),
        },
{
    let text = chars_of(line);
    let ghost fields = chunk_header_fields(line@);
    proof {
        reveal_strlit("@@ -");
        reveal_strlit(",");
        reveal_strlit(" +");
        reveal_strlit(" @@");
        lemma_chunk_header_text(fields.0, fields.1, fields.2, fields.3);
    }
    if !matches_at(&text, 0, "@@ -") {
        return Err(Error::from("chunk header misformatted"));
    }
    let (a, a_end) = match scan_int(&text, 4) {
        Some(found) => found,
        None => {
            return Err(Error::from("chunk header misformatted"));
        },
    };
    if !matches_at(&text, a_end, ",") {
        return Err(Error::from("chunk header misformatted"));
    }
    let (b, b_end) = match scan_int(&text, a_end + 1) {
        Some(found) => found,
        None => {
            return Err(Error::from("chunk header misformatted"));
        },
    };
    if !matches_at(&text, b_end, " +") {
        return Err(Error::from("chunk header misformatted"));
    }
    let (c, c_end) = match scan_int(&text, b_end + 2) {
        Some(found) => found,
        None => {
            return Err(Error::from("chunk header misformatted"));
        },
    };
    if !matches_at(&text, c_end, ",") {
        return Err(Error::from("chunk header misformatted"));
    }
    let (d, d_end) = match scan_int(&text, c_end + 1) {
        Some(found) => found,
        None => {
            return Err(Error::from("chunk header misformatted"));
        },
    };
    if !matches_at(&text, d_end, " @@") || d_end + 3 != text.len() {
        return Err(Error::from("chunk header misformatted"));
    }
    proof {
        lemma_int_prefix_stands(line@, 4);
        lemma_int_prefix_stands(line@, a_end + 1);
        lemma_int_prefix_stands(line@, b_end + 2);
        lemma_int_prefix_stands(line@, c_end + 1);
        lemma_chunk_header_text_is(line@, fields.0, fields.1, fields.2, fields.3);
    }
    Ok((a, b, c, d))
}

/// What a [`DiffChunk`] stands for in contracts.
pub struct ChunkView {
    pub pre_start_line: int,
    pub pre_num_lines: int,
    pub post_start_line: int,
    pub post_num_lines: int,
    pub lines: Seq<(LineAction, Seq<char>)>,
}

/// One hunk: where it starts and how many lines it covers on each side,
/// and its body lines in order.
///
/// The counts are those written in the header line; they are not held
/// against the number of body lines.
#[derive(Debug, PartialEq)]
pub struct DiffChunk {
    pre_start_line: i64,
    pre_num_lines: i64,
    post_start_line: i64,
    post_num_lines: i64,
    lines: Vec<(LineAction, String)>,
}

/// The actions and texts of classified body lines.
pub open spec fn lines_view(lines: Seq<(LineAction, String)>) -> Seq<(LineAction, Seq<char>)> {
    lines.map_values(|line: (LineAction, String)| (line.0, line.1@))
}

impl View for DiffChunk {
    type V = ChunkView;

    closed spec fn view(&self) -> ChunkView {
        ChunkView {
            pre_start_line: self.pre_start_line as int,
            pre_num_lines: self.pre_num_lines as int,
            post_start_line: self.post_start_line as int,
            post_num_lines: self.post_num_lines as int,
            lines: lines_view(self.lines@),
        }
    }
}

/// The body lines of a hunk, classified; `None` if one of them is not a
/// body line.
pub open spec fn body_spec(lines: Seq<Seq<char>>) -> Option<Seq<(LineAction, Seq<char>)>> {
    if forall|i: int| 0 <= i < lines.len() ==> line_spec(#[trigger] lines[i]) is Some {
        Some(lines.map_values(|line: Seq<char>| line_spec(line)->0))
    } else {
        None
    }
}

/// The hunk that a group of lines stands for: the first line is the
/// header, the others are the body.
///
/// The group is rejected if it is empty, if its first line is no hunk
/// header, or, after that, if one of the other lines is no body line.
pub open spec fn chunk_spec(group: Seq<Seq<char>>) -> Result<ChunkView, ErrorView> {
    if group.len() == 0 {
        Err(format_error("chunk misformatted"@))
    } else {
        match chunk_header_spec(group[0]) {
            None => Err(format_error("chunk header misformatted"@)),
            Some(numbers) => match body_spec(group.skip(1)) {
                None => Err(format_error("bad line prefix"@)),
                Some(lines) => Ok(
                    ChunkView {
                        pre_start_line: numbers.0,
                        pre_num_lines: numbers.1,
                        post_start_line: numbers.2,
                        post_num_lines: numbers.3,
                        lines,
                    },
                ),
            },
        }
    }
}

impl DiffChunk {
    /// A hunk with the given numbers and body lines.
    pub fn new(
        pre_start_line: i64,
        pre_num_lines: i64,
        post_start_line: i64,
        post_num_lines: i64,
        lines: Vec<(LineAction, String)>,
    ) -> (chunk: DiffChunk)
        ensures
            chunk@ == (ChunkView {
                pre_start_line: pre_start_line as int,
                pre_num_lines: pre_num_lines as int,
                post_start_line: post_start_line as int,
                post_num_lines: post_num_lines as int,
                lines: lines_view(lines@),
            }),
    {
        DiffChunk { pre_start_line, pre_num_lines, post_start_line, post_num_lines, lines }
    }

    /// Reads a hunk from its lines: the header line, then the body lines.
    pub fn from(text_lines: &[&str]) -> (r: Result<DiffChunk, Error>)
        ensures
            match r {
                Ok(chunk) => chunk_spec(texts(text_lines@)) == Ok::<ChunkView, ErrorView>(chunk@),
                Err(e) => chunk_spec(texts(text_lines@)) == Err::<ChunkView, ErrorView>(e@),
            },
    {
        let ghost group = texts(text_lines@);
        if text_lines.len() == 0 {
            return Err(Error::from("chunk misformatted"));
        }
        let numbers = match parse_chunk_header(text_lines[0]) {
            Ok(numbers) => numbers,
            Err(e) => {
                return Err(e);
            },
        };
        let ghost body = group.skip(1);
        let mut lines: Vec<(LineAction, String)> = Vec::new();
        let mut i: usize = 1;
        while i < text_lines.len()
            invariant
                1 <= i <= text_lines.len(),
                group == texts(text_lines@),
                body == group.skip(1),
                chunk_header_spec(group[0]) == Some(
                    (numbers.0 as int, numbers.1 as int, numbers.2 as int, numbers.3 as int),
                ),
                lines.len() == i - 1,
                forall|j: int| 0 <= j < i - 1 ==> line_spec(#[trigger] body[j]) == Some(
                    (lines@[j].0, lines@[j].1@),
                ),
            decreases text_lines.len() - i,
        {
            match classify_line(text_lines[i]) {
                Ok(line) => {
                    lines.push(line);
                },
                Err(e) => {
                    assert(line_spec(body[i - 1]) is None);
                    return Err(e);
                },
            }
            i += 1;
        }
        assert(lines_view(lines@) =~= body_spec(body)->0);
        Ok(
            DiffChunk {
                pre_start_line: numbers.0,
                pre_num_lines: numbers.1,
                post_start_line: numbers.2,
                post_num_lines: numbers.3,
                lines,
            },
        )
    }

    /// The first line of the hunk in the old file.
    pub fn pre_start_line(&self) -> (n: i64)
        ensures
            n == self@.pre_start_line,
    {
        self.pre_start_line
    }

    /// The number of lines of the hunk in the old file.
    pub fn pre_num_lines(&self) -> (n: i64)
        ensures
            n == self@.pre_num_lines,
    {
        self.pre_num_lines
    }

    /// The first line of the hunk in the new file.
    pub fn post_start_line(&self) -> (n: i64)
        ensures
            n == self@.post_start_line,
    {
        self.post_start_line
    }

    /// The number of lines of the hunk in the new file.
    pub fn post_num_lines(&self) -> (n: i64)
        ensures
            n == self@.post_num_lines,
    {
        self.post_num_lines
    }

    /// The body lines, in order: what each does, and its text.
    pub fn lines(&self) -> (lines: &Vec<(LineAction, String)>)
        ensures
            lines_view(lines@) == self@.lines,
    {
        &self.lines
    }
}

} // verus!
