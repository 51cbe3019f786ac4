//! A whole diff: the header and the hunks that follow it.

use vstd::prelude::*;
use vstd::slice::slice_subrange;
use crate::chunk::{
    chunk_header_spec, chunk_spec, lemma_chunk_header_start, ChunkView, DiffChunk,
};
use crate::error::{format_error, Error, ErrorView};
use crate::header::{header_spec, DiffHeader, HeaderView};
use crate::line::line_spec;
use crate::text::{lemma_run_len, lemma_run_len_is, run_len, stands_at, starts_with, texts};

verus! {

/// Whether a line opens a hunk: it starts with `@@` and a space.
pub open spec fn opens_chunk(line: Seq<char>) -> bool {
    stands_at(line, 0, "@@ "@)
}

/// The class of lines that do not open a hunk.
pub open spec fn inner_line() -> spec_fn(Seq<char>) -> bool {
    |line: Seq<char>| !opens_chunk(line)
}

/// The number of lines in the first group of `body`: its first line, and
/// the lines after it up to the next one that opens a hunk.
pub open spec fn group_len(body: Seq<Seq<char>>) -> nat {
    1 + run_len(body.skip(1), inner_line())
}

/// The hunks that the lines after the header stand for.
///
/// The lines fall into groups, a new one at each line that opens a hunk,
/// and each group is read as one hunk. The first group that is rejected
/// decides the error.
pub open spec fn chunks_spec(body: Seq<Seq<char>>) -> Result<Seq<ChunkView>, ErrorView>
    decreases body.len(),
    via chunks_spec_decreases
{
    if body.len() == 0 {
        Ok(Seq::empty())
    } else {
        let n = group_len(body) as int;
        match chunk_spec(body.take(n)) {
            Err(e) => Err(e),
            Ok(first) => match chunks_spec(body.skip(n)) {
                Err(e) => Err(e),
                Ok(others) => Ok(seq![first] + others),
            },
        }
    }
}

/// The first group is never longer than the lines, so fewer lines remain.
#[via_fn]
proof fn chunks_spec_decreases(body: Seq<Seq<char>>) {
    if body.len() > 0 {
        lemma_run_len(body.skip(1), inner_line());
    }
}

/// What a [`Unidiff`] stands for in contracts.
pub struct DiffView {
    pub header: HeaderView,
    pub chunks: Seq<ChunkView>,
}

/// The diff that a sequence of lines stands for.
///
/// The first two lines are the header, the others the hunks. Fewer than
/// two lines are rejected; after that the header is read, then the hunks
/// in order, and the first failure is the result.
pub open spec fn diff_spec(lines: Seq<Seq<char>>) -> Result<DiffView, ErrorView> {
    if lines.len() < 2 {
        Err(format_error("diff misformatted"@))
    } else {
        match header_spec(lines[0], lines[1]) {
            Err(e) => Err(e),
            Ok(header) => match chunks_spec(lines.skip(2)) {
                Err(e) => Err(e),
                Ok(chunks) => Ok(DiffView { header, chunks }),
            },
        }
    }
}

/// A parsed diff: the header, and the hunks in the order in which they
/// stand in the text.
#[derive(Debug, PartialEq)]
pub struct Unidiff {
    header: DiffHeader,
    chunks: Vec<DiffChunk>,
}

/// The views of a sequence of hunks.
pub open spec fn chunks_view(chunks: Seq<DiffChunk>) -> Seq<ChunkView> {
    chunks.map_values(|chunk: DiffChunk| chunk@)
}

impl View for Unidiff {
    type V = DiffView;

    closed spec fn view(&self) -> DiffView {
        DiffView { header: self.header@, chunks: chunks_view(self.chunks@) }
    }
}

/// The hunks read so far, followed by what the remaining lines stand for.
pub open spec fn chunks_then(
    done: Seq<ChunkView>,
    rest: Result<Seq<ChunkView>, ErrorView>,
) -> Result<Seq<ChunkView>, ErrorView> {
    match rest {
        Ok(others) => Ok(done + others),
        Err(e) => Err(e),
    }
}

/// The first group of `body` ends where its length `n` says: the lines
/// after the first are not openers, and an opener or the end follows. The
/// hunks of `body` are then the hunk of that group and the hunks of the
/// lines after it.
pub proof fn lemma_first_group(body: Seq<Seq<char>>, n: int)
    requires
        0 < n <= body.len(),
        forall|j: int| 0 < j < n ==> !opens_chunk(#[trigger] body[j]),
        n < body.len() ==> opens_chunk(body[n]),
    ensures
        group_len(body) == n,
        chunks_spec(body) == match chunk_spec(body.take(n)) {
            Err(e) => Err(e),
            Ok(first) => chunks_then(seq![first], chunks_spec(body.skip(n))),
        },
{
    let tail = body.skip(1);
    assert forall|j: int| 0 <= j < n - 1 implies inner_line()(#[trigger] tail.take(n - 1)[j]) by {
        assert(tail.take(n - 1)[j] == body[j + 1]);
    }
    if n < body.len() {
        assert(tail[n - 1] == body[n]);
    }
    lemma_run_len_is(tail, inner_line(), n - 1);
}

/// What two runs of hunks stand for, one after the other: the first
/// failure, or all the hunks in order.
pub open spec fn results_then(
    first: Result<Seq<ChunkView>, ErrorView>,
    second: Result<Seq<ChunkView>, ErrorView>,
) -> Result<Seq<ChunkView>, ErrorView> {
    match first {
        Err(e) => Err(e),
        Ok(done) => chunks_then(done, second),
    }
}

/// Lines are read hunk by hunk: where the second of two runs of lines is
/// empty or starts with an opener, the hunks of both runs together are
/// the hunks of the first followed by the hunks of the second.
pub proof fn lemma_chunks_of_parts(first: Seq<Seq<char>>, second: Seq<Seq<char>>)
    requires
        second.len() == 0 || opens_chunk(second[0]),
    ensures
        chunks_spec(first + second) == results_then(chunks_spec(first), chunks_spec(second)),
    decreases first.len(),
{
    let none = Seq::<ChunkView>::empty();
    if first.len() == 0 {
        assert(first + second =~= second);
        match chunks_spec(second) {
            Ok(others) => {
                assert(none + others =~= others);
            },
            Err(_) => {},
        }
    } else {
        let both = first + second;
        let n = group_len(first) as int;
        lemma_run_len(first.skip(1), inner_line());
        assert forall|j: int| 0 < j < n implies !opens_chunk(#[trigger] both[j]) by {
            assert(inner_line()(first.skip(1).take(n - 1)[j - 1]));
        }
        if n < first.len() {
            assert(both[n] == first.skip(1)[n - 1]);
        }
        lemma_first_group(both, n);
        assert(both.take(n) =~= first.take(n));
        assert(both.skip(n) =~= first.skip(n) + second);
        lemma_chunks_of_parts(first.skip(n), second);
        match (chunk_spec(first.take(n)), chunks_spec(first.skip(n)), chunks_spec(second)) {
            (Ok(head), Ok(others), Ok(more)) => {
                assert(seq![head] + (others + more) =~= (seq![head] + others) + more);
            },
            _ => {},
        }
    }
}

/// A line that is read as a hunk header opens a hunk.
pub proof fn lemma_header_opens_chunk(line: Seq<char>)
    requires
        chunk_header_spec(line) is Some,
    ensures
        opens_chunk(line),
{
    lemma_chunk_header_start(line);
    assert(stands_at(line, 0, "@@ "@)) by {
        reveal_strlit("@@ -");
        reveal_strlit("@@ ");
        assert(line.subrange(0, 3) =~= line.subrange(0, 4).subrange(0, 3));
        assert("@@ -"@.subrange(0, 3) =~= "@@ "@);
    }
}

/// Two openers with no line between them: the first is read as a hunk
/// without body lines, and the second starts the next hunk. Nothing of
/// the lines before, between or after them is lost or joined.
pub proof fn lemma_adjacent_openers(
    before: Seq<Seq<char>>,
    opener: Seq<char>,
    after: Seq<Seq<char>>,
)
    requires
        opens_chunk(opener),
        after.len() > 0 && opens_chunk(after[0]),
    ensures
        chunks_spec(before + seq![opener] + after) == results_then(
            chunks_spec(before),
            results_then(chunks_spec(seq![opener]), chunks_spec(after)),
        ),
        chunks_spec(seq![opener]) == match chunk_header_spec(opener) {
            None => Err::<Seq<ChunkView>, ErrorView>(format_error("chunk header misformatted"@)),
            Some(numbers) => Ok(
                seq![
                    ChunkView {
                        pre_start_line: numbers.0,
                        pre_num_lines: numbers.1,
                        post_start_line: numbers.2,
                        post_num_lines: numbers.3,
                        lines: Seq::empty(),
                    },
                ],
            ),
        },
{
    let single = seq![opener];
    lemma_chunks_of_parts(single, after);
    assert(before + single + after =~= before + (single + after));
    lemma_chunks_of_parts(before, single + after);
    lemma_first_group(single, 1);
    assert(single.take(1) =~= single);
    assert(single.skip(1) =~= Seq::<Seq<char>>::empty());
    match chunk_spec(single) {
        Ok(chunk) => {
            assert(chunk.lines =~= Seq::empty());
            assert(seq![chunk] + Seq::<ChunkView>::empty() =~= seq![chunk]);
        },
        Err(_) => {},
    }
}

/// Whether line `i` of the lines after the header can stand where it
/// does: an opener has to be a hunk header, and any other line has to be
/// a body line that is not the first of the lines.
pub open spec fn line_accepted(body: Seq<Seq<char>>, i: int) -> bool {
    if opens_chunk(body[i]) {
        chunk_header_spec(body[i]) is Some
    } else {
        i > 0 && line_spec(body[i]) is Some
    }
}

/// The lines after the header are read as hunks if and only if every one
/// of them can stand where it does: one line that cannot, wherever it is,
/// and no hunk is returned.
pub proof fn lemma_chunks_accepted(body: Seq<Seq<char>>)
    ensures
        chunks_spec(body) is Ok <==> forall|i: int|
            0 <= i < body.len() ==> line_accepted(body, i),
    decreases body.len(),
{
    if body.len() > 0 {
        let n = group_len(body) as int;
        lemma_run_len(body.skip(1), inner_line());
        let group = body.take(n);
        let rest = body.skip(n);
        lemma_chunks_accepted(rest);
        assert forall|j: int| 0 < j < n implies !opens_chunk(#[trigger] body[j]) by {
            assert(inner_line()(body.skip(1).take(n - 1)[j - 1]));
        }
        if n < body.len() {
            assert(body[n] == body.skip(1)[n - 1]);
            assert(opens_chunk(rest[0]));
        }
        if chunk_header_spec(body[0]) is Some {
            lemma_header_opens_chunk(body[0]);
        }
        if chunks_spec(body) is Ok {
            assert forall|i: int| 0 <= i < body.len() implies line_accepted(body, i) by {
                if i == 0 {
                    assert(group[0] == body[0]);
                } else if i < n {
                    assert(group.skip(1)[i - 1] == body[i]);
                } else {
                    assert(line_accepted(rest, i - n));
                }
            }
        }
        if forall|i: int| 0 <= i < body.len() ==> line_accepted(body, i) {
            assert(line_accepted(body, 0));
            assert(group[0] == body[0]);
            assert forall|j: int| 0 <= j < group.skip(1).len() implies line_spec(
                #[trigger] group.skip(1)[j],
            ) is Some by {
                assert(line_accepted(body, j + 1));
            }
            assert forall|k: int| 0 <= k < rest.len() implies line_accepted(rest, k) by {
                assert(line_accepted(body, k + n));
            }
        }
    }
}

/// A diff is read if and only if it has its two header lines, they are
/// read, and every line after them can stand where it does.
pub proof fn lemma_diff_accepted(lines: Seq<Seq<char>>)
    ensures
        diff_spec(lines) is Ok <==> {
            &&& lines.len() >= 2
            &&& header_spec(lines[0], lines[1]) is Ok
            &&& forall|i: int| 0 <= i < lines.len() - 2 ==> line_accepted(lines.skip(2), i)
        },
{
    if lines.len() >= 2 {
        lemma_chunks_accepted(lines.skip(2));
    }
}

impl Unidiff {
    /// A diff with the given header and hunks.
    pub fn new(header: DiffHeader, chunks: Vec<DiffChunk>) -> (diff: Unidiff)
        ensures
            diff@ == (DiffView { header: header@, chunks: chunks_view(chunks@) }),
    {
        Unidiff { header, chunks }
    }

    /// Reads the group of lines from `start` up to `end` as one hunk and
    /// appends it to `chunks`.
    fn flush(lines: &[&str], start: usize, end: usize, chunks: &mut Vec<DiffChunk>) -> (r: Result<
        (),
        Error,
    >)
        requires
            2 <= start < end <= lines.len(),
            forall|j: int| start < j < end ==> !opens_chunk(#[trigger] lines@[j]@),
            end < lines.len() ==> opens_chunk(lines@[end as int]@),
        ensures
            ({
                let body = texts(lines@).skip(2);
                let before = chunks_then(
                    chunks_view(old(chunks)@),
                    chunks_spec(body.skip(start - 2)),
                );
                match r {
                    Ok(_) => before == chunks_then(
                        chunks_view(final(chunks)@),
                        chunks_spec(body.skip(end - 2)),
                    ),
                    Err(e) => before == Err::<Seq<ChunkView>, ErrorView>(e@),
                }
            }),
    {
        let group = slice_subrange(lines, start, end);
        proof {
            let body = texts(lines@).skip(2);
            let rest = body.skip(start - 2);
            assert(texts(group@) =~= rest.take(end - start));
            assert(rest.skip(end - start) =~= body.skip(end - 2));
            assert forall|j: int| 0 < j < end - start implies !opens_chunk(#[trigger] rest[j]) by {
                assert(rest[j] == lines@[start + j]@);
            }
            lemma_first_group(rest, end - start);
        }
        match DiffChunk::from(group) {
            Ok(chunk) => {
                proof {
                    let done = chunks_view(chunks@);
                    assert(chunks_view(chunks@.push(chunk)) =~= done + seq![chunk@]);
                    let body = texts(lines@).skip(2);
                    match chunks_spec(body.skip(end - 2)) {
                        Ok(others) => {
                            assert(done + (seq![chunk@] + others) =~= (done + seq![chunk@])
                                + others);
                        },
                        Err(_) => {},
                    }
                }
                chunks.push(chunk);
                Ok(())
            },
            Err(e) => Err(e),
        }
    }

    /// Reads a diff from its lines, which come without line terminators.
    pub fn from(lines: &[&str]) -> (r: Result<Unidiff, Error>)
        ensures
            match r {
                Ok(diff) => diff_spec(texts(lines@)) == Ok::<DiffView, ErrorView>(diff@),
                Err(e) => diff_spec(texts(lines@)) == Err::<DiffView, ErrorView>(e@),
            },
            lines@.len() < 2 ==> r is Err && r->Err_0@ == format_error("diff misformatted"@),
    {
        if lines.len() < 2 {
            return Err(Error::from("diff misformatted"));
        }
        let header = match DiffHeader::from(lines[0], lines[1]) {
            Ok(header) => header,
            Err(e) => {
                return Err(e);
            },
        };
        let ghost body = texts(lines@).skip(2);
        let mut chunks: Vec<DiffChunk> = Vec::new();
        let mut start: usize = 2;
        let mut i: usize = 2;
        proof {
            assert(body.skip(0) =~= body);
            match chunks_spec(body) {
                Ok(all) => {
                    assert(chunks_view(chunks@) + all =~= all);
                },
                Err(_) => {},
            }
        }
        while i < lines.len()
            invariant
                2 <= start <= i <= lines.len(),
                start < i || i == 2,
                body == texts(lines@).skip(2),
                header_spec(texts(lines@)[0], texts(lines@)[1]) == Ok::<HeaderView, ErrorView>(
                    header@,
                ),
                chunks_spec(body) == chunks_then(
                    chunks_view(chunks@),
                    chunks_spec(body.skip(start - 2)),
                ),
                forall|j: int| start < j < i ==> !opens_chunk(#[trigger] lines@[j]@),
            decreases lines.len() - i,
        {
            if starts_with(lines[i], "@@ ") {
                if i > start {
                    match Self::flush(lines, start, i, &mut chunks) {
                        Ok(_) => {},
                        Err(e) => {
                            return Err(e);
                        },
                    }
                }
                start = i;
            }
            i += 1;
        }
        if i > start {
            match Self::flush(lines, start, i, &mut chunks) {
                Ok(_) => {},
                Err(e) => {
                    return Err(e);
                },
            }
        }
        proof {
            let done = chunks_view(chunks@);
            assert(body.skip(i - 2) =~= Seq::<Seq<char>>::empty());
            assert(done + Seq::<ChunkView>::empty() =~= done);
        }
        Ok(Unidiff { header, chunks })
    }

    /// The header.
    pub fn header(&self) -> (header: &DiffHeader)
        ensures
            header@ == self@.header,
    {
        &self.header
    }

    /// The hunks, in order.
    pub fn chunks(&self) -> (chunks: &Vec<DiffChunk>)
        ensures
            chunks_view(chunks@) == self@.chunks,
    {
        &self.chunks
    }
}

} // verus!
