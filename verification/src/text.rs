//! Characters of a line: white space, runs of characters of one class,
//! and literal delimiters.

use vstd::prelude::*;
use vstd::std_specs::iter::IteratorSpec;

verus! {

/// Whether `c` is white space: the characters of the Unicode property
/// `White_Space`.
pub open spec fn is_space(c: char) -> bool {
    let n = c as u32;
    ||| 0x09 <= n <= 0x0d
    ||| n == 0x20
    ||| n == 0x85
    ||| n == 0xa0
    ||| n == 0x1680
    ||| 0x2000 <= n <= 0x200a
    ||| n == 0x2028
    ||| n == 0x2029
    ||| n == 0x202f
    ||| n == 0x205f
    ||| n == 0x3000
}

/// The class of white-space characters.
pub open spec fn space() -> spec_fn(char) -> bool {
    |c: char| is_space(c)
}

/// The class of characters that are not white space.
pub open spec fn non_space() -> spec_fn(char) -> bool {
    |c: char| !is_space(c)
}

/// How many items at the start of `s` belong to `class`, counted up to
/// the first one that does not.
pub open spec fn run_len<A>(s: Seq<A>, class: spec_fn(A) -> bool) -> nat
    decreases s.len(),
{
    if s.len() > 0 && class(s[0]) {
        1 + run_len(s.skip(1), class)
    } else {
        0
    }
}

/// Whether every item of `s` belongs to `class`.
pub open spec fn all_in<A>(s: Seq<A>, class: spec_fn(A) -> bool) -> bool {
    forall|i: int| 0 <= i < s.len() ==> class(#[trigger] s[i])
}

/// Whether `piece` stands in `s` at position `at`.
pub open spec fn stands_at(s: Seq<char>, at: int, piece: Seq<char>) -> bool {
    0 <= at && at + piece.len() <= s.len() && s.subrange(at, at + piece.len()) == piece
}

/// The texts of a sequence of lines.
pub open spec fn texts(lines: Seq<&str>) -> Seq<Seq<char>> {
    lines.map_values(|line: &str| line@)
}

/// A run ends within the sequence, covers items of the class only, and
/// stops at the first item outside it.
pub proof fn lemma_run_len<A>(s: Seq<A>, class: spec_fn(A) -> bool)
    ensures
        run_len(s, class) <= s.len(),
        all_in(s.take(run_len(s, class) as int), class),
        run_len(s, class) < s.len() ==> !class(s[run_len(s, class) as int]),
    decreases s.len(),
{
    if s.len() > 0 && class(s[0]) {
        let rest = s.skip(1);
        lemma_run_len(rest, class);
        let n = run_len(s, class) as int;
        assert forall|i: int| 0 <= i < n implies class(#[trigger] s.take(n)[i]) by {
            if i > 0 {
                assert(s.take(n)[i] == rest.take(n - 1)[i - 1]);
            }
        }
    }
}

/// The run is the only length of which the three facts of `lemma_run_len` hold.
pub proof fn lemma_run_len_is<A>(s: Seq<A>, class: spec_fn(A) -> bool, n: int)
    requires
        0 <= n <= s.len(),
        all_in(s.take(n), class),
        n < s.len() ==> !class(s[n]),
    ensures
        run_len(s, class) == n,
    decreases s.len(),
{
    if n > 0 {
        let rest = s.skip(1);
        assert(s[0] == s.take(n)[0]);
        assert forall|i: int| 0 <= i < n - 1 implies class(#[trigger] rest.take(n - 1)[i]) by {
            assert(rest.take(n - 1)[i] == s.take(n)[i + 1]);
        }
        lemma_run_len_is(rest, class, n - 1);
    }
}

/// The characters of `s`, in order.
pub(crate) fn chars_of(s: &str) -> (v: Vec<char>)
    ensures
        v@ == s@,
{
    let mut v: Vec<char> = Vec::new();
    for c in it: s.chars()
        invariant
            it.seq() == s@,
            v@ == s@.take(it.index() as int),
    {
        v.push(c);
    }
    v
}

/// Tests whether `c` is white space.
pub(crate) fn is_space_char(c: char) -> (b: bool)
    ensures
        b == is_space(c),
{
    let n: u32 = c as u32;
    (0x09 <= n && n <= 0x0d) || n == 0x20 || n == 0x85 || n == 0xa0 || n == 0x1680 || (0x2000 <= n
        && n <= 0x200a) || n == 0x2028 || n == 0x2029 || n == 0x202f || n == 0x205f || n == 0x3000
}

/// The position after the white space that starts at `at`.
pub(crate) fn skip_spaces(text: &Vec<char>, at: usize) -> (end: usize)
    requires
        at <= text.len(),
    ensures
        at <= end <= text.len(),
        end == at + run_len(text@.skip(at as int), space()),
{
    let mut end: usize = at;
    while end < text.len() && is_space_char(text[end])
        invariant
            at <= end <= text.len(),
            all_in(text@.subrange(at as int, end as int), space()),
        decreases text.len() - end,
    {
        proof {
            let before = text@.subrange(at as int, end as int);
            let after = text@.subrange(at as int, end + 1);
            assert forall|i: int| 0 <= i < after.len() implies space()(#[trigger] after[i]) by {
                if i < before.len() {
                    assert(after[i] == before[i]);
                }
            }
        }
        end += 1;
    }
    proof {
        let rest = text@.skip(at as int);
        assert(rest.take(end - at) =~= text@.subrange(at as int, end as int));
        lemma_run_len_is(rest, space(), end - at);
    }
    end
}

/// The position after the characters other than white space that start
/// at `at`.
pub(crate) fn skip_word(text: &Vec<char>, at: usize) -> (end: usize)
    requires
        at <= text.len(),
    ensures
        at <= end <= text.len(),
        end == at + run_len(text@.skip(at as int), non_space()),
{
    let mut end: usize = at;
    while end < text.len() && !is_space_char(text[end])
        invariant
            at <= end <= text.len(),
            all_in(text@.subrange(at as int, end as int), non_space()),
        decreases text.len() - end,
    {
        proof {
            let before = text@.subrange(at as int, end as int);
            let after = text@.subrange(at as int, end + 1);
            assert forall|i: int| 0 <= i < after.len() implies non_space()(#[trigger] after[i]) by {
                if i < before.len() {
                    assert(after[i] == before[i]);
                }
            }
        }
        end += 1;
    }
    proof {
        let rest = text@.skip(at as int);
        assert(rest.take(end - at) =~= text@.subrange(at as int, end as int));
        lemma_run_len_is(rest, non_space(), end - at);
    }
    end
}

/// Tests whether the literal `lit` stands in `text` at position `at`.
pub(crate) fn matches_at(text: &Vec<char>, at: usize, lit: &str) -> (b: bool)
    requires
        at <= text.len(),
    ensures
        b == stands_at(text@, at as int, lit@),
{
    let n = lit.unicode_len();
    if n > text.len() - at {
        return false;
    }
    let mut i: usize = 0;
    for c in it: lit.chars()
        invariant
            it.seq() == lit@,
            i == it.index(),
            n == lit@.len(),
            at + n <= text.len(),
            forall|j: int| 0 <= j < i ==> lit@[j] == text@[at + j],
    {
        if text[at + i] != c {
            assert(lit@[i as int] != text@.subrange(at as int, at + n)[i as int]);
            return false;
        }
        i += 1;
    }
    assert(lit@ =~= text@.subrange(at as int, at + n));
    true
}

/// Tests whether `line` starts with the literal `lit`.
pub(crate) fn starts_with(line: &str, lit: &str) -> (b: bool)
    ensures
        b == stands_at(line@, 0, lit@),
{
    let n = lit.unicode_len();
    let mut rest = line.chars();
    let mut i: usize = 0;
    for c in it: lit.chars()
        invariant
            it.seq() == lit@,
            i == it.index(),
            n == lit@.len(),
            rest.remaining() == line@.skip(i as int),
            i <= line@.len(),
            forall|j: int| 0 <= j < i ==> lit@[j] == line@[j],
    {
        match rest.next() {
            Some(d) => {
                if d != c {
                    assert(n <= line@.len() ==> lit@[i as int] != line@.subrange(
                        0,
                        n as int,
                    )[i as int]);
                    return false;
                }
            },
            None => {
                return false;
            },
        }
        assert(line@.skip(i as int).drop_first() =~= line@.skip(i + 1));
        i += 1;
    }
    assert(lit@ =~= line@.subrange(0, n as int));
    true
}

} // verus!
