//! Body lines of a hunk: the leading character says what the line does.

use vstd::prelude::*;
use crate::error::{format_error, Error};

verus! {

/// What a body line of a hunk does to the file.
#[derive(Clone, Copy, Debug, PartialEq, Eq, Structural)]
pub enum LineAction {
    /// The line is only in the new file.
    Add,
    /// The line is only in the old file.
    Remove,
    /// The line is in both files.
    Keep,
}

/// The action that a leading character stands for, if it stands for one.
pub open spec fn action_of(c: char) -> Option<LineAction> {
    if c == '+' {
        Some(LineAction::Add)
    } else if c == '-' {
        Some(LineAction::Remove)
    } else if c == ' ' {
        Some(LineAction::Keep)
    } else {
        None
    }
}

/// The action and the content of a body line: the content is everything
/// after the leading character. `None` for a line that is empty or starts
/// with any other character.
pub open spec fn line_spec(line: Seq<char>) -> Option<(LineAction, Seq<char>)> {
    if line.len() == 0 {
        None
    } else {
        match action_of(line[0]) {
            Some(action) => Some((action, line.skip(1))),
            None => None,
        }
    }
}

/// A line made of a leading `+`, `-` or space and any text is classified
/// by that character, and its content is the text, unchanged.
pub proof fn lemma_line_with_prefix(prefix: char, text: Seq<char>)
    requires
        prefix == '+' || prefix == '-' || prefix == ' ',
    ensures
        line_spec(seq![prefix] + text) == Some((action_of(prefix)->0, text)),
        action_of('+') == Some(LineAction::Add),
        action_of('-') == Some(LineAction::Remove),
        action_of(' ') == Some(LineAction::Keep),
{
    let line = seq![prefix] + text;
    assert(line[0] == prefix);
    assert(line.skip(1) =~= text);
}

/// The empty line, and a line that starts with anything but `+`, `-` or a
/// space, are not body lines.
pub proof fn lemma_line_without_prefix(line: Seq<char>)
    requires
        line.len() == 0 || (line[0] != '+' && line[0] != '-' && line[0] != ' '),
    ensures
        line_spec(line) is None,
{
}

/// Classifies one body line.
///
/// The content is returned as it stands in the line, without trimming.
/// An empty line and a line with another leading character are format
/// errors.
pub fn classify_line(line: &str) -> (r: Result<(LineAction, String), Error>)
    ensures
        match r {
            Ok((action, content)) => line_spec(line@) == Some((action, content@)),
            Err(e) => line_spec(line@) is None && e@ == format_error("bad line prefix"@),
        },
{
    if line.is_empty() {
        return Err(Error::from("bad line prefix"));
    }
    let first = line.get_char(0);
    let action = if first == '+' {
        LineAction::Add
    } else if first == '-' {
        LineAction::Remove
    } else if first == ' ' {
        LineAction::Keep
    } else {
        return Err(Error::from("bad line prefix"));
    };
    let len = line.unicode_len();
    let content = line.substring_char(1, len).to_owned();
    assert(line@.subrange(1, len as int) == line@.skip(1));
    Ok((action, content))
}

} // verus!
