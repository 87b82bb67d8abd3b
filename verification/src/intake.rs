//! How a name that arrives on a pipe is told apart from what follows it.
//!
//! A name passed as `-` is read from the first line of stdin, so that it
//! never appears on a command line. The reading of stdin is the program's; the
//! rule for where the name ends and what it is, is here.

use vstd::prelude::*;
use vstd::string::{StrSliceExecFns, StringSliceAdditionalSpecFns};
use vstd::utf8::{decode_utf8, valid_utf8};

use crate::alias::{is_white_space, utf8_text, white_space};

verus! {

broadcast use vstd::utf8::encode_utf8_decode_utf8;

/// What a name argument says when the name itself arrives on stdin.
pub const ON_STDIN: &'static str = "-";

/// Where the first line of `bytes` ends: the first newline, or the end.
pub open spec fn line_end(bytes: Seq<u8>) -> int
    decreases bytes.len(),
{
    if bytes.len() == 0 {
        0
    } else if bytes[0] == 10 {
        0
    } else {
        1 + line_end(bytes.drop_first())
    }
}

/// `text` without the whitespace at its front.
pub open spec fn trim_start(text: Seq<char>) -> Seq<char>
    decreases text.len(),
{
    if text.len() > 0 && is_white_space(text[0]) {
        trim_start(text.drop_first())
    } else {
        text
    }
}

/// `text` without the whitespace at its end.
pub open spec fn trim_end(text: Seq<char>) -> Seq<char>
    decreases text.len(),
{
    if text.len() > 0 && is_white_space(text.last()) {
        trim_end(text.drop_last())
    } else {
        text
    }
}

/// `text` without whitespace at either end, as `str::trim` leaves it.
pub open spec fn trimmed(text: Seq<char>) -> Seq<char> {
    trim_end(trim_start(text))
}

/// Why the first line of a pipe is not a name.
#[derive(Debug, Clone, Copy, PartialEq, Eq, Structural)]
pub enum FirstLine {
    /// The first line is not UTF-8 text.
    NotText,
    /// The first line, where the name was to be, holds nothing but whitespace.
    Empty,
}

impl FirstLine {
    /// The words that say which, for the person who piped it.
    pub fn reason(&self) -> (reason: &'static str)
        ensures
            reason@ == match self {
                FirstLine::NotText => "the first line of stdin is not text"@,
                FirstLine::Empty => "the first line of stdin, where the name was to be, is empty"@,
            },
    {
        match self {
            FirstLine::NotText => "the first line of stdin is not text",
            FirstLine::Empty => "the first line of stdin, where the name was to be, is empty",
        }
    }
}

/// What splitting a name off the front of `fed` answers: the first line as
/// text without surrounding whitespace, and every byte after its newline.
pub open spec fn split_name_spec(fed: Seq<u8>) -> Result<(Seq<char>, Seq<u8>), FirstLine> {
    let cut = line_end(fed);
    let line = fed.subrange(0, cut);
    let rest = if cut < fed.len() {
        fed.subrange(cut + 1, fed.len() as int)
    } else {
        Seq::empty()
    };
    if !valid_utf8(line) {
        Err(FirstLine::NotText)
    } else if trimmed(decode_utf8(line)).len() == 0 {
        Err(FirstLine::Empty)
    } else {
        Ok((trimmed(decode_utf8(line)), rest))
    }
}

/// Where the first line ends is at a newline or at the end, and nothing
/// before it is one.
proof fn lemma_line_end(bytes: Seq<u8>)
    ensures
        0 <= line_end(bytes) <= bytes.len(),
        line_end(bytes) < bytes.len() ==> bytes[line_end(bytes)] == 10,
        forall|i: int| 0 <= i < line_end(bytes) ==> bytes[i] != 10,
    decreases bytes.len(),
{
    if bytes.len() > 0 && bytes[0] != 10 {
        lemma_line_end(bytes.drop_first());
        assert forall|i: int| 0 <= i < line_end(bytes) implies bytes[i] != 10 by {
            if i > 0 {
                assert(bytes[i] == bytes.drop_first()[i - 1]);
            }
        }
    }
}

/// Trimming the front of text whose first `count` characters are whitespace
/// trims them first.
proof fn lemma_trim_start_skips(text: Seq<char>, count: int)
    requires
        0 <= count <= text.len(),
        forall|i: int| 0 <= i < count ==> is_white_space(#[trigger] text[i]),
    ensures
        trim_start(text) == trim_start(text.subrange(count, text.len() as int)),
    decreases count,
{
    if count > 0 {
        assert(text.drop_first().subrange(count - 1, text.drop_first().len() as int) =~= text.subrange(
            count,
            text.len() as int,
        ));
        assert forall|i: int| 0 <= i < count - 1 implies is_white_space(#[trigger] text.drop_first()[i]) by {
            assert(text.drop_first()[i] == text[i + 1]);
        }
        lemma_trim_start_skips(text.drop_first(), count - 1);
    } else {
        assert(text.subrange(0, text.len() as int) =~= text);
    }
}

/// Trimming the end of text whose characters from `keep` on are whitespace
/// trims them first.
proof fn lemma_trim_end_skips(text: Seq<char>, keep: int)
    requires
        0 <= keep <= text.len(),
        forall|i: int| keep <= i < text.len() ==> is_white_space(#[trigger] text[i]),
    ensures
        trim_end(text) == trim_end(text.subrange(0, keep)),
    decreases text.len() - keep,
{
    if keep < text.len() {
        assert(text.drop_last().subrange(0, keep) =~= text.subrange(0, keep));
        lemma_trim_end_skips(text.drop_last(), keep);
    } else {
        assert(text.subrange(0, keep) =~= text);
    }
}

/// Where `text` from `from` to `to` starts and ends once the whitespace at
/// either end of that stretch is gone.
fn trim_bounds(text: &str, from: usize, to: usize) -> (bounds: (usize, usize))
    requires
        from <= to <= text@.len(),
    ensures
        from <= bounds.0 <= bounds.1 <= to,
        text@.subrange(bounds.0 as int, bounds.1 as int) == trimmed(text@.subrange(from as int, to as int)),
{
    let ghost piece = text@.subrange(from as int, to as int);
    let mut start: usize = from;
    while start < to && white_space(text.get_char(start))
        invariant
            to <= text@.len(),
            from <= start <= to,
            forall|i: int| from <= i < start ==> is_white_space(#[trigger] text@[i]),
        decreases to - start,
    {
        start = start + 1;
    }
    let ghost front = text@.subrange(start as int, to as int);
    proof {
        assert forall|i: int| 0 <= i < start - from implies is_white_space(#[trigger] piece[i]) by {
            assert(piece[i] == text@[i + from]);
        }
        lemma_trim_start_skips(piece, start - from);
        assert(piece.subrange(start - from, piece.len() as int) =~= front);
        if start < to {
            assert(!is_white_space(front[0]));
        } else {
            assert(front =~= Seq::<char>::empty());
        }
        assert(trim_start(front) == front);
    }
    let mut end: usize = to;
    while end > start && white_space(text.get_char(end - 1))
        invariant
            to <= text@.len(),
            from <= start <= end <= to,
            front == text@.subrange(start as int, to as int),
            forall|i: int| end <= i < to ==> is_white_space(#[trigger] text@[i]),
        decreases end,
    {
        end = end - 1;
    }
    proof {
        let kept = (end - start) as int;
        assert forall|i: int| kept <= i < front.len() implies is_white_space(#[trigger] front[i]) by {
            assert(front[i] == text@[i + start]);
        }
        lemma_trim_end_skips(front, kept);
        let inner = front.subrange(0, kept);
        assert(inner =~= text@.subrange(start as int, end as int));
        if kept > 0 {
            assert(!is_white_space(inner.last()));
        }
        assert(trim_end(inner) == inner);
    }
    (start, end)
}

/// Splits the first line off `fed` as a name, leaving the rest for the verb.
///
/// Whitespace at either end of the line goes, because a pipe is fed by a
/// shell, a clipboard or a file, and all three add a newline the caller did
/// not type; a carriage return goes with it.
pub fn split_name(fed: &[u8]) -> (split: Result<(String, Vec<u8>), FirstLine>)
    ensures
        match (split, split_name_spec(fed@)) {
            (Ok((name, rest)), Ok((expected_name, expected_rest))) => name@ == expected_name && rest@
                == expected_rest,
            (Err(error), Err(expected)) => error == expected,
            _ => false,
        },
{
    proof {
        lemma_line_end(fed@);
    }
    let mut cut: usize = 0;
    while cut < fed.len() && fed[cut] != 10
        invariant
            cut <= fed@.len(),
            cut <= line_end(fed@),
            0 <= line_end(fed@) <= fed@.len(),
            line_end(fed@) < fed@.len() ==> fed@[line_end(fed@)] == 10,
            forall|i: int| 0 <= i < line_end(fed@) ==> fed@[i] != 10,
        decreases fed@.len() - cut,
    {
        cut = cut + 1;
    }
    assert(cut == line_end(fed@));
    let line = vstd::slice::slice_subrange(fed, 0, cut);
    let rest = if cut < fed.len() {
        vstd::slice::slice_to_vec(vstd::slice::slice_subrange(fed, cut + 1, fed.len()))
    } else {
        Vec::new()
    };
    let text = match utf8_text(line) {
        Some(text) => text,
        None => return Err(FirstLine::NotText),
    };
    proof {
        vstd::utf8::decode_utf8_encode_utf8(line@);
        assert(text@ == decode_utf8(line@));
    }
    let count = text.unicode_len();
    let (start, end) = trim_bounds(text, 0, count);
    assert(text@.subrange(0, count as int) =~= text@);
    if end == start {
        return Err(FirstLine::Empty);
    }
    let name = text.substring_char(start, end).to_owned();
    Ok((name, rest))
}

/// The lines of `text`, split at every newline: one more line than there are
/// newlines, the last one empty when the text ends in a newline.
pub open spec fn lines_of(text: Seq<char>) -> Seq<Seq<char>>
    decreases text.len(),
{
    if text.len() == 0 {
        seq![Seq::empty()]
    } else if text.last() == '\n' {
        lines_of(text.drop_last()).push(Seq::empty())
    } else {
        let before = lines_of(text.drop_last());
        before.update(before.len() - 1, before.last().push(text.last()))
    }
}

/// Each of `lines` without whitespace at either end, in order, leaving out
/// those that were nothing but whitespace.
pub open spec fn kept_lines(lines: Seq<Seq<char>>) -> Seq<Seq<char>>
    decreases lines.len(),
{
    if lines.len() == 0 {
        Seq::empty()
    } else if trimmed(lines.last()).len() == 0 {
        kept_lines(lines.drop_last())
    } else {
        kept_lines(lines.drop_last()).push(trimmed(lines.last()))
    }
}

/// What reading `rest` as a list of members answers: one member per line that
/// holds more than whitespace, trimmed, in order; nothing when `rest` is not
/// UTF-8 text.
pub open spec fn members_spec(rest: Seq<u8>) -> Option<Seq<Seq<char>>> {
    if !valid_utf8(rest) {
        None
    } else {
        Some(kept_lines(lines_of(decode_utf8(rest))))
    }
}

/// There is always a line, and a newline starts a new one.
proof fn lemma_lines_step(text: Seq<char>, at: int)
    requires
        0 <= at < text.len(),
    ensures
        lines_of(text.subrange(0, at)).len() > 0,
        lines_of(text.subrange(0, at + 1)) == if text[at] == '\n' {
            lines_of(text.subrange(0, at)).push(Seq::empty())
        } else {
            let before = lines_of(text.subrange(0, at));
            before.update(before.len() - 1, before.last().push(text[at]))
        },
{
    lemma_lines_nonempty(text.subrange(0, at));
    assert(text.subrange(0, at + 1).drop_last() =~= text.subrange(0, at));
}

/// Every text has at least one line.
proof fn lemma_lines_nonempty(text: Seq<char>)
    ensures
        lines_of(text).len() > 0,
    decreases text.len(),
{
    if text.len() > 0 {
        lemma_lines_nonempty(text.drop_last());
    }
}

/// The members a piped list names, one per line.
///
/// Each line is trimmed of whitespace at either end, a carriage return with
/// it, and a line that held nothing else is skipped; [`None`] when the bytes
/// are not UTF-8 text.
pub fn members(rest: &[u8]) -> (listed: Option<Vec<String>>)
    ensures
        match (listed, members_spec(rest@)) {
            (Some(names), Some(expected)) => names@.len() == expected.len() && forall|i: int|
                0 <= i < expected.len() ==> #[trigger] names@[i]@ == expected[i],
            (None, None) => true,
            _ => false,
        },
{
    let text = match utf8_text(rest) {
        Some(text) => text,
        None => return None,
    };
    proof {
        vstd::utf8::decode_utf8_encode_utf8(rest@);
        assert(text@ == decode_utf8(rest@));
    }
    let count = text.unicode_len();
    let mut out: Vec<String> = Vec::new();
    let mut line_start: usize = 0;
    let mut at: usize = 0;
    proof {
        assert(text@.subrange(0, 0) =~= Seq::<char>::empty());
        assert(lines_of(text@.subrange(0, 0)).drop_last() =~= Seq::<Seq<char>>::empty());
    }
    while at < count
        invariant
            count == text@.len(),
            line_start <= at <= count,
            lines_of(text@.subrange(0, at as int)).len() > 0,
            lines_of(text@.subrange(0, at as int)).last() == text@.subrange(line_start as int, at as int),
            out@.len() == kept_lines(lines_of(text@.subrange(0, at as int)).drop_last()).len(),
            forall|i: int|
                0 <= i < out@.len() ==> #[trigger] out@[i]@ == kept_lines(
                    lines_of(text@.subrange(0, at as int)).drop_last(),
                )[i],
        decreases count - at,
    {
        let ghost before = lines_of(text@.subrange(0, at as int));
        proof {
            lemma_lines_step(text@, at as int);
        }
        let c = text.get_char(at);
        if c == '\n' {
            let (start, end) = trim_bounds(text, line_start, at);
            let ghost after = lines_of(text@.subrange(0, at + 1));
            proof {
                assert(after.drop_last() =~= before);
                assert(before =~= before.drop_last().push(before.last()));
            }
            if start < end {
                let member = text.substring_char(start, end).to_owned();
                out.push(member);
            }
            line_start = at + 1;
            at = at + 1;
            proof {
                assert(text@.subrange(line_start as int, at as int) =~= Seq::<char>::empty());
            }
        } else {
            proof {
                let after = lines_of(text@.subrange(0, at + 1));
                assert(after.drop_last() =~= before.drop_last());
                assert(after.last() =~= text@.subrange(line_start as int, at + 1));
            }
            at = at + 1;
        }
    }
    let ghost lines = lines_of(text@.subrange(0, count as int));
    assert(text@.subrange(0, count as int) =~= text@);
    let (start, end) = trim_bounds(text, line_start, count);
    proof {
        assert(lines =~= lines.drop_last().push(lines.last()));
    }
    if start < end {
        let member = text.substring_char(start, end).to_owned();
        out.push(member);
    }
    Some(out)
}

} // verus!
