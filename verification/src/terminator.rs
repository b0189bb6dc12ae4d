//! Line ends and the dot lines that end multi-line blocks.
use crate::bytes;
use crate::bytes::{bytes_equal, has_suffix, CR, DOT, LF};
use crate::responses::{CRLF, TERMINATOR};
use vstd::prelude::*;
use vstd::string::StringSliceAdditionalSpecFns;

verus! {

/// The line that ends a multi-line block.
pub const DOT_TERMINATOR: &'static str = ".\r\n";

/// The most bytes of a block's end that a reader may have to keep between two reads.
pub const TERMINATOR_TAIL_SIZE: usize = 5;

/// Where a line that starts at a given place stands.
#[derive(Debug, Clone, Copy, PartialEq, Eq, Structural)]
pub enum ResponseLineStatus {
    /// The line end is complete; the next line starts at this index.
    CompleteAt(usize),
    NeedMore,
    /// A carriage return or a line feed stands alone.
    Invalid,
}

#[derive(Debug, Clone, Copy, PartialEq, Eq, Structural)]
pub enum BoundedResponseLineStatus {
    CompleteAt(usize),
    NeedMore,
    Invalid,
    TooLong,
}

/// A carriage return and a line feed stand at `at`.
pub open spec fn crlf_at(input: Seq<u8>, at: int) -> bool {
    0 <= at && at + 1 < input.len() && input[at] == CR && input[at + 1] == LF
}

/// The first carriage return or line feed at or after `from` decides: together they end the
/// line, alone they spoil it, and a carriage return at the very end leaves it open.
pub open spec fn line_status(input: Seq<u8>, from: int) -> ResponseLineStatus
    decreases input.len() - from,
{
    if from < 0 || from >= input.len() {
        ResponseLineStatus::NeedMore
    } else if input[from] == CR {
        if from + 1 >= input.len() {
            ResponseLineStatus::NeedMore
        } else if input[from + 1] == LF {
            ResponseLineStatus::CompleteAt((from + 2) as usize)
        } else {
            ResponseLineStatus::Invalid
        }
    } else if input[from] == LF {
        ResponseLineStatus::Invalid
    } else {
        line_status(input, from + 1)
    }
}

/// Finds where the line that starts at `start` ends.
pub fn detect_response_line_end_from(input: &[u8], start: usize) -> (status: ResponseLineStatus)
    ensures
        status == line_status(input@, start as int),
        status matches ResponseLineStatus::CompleteAt(end) ==> start + 2 <= end <= input@.len()
            && crlf_at(input@, end - 2),
{
    let mut at: usize = start;
    while at < input.len()
        invariant
            start <= at,
            line_status(input@, start as int) == line_status(input@, at as int),
        decreases input@.len() - at,
    {
        if input[at] == CR {
            if input.len() - at < 2 {
                return ResponseLineStatus::NeedMore;
            }
            if input[at + 1] == LF {
                return ResponseLineStatus::CompleteAt(at + 2);
            }
            return ResponseLineStatus::Invalid;
        }
        if input[at] == LF {
            return ResponseLineStatus::Invalid;
        }
        at = at + 1;
    }
    ResponseLineStatus::NeedMore
}

/// The first line end is where the line ends.
pub proof fn lemma_line_status_is(input: Seq<u8>, from: int, end: int)
    requires
        0 <= from <= end,
        forall|j: int| from <= j < end ==> #[trigger] input[j] >= 0x20,
        crlf_at(input, end),
    ensures
        line_status(input, from) == ResponseLineStatus::CompleteAt((end + 2) as usize),
    decreases end - from,
{
    if from < end {
        assert(input[from] >= 0x20);
        lemma_line_status_is(input, from + 1, end);
    }
}

/// A line that has ended, or is spoiled, stays as it is when more bytes arrive.
pub proof fn lemma_line_status_grows(input: Seq<u8>, more: Seq<u8>, from: int)
    requires
        0 <= from,
        line_status(input, from) != ResponseLineStatus::NeedMore,
    ensures
        line_status(input + more, from) == line_status(input, from),
    decreases input.len() - from,
{
    let whole = input + more;
    assert(whole[from] == input[from]);
    if input[from] == CR {
        assert(whole[from + 1] == input[from + 1]);
    } else if input[from] != LF {
        lemma_line_status_grows(input, more, from + 1);
    }
}

/// Where a line that has ended lies.
pub proof fn lemma_line_end(input: Seq<u8>, from: int)
    requires
        0 <= from,
        input.len() <= usize::MAX,
    ensures
        line_status(input, from) matches ResponseLineStatus::CompleteAt(end) ==> from + 2
            <= end <= input.len() && crlf_at(input, end - 2),
    decreases input.len() - from,
{
    if from < input.len() && input[from] != CR && input[from] != LF {
        lemma_line_end(input, from + 1);
    }
}

/// `line_status` of the first line under a limit on its length, line end included.
pub open spec fn bounded_line_status(input: Seq<u8>, limit: int) -> BoundedResponseLineStatus {
    match line_status(input, 0) {
        ResponseLineStatus::CompleteAt(end) => if end <= limit {
            BoundedResponseLineStatus::CompleteAt(end)
        } else {
            BoundedResponseLineStatus::TooLong
        },
        ResponseLineStatus::NeedMore => if input.len() >= limit {
            BoundedResponseLineStatus::TooLong
        } else {
            BoundedResponseLineStatus::NeedMore
        },
        ResponseLineStatus::Invalid => BoundedResponseLineStatus::Invalid,
    }
}

/// Finds the end of the first line, which may be at most `limit` bytes long.
pub fn detect_bounded_response_line_end(input: &[u8], limit: usize) -> (status:
    BoundedResponseLineStatus)
    ensures
        status == bounded_line_status(input@, limit as int),
        status matches BoundedResponseLineStatus::CompleteAt(end) ==> 2 <= end <= input@.len()
            && end <= limit,
{
    match detect_response_line_end_from(input, 0) {
        ResponseLineStatus::CompleteAt(end) => {
            if end <= limit {
                BoundedResponseLineStatus::CompleteAt(end)
            } else {
                BoundedResponseLineStatus::TooLong
            }
        },
        ResponseLineStatus::NeedMore => {
            if input.len() >= limit {
                BoundedResponseLineStatus::TooLong
            } else {
                BoundedResponseLineStatus::NeedMore
            }
        },
        ResponseLineStatus::Invalid => BoundedResponseLineStatus::Invalid,
    }
}

/// The index after the first line end at or after `from`.
pub open spec fn crlf_line_end(input: Seq<u8>, from: int) -> Option<int>
    decreases input.len() - from,
{
    if from < 0 || from + 1 >= input.len() {
        None
    } else if crlf_at(input, from) {
        Some(from + 2)
    } else {
        crlf_line_end(input, from + 1)
    }
}

/// The first line end is where the line ends.
pub proof fn lemma_crlf_line_end_is(input: Seq<u8>, from: int, at: int)
    requires
        0 <= from <= at,
        forall|j: int| from <= j < at ==> #[trigger] input[j] != CR,
        crlf_at(input, at),
    ensures
        crlf_line_end(input, from) == Some(at + 2),
    decreases at - from,
{
    if from < at {
        assert(input[from] != CR);
        lemma_crlf_line_end_is(input, from + 1, at);
    }
}

pub fn find_crlf_line_end(input: &[u8], from: usize) -> (end: Option<usize>)
    ensures
        match end {
            Some(at) => crlf_line_end(input@, from as int) == Some(at as int) && from + 2 <= at
                <= input@.len(),
            None => crlf_line_end(input@, from as int) is None,
        },
{
    let mut at: usize = from;
    while at < input.len() && input.len() - at >= 2
        invariant
            from <= at,
            crlf_line_end(input@, from as int) == crlf_line_end(input@, at as int),
        decreases input@.len() - at,
    {
        if input[at] == CR && input[at + 1] == LF {
            return Some(at + 2);
        }
        at = at + 1;
    }
    None
}

/// The line without its line end; `None` when it does not end in one.
pub open spec fn without_line_end(line: Seq<u8>) -> Option<Seq<u8>> {
    if crlf_at(line, line.len() - 2) {
        Some(line.subrange(0, line.len() - 2))
    } else {
        None
    }
}

/// The line without its line end where it ends in one, the line itself otherwise.
pub open spec fn line_body(line: Seq<u8>) -> Seq<u8> {
    match without_line_end(line) {
        Some(body) => body,
        None => line,
    }
}

pub fn strip_complete_crlf_line(line: &[u8]) -> (body: Option<&[u8]>)
    ensures
        bytes::opt_view(body) == without_line_end(line@),
{
    if line.len() >= 2 && line[line.len() - 2] == CR && line[line.len() - 1] == LF {
        Some(&line[0..line.len() - 2])
    } else {
        None
    }
}

/// The line without its line end, if it has one.
pub fn strip_line_end(line: &[u8]) -> (body: &[u8])
    ensures
        body@ == line_body(line@),
{
    match strip_complete_crlf_line(line) {
        Some(body) => body,
        None => line,
    }
}

/// A line starts at `at` in a block that starts at `start`.
pub open spec fn line_starts_at(input: Seq<u8>, start: int, at: int) -> bool {
    at == start || (start + 2 <= at && crlf_at(input, at - 2))
}

/// A dot line of the block that starts at `start` ends before `end`.
pub open spec fn dot_line_ends_at(input: Seq<u8>, start: int, end: int) -> bool {
    start + 3 <= end <= input.len() && input[end - 3] == DOT && crlf_at(input, end - 2)
        && line_starts_at(input, start, end - 3)
}

/// The smallest index from `from` on where a dot line of the block ends.
pub open spec fn block_end_from(input: Seq<u8>, start: int, from: int) -> Option<int>
    decreases input.len() - from + 1,
{
    if from > input.len() {
        None
    } else if dot_line_ends_at(input, start, from) {
        Some(from)
    } else {
        block_end_from(input, start, from + 1)
    }
}

/// The index after the first dot line of the block that starts at `start`.
pub open spec fn block_end(input: Seq<u8>, start: int) -> Option<int> {
    block_end_from(input, start, start)
}

/// The end of a block is the first place where a dot line ends.
pub proof fn lemma_block_end(input: Seq<u8>, start: int, from: int)
    ensures
        match block_end_from(input, start, from) {
            Some(end) => from <= end && dot_line_ends_at(input, start, end) && forall|e: int|
                from <= e < end ==> !dot_line_ends_at(input, start, e),
            None => forall|e: int| from <= e ==> !dot_line_ends_at(input, start, e),
        },
    decreases input.len() - from + 1,
{
    if from <= input.len() && !dot_line_ends_at(input, start, from) {
        lemma_block_end(input, start, from + 1);
    }
}

/// An index with the properties of `lemma_block_end` is the end of the block.
pub proof fn lemma_block_end_is(input: Seq<u8>, start: int, end: int)
    requires
        start <= end,
        dot_line_ends_at(input, start, end),
        forall|e: int| start <= e < end ==> !dot_line_ends_at(input, start, e),
    ensures
        block_end(input, start) == Some(end),
{
    lemma_block_end(input, start, start);
}

/// A block that has ended stays as it is when more bytes arrive.
pub proof fn lemma_block_end_grows(input: Seq<u8>, more: Seq<u8>, start: int)
    requires
        0 <= start,
        block_end(input, start) is Some,
    ensures
        block_end(input + more, start) == block_end(input, start),
{
    let both = input + more;
    lemma_block_end(input, start, start);
    let end = block_end(input, start)->0;
    assert forall|e: int| start <= e <= end implies dot_line_ends_at(both, start, e)
        == dot_line_ends_at(input, start, e) by {
        assert forall|j: int| 0 <= j < end implies both[j] == input[j] by {}
    }
    lemma_block_end_is(both, start, end);
}

/// Finds the end of the block that starts at `start`.
pub fn find_dot_terminated_block_end(input: &[u8], start: usize) -> (end: Option<usize>)
    ensures
        match end {
            Some(at) => block_end(input@, start as int) == Some(at as int) && start < at
                <= input@.len(),
            None => block_end(input@, start as int) is None,
        },
{
    let mut end: usize = start;
    while end < input.len()
        invariant
            start <= end,
            forall|e: int| start <= e <= end ==> !dot_line_ends_at(input@, start as int, e),
        decreases input@.len() - end,
    {
        end = end + 1;
        if end - start >= 3 && input[end - 3] == DOT && input[end - 2] == CR && input[end - 1]
            == LF {
            if end - start == 3 || (end - start >= 5 && input[end - 5] == CR && input[end - 4]
                == LF) {
                proof {
                    lemma_block_end_is(input@, start as int, end as int);
                }
                return Some(end);
            }
        }
    }
    proof {
        lemma_block_end(input@, start as int, start as int);
    }
    None
}

pub fn append_crlf(buffer: &mut Vec<u8>)
    ensures
        final(buffer)@ == old(buffer)@ + CRLF.spec_bytes(),
{
    buffer.extend_from_slice(CRLF.as_bytes());
}

/// The text with a line end at its end.
pub open spec fn whole_lines(text: Seq<u8>) -> Seq<u8> {
    if bytes::ends_with(text, CRLF.spec_bytes()) {
        text
    } else {
        text + CRLF.spec_bytes()
    }
}

/// The text as a complete multi-line block.
pub open spec fn terminated(text: Seq<u8>) -> Seq<u8> {
    whole_lines(text) + DOT_TERMINATOR.spec_bytes()
}

/// Ends the last line, if that is open, and the block.
pub fn append_dot_terminator(buffer: &mut Vec<u8>)
    ensures
        final(buffer)@ == terminated(old(buffer)@),
{
    if !has_suffix(buffer.as_slice(), CRLF.as_bytes()) {
        append_crlf(buffer);
    }
    buffer.extend_from_slice(DOT_TERMINATOR.as_bytes());
}

/// The block without its dot line; `None` when it does not end in one.
pub open spec fn without_dot_line(block: Seq<u8>) -> Option<Seq<u8>> {
    if block == DOT_TERMINATOR.spec_bytes() || bytes::ends_with(block, TERMINATOR.spec_bytes()) {
        Some(block.subrange(0, block.len() - DOT_TERMINATOR.spec_bytes().len()))
    } else {
        None
    }
}

pub fn strip_dot_terminator_suffix(block: &[u8]) -> (text: Option<&[u8]>)
    ensures
        bytes::opt_view(text) == without_dot_line(block@),
{
    proof {
        lemma_dot_terminator();
    }
    if bytes_equal(block, DOT_TERMINATOR.as_bytes()) || has_suffix(block, TERMINATOR.as_bytes()) {
        Some(&block[0..block.len() - DOT_TERMINATOR.as_bytes().len()])
    } else {
        None
    }
}

/// The bytes of the terminators.
pub proof fn lemma_dot_terminator()
    ensures
        CRLF.spec_bytes() == seq![CR, LF],
        DOT_TERMINATOR.spec_bytes() == seq![DOT, CR, LF],
        TERMINATOR.spec_bytes() == seq![CR, LF, DOT, CR, LF],
        TERMINATOR.spec_bytes() == CRLF.spec_bytes() + DOT_TERMINATOR.spec_bytes(),
{
    reveal_strlit("\r\n");
    reveal_strlit(".\r\n");
    reveal_strlit("\r\n.\r\n");
    assert(CRLF.is_ascii());
    assert(DOT_TERMINATOR.is_ascii());
    assert(TERMINATOR.is_ascii());
    assert(CRLF.spec_bytes() =~= seq![CR, LF]);
    assert(DOT_TERMINATOR.spec_bytes() =~= seq![DOT, CR, LF]);
    assert(TERMINATOR.spec_bytes() =~= seq![CR, LF, DOT, CR, LF]);
    assert(TERMINATOR.spec_bytes() =~= CRLF.spec_bytes() + DOT_TERMINATOR.spec_bytes());
}

/// Ending a block and taking its dot line off again gives the text in whole lines.
pub proof fn law_strip_undoes_append(text: Seq<u8>)
    ensures
        bytes::ends_with(terminated(text), TERMINATOR.spec_bytes()),
        without_dot_line(terminated(text)) == Some(whole_lines(text)),
{
    lemma_dot_terminator();
    let lines = whole_lines(text);
    let block = terminated(text);
    assert(bytes::ends_with(lines, CRLF.spec_bytes())) by {
        if !bytes::ends_with(text, CRLF.spec_bytes()) {
            assert(lines.subrange(lines.len() - 2, lines.len() as int) =~= CRLF.spec_bytes());
        }
    }
    assert(lines.subrange(lines.len() - 2, lines.len() as int) == seq![CR, LF]);
    assert(lines[lines.len() - 2] == seq![CR, LF][0]) by {
        assert(lines.subrange(lines.len() - 2, lines.len() as int)[0] == lines[lines.len() - 2]);
    }
    assert(lines[lines.len() - 1] == seq![CR, LF][1]) by {
        assert(lines.subrange(lines.len() - 2, lines.len() as int)[1] == lines[lines.len() - 1]);
    }
    assert(block.subrange(block.len() - 5, block.len() as int) =~= TERMINATOR.spec_bytes());
    assert(block.subrange(0, block.len() - 3) =~= lines);
}

/// The room that a response of `target` bytes leaves before its dot line.
pub fn target_before_dot_terminator(target: usize) -> (room: usize)
    ensures
        room == (if target >= 3 {
            target - 3
        } else {
            0
        }),
{
    target.saturating_sub(3)
}

/// Where a line ends does not depend on what stands before it.
pub proof fn lemma_line_status_shift(prefix: Seq<u8>, input: Seq<u8>, from: int)
    requires
        0 <= from,
        prefix.len() + input.len() <= usize::MAX,
    ensures
        line_status(prefix + input, prefix.len() + from) == (match line_status(input, from) {
            ResponseLineStatus::CompleteAt(end) => ResponseLineStatus::CompleteAt(
                (prefix.len() + end) as usize,
            ),
            status => status,
        }),
    decreases input.len() - from,
{
    let whole = prefix + input;
    let shift = prefix.len() as int;
    if from < input.len() {
        assert(whole[shift + from] == input[from]);
        if input[from] == CR {
            if from + 1 < input.len() {
                assert(whole[shift + from + 1] == input[from + 1]);
            }
        } else if input[from] != LF {
            lemma_line_status_shift(prefix, input, from + 1);
        }
    }
}

/// Where a block ends does not depend on what stands before it.
pub proof fn lemma_block_end_shift(prefix: Seq<u8>, input: Seq<u8>, start: int)
    requires
        0 <= start,
    ensures
        block_end(prefix + input, prefix.len() + start) == (match block_end(input, start) {
            Some(end) => Some(prefix.len() + end),
            None => None,
        }),
{
    let whole = prefix + input;
    let shift = prefix.len() as int;
    assert forall|j: int| 0 <= j < input.len() implies whole[shift + j] == #[trigger] input[j] by {}
    assert forall|e: int| start <= e implies dot_line_ends_at(whole, shift + start, shift + e)
        == #[trigger] dot_line_ends_at(input, start, e) by {
        if start + 3 <= e <= input.len() {
            assert(whole[shift + (e - 3)] == input[e - 3]);
            assert(whole[shift + (e - 2)] == input[e - 2]);
            assert(whole[shift + (e - 1)] == input[e - 1]);
            if start + 2 <= e - 3 {
                assert(whole[shift + (e - 5)] == input[e - 5]);
                assert(whole[shift + (e - 4)] == input[e - 4]);
            }
        }
    }
    lemma_block_end(input, start, start);
    lemma_block_end(whole, shift + start, shift + start);
    match block_end(input, start) {
        Some(end) => {
            assert(dot_line_ends_at(whole, shift + start, shift + end));
            let from = shift + start;
            assert forall|e: int| from <= e < shift + end implies !#[trigger] dot_line_ends_at(
                whole,
                from,
                e,
            ) by {
                assert(!dot_line_ends_at(input, start, e - shift));
            }
            lemma_block_end_is(whole, shift + start, shift + end);
        },
        None => {
            if let Some(end) = block_end(whole, shift + start) {
                assert(dot_line_ends_at(input, start, end - shift));
            }
        },
    }
}

/// A line goes up to its carriage return and line feed, whatever follows. Before they have come it is
/// open, and a line feed or a carriage return alone spoils it.
pub proof fn law_line_goes_up_to_its_end(line: Seq<u8>, rest: Seq<u8>, limit: int)
    requires
        forall|i: int| 0 <= i < line.len() ==> #[trigger] line[i] != 13 && line[i] != 10,
        line.len() + 2 + rest.len() <= usize::MAX,
    ensures
        ({
            let whole = line + seq![13u8, 10u8] + rest;
            let end = (line.len() + 2) as usize;
            &&& line_status(whole, 0) == ResponseLineStatus::CompleteAt(end)
            &&& crlf_line_end(whole, 0) == Some(end as int)
            &&& bounded_line_status(whole, limit) == (if limit < end {
                BoundedResponseLineStatus::TooLong
            } else {
                BoundedResponseLineStatus::CompleteAt(end)
            })
        }),
        line_status(line, 0) == ResponseLineStatus::NeedMore,
        line_status(line + seq![13u8], 0) == ResponseLineStatus::NeedMore,
        line_status(line + seq![10u8] + rest, 0) == ResponseLineStatus::Invalid,
        rest.len() > 0 && rest[0] != 10 ==> line_status(line + seq![13u8] + rest, 0)
            == ResponseLineStatus::Invalid,
        crlf_line_end(line, 0) is None,
        bounded_line_status(line, limit) == (if line.len() < limit {
            BoundedResponseLineStatus::NeedMore
        } else {
            BoundedResponseLineStatus::TooLong
        }),
        bounded_line_status(line + seq![10u8] + rest, limit) == BoundedResponseLineStatus::Invalid,
{
    let at = line.len() as int;
    let whole = line + seq![13u8, 10u8] + rest;
    lemma_plain_line(line, whole, 0);
    lemma_plain_line(line, line, 0);
    lemma_plain_line(line, line + seq![13u8], 0);
    lemma_plain_line(line, line + seq![10u8] + rest, 0);
    lemma_plain_line(line, line + seq![13u8] + rest, 0);
    assert(whole[at] == 13 && whole[at + 1] == 10);
    assert((line + seq![13u8])[at] == 13);
    assert((line + seq![10u8] + rest)[at] == 10);
    if rest.len() > 0 {
        let spoiled = line + seq![13u8] + rest;
        assert(spoiled[at] == 13 && spoiled[at + 1] == rest[0]);
    }
}

/// What comes before the first line end decides nothing.
proof fn lemma_plain_line(line: Seq<u8>, whole: Seq<u8>, from: int)
    requires
        0 <= from <= line.len() <= whole.len(),
        forall|i: int| 0 <= i < line.len() ==> #[trigger] line[i] != 13 && line[i] != 10,
        forall|i: int| 0 <= i < line.len() ==> #[trigger] whole[i] == line[i],
    ensures
        line_status(whole, from) == line_status(whole, line.len() as int),
        crlf_line_end(whole, from) == crlf_line_end(whole, line.len() as int),
    decreases line.len() - from,
{
    if from < line.len() {
        assert(whole[from] == line[from]);
        lemma_plain_line(line, whole, from + 1);
    }
}

/// A line end comes off whole, and a text without one stays as it is.
pub proof fn law_line_end_comes_off(text: Seq<u8>)
    ensures
        without_line_end(text + seq![13u8, 10u8]) == Some(text),
        line_body(text + seq![13u8, 10u8]) == text,
        without_line_end(text) matches Some(body) ==> text == body + seq![13u8, 10u8],
        without_line_end(text) is None ==> line_body(text) == text,
{
    let line = text + seq![13u8, 10u8];
    assert(line[line.len() - 2] == 13 && line[line.len() - 1] == 10);
    assert(line.subrange(0, line.len() - 2) =~= text);
    if let Some(body) = without_line_end(text) {
        assert(text =~= body + seq![13u8, 10u8]);
    }
}

/// A block is its text, a line end where the text has none at its end, and a line with a dot alone.
pub proof fn law_block_is_its_text_and_a_dot(text: Seq<u8>)
    ensures
        terminated(text + seq![13u8, 10u8]) == text + seq![13u8, 10u8, 46u8, 13u8, 10u8],
        without_line_end(text) is None ==> terminated(text) == text + seq![
            13u8,
            10u8,
            46u8,
            13u8,
            10u8,
        ],
{
    reveal_strlit("\r\n");
    reveal_strlit(".\r\n");
    assert(CRLF.is_ascii() && DOT_TERMINATOR.is_ascii());
    assert(CRLF.spec_bytes() =~= seq![13u8, 10u8]);
    assert(DOT_TERMINATOR.spec_bytes() =~= seq![46u8, 13u8, 10u8]);
    let line = text + seq![13u8, 10u8];
    assert(line.subrange(line.len() - 2, line.len() as int) =~= seq![13u8, 10u8]);
    assert(terminated(line) =~= text + seq![13u8, 10u8, 46u8, 13u8, 10u8]);
    if without_line_end(text) is None {
        if bytes::ends_with(text, CRLF.spec_bytes()) {
            let end = text.subrange(text.len() - 2, text.len() as int);
            assert(end[0] == 13 && end[1] == 10);
            assert(text[text.len() - 2] == end[0] && text[text.len() - 1] == end[1]);
            assert(false);
        }
        assert(terminated(text) =~= text + seq![13u8, 10u8, 46u8, 13u8, 10u8]);
    }
}

/// The dot line comes off a block only where it is a line of its own.
pub proof fn law_dot_line_comes_off(block: Seq<u8>, text: Seq<u8>)
    ensures
        without_dot_line(block) == Some(text) ==> block == text + seq![46u8, 13u8, 10u8] && (
        text.len() == 0 || without_line_end(text) is Some),
        without_dot_line(seq![46u8, 13u8, 10u8]) == Some(Seq::<u8>::empty()),
        without_dot_line(text + seq![13u8, 10u8, 46u8, 13u8, 10u8]) == Some(
            text + seq![13u8, 10u8],
        ),
{
    reveal_strlit(".\r\n");
    reveal_strlit("\r\n.\r\n");
    assert(DOT_TERMINATOR.is_ascii() && TERMINATOR.is_ascii());
    let dot = seq![46u8, 13u8, 10u8];
    let tail = seq![13u8, 10u8, 46u8, 13u8, 10u8];
    assert(DOT_TERMINATOR.spec_bytes() =~= dot);
    assert(TERMINATOR.spec_bytes() =~= tail);
    assert(dot.subrange(0, 0) =~= Seq::<u8>::empty());
    let whole = text + tail;
    assert(whole.subrange(whole.len() - 5, whole.len() as int) =~= tail);
    assert(whole.subrange(0, whole.len() - 3) =~= text + seq![13u8, 10u8]);
    if without_dot_line(block) == Some(text) {
        if block == dot {
            assert(text =~= Seq::<u8>::empty());
            assert(block =~= text + dot);
        } else {
            let end = block.subrange(block.len() - 5, block.len() as int);
            assert(end == tail);
            assert(end[0] == 13 && end[1] == 10 && end[2] == 46 && end[3] == 13 && end[4] == 10);
            assert(block =~= text + dot);
            assert(text[text.len() - 2] == end[0] && text[text.len() - 1] == end[1]);
        }
    }
}

} // verus!
