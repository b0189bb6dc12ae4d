//! Bodies that a client sends after a command: they are read over, up to their dot line.
use crate::bytes::{CR, DOT, LF};
use crate::terminator;
use vstd::prelude::*;

verus! {

/// Where the reader of a body stands in its current line.
#[derive(Debug, Clone, Copy, PartialEq, Eq, Structural)]
pub enum TakeThisBodyState {
    LineStart,
    LineStartDot,
    LineStartDotCr,
    Line,
    LineCr,
}

/// What one more byte does.
#[derive(Debug, Clone, Copy, PartialEq, Eq, Structural)]
pub enum BodyStep {
    Next(TakeThisBodyState),
    /// The byte ends the dot line.
    Done,
    /// A carriage return or a line feed stands alone.
    Malformed,
}

/// What the bytes of one read do. The counts are of bytes taken from that read.
#[derive(Debug, Clone, Copy, PartialEq, Eq, Structural)]
pub enum BodyScan {
    More(TakeThisBodyState),
    Complete(usize),
    Malformed(usize),
}

pub open spec fn body_step(state: TakeThisBodyState, byte: u8) -> BodyStep {
    match state {
        TakeThisBodyState::LineStart => if byte == DOT {
            BodyStep::Next(TakeThisBodyState::LineStartDot)
        } else if byte == CR {
            BodyStep::Next(TakeThisBodyState::LineCr)
        } else if byte == LF {
            BodyStep::Malformed
        } else {
            BodyStep::Next(TakeThisBodyState::Line)
        },
        TakeThisBodyState::LineStartDot => if byte == CR {
            BodyStep::Next(TakeThisBodyState::LineStartDotCr)
        } else if byte == LF {
            BodyStep::Malformed
        } else {
            BodyStep::Next(TakeThisBodyState::Line)
        },
        TakeThisBodyState::LineStartDotCr => if byte == LF {
            BodyStep::Done
        } else {
            BodyStep::Malformed
        },
        TakeThisBodyState::Line => if byte == CR {
            BodyStep::Next(TakeThisBodyState::LineCr)
        } else if byte == LF {
            BodyStep::Malformed
        } else {
            BodyStep::Next(TakeThisBodyState::Line)
        },
        TakeThisBodyState::LineCr => if byte == LF {
            BodyStep::Next(TakeThisBodyState::LineStart)
        } else {
            BodyStep::Malformed
        },
    }
}

/// Reads `input` from `at` on, byte by byte, until the body is complete or malformed.
pub open spec fn body_scan(state: TakeThisBodyState, input: Seq<u8>, at: int) -> BodyScan
    decreases input.len() - at,
{
    if at < 0 || at >= input.len() {
        BodyScan::More(state)
    } else {
        match body_step(state, input[at]) {
            BodyStep::Next(next) => body_scan(next, input, at + 1),
            BodyStep::Done => BodyScan::Complete((at + 1) as usize),
            BodyStep::Malformed => BodyScan::Malformed((at + 1) as usize),
        }
    }
}

fn step(state: TakeThisBodyState, byte: u8) -> (next: BodyStep)
    ensures
        next == body_step(state, byte),
{
    match state {
        TakeThisBodyState::LineStart => {
            if byte == DOT {
                BodyStep::Next(TakeThisBodyState::LineStartDot)
            } else if byte == CR {
                BodyStep::Next(TakeThisBodyState::LineCr)
            } else if byte == LF {
                BodyStep::Malformed
            } else {
                BodyStep::Next(TakeThisBodyState::Line)
            }
        },
        TakeThisBodyState::LineStartDot => {
            if byte == CR {
                BodyStep::Next(TakeThisBodyState::LineStartDotCr)
            } else if byte == LF {
                BodyStep::Malformed
            } else {
                BodyStep::Next(TakeThisBodyState::Line)
            }
        },
        TakeThisBodyState::LineStartDotCr => {
            if byte == LF {
                BodyStep::Done
            } else {
                BodyStep::Malformed
            }
        },
        TakeThisBodyState::Line => {
            if byte == CR {
                BodyStep::Next(TakeThisBodyState::LineCr)
            } else if byte == LF {
                BodyStep::Malformed
            } else {
                BodyStep::Next(TakeThisBodyState::Line)
            }
        },
        TakeThisBodyState::LineCr => {
            if byte == LF {
                BodyStep::Next(TakeThisBodyState::LineStart)
            } else {
                BodyStep::Malformed
            }
        },
    }
}

/// Takes the bytes of one read into the body that `state` stands in.
pub fn scan_body_chunk(state: TakeThisBodyState, available: &[u8]) -> (scan: BodyScan)
    ensures
        scan == body_scan(state, available@, 0),
{
    let mut current: TakeThisBodyState = state;
    let mut consumed: usize = 0;
    while consumed < available.len()
        invariant
            consumed <= available@.len(),
            body_scan(state, available@, 0) == body_scan(current, available@, consumed as int),
        decreases available@.len() - consumed,
    {
        match step(current, available[consumed]) {
            BodyStep::Next(next) => {
                current = next;
            },
            BodyStep::Done => {
                return BodyScan::Complete(consumed + 1);
            },
            BodyStep::Malformed => {
                return BodyScan::Malformed(consumed + 1);
            },
        }
        consumed = consumed + 1;
    }
    BodyScan::More(current)
}

/// The scan of a read that comes after `before` bytes, counted from the start of the body.
pub open spec fn scan_after(scan: BodyScan, before: int) -> BodyScan {
    match scan {
        BodyScan::More(state) => BodyScan::More(state),
        BodyScan::Complete(consumed) => BodyScan::Complete((before + consumed) as usize),
        BodyScan::Malformed(consumed) => BodyScan::Malformed((before + consumed) as usize),
    }
}

proof fn lemma_scan_split(state: TakeThisBodyState, first: Seq<u8>, second: Seq<u8>, at: int)
    requires
        0 <= at <= first.len(),
        first.len() + second.len() <= usize::MAX,
    ensures
        body_scan(state, first + second, at) == (match body_scan(state, first, at) {
            BodyScan::More(next) => scan_after(body_scan(next, second, 0), first.len() as int),
            scan => scan,
        }),
    decreases first.len() - at,
{
    let whole = first + second;
    if at < first.len() {
        assert(whole[at] == first[at]);
        match body_step(state, first[at]) {
            BodyStep::Next(next) => lemma_scan_split(next, first, second, at + 1),
            _ => {},
        }
    } else {
        lemma_scan_shift(state, first, second, 0);
    }
}

proof fn lemma_scan_shift(state: TakeThisBodyState, first: Seq<u8>, second: Seq<u8>, at: int)
    requires
        0 <= at <= second.len(),
        first.len() + second.len() <= usize::MAX,
    ensures
        body_scan(state, first + second, first.len() + at) == scan_after(
            body_scan(state, second, at),
            first.len() as int,
        ),
    decreases second.len() - at,
{
    let whole = first + second;
    if at < second.len() {
        assert(whole[first.len() + at] == second[at]);
        match body_step(state, second[at]) {
            BodyStep::Next(next) => lemma_scan_shift(next, first, second, at + 1),
            _ => {},
        }
    }
}

/// How a body is cut into reads makes no difference: reading it in two parts, the second from
/// the state that the first left, ends as reading it whole does.
pub proof fn law_scan_ignores_read_sizes(
    state: TakeThisBodyState,
    first: Seq<u8>,
    second: Seq<u8>,
)
    requires
        first.len() + second.len() <= usize::MAX,
    ensures
        body_scan(state, first + second, 0) == (match body_scan(state, first, 0) {
            BodyScan::More(next) => scan_after(body_scan(next, second, 0), first.len() as int),
            scan => scan,
        }),
{
    lemma_scan_split(state, first, second, 0);
}

/// What the state says of the bytes before `at`.
spec fn stands_at(state: TakeThisBodyState, input: Seq<u8>, at: int) -> bool {
    match state {
        TakeThisBodyState::LineStart => terminator::line_starts_at(input, 0, at),
        TakeThisBodyState::LineStartDot => at >= 1 && input[at - 1] == DOT
            && terminator::line_starts_at(input, 0, at - 1),
        TakeThisBodyState::LineStartDotCr => at >= 2 && input[at - 1] == CR && input[at - 2] == DOT
            && terminator::line_starts_at(input, 0, at - 2),
        TakeThisBodyState::Line => at >= 1 && input[at - 1] != CR && input[at - 1] != LF && !(
        input[at - 1] == DOT && terminator::line_starts_at(input, 0, at - 1)),
        TakeThisBodyState::LineCr => at >= 1 && input[at - 1] == CR && !(at >= 2 && input[at - 2]
            == DOT && terminator::line_starts_at(input, 0, at - 2)),
    }
}

proof fn lemma_scan_finds_dot_line(state: TakeThisBodyState, input: Seq<u8>, at: int)
    requires
        0 <= at <= input.len() <= usize::MAX,
        stands_at(state, input, at),
        forall|e: int| 0 <= e <= at ==> !terminator::dot_line_ends_at(input, 0, e),
    ensures
        body_scan(state, input, at) matches BodyScan::Complete(end) ==> terminator::block_end(
            input,
            0,
        ) == Some(end as int),
        body_scan(state, input, at) is More ==> terminator::block_end(input, 0) is None,
    decreases input.len() - at,
{
    if at >= input.len() {
        terminator::lemma_block_end(input, 0, 0);
    } else {
        match body_step(state, input[at]) {
            BodyStep::Next(next) => {
                lemma_scan_finds_dot_line(next, input, at + 1);
            },
            BodyStep::Done => {
                terminator::lemma_block_end_is(input, 0, at + 1);
            },
            BodyStep::Malformed => {},
        }
    }
}

/// Reading over a body ends exactly at its first dot line: where the reader completes is where
/// the block ends, and a body that leaves the reader wanting more has no dot line yet.
pub proof fn law_scan_ends_at_block_end(input: Seq<u8>)
    requires
        input.len() <= usize::MAX,
    ensures
        body_scan(TakeThisBodyState::LineStart, input, 0) matches BodyScan::Complete(end)
            ==> terminator::block_end(input, 0) == Some(end as int),
        body_scan(TakeThisBodyState::LineStart, input, 0) is More ==> terminator::block_end(
            input,
            0,
        ) is None,
{
    lemma_scan_finds_dot_line(TakeThisBodyState::LineStart, input, 0);
}

/// A line with its line end: a carriage return and a line feed, and no other of either.
pub open spec fn is_line(line: Seq<u8>) -> bool {
    &&& terminator::crlf_at(line, line.len() - 2)
    &&& forall|j: int|
        0 <= j < line.len() - 2 ==> #[trigger] line[j] != CR && line[j] != LF
}

/// The lines of a body before its dot line.
pub open spec fn is_body(lines: Seq<Seq<u8>>) -> bool {
    forall|i: int|
        0 <= i < lines.len() ==> is_line(#[trigger] lines[i]) && lines[i] != seq![DOT, CR, LF]
}

/// The lines one after the other.
pub open spec fn joined(lines: Seq<Seq<u8>>) -> Seq<u8>
    decreases lines.len(),
{
    if lines.len() == 0 {
        Seq::empty()
    } else {
        lines[0] + joined(lines.drop_first())
    }
}

/// The input is the lines and then `rest`.
pub open spec fn is_lines_and(input: Seq<u8>, lines: Seq<Seq<u8>>, rest: Seq<u8>) -> bool {
    is_body(lines) && input == joined(lines) + rest
}

/// The rest is a dot line and what follows it.
pub open spec fn is_dot_line_first(rest: Seq<u8>) -> bool {
    rest.len() >= 3 && rest[0] == DOT && terminator::crlf_at(rest, 1)
}

/// A carriage return or a line feed stands alone at `at`, and none of either before it.
pub open spec fn is_spoiled_at(rest: Seq<u8>, at: int) -> bool {
    &&& 0 <= at < rest.len()
    &&& forall|j: int| 0 <= j < at ==> #[trigger] rest[j] != CR && rest[j] != LF
    &&& rest[at] == LF || (rest[at] == CR && at + 1 < rest.len() && rest[at + 1] != LF)
}

/// The rest is the start of a line: no carriage return but at its very end, and no line feed.
pub open spec fn is_open(rest: Seq<u8>) -> bool {
    forall|j: int|
        0 <= j < rest.len() ==> #[trigger] rest[j] != LF && (rest[j] == CR ==> j == rest.len() - 1)
}

proof fn lemma_scan_line(state: TakeThisBodyState, line: Seq<u8>, at: int)
    requires
        is_line(line),
        line != seq![DOT, CR, LF],
        0 <= at <= line.len() - 2,
        state == TakeThisBodyState::Line || (state == TakeThisBodyState::LineStart && at == 0) || (
        state == TakeThisBodyState::LineStartDot && at == 1 && line[0] == DOT),
    ensures
        body_scan(state, line, at) == BodyScan::More(TakeThisBodyState::LineStart),
    decreases line.len() - at,
{
    if at < line.len() - 2 {
        match body_step(state, line[at]) {
            BodyStep::Next(next) => lemma_scan_line(next, line, at + 1),
            _ => {},
        }
    } else {
        if state == TakeThisBodyState::LineStartDot {
            assert(line =~= seq![DOT, CR, LF]);
        }
        assert(body_step(state, line[at]) == BodyStep::Next(TakeThisBodyState::LineCr));
        reveal_with_fuel(body_scan, 3);
    }
}

/// The lines before the dot line leave the reader at the start of a line.
proof fn lemma_scan_lines(lines: Seq<Seq<u8>>, rest: Seq<u8>)
    requires
        is_body(lines),
        joined(lines).len() + rest.len() <= usize::MAX,
    ensures
        body_scan(TakeThisBodyState::LineStart, joined(lines) + rest, 0) == scan_after(
            body_scan(TakeThisBodyState::LineStart, rest, 0),
            joined(lines).len() as int,
        ),
    decreases lines.len(),
{
    let start = TakeThisBodyState::LineStart;
    if lines.len() == 0 {
        assert(joined(lines) + rest =~= rest);
        lemma_scan_taken(start, rest, 0);
    } else {
        let more = lines.drop_first();
        assert forall|i: int| 0 <= i < more.len() implies is_line(#[trigger] more[i]) && more[i]
            != seq![DOT, CR, LF] by {
            assert(more[i] == lines[i + 1]);
        }
        let behind = joined(more) + rest;
        lemma_scan_lines(more, rest);
        lemma_scan_line(start, lines[0], 0);
        law_scan_ignores_read_sizes(start, lines[0], behind);
        lemma_scan_taken(start, rest, 0);
        assert(joined(lines) + rest =~= lines[0] + behind);
    }
}

/// No more is taken than there is.
proof fn lemma_scan_taken(state: TakeThisBodyState, input: Seq<u8>, at: int)
    requires
        0 <= at <= input.len() <= usize::MAX,
    ensures
        body_scan(state, input, at) matches BodyScan::Complete(taken) ==> taken <= input.len(),
        body_scan(state, input, at) matches BodyScan::Malformed(taken) ==> taken <= input.len(),
    decreases input.len() - at,
{
    if at < input.len() {
        match body_step(state, input[at]) {
            BodyStep::Next(next) => lemma_scan_taken(next, input, at + 1),
            _ => {},
        }
    }
}

proof fn lemma_scan_dot_line(rest: Seq<u8>)
    requires
        is_dot_line_first(rest),
    ensures
        body_scan(TakeThisBodyState::LineStart, rest, 0) == BodyScan::Complete(3),
{
    reveal_with_fuel(body_scan, 4);
}

proof fn lemma_scan_spoiled(state: TakeThisBodyState, rest: Seq<u8>, from: int, at: int)
    requires
        is_spoiled_at(rest, at),
        0 <= from <= at,
        state == TakeThisBodyState::LineStart || state == TakeThisBodyState::LineStartDot || state
            == TakeThisBodyState::Line,
    ensures
        body_scan(state, rest, from) is Malformed,
    decreases at - from,
{
    if from < at {
        match body_step(state, rest[from]) {
            BodyStep::Next(next) => lemma_scan_spoiled(next, rest, from + 1, at),
            _ => {},
        }
    } else {
        reveal_with_fuel(body_scan, 3);
    }
}

proof fn lemma_scan_open(state: TakeThisBodyState, rest: Seq<u8>, at: int)
    requires
        is_open(rest),
        0 <= at <= rest.len(),
        state == TakeThisBodyState::LineStart || state == TakeThisBodyState::LineStartDot || state
            == TakeThisBodyState::Line,
    ensures
        body_scan(state, rest, at) is More,
    decreases rest.len() - at,
{
    if at < rest.len() {
        if rest[at] == CR {
            reveal_with_fuel(body_scan, 3);
        } else {
            match body_step(state, rest[at]) {
                BodyStep::Next(next) => lemma_scan_open(next, rest, at + 1),
                _ => {},
            }
        }
    }
}

/// The first carriage return or line feed from `from` on, or the length.
proof fn lemma_first_break(input: Seq<u8>, from: int) -> (at: int)
    requires
        0 <= from <= input.len(),
    ensures
        from <= at <= input.len(),
        forall|j: int| from <= j < at ==> #[trigger] input[j] != CR && input[j] != LF,
        at < input.len() ==> input[at] == CR || input[at] == LF,
    decreases input.len() - from,
{
    if from >= input.len() || input[from] == CR || input[from] == LF {
        from
    } else {
        lemma_first_break(input, from + 1)
    }
}

/// Every input is some lines and then a dot line, a spoiled line or the start of a line.
proof fn lemma_body_splits(input: Seq<u8>) -> (split: (Seq<Seq<u8>>, Seq<u8>))
    ensures
        is_lines_and(input, split.0, split.1),
        is_dot_line_first(split.1) || (exists|at: int| is_spoiled_at(split.1, at)) || is_open(
            split.1,
        ),
    decreases input.len(),
{
    let at = lemma_first_break(input, 0);
    let none = Seq::<Seq<u8>>::empty();
    assert(joined(none) + input =~= input);
    if at >= input.len() {
        (none, input)
    } else if input[at] == LF || (at + 1 < input.len() && input[at + 1] != LF) {
        assert(is_spoiled_at(input, at));
        (none, input)
    } else if at + 1 >= input.len() {
        (none, input)
    } else {
        let line = input.subrange(0, at + 2);
        if line == seq![DOT, CR, LF] {
            assert(line[0] == input[0] && line[1] == input[1] && line[2] == input[2]);
            (none, input)
        } else {
            let behind = input.subrange(at + 2, input.len() as int);
            let (more, rest) = lemma_body_splits(behind);
            let lines = seq![line] + more;
            assert(lines.drop_first() =~= more);
            assert(input =~= line + behind);
            assert(input =~= joined(lines) + rest);
            assert forall|i: int| 0 <= i < lines.len() implies is_line(#[trigger] lines[i])
                && lines[i] != seq![DOT, CR, LF] by {
                if i > 0 {
                    assert(lines[i] == more[i - 1]);
                }
            }
            (lines, rest)
        }
    }
}

/// What reading a body does that arrives in some reads, each taken from the state that the one
/// before it left. The counts are of bytes from the start of the body.
pub open spec fn scan_reads(state: TakeThisBodyState, reads: Seq<Seq<u8>>) -> BodyScan
    decreases reads.len(),
{
    if reads.len() == 0 {
        BodyScan::More(state)
    } else {
        match body_scan(state, reads[0], 0) {
            BodyScan::More(next) => scan_after(
                scan_reads(next, reads.drop_first()),
                reads[0].len() as int,
            ),
            scan => scan,
        }
    }
}

/// However a body is cut into reads, they end as one read of the whole does.
pub proof fn law_scan_ignores_all_cuts(state: TakeThisBodyState, reads: Seq<Seq<u8>>)
    requires
        joined(reads).len() <= usize::MAX,
    ensures
        scan_reads(state, reads) == body_scan(state, joined(reads), 0),
    decreases reads.len(),
{
    if reads.len() > 0 {
        law_scan_ignores_read_sizes(state, reads[0], joined(reads.drop_first()));
        match body_scan(state, reads[0], 0) {
            BodyScan::More(next) => law_scan_ignores_all_cuts(next, reads.drop_first()),
            _ => {},
        }
    }
}

/// When a body is complete, malformed or unfinished, in terms of its lines. It is complete if and
/// only if it starts with lines and a dot line, and then these are what is read. It is malformed
/// if and only if a carriage return or a line feed stands alone behind some lines, and unfinished
/// if and only if the start of a line stands there.
pub proof fn law_scan_by_lines(input: Seq<u8>)
    requires
        input.len() <= usize::MAX,
    ensures
        ({
            let scan = body_scan(TakeThisBodyState::LineStart, input, 0);
            &&& forall|end: usize|
                scan == BodyScan::Complete(end) <==> exists|lines: Seq<Seq<u8>>, rest: Seq<u8>|
                    #[trigger] is_lines_and(input, lines, rest) && is_dot_line_first(rest) && end
                        == joined(lines).len() + 3
            &&& scan is Malformed <==> exists|lines: Seq<Seq<u8>>, rest: Seq<u8>, at: int|
                #[trigger] is_lines_and(input, lines, rest) && #[trigger] is_spoiled_at(rest, at)
            &&& scan is More <==> exists|lines: Seq<Seq<u8>>, rest: Seq<u8>|
                #[trigger] is_lines_and(input, lines, rest) && is_open(rest)
        }),
{
    let start = TakeThisBodyState::LineStart;
    let scan = body_scan(start, input, 0);
    assert forall|lines: Seq<Seq<u8>>, rest: Seq<u8>| #[trigger]
        is_lines_and(input, lines, rest) implies scan == scan_after(
        body_scan(start, rest, 0),
        joined(lines).len() as int,
    ) && (is_dot_line_first(rest) ==> scan == BodyScan::Complete(
        (joined(lines).len() + 3) as usize,
    )) && (is_open(rest) ==> scan is More) by {
        lemma_scan_lines(lines, rest);
        if is_dot_line_first(rest) {
            lemma_scan_dot_line(rest);
        }
        if is_open(rest) {
            lemma_scan_open(start, rest, 0);
        }
    }
    assert forall|lines: Seq<Seq<u8>>, rest: Seq<u8>, at: int| #[trigger]
        is_lines_and(input, lines, rest) && #[trigger] is_spoiled_at(rest, at) implies scan is
        Malformed by {
        lemma_scan_lines(lines, rest);
        lemma_scan_spoiled(start, rest, 0, at);
    }
    let (lines, rest) = lemma_body_splits(input);
    assert(is_lines_and(input, lines, rest));
    if is_dot_line_first(rest) {
        assert(joined(lines).len() + 3 <= input.len());
    } else if exists|at: int| is_spoiled_at(rest, at) {
        let at = choose|at: int| is_spoiled_at(rest, at);
        assert(is_lines_and(input, lines, rest) && is_spoiled_at(rest, at));
    }
}

} // verus!
