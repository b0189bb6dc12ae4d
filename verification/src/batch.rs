//! Reading commands: lines out of what has arrived, batches of commands, and request lines out
//! of a whole buffer.
use crate::bytes;
use crate::bytes::{contains_byte, first_index, index_from, matches_word, COLON, LF};
use crate::commands;
use crate::commands::{
    batch_slice, clear_batch, empty_batch, first_word, parse_command_line, push_item, CommandBatch,
    CommandLineBatch, ParsedCommand, MAX_COMMAND_LINE_BYTES, TOO_LONG_LINE,
};
use crate::request_line;
use crate::request_line::{RequestKind, RequestLine};
use crate::server_config::MAX_SERVER_PIPELINE_DEPTH;
use crate::terminator;
use crate::terminator::{
    detect_response_line_end_from, find_crlf_line_end, find_dot_terminated_block_end,
    ResponseLineStatus,
};
use vstd::prelude::*;
use vstd::string::StringSliceAdditionalSpecFns;

verus! {

/// What became of the bytes that have arrived while a command line is read. The number says how
/// many of them are used up.
#[derive(Debug, Clone, Copy, PartialEq, Eq, Structural)]
pub enum LineStep {
    /// The input ended before the line began.
    EndOfInput,
    /// The input ended within the line.
    Truncated,
    More(usize),
    Complete(usize),
}

/// How many of the bytes belong to the line: up to its line feed, or all of them.
pub open spec fn line_take(available: Seq<u8>) -> int {
    let feed = bytes::find_byte(available, LF, 0);
    if feed < available.len() {
        feed + 1
    } else {
        available.len() as int
    }
}

pub open spec fn line_fits(line: Seq<u8>, available: Seq<u8>) -> bool {
    line.len() + line_take(available) <= MAX_COMMAND_LINE_BYTES
}

/// The step that the bytes lead to when `line` has been read so far.
pub open spec fn line_step(line: Seq<u8>, available: Seq<u8>) -> LineStep {
    let take = line_take(available);
    if available.len() == 0 {
        if line.len() == 0 {
            LineStep::EndOfInput
        } else {
            LineStep::Truncated
        }
    } else if !line_fits(line, available) || available[take - 1] == LF {
        LineStep::Complete(take as usize)
    } else {
        LineStep::More(take as usize)
    }
}

/// The line after the step. A line that is too long is replaced.
pub open spec fn line_after(line: Seq<u8>, available: Seq<u8>) -> Seq<u8> {
    if !line_fits(line, available) {
        TOO_LONG_LINE.spec_bytes()
    } else {
        line + available.subrange(0, line_take(available))
    }
}

/// Adds what has arrived to the line that is being read.
pub fn read_line_step(line: &mut Vec<u8>, available: &[u8]) -> (step: LineStep)
    requires
        old(line)@.len() <= MAX_COMMAND_LINE_BYTES,
    ensures
        step == line_step(old(line)@, available@),
        final(line)@ == line_after(old(line)@, available@),
        final(line)@.len() <= MAX_COMMAND_LINE_BYTES,
{
    let ghost before = line@;
    let feed: Option<usize> = first_index(LF, available);
    assert(available.len() == available@.len());
    let take: usize = match feed {
        Some(index) => index + 1,
        None => available.len(),
    };
    proof {
        let at = match feed {
            Some(index) => index as int,
            None => available@.len() as int,
        };
        bytes::lemma_find_byte_is(available@, LF, 0, at);
        assert(take == line_take(available@));
    }
    if take > MAX_COMMAND_LINE_BYTES - line.len() {
        proof {
            reveal_strlit("DATE too-long\n");
            assert(TOO_LONG_LINE.is_ascii());
            assert(TOO_LONG_LINE.spec_bytes().len() == 14);
        }
        line.clear();
        line.extend_from_slice(TOO_LONG_LINE.as_bytes());
        assert(line@ =~= TOO_LONG_LINE.spec_bytes());
        return LineStep::Complete(take);
    }
    if available.len() == 0 {
        assert(line@ =~= before + available@.subrange(0, 0));
        return if line.len() == 0 {
            LineStep::EndOfInput
        } else {
            LineStep::Truncated
        };
    }
    line.extend_from_slice(&available[0..take]);
    assert(line@ =~= before + available@.subrange(0, take as int));
    if available[take - 1] == LF {
        LineStep::Complete(take)
    } else {
        LineStep::More(take)
    }
}

/// A line that fits is the same however its bytes arrive: first some without a line feed, then
/// the rest, or all at once.
pub proof fn law_line_ignores_read_sizes(line: Seq<u8>, first: Seq<u8>, second: Seq<u8>)
    requires
        first.len() > 0,
        second.len() > 0,
        !bytes::has_byte(first, LF),
        line.len() + first.len() + line_take(second) <= MAX_COMMAND_LINE_BYTES,
    ensures
        line_step(line, first) == LineStep::More(first.len() as usize),
        line_after(line, first) == line + first,
        line_after(line + first, second) == line_after(line, first + second),
        line_take(first + second) == first.len() + line_take(second),
        line_step(line + first, second) is Complete <==> line_step(line, first + second)
            is Complete,
{
    let both = first + second;
    bytes::lemma_find_byte(first, LF, 0);
    bytes::lemma_has_byte(first, LF);
    bytes::lemma_find_byte(second, LF, 0);
    let feed = bytes::find_byte(second, LF, 0);
    assert forall|j: int| 0 <= j < first.len() + feed implies both[j] != LF by {
        if j < first.len() {
            assert(first[j] == both[j]);
        } else {
            assert(second[j - first.len()] == both[j]);
        }
    }
    bytes::lemma_find_byte_is(both, LF, 0, first.len() + feed);
    assert(first.subrange(0, first.len() as int) =~= first);
    assert(line + first + second.subrange(0, line_take(second)) =~= line + both.subrange(
        0,
        first.len() + line_take(second),
    ));
}

/// When a command is followed by an article.
#[derive(Debug, Clone, Copy, PartialEq, Eq, Structural)]
pub enum TransferBody {
    Always,
    /// Where the line that follows looks like a header.
    IfHeadersFollow,
    Never,
}

/// The command is of this kind, or its line starts with this verb.
pub open spec fn is_transfer(
    kind: RequestKind,
    line: Seq<u8>,
    transfer: RequestKind,
    verb: &str,
) -> bool {
    kind == transfer || bytes::is_word(commands::leading_word(line), verb)
}

pub open spec fn transfer_rule(kind: RequestKind, line: Seq<u8>) -> TransferBody {
    if is_transfer(kind, line, RequestKind::TakeThis, "TAKETHIS") {
        TransferBody::Always
    } else if is_transfer(kind, line, RequestKind::Post, "POST") || is_transfer(
        kind,
        line,
        RequestKind::Ihave,
        "IHAVE",
    ) {
        TransferBody::IfHeadersFollow
    } else {
        TransferBody::Never
    }
}

pub fn is_known_transfer_command(line: &[u8], verb: &str) -> (known: bool)
    ensures
        known == bytes::is_word(commands::leading_word(line@), verb),
{
    matches_word(first_word(line), verb)
}

/// Whether an article follows the command.
pub fn transfer_body_rule(kind: RequestKind, line: &[u8]) -> (rule: TransferBody)
    ensures
        rule == transfer_rule(kind, line@),
{
    if kind == RequestKind::TakeThis || is_known_transfer_command(line, "TAKETHIS") {
        TransferBody::Always
    } else if kind == RequestKind::Post || kind == RequestKind::Ihave || is_known_transfer_command(
        line,
        "POST",
    ) || is_known_transfer_command(line, "IHAVE") {
        TransferBody::IfHeadersFollow
    } else {
        TransferBody::Never
    }
}

/// The first line of what has arrived holds a colon.
pub open spec fn headers_follow(available: Seq<u8>) -> bool {
    bytes::has_byte(available.subrange(0, bytes::find_byte(available, LF, 0)), COLON)
}

pub fn next_line_looks_like_header(available: &[u8]) -> (found: bool)
    ensures
        found == headers_follow(available@),
{
    let end: usize = index_from(available, LF, 0);
    contains_byte(&available[0..end], COLON)
}

pub fn new_command_batch() -> (batch: CommandBatch)
    ensures
        commands::batch_items(batch) == Seq::<ParsedCommand>::empty(),
{
    empty_batch()
}

/// Takes every command out of a batch.
pub fn start_batch(batch: &mut CommandBatch)
    ensures
        commands::batch_items(*final(batch)) == Seq::<ParsedCommand>::empty(),
{
    clear_batch(batch);
}

/// The commands of a batch.
pub fn batch_commands(batch: &CommandBatch) -> (items: &[ParsedCommand])
    ensures
        items@ == commands::batch_items(*batch),
        items@.len() <= MAX_SERVER_PIPELINE_DEPTH,
{
    batch_slice(batch)
}

/// Reads the command of a line for the next place of a batch, and keeps the line in its row.
pub fn stage_command(line: &[u8], lines: &mut CommandLineBatch, batch: &CommandBatch) -> (command:
    ParsedCommand)
    requires
        line@.len() <= MAX_COMMAND_LINE_BYTES,
        commands::batch_items(*batch).len() < MAX_SERVER_PIPELINE_DEPTH,
    ensures
        command == commands::command_of(line@, commands::batch_items(*batch).len() as int),
        command.line_slot < MAX_SERVER_PIPELINE_DEPTH,
        commands::place_in_row(command),
        final(lines)@ == old(lines)@.update(
            commands::batch_items(*batch).len() as int,
            commands::overwritten(
                old(lines)@[commands::batch_items(*batch).len() as int],
                line@,
            ),
        ),
{
    let line_slot: usize = batch_slice(batch).len();
    lines.copy_line(line_slot, line);
    parse_command_line(line, line_slot)
}

/// Puts a command behind the others of a batch.
pub fn push_command(batch: &mut CommandBatch, command: ParsedCommand, has_transfer_body: bool)
    requires
        commands::batch_items(*old(batch)).len() < MAX_SERVER_PIPELINE_DEPTH,
    ensures
        commands::batch_items(*final(batch)) == commands::batch_items(*old(batch)).push(
            ParsedCommand { has_transfer_body, ..command },
        ),
{
    let staged: ParsedCommand = ParsedCommand {
        kind: command.kind,
        article_id: command.article_id,
        line_slot: command.line_slot,
        message_id: command.message_id,
        syntax_error: command.syntax_error,
        has_transfer_body,
        line_too_long: command.line_too_long,
    };
    push_item(batch, staged);
}

/// One more command can be taken: there is room for it, and a whole line of it has arrived.
pub fn batch_goes_on(batch: &CommandBatch, max_pipeline_depth: usize, available: &[u8]) -> (more:
    bool)
    ensures
        more == (commands::batch_items(*batch).len() < max_pipeline_depth
            && terminator::crlf_line_end(available@, 0) is Some),
{
    batch_slice(batch).len() < max_pipeline_depth && find_crlf_line_end(available, 0).is_some()
}

/// The request that starts at `start`: where its line ends, and where the next one starts. A
/// `TAKETHIS` line is followed by an article.
pub open spec fn next_request(input: Seq<u8>, start: int) -> Option<(int, int)> {
    match terminator::line_status(input, start) {
        ResponseLineStatus::CompleteAt(at) => {
            let end = at as int;
            if request_line::request_kind(input.subrange(start, end)) == RequestKind::TakeThis {
                match terminator::block_end(input, end) {
                    Some(next) => Some((end, next)),
                    None => None,
                }
            } else {
                Some((end, end))
            }
        },
        _ => None,
    }
}

/// The lines of the complete requests from `start` on, at most `depth` of them.
pub open spec fn batch_lines(input: Seq<u8>, start: int, depth: nat) -> Seq<Seq<u8>>
    decreases depth,
{
    if depth == 0 {
        Seq::empty()
    } else {
        match next_request(input, start) {
            Some((end, next)) => seq![input.subrange(start, end)] + batch_lines(
                input,
                next,
                (depth - 1) as nat,
            ),
            None => Seq::empty(),
        }
    }
}

/// Where the last of these requests ends.
pub open spec fn batch_end(input: Seq<u8>, start: int, depth: nat) -> int
    decreases depth,
{
    if depth == 0 {
        start
    } else {
        match next_request(input, start) {
            Some((end, next)) => batch_end(input, next, (depth - 1) as nat),
            None => start,
        }
    }
}

/// The request lines at the start of a buffer, and how many of its bytes they use up.
pub struct RequestBatch<'a> {
    pub requests: Vec<RequestLine<'a>>,
    pub consumed: usize,
}

/// The text of each request.
pub open spec fn request_texts(requests: Seq<RequestLine>) -> Seq<Seq<u8>> {
    Seq::new(requests.len(), |i: int| requests[i].spec_line())
}

/// The complete requests at the start of `input`, at most `max_pipeline_depth` of them.
pub fn for_each_request_line_in_batch<'a>(input: &'a [u8], max_pipeline_depth: usize) -> (batch:
    RequestBatch<'a>)
    ensures
        request_texts(batch.requests@) == batch_lines(input@, 0, max_pipeline_depth as nat),
        batch.consumed == batch_end(input@, 0, max_pipeline_depth as nat),
        batch.consumed <= input@.len(),
{
    let mut requests: Vec<RequestLine<'a>> = Vec::new();
    let mut start: usize = 0;
    assert(request_texts(requests@) + batch_lines(input@, 0, max_pipeline_depth as nat)
        =~= batch_lines(input@, 0, max_pipeline_depth as nat));
    while requests.len() < max_pipeline_depth
        invariant_except_break
            requests@.len() <= max_pipeline_depth,
            start <= input@.len(),
            batch_lines(input@, 0, max_pipeline_depth as nat) == request_texts(requests@)
                + batch_lines(input@, start as int, (max_pipeline_depth - requests@.len()) as nat),
            batch_end(input@, 0, max_pipeline_depth as nat) == batch_end(
                input@,
                start as int,
                (max_pipeline_depth - requests@.len()) as nat,
            ),
        ensures
            request_texts(requests@) == batch_lines(input@, 0, max_pipeline_depth as nat),
            start == batch_end(input@, 0, max_pipeline_depth as nat),
            start <= input@.len(),
        decreases max_pipeline_depth - requests@.len(),
    {
        let ghost depth = (max_pipeline_depth - requests@.len()) as nat;
        let ghost before = request_texts(requests@);
        assert(before + Seq::<Seq<u8>>::empty() =~= before);
        let end: usize = match detect_response_line_end_from(input, start) {
            ResponseLineStatus::CompleteAt(end) => end,
            _ => {
                break;
            },
        };
        let request: RequestLine<'a> = RequestLine::parse(&input[start..end]);
        let mut next: usize = end;
        if request.kind() == RequestKind::TakeThis {
            match find_dot_terminated_block_end(input, end) {
                Some(body_end) => {
                    next = body_end;
                },
                None => {
                    break;
                },
            }
        }
        requests.push(request);
        proof {
            let line = input@.subrange(start as int, end as int);
            let rest = batch_lines(input@, next as int, (depth - 1) as nat);
            assert(request_texts(requests@) =~= before + seq![line]);
            assert(before + (seq![line] + rest) =~= request_texts(requests@) + rest);
        }
        start = next;
        assert(request_texts(requests@) + Seq::<Seq<u8>>::empty() =~= request_texts(requests@));
    }
    RequestBatch { requests, consumed: start }
}

/// Reading some requests and then some more reads what reading all of them at once does.
pub proof fn law_batches_join(input: Seq<u8>, start: int, first: nat, second: nat)
    ensures
        batch_lines(input, start, first + second) == batch_lines(input, start, first)
            + batch_lines(input, batch_end(input, start, first), second),
        batch_end(input, start, first + second) == batch_end(
            input,
            batch_end(input, start, first),
            second,
        ),
    decreases first,
{
    if first == 0 {
        assert(Seq::<Seq<u8>>::empty() + batch_lines(input, start, second) =~= batch_lines(
            input,
            start,
            second,
        ));
    } else {
        match next_request(input, start) {
            Some((end, next)) => {
                law_batches_join(input, next, (first - 1) as nat, second);
                assert((first + second - 1) as nat == (first - 1) as nat + second);
                let line = seq![input.subrange(start, end)];
                let head = batch_lines(input, next, (first - 1) as nat);
                let tail = batch_lines(input, batch_end(input, start, first), second);
                assert(line + (head + tail) =~= (line + head) + tail);
            },
            None => {
                assert(batch_lines(input, start, second) =~= Seq::empty());
            },
        }
    }
}

/// A request that is complete stays as it is when more bytes arrive.
pub proof fn lemma_next_request_grows(input: Seq<u8>, more: Seq<u8>, start: int)
    requires
        0 <= start,
        input.len() <= usize::MAX,
        next_request(input, start) is Some,
    ensures
        next_request(input + more, start) == next_request(input, start),
        ({
            let (end, next) = next_request(input, start)->0;
            &&& start < end <= next
            &&& (input + more).subrange(start, end) == input.subrange(start, end)
        }),
{
    let (end, next) = next_request(input, start)->0;
    terminator::lemma_line_end(input, start);
    terminator::lemma_line_status_grows(input, more, start);
    assert((input + more).subrange(start, end) =~= input.subrange(start, end));
    if request_line::request_kind(input.subrange(start, end)) == RequestKind::TakeThis {
        terminator::lemma_block_end_grows(input, more, end);
        terminator::lemma_block_end(input, end, end);
    }
}

/// More bytes never change the requests that were complete: they come first again, and they end
/// at the same place.
#[verifier::spinoff_prover]
pub proof fn law_more_input_keeps_requests(input: Seq<u8>, more: Seq<u8>, start: int, depth: nat)
    requires
        0 <= start,
        input.len() <= usize::MAX,
    ensures
        batch_lines(input, start, depth).len() <= depth,
        batch_lines(input + more, start, batch_lines(input, start, depth).len()) == batch_lines(
            input,
            start,
            depth,
        ),
        batch_end(input + more, start, batch_lines(input, start, depth).len()) == batch_end(
            input,
            start,
            depth,
        ),
    decreases depth,
{
    if depth > 0 {
        if let Some((end, next)) = next_request(input, start) {
            lemma_next_request_grows(input, more, start);
            law_more_input_keeps_requests(input, more, next, (depth - 1) as nat);
        }
    }
}

/// A line goes up to its line feed. Bytes without one all belong to it, and leave it open.
pub proof fn law_line_goes_up_to_its_line_feed(line: Seq<u8>, text: Seq<u8>, rest: Seq<u8>)
    requires
        forall|i: int| 0 <= i < text.len() ==> #[trigger] text[i] != 10,
        line.len() + text.len() + 1 <= 512,
    ensures
        line_step(line, text + seq![10u8] + rest) == LineStep::Complete((text.len() + 1) as usize),
        line_after(line, text + seq![10u8] + rest) == line + text + seq![10u8],
        text.len() > 0 ==> line_step(line, text) == LineStep::More(text.len() as usize),
        line_after(line, text) == line + text,
        line_step(line, Seq::empty()) == (if line.len() == 0 {
            LineStep::EndOfInput
        } else {
            LineStep::Truncated
        }),
{
    let whole = text + seq![10u8] + rest;
    let at = text.len() as int;
    assert forall|j: int| 0 <= j < at implies whole[j] != LF by {
        assert(whole[j] == text[j]);
    }
    assert(whole[at] == 10);
    bytes::lemma_find_byte_is(whole, LF, 0, at);
    bytes::lemma_find_byte_is(text, LF, 0, at);
    assert(line + whole.subrange(0, at + 1) =~= line + text + seq![10u8]);
    assert(line + text.subrange(0, at) =~= line + text);
}

/// A line of more than 512 bytes is read over and taken for one that is too long.
pub proof fn law_long_lines_are_replaced(line: Seq<u8>, text: Seq<u8>, rest: Seq<u8>)
    requires
        forall|i: int| 0 <= i < text.len() ==> #[trigger] text[i] != 10,
        line.len() + text.len() + 1 > 512,
    ensures
        line_step(line, text + seq![10u8] + rest) == LineStep::Complete((text.len() + 1) as usize),
        line_after(line, text + seq![10u8] + rest) == "DATE too-long\n".spec_bytes(),
{
    let whole = text + seq![10u8] + rest;
    let at = text.len() as int;
    assert forall|j: int| 0 <= j < at implies whole[j] != LF by {
        assert(whole[j] == text[j]);
    }
    assert(whole[at] == 10);
    bytes::lemma_find_byte_is(whole, LF, 0, at);
}

/// Headers follow a command exactly where the next line has a colon.
pub proof fn law_headers_have_a_colon(line: Seq<u8>, rest: Seq<u8>)
    requires
        forall|i: int| 0 <= i < line.len() ==> #[trigger] line[i] != 10,
    ensures
        headers_follow(line + seq![10u8] + rest) <==> exists|i: int|
            0 <= i < line.len() && #[trigger] line[i] == 58,
        headers_follow(line) <==> exists|i: int| 0 <= i < line.len() && #[trigger] line[i] == 58,
{
    let whole = line + seq![10u8] + rest;
    let at = line.len() as int;
    assert forall|j: int| 0 <= j < at implies whole[j] != LF by {
        assert(whole[j] == line[j]);
    }
    assert(whole[at] == 10);
    bytes::lemma_find_byte_is(whole, LF, 0, at);
    bytes::lemma_find_byte_is(line, LF, 0, at);
    assert(whole.subrange(0, at) =~= line);
    assert(line.subrange(0, at) =~= line);
}

/// An article always follows `TAKETHIS`, follows `POST` and `IHAVE` where headers do, and follows no
/// other command. A line that starts with one of these words counts, too, where it is no command.
pub proof fn law_articles_follow_transfers(kind: RequestKind, line: Seq<u8>)
    ensures
        kind == RequestKind::TakeThis ==> transfer_rule(kind, line) == TransferBody::Always,
        kind == RequestKind::Post || kind == RequestKind::Ihave ==> transfer_rule(kind, line)
            != TransferBody::Never,
        bytes::same_letters(commands::leading_word(line), "TAKETHIS".spec_bytes())
            ==> transfer_rule(kind, line) == TransferBody::Always,
        bytes::same_letters(commands::leading_word(line), "POST".spec_bytes())
            || bytes::same_letters(commands::leading_word(line), "IHAVE".spec_bytes())
            ==> transfer_rule(kind, line) != TransferBody::Never,
        transfer_rule(kind, line) == TransferBody::Always ==> kind == RequestKind::TakeThis
            || bytes::same_letters(commands::leading_word(line), "TAKETHIS".spec_bytes()),
        transfer_rule(kind, line) == TransferBody::IfHeadersFollow ==> kind == RequestKind::Post
            || kind == RequestKind::Ihave || bytes::same_letters(
            commands::leading_word(line),
            "POST".spec_bytes(),
        ) || bytes::same_letters(commands::leading_word(line), "IHAVE".spec_bytes()),
{
}

/// Requests are read the same whatever stands before them.
pub proof fn law_requests_do_not_depend_on_what_came_before(
    prefix: Seq<u8>,
    input: Seq<u8>,
    start: int,
    depth: nat,
)
    requires
        0 <= start <= input.len(),
        prefix.len() + input.len() <= usize::MAX,
    ensures
        batch_lines(prefix + input, prefix.len() + start, depth) == batch_lines(
            input,
            start,
            depth,
        ),
        batch_end(prefix + input, prefix.len() + start, depth) == prefix.len() + batch_end(
            input,
            start,
            depth,
        ),
    decreases depth,
{
    if depth > 0 {
        let whole = prefix + input;
        let shift = prefix.len() as int;
        terminator::lemma_line_status_shift(prefix, input, start);
        terminator::lemma_line_end(input, start);
        if let ResponseLineStatus::CompleteAt(at) = terminator::line_status(input, start) {
            let end = at as int;
            assert(whole.subrange(shift + start, shift + end) =~= input.subrange(start, end));
            terminator::lemma_block_end_shift(prefix, input, end);
            terminator::lemma_block_end(input, end, end);
        }
        if let Some((end, next)) = next_request(input, start) {
            law_requests_do_not_depend_on_what_came_before(
                prefix,
                input,
                next,
                (depth - 1) as nat,
            );
        }
    }
}

} // verus!
