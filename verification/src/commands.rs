//! Commands as a session reads them: from lines to batches.
use crate::bytes;
use crate::bytes::{bytes_equal, index_from, matches_word};
use crate::message_id::MessageId;
use crate::request_line;
use crate::request_line::{RequestKind, RequestLine};
use crate::server_config::MAX_SERVER_PIPELINE_DEPTH;
use crate::terminator;
use crate::terminator::strip_line_end;
use crate::text;
use crate::text::parse_article_id_arg;
use crate::values;
use arrayvec::ArrayVec;
use vstd::prelude::*;
use vstd::string::StringSliceAdditionalSpecFns;

verus! {

/// The longest command line, with its line end.
pub const MAX_COMMAND_LINE_BYTES: usize = 512;

/// What a line that is too long is read as.
pub const TOO_LONG_LINE: &'static str = "DATE too-long\n";

/// Where a message-id stands in its command line.
#[derive(Debug, Clone, Copy, PartialEq, Eq, Structural)]
pub struct ParsedMessageId {
    pub start: u16,
    pub len: u16,
}

#[derive(Debug, Clone, Copy, PartialEq, Eq, Structural)]
pub struct ParsedCommand {
    pub kind: RequestKind,
    pub article_id: Option<u64>,
    pub line_slot: u16,
    pub message_id: Option<ParsedMessageId>,
    /// The line starts with a known command but is none.
    pub syntax_error: bool,
    pub has_transfer_body: bool,
    pub line_too_long: bool,
}

pub open spec fn is_ascii_whitespace(byte: u8) -> bool {
    byte == 32 || byte == 9 || byte == 10 || byte == 12 || byte == 13
}

/// The first index at or after `from` that holds whitespace.
pub open spec fn whitespace_from(line: Seq<u8>, from: int) -> int
    decreases line.len() - from,
{
    if from < 0 || from >= line.len() || is_ascii_whitespace(line[from]) {
        from
    } else {
        whitespace_from(line, from + 1)
    }
}

/// What stands before the first whitespace of a line.
pub open spec fn leading_word(line: Seq<u8>) -> Seq<u8> {
    let body = terminator::line_body(line);
    body.subrange(0, whitespace_from(body, 0))
}

pub(crate) fn first_word(line: &[u8]) -> (word: &[u8])
    ensures
        word@ == leading_word(line@),
{
    let body: &[u8] = strip_line_end(line);
    let mut end: usize = 0;
    while end < body.len() && !(body[end] == 32 || body[end] == 9 || body[end] == 10 || body[end]
        == 12 || body[end] == 13)
        invariant
            end <= body@.len(),
            whitespace_from(body@, 0) == whitespace_from(body@, end as int),
        decreases body@.len() - end,
    {
        end = end + 1;
    }
    &body[0..end]
}

/// The verbs of the protocol.
pub open spec fn is_known_verb(verb: Seq<u8>) -> bool {
    ||| bytes::is_word(verb, "ARTICLE")
    ||| bytes::is_word(verb, "AUTHINFO")
    ||| bytes::is_word(verb, "BODY")
    ||| bytes::is_word(verb, "CAPABILITIES")
    ||| bytes::is_word(verb, "CHECK")
    ||| bytes::is_word(verb, "DATE")
    ||| bytes::is_word(verb, "GROUP")
    ||| bytes::is_word(verb, "HDR")
    ||| bytes::is_word(verb, "HEAD")
    ||| bytes::is_word(verb, "HELP")
    ||| bytes::is_word(verb, "IHAVE")
    ||| bytes::is_word(verb, "LAST")
    ||| bytes::is_word(verb, "LIST")
    ||| bytes::is_word(verb, "LISTGROUP")
    ||| bytes::is_word(verb, "MODE")
    ||| bytes::is_word(verb, "NEWGROUPS")
    ||| bytes::is_word(verb, "NEWNEWS")
    ||| bytes::is_word(verb, "NEXT")
    ||| bytes::is_word(verb, "OVER")
    ||| bytes::is_word(verb, "POST")
    ||| bytes::is_word(verb, "QUIT")
    ||| bytes::is_word(verb, "STARTTLS")
    ||| bytes::is_word(verb, "STAT")
    ||| bytes::is_word(verb, "TAKETHIS")
    ||| bytes::is_word(verb, "XHDR")
    ||| bytes::is_word(verb, "XOVER")
}

pub fn is_known_command_line(line: &[u8]) -> (known: bool)
    ensures
        known == is_known_verb(leading_word(line@)),
{
    let verb: &[u8] = first_word(line);
    matches_word(verb, "ARTICLE") || matches_word(verb, "AUTHINFO") || matches_word(verb, "BODY")
        || matches_word(verb, "CAPABILITIES") || matches_word(verb, "CHECK") || matches_word(
        verb,
        "DATE",
    ) || matches_word(verb, "GROUP") || matches_word(verb, "HDR") || matches_word(verb, "HEAD")
        || matches_word(verb, "HELP") || matches_word(verb, "IHAVE") || matches_word(verb, "LAST")
        || matches_word(verb, "LIST") || matches_word(verb, "LISTGROUP") || matches_word(
        verb,
        "MODE",
    ) || matches_word(verb, "NEWGROUPS") || matches_word(verb, "NEWNEWS") || matches_word(
        verb,
        "NEXT",
    ) || matches_word(verb, "OVER") || matches_word(verb, "POST") || matches_word(verb, "QUIT")
        || matches_word(verb, "STARTTLS") || matches_word(verb, "STAT") || matches_word(
        verb,
        "TAKETHIS",
    ) || matches_word(verb, "XHDR") || matches_word(verb, "XOVER")
}

pub open spec fn is_syntax_error(line: Seq<u8>) -> bool {
    request_line::request_kind(line) == RequestKind::Unknown && is_known_verb(
        leading_word(request_line::request_verb(line)),
    )
}

pub fn is_known_request_syntax_error(request: &RequestLine) -> (error: bool)
    ensures
        error == is_syntax_error(request.spec_line()),
{
    request.kind() == RequestKind::Unknown && is_known_command_line(request.verb())
}

/// Where a line holds its message-id, as far as it can be told in 16 bits.
pub open spec fn message_id_place(line: Seq<u8>) -> Option<ParsedMessageId> {
    match request_line::request_message_id(line) {
        Some(id) => if request_line::args_start(line) <= u16::MAX && id.len() <= u16::MAX {
            Some(
                ParsedMessageId {
                    start: request_line::args_start(line) as u16,
                    len: id.len() as u16,
                },
            )
        } else {
            None
        },
        None => None,
    }
}

fn parsed_message_id_range(request: &RequestLine) -> (place: Option<ParsedMessageId>)
    ensures
        place == message_id_place(request.spec_line()),
        place matches Some(found) ==> found.start + found.len <= request.spec_line().len(),
{
    match request.message_id_range() {
        Some((start, len)) => if start <= 65535 && len <= 65535 {
            Some(ParsedMessageId { start: start as u16, len: len as u16 })
        } else {
            None
        },
        None => None,
    }
}

/// The command that a line holds.
pub open spec fn command_of(line: Seq<u8>, line_slot: int) -> ParsedCommand {
    ParsedCommand {
        kind: request_line::request_kind(line),
        article_id: text::article_id_arg(request_line::request_args(line)),
        line_slot: if line_slot <= u16::MAX {
            line_slot as u16
        } else {
            u16::MAX
        },
        message_id: message_id_place(line),
        syntax_error: request_line::request_kind(line) == RequestKind::Unknown && is_known_verb(
            leading_word(line),
        ),
        has_transfer_body: false,
        line_too_long: line == TOO_LONG_LINE.spec_bytes(),
    }
}

pub fn parse_command_line(line: &[u8], line_slot: usize) -> (command: ParsedCommand)
    ensures
        command == command_of(line@, line_slot as int),
        command.message_id matches Some(place) ==> place.start + place.len <= line@.len(),
{
    let request: RequestLine = RequestLine::parse(line);
    let slot: u16 = if line_slot <= 65535 {
        line_slot as u16
    } else {
        u16::MAX
    };
    ParsedCommand {
        kind: request.kind(),
        article_id: parse_article_id_arg(request.args()),
        line_slot: slot,
        message_id: parsed_message_id_range(&request),
        syntax_error: request.kind() == RequestKind::Unknown && is_known_command_line(line),
        has_transfer_body: false,
        line_too_long: bytes_equal(line, TOO_LONG_LINE.as_bytes()),
    }
}

/// The bytes of the lines of a batch, one row for each line. A row keeps what an earlier, longer
/// line left behind the end of a later one.
#[derive(Debug)]
pub struct CommandLineBatch {
    lines: Vec<[u8; MAX_COMMAND_LINE_BYTES]>,
}

impl View for CommandLineBatch {
    type V = Seq<Seq<u8>>;

    closed spec fn view(&self) -> Seq<Seq<u8>> {
        Seq::new(self.lines@.len(), |slot: int| self.lines@[slot]@)
    }
}

/// A row after a line was copied to its start.
pub open spec fn overwritten(row: Seq<u8>, line: Seq<u8>) -> Seq<u8> {
    line + row.subrange(line.len() as int, row.len() as int)
}

impl CommandLineBatch {
    #[verifier::type_invariant]
    spec fn wf(&self) -> bool {
        self.lines@.len() == MAX_SERVER_PIPELINE_DEPTH
    }

    pub fn new() -> (batch: CommandLineBatch)
        ensures
            batch@ == Seq::new(1024, |slot: int| Seq::new(512, |i: int| 0u8)),
    {
        let mut lines: Vec<[u8; MAX_COMMAND_LINE_BYTES]> = Vec::new();
        while lines.len() < MAX_SERVER_PIPELINE_DEPTH
            invariant
                lines@.len() <= MAX_SERVER_PIPELINE_DEPTH,
                forall|slot: int|
                    0 <= slot < lines@.len() ==> (#[trigger] lines@[slot])@ == Seq::new(
                        512,
                        |i: int| 0u8,
                    ),
            decreases MAX_SERVER_PIPELINE_DEPTH - lines@.len(),
        {
            let row: [u8; MAX_COMMAND_LINE_BYTES] = [0u8; MAX_COMMAND_LINE_BYTES];
            assert(row@ =~= Seq::new(512, |i: int| 0u8));
            lines.push(row);
        }
        let batch: CommandLineBatch = CommandLineBatch { lines };
        assert(batch@ =~= Seq::new(1024, |slot: int| Seq::new(512, |i: int| 0u8)));
        batch
    }

    /// Copies a line to the start of a row. What stands behind it stays.
    pub fn copy_line(&mut self, slot: usize, line: &[u8])
        requires
            slot < MAX_SERVER_PIPELINE_DEPTH,
            line@.len() <= MAX_COMMAND_LINE_BYTES,
        ensures
            final(self)@ == old(self)@.update(
                slot as int,
                overwritten(old(self)@[slot as int], line@),
            ),
    {
        proof {
            use_type_invariant(&*self);
        }
        let mut row: [u8; MAX_COMMAND_LINE_BYTES] = self.lines[slot];
        let ghost before = row@;
        let mut i: usize = 0;
        while i < line.len()
            invariant
                i <= line@.len() <= MAX_COMMAND_LINE_BYTES,
                row@.len() == before.len() == MAX_COMMAND_LINE_BYTES,
                forall|j: int| 0 <= j < i ==> row@[j] == line@[j],
                forall|j: int| i <= j < MAX_COMMAND_LINE_BYTES ==> row@[j] == before[j],
            decreases line@.len() - i,
        {
            let ghost earlier = row@;
            row[i] = line[i];
            assert(row@ =~= earlier.update(i as int, line@[i as int]));
            i = i + 1;
        }
        assert(row@ =~= overwritten(before, line@));
        self.lines[slot] = row;
        assert(self@ =~= old(self)@.update(slot as int, overwritten(before, line@)));
    }

    pub fn line_slice(&self, slot: usize, start: usize, len: usize) -> (bytes: &[u8])
        requires
            slot < MAX_SERVER_PIPELINE_DEPTH,
            start + len <= MAX_COMMAND_LINE_BYTES,
        ensures
            self@.len() == MAX_SERVER_PIPELINE_DEPTH,
            self@[slot as int].len() == MAX_COMMAND_LINE_BYTES,
            bytes@ == self@[slot as int].subrange(start as int, start + len),
    {
        proof {
            use_type_invariant(self);
        }
        let row: &[u8] = self.lines[slot].as_slice();
        assert(row@ == self@[slot as int]);
        &row[start..start + len]
    }
}

/// What a row holds up to its first zero byte.
pub open spec fn row_text(row: Seq<u8>) -> Seq<u8> {
    row.subrange(0, bytes::find_byte(row, 0, 0))
}

/// The arguments in a row: what stands behind the verb of its line, without the blanks around it.
pub open spec fn row_args(row: Seq<u8>) -> Option<Seq<u8>> {
    let args = request_line::request_args(row_text(row));
    if args.len() == 0 {
        None
    } else {
        Some(args)
    }
}

/// The arguments of a command, where the lines of its batch are kept.
pub open spec fn args_of(command: ParsedCommand, lines: Option<&CommandLineBatch>) -> Option<
    Seq<u8>,
> {
    match lines {
        Some(batch) => row_args(batch@[command.line_slot as int]),
        None => None,
    }
}

/// Nothing, in place of no arguments.
pub open spec fn args_or_empty(args: Option<Seq<u8>>) -> Seq<u8> {
    match args {
        Some(text) => text,
        None => Seq::empty(),
    }
}

pub fn command_args<'a>(command: &ParsedCommand, lines: Option<&'a CommandLineBatch>) -> (args:
    Option<&'a [u8]>)
    requires
        lines is Some ==> command.line_slot < MAX_SERVER_PIPELINE_DEPTH,
    ensures
        bytes::opt_view(args) == args_of(*command, lines),
{
    match lines {
        Some(batch) => {
            let slot: usize = command.line_slot as usize;
            let row: &'a [u8] = batch.line_slice(slot, 0, MAX_COMMAND_LINE_BYTES);
            assert(row@ == batch@[slot as int]);
            let end: usize = index_from(row, 0, 0);
            let request: RequestLine<'a> = RequestLine::parse(&row[0..end]);
            let args: &'a [u8] = request.args();
            if args.len() == 0 {
                None
            } else {
                Some(args)
            }
        },
        None => None,
    }
}

/// A row that holds nothing behind a line gives the line back, and the arguments of that line.
pub proof fn law_args_of_copied_line(row: Seq<u8>, line: Seq<u8>)
    requires
        line.len() <= row.len(),
        !bytes::has_byte(line, 0),
        line.len() < row.len() ==> row[line.len() as int] == 0,
    ensures
        row_text(overwritten(row, line)) == line,
        args_or_empty(row_args(overwritten(row, line))) == request_line::request_args(line),
{
    let after = overwritten(row, line);
    assert forall|j: int| 0 <= j < line.len() implies after[j] != 0 by {
        assert(line[j] == after[j]);
    }
    bytes::lemma_find_byte_is(after, 0, 0, line.len() as int);
    assert(row_text(after) =~= line);
    assert(request_line::request_args(line).len() == 0 ==> request_line::request_args(line)
        =~= Seq::<u8>::empty());
}

/// A line with arguments that start no line end has some in its row, whatever the row holds
/// behind it.
pub proof fn lemma_copied_line_has_args(row: Seq<u8>, line: Seq<u8>)
    requires
        line.len() <= row.len(),
        !bytes::has_byte(line, 0),
        request_line::request_args(line).len() > 0,
        request_line::request_args(line)[0] != bytes::CR,
        request_line::request_args(line)[0] != bytes::LF,
    ensures
        args_or_empty(row_args(overwritten(row, line))).len() > 0,
{
    let after = overwritten(row, line);
    let text = row_text(after);
    bytes::lemma_find_byte(after, 0, 0);
    assert forall|j: int| 0 <= j < line.len() implies after[j] == line[j] && after[j] != 0 by {}
    assert(text.len() >= line.len()) by {
        if bytes::find_byte(after, 0, 0) < line.len() {
            assert(after[bytes::find_byte(after, 0, 0)] == 0);
        }
    }
    assert(text.subrange(0, line.len() as int) =~= line);
    request_line::lemma_args_of_longer_line(line, text);
}

/// The place that a command names lies in its row.
pub open spec fn place_in_row(command: ParsedCommand) -> bool {
    match command.message_id {
        Some(place) => command.line_slot < MAX_SERVER_PIPELINE_DEPTH && place.start + place.len
            <= MAX_COMMAND_LINE_BYTES,
        None => true,
    }
}

/// The message-id that a command names.
pub open spec fn message_id_of(command: ParsedCommand, lines: Option<&CommandLineBatch>) -> Option<
    Seq<u8>,
> {
    match (command.message_id, lines) {
        (Some(place), Some(batch)) => {
            let id = batch@[command.line_slot as int].subrange(
                place.start as int,
                place.start + place.len,
            );
            if values::is_message_id(id) {
                Some(id)
            } else {
                None
            }
        },
        _ => None,
    }
}

pub fn command_message_id(command: &ParsedCommand, lines: Option<&CommandLineBatch>) -> (id: Option<
    MessageId,
>)
    requires
        place_in_row(*command),
    ensures
        match id {
            Some(message_id) => message_id_of(*command, lines) == Some(message_id@),
            None => message_id_of(*command, lines) is None,
        },
{
    match (command.message_id, lines) {
        (Some(place), Some(batch)) => {
            let id: &[u8] = batch.line_slice(
                command.line_slot as usize,
                place.start as usize,
                place.len as usize,
            );
            MessageId::from_bytes(id)
        },
        _ => None,
    }
}

/// The first word of a line is what stands before its first white space.
pub proof fn law_first_word_ends_at_white_space(word: Seq<u8>, space: u8, rest: Seq<u8>)
    requires
        space == 32 || space == 9,
        forall|i: int|
            0 <= i < word.len() ==> #[trigger] word[i] != 32 && word[i] != 9 && word[i] != 10
                && word[i] != 12 && word[i] != 13,
    ensures
        leading_word(word + seq![space] + rest) == word,
        leading_word(word + seq![13u8, 10u8]) == word,
        leading_word(word) == word,
{
    let at = word.len() as int;
    let line = word + seq![space] + rest;
    let body = terminator::line_body(line);
    assert(line[at] == space);
    if terminator::crlf_at(line, line.len() - 2) {
        assert(body.len() > at);
    }
    assert(body[at] == space);
    assert forall|j: int| 0 <= j < at implies !is_ascii_whitespace(#[trigger] body[j]) by {
        assert(body[j] == line[j] && line[j] == word[j]);
    }
    lemma_whitespace_from_is(body, 0, at);
    assert(body.subrange(0, at) =~= word);
    let ended = word + seq![13u8, 10u8];
    assert(terminator::line_body(ended) =~= word);
    assert forall|j: int| 0 <= j < at implies !is_ascii_whitespace(#[trigger] word[j]) by {}
    lemma_whitespace_from_is(word, 0, at);
    assert(word.subrange(0, at) =~= word);
    if at >= 2 {
        assert(word[at - 2] != 13);
    }
    assert(terminator::line_body(word) == word);
}

proof fn lemma_whitespace_from_is(line: Seq<u8>, from: int, at: int)
    requires
        0 <= from <= at <= line.len(),
        forall|j: int| from <= j < at ==> !is_ascii_whitespace(#[trigger] line[j]),
        at < line.len() ==> is_ascii_whitespace(line[at]),
    ensures
        whitespace_from(line, from) == at,
    decreases at - from,
{
    if from < at {
        assert(!is_ascii_whitespace(line[from]));
        lemma_whitespace_from_is(line, from + 1, at);
    }
}

/// Whatever is a command has a verb of the protocol.
pub proof fn law_commands_have_known_verbs(verb: Seq<u8>, args: Seq<Seq<u8>>)
    requires
        request_line::kind_for(verb, args) != RequestKind::Unknown,
    ensures
        is_known_verb(verb),
{
}

/// A line that is no command is a syntax error exactly where it starts with a verb of the protocol,
/// and a line that is a command never is.
pub proof fn law_syntax_error_is_a_known_verb(line: Seq<u8>, slot: int)
    ensures
        command_of(line, slot).syntax_error <==> command_of(line, slot).kind == RequestKind::Unknown
            && is_known_verb(leading_word(line)),
        command_of(line, slot).kind == request_line::request_kind(line),
        command_of(line, slot).line_too_long <==> line == "DATE too-long\n".spec_bytes(),
        0 <= slot <= u16::MAX ==> command_of(line, slot).line_slot == slot,
{
}

/// What is a syntax error in a session is one without a session too.
pub proof fn law_syntax_errors_agree(line: Seq<u8>, slot: int)
    ensures
        is_syntax_error(line) <==> command_of(line, slot).syntax_error,
{
    let body = terminator::line_body(line);
    let blank = request_line::blank_from(body, 0);
    let verb = body.subrange(0, blank);
    request_line::lemma_blank_from(body, 0);
    lemma_whitespace_from(body, 0);
    let end = whitespace_from(body, 0);
    if end > blank {
        assert(!is_ascii_whitespace(body[blank]));
    }
    assert forall|j: int| 0 <= j < verb.len() implies verb[j] == #[trigger] body[j] by {}
    let shown = terminator::line_body(verb);
    if terminator::without_line_end(verb) is Some {
        let at = verb.len() - 2;
        assert(verb[at] == 13);
        if end > at {
            assert(!is_ascii_whitespace(body[at]));
        }
    }
    assert forall|j: int| 0 <= j < end implies !is_ascii_whitespace(#[trigger] shown[j]) by {
        assert(shown[j] == verb[j] && verb[j] == body[j]);
    }
    if end < shown.len() {
        assert(shown[end] == verb[end] && verb[end] == body[end]);
    }
    lemma_whitespace_from_is(shown, 0, end);
    assert(shown.subrange(0, end) =~= body.subrange(0, end));
}

proof fn lemma_whitespace_from(line: Seq<u8>, from: int)
    requires
        0 <= from <= line.len(),
    ensures
        from <= whitespace_from(line, from) <= line.len(),
        forall|j: int|
            from <= j < whitespace_from(line, from) ==> !is_ascii_whitespace(#[trigger] line[j]),
        whitespace_from(line, from) < line.len() ==> is_ascii_whitespace(
            line[whitespace_from(line, from)],
        ),
    decreases line.len() - from,
{
    if from < line.len() && !is_ascii_whitespace(line[from]) {
        lemma_whitespace_from(line, from + 1);
    }
}

/// `arrayvec::ArrayVec`: a vector in place, with room for `CAP` items.
#[verifier::external_type_specification]
#[verifier::external_body]
#[verifier::reject_recursive_types(T)]
pub struct ExArrayVec<T, const CAP: usize>(ArrayVec<T, CAP>);

/// The commands of one batch.
pub type CommandBatch = ArrayVec<ParsedCommand, 1024>;

/// The items of a batch, in order.
pub uninterp spec fn batch_items(batch: ArrayVec<ParsedCommand, 1024>) -> Seq<ParsedCommand>;

/// `arrayvec::ArrayVec::new`: a batch without items.
#[verifier::external_body]
pub(crate) fn empty_batch() -> (batch: ArrayVec<ParsedCommand, 1024>)
    ensures
        batch_items(batch) == Seq::<ParsedCommand>::empty(),
{
    ArrayVec::new()
}

/// `arrayvec::ArrayVec::clear`: takes every item out.
#[verifier::external_body]
pub(crate) fn clear_batch(batch: &mut ArrayVec<ParsedCommand, 1024>)
    ensures
        batch_items(*final(batch)) == Seq::<ParsedCommand>::empty(),
{
    batch.clear();
}

/// `arrayvec::ArrayVec::push`: puts an item behind the others. It panics when the batch is full.
#[verifier::external_body]
pub(crate) fn push_item(batch: &mut ArrayVec<ParsedCommand, 1024>, command: ParsedCommand)
    requires
        batch_items(*old(batch)).len() < 1024,
    ensures
        batch_items(*final(batch)) == batch_items(*old(batch)).push(command),
{
    batch.push(command);
}

/// `arrayvec::ArrayVec::as_slice`: the items, of which there are at most 1024.
#[verifier::external_body]
pub(crate) fn batch_slice(batch: &ArrayVec<ParsedCommand, 1024>) -> (items: &[ParsedCommand])
    ensures
        items@ == batch_items(*batch),
        items@.len() <= 1024,
{
    batch.as_slice()
}

} // verus!
