//! Responses as a client reads them: their status, and where they end.
use crate::bytes;
use crate::bytes::{CR, DOT, LF, SPACE};
use crate::generate;
use crate::request_line::RequestKind;
use crate::responses::CRLF;
use crate::terminator;
use crate::terminator::{
    detect_bounded_response_line_end, find_dot_terminated_block_end, BoundedResponseLineStatus,
};
use crate::values;
use crate::values::MAX_INITIAL_RESPONSE_LINE_BYTES;
use vstd::prelude::*;
use vstd::string::StringSliceAdditionalSpecFns;

verus! {

/// The status that a response line starts with: three digits, and then a space or the line end.
pub open spec fn status_of(line: Seq<u8>) -> Option<u16> {
    if line.len() >= 4 && bytes::is_digit(line[0]) && bytes::is_digit(line[1]) && bytes::is_digit(
        line[2],
    ) && (line[3] == SPACE || line[3] == CR) {
        Some(((line[0] - 48) * 100 + (line[1] - 48) * 10 + (line[2] - 48)) as u16)
    } else {
        None
    }
}

pub fn response_status(line: &[u8]) -> (status: Option<u16>)
    ensures
        status == status_of(line@),
{
    if line.len() >= 4 && 48 <= line[0] && line[0] <= 57 && 48 <= line[1] && line[1] <= 57 && 48
        <= line[2] && line[2] <= 57 && (line[3] == SPACE || line[3] == CR) {
        let first: u16 = (line[0] - 48) as u16;
        let second: u16 = (line[1] - 48) as u16;
        let third: u16 = (line[2] - 48) as u16;
        Some(first * 100 + second * 10 + third)
    } else {
        None
    }
}

/// A block of lines follows the response line.
pub open spec fn has_block(kind: RequestKind, status: u16) -> bool {
    ||| status == 100
    ||| status == 101
    ||| status == 215
    ||| status == 220
    ||| status == 221
    ||| status == 222
    ||| status == 224
    ||| status == 225
    ||| status == 230
    ||| status == 231
    ||| status == 211 && kind == RequestKind::ListGroup
}

/// Where the first response of some input ends.
#[derive(Debug, Clone, Copy, PartialEq, Eq, Structural)]
pub enum FrameStatus {
    NeedMore,
    /// The response line has no status or no proper line end.
    Invalid,
    /// The response line is too long.
    TooLong,
    CompleteAt(usize),
}

/// The end of the first response to a request of this kind.
pub open spec fn frame_status(kind: RequestKind, input: Seq<u8>) -> FrameStatus {
    match terminator::bounded_line_status(input, MAX_INITIAL_RESPONSE_LINE_BYTES as int) {
        BoundedResponseLineStatus::NeedMore => FrameStatus::NeedMore,
        BoundedResponseLineStatus::Invalid => FrameStatus::Invalid,
        BoundedResponseLineStatus::TooLong => FrameStatus::TooLong,
        BoundedResponseLineStatus::CompleteAt(end) => match status_of(
            input.subrange(0, end as int),
        ) {
            None => FrameStatus::Invalid,
            Some(status) => if has_block(kind, status) {
                match terminator::block_end(input, end as int) {
                    Some(last) => FrameStatus::CompleteAt(last as usize),
                    None => FrameStatus::NeedMore,
                }
            } else {
                FrameStatus::CompleteAt(end)
            },
        },
    }
}

/// Finds the end of the first response to a request of this kind.
pub fn response_frame_end(kind: RequestKind, input: &[u8]) -> (status: FrameStatus)
    ensures
        status == frame_status(kind, input@),
        status matches FrameStatus::CompleteAt(end) ==> end <= input@.len(),
{
    match detect_bounded_response_line_end(input, MAX_INITIAL_RESPONSE_LINE_BYTES) {
        BoundedResponseLineStatus::NeedMore => FrameStatus::NeedMore,
        BoundedResponseLineStatus::Invalid => FrameStatus::Invalid,
        BoundedResponseLineStatus::TooLong => FrameStatus::TooLong,
        BoundedResponseLineStatus::CompleteAt(end) => {
            match response_status(&input[0..end]) {
                None => FrameStatus::Invalid,
                Some(status) => if status == 100 || status == 101 || status == 215 || status == 220
                    || status == 221 || status == 222 || status == 224 || status == 225 || status
                    == 230 || status == 231 || (status == 211 && kind == RequestKind::ListGroup) {
                    match find_dot_terminated_block_end(input, end) {
                        Some(last) => FrameStatus::CompleteAt(last),
                        None => FrameStatus::NeedMore,
                    }
                } else {
                    FrameStatus::CompleteAt(end)
                },
            }
        },
    }
}

/// What comes out of the input of a client.
#[derive(Debug)]
pub enum Taken {
    NeedMore,
    Invalid,
    TooLong,
    /// One whole response with its status.
    Response { status: u16, bytes: Vec<u8> },
}

/// What a client has read and not used yet. Its view is these bytes.
#[derive(Debug)]
pub struct ResponseInput {
    pending: Vec<u8>,
}

impl View for ResponseInput {
    type V = Seq<u8>;

    closed spec fn view(&self) -> Seq<u8> {
        self.pending@
    }
}

impl ResponseInput {
    pub fn new() -> (input: ResponseInput)
        ensures
            input@ == Seq::<u8>::empty(),
    {
        ResponseInput { pending: Vec::new() }
    }

    /// Adds what was read.
    pub fn push(&mut self, chunk: &[u8])
        ensures
            final(self)@ == old(self)@ + chunk@,
    {
        self.pending.extend_from_slice(chunk);
        assert(self@ =~= old(self)@ + chunk@);
    }

    /// Takes the first response out of the input, to a request of this kind, and keeps what
    /// follows it. Nothing is taken where there is none yet or where there never will be.
    pub fn take_response(&mut self, kind: RequestKind) -> (taken: Taken)
        ensures
            match frame_status(kind, old(self)@) {
                FrameStatus::NeedMore => taken is NeedMore && final(self)@ == old(self)@,
                FrameStatus::Invalid => taken is Invalid && final(self)@ == old(self)@,
                FrameStatus::TooLong => taken is TooLong && final(self)@ == old(self)@,
                FrameStatus::CompleteAt(end) => taken matches Taken::Response { status, bytes }
                    && bytes@ == old(self)@.subrange(0, end as int) && status_of(bytes@) == Some(
                    status,
                ) && final(self)@ == old(self)@.subrange(end as int, old(self)@.len() as int),
            },
    {
        match response_frame_end(kind, self.pending.as_slice()) {
            FrameStatus::NeedMore => Taken::NeedMore,
            FrameStatus::Invalid => Taken::Invalid,
            FrameStatus::TooLong => Taken::TooLong,
            FrameStatus::CompleteAt(end) => {
                let ghost before = self@;
                assert(self.pending.len() == before.len());
                let mut bytes: Vec<u8> = self.pending.split_off(end);
                std::mem::swap(&mut bytes, &mut self.pending);
                proof {
                    lemma_frame_has_status(kind, before);
                }
                match response_status(bytes.as_slice()) {
                    Some(status) => Taken::Response { status, bytes },
                    None => Taken::Invalid,
                }
            },
        }
    }
}

/// A whole response starts with the status of its line.
proof fn lemma_frame_has_status(kind: RequestKind, input: Seq<u8>)
    requires
        input.len() <= usize::MAX,
        frame_status(kind, input) is CompleteAt,
    ensures
        frame_status(kind, input)->CompleteAt_0 <= input.len() ==> status_of(
            input.subrange(0, frame_status(kind, input)->CompleteAt_0 as int),
        ) is Some,
{
    let last = frame_status(kind, input)->CompleteAt_0 as int;
    if last <= input.len() {
        terminator::lemma_line_end(input, 0);
        let end = terminator::line_status(input, 0)->CompleteAt_0 as int;
        let line = input.subrange(0, end);
        if has_block(kind, status_of(line)->0) {
            terminator::lemma_block_end(input, end, end);
        }
        let whole = input.subrange(0, last);
        assert(line[0] == whole[0] && line[1] == whole[1] && line[2] == whole[2] && line[3]
            == whole[3]);
    }
}

/// What follows a response does not change where it ends: a client may read ahead, and answers
/// that are sent one after the other are read one after the other. Input that is no response does
/// not become one either.
pub proof fn law_more_input_keeps_the_response(kind: RequestKind, input: Seq<u8>, more: Seq<u8>)
    requires
        input.len() + more.len() <= usize::MAX,
        frame_status(kind, input) is CompleteAt || frame_status(kind, input) is Invalid,
    ensures
        frame_status(kind, input + more) == frame_status(kind, input),
{
    let whole = input + more;
    terminator::lemma_line_status_grows(input, more, 0);
    terminator::lemma_line_end(input, 0);
    match terminator::bounded_line_status(input, MAX_INITIAL_RESPONSE_LINE_BYTES as int) {
        BoundedResponseLineStatus::CompleteAt(end) => {
            let start = end as int;
            assert(whole.subrange(0, start) =~= input.subrange(0, start));
            if terminator::block_end(input, start) is Some {
                terminator::lemma_block_end_grows(input, more, start);
            }
        },
        _ => {},
    }
}

/// A response line and what follows it are one response.
proof fn lemma_frame(kind: RequestKind, line: Seq<u8>, rest: Seq<u8>, status: u16)
    requires
        forall|j: int| 0 <= j < line.len() - 2 ==> #[trigger] line[j] >= 0x20,
        terminator::crlf_at(line, line.len() - 2),
        line.len() <= MAX_INITIAL_RESPONSE_LINE_BYTES,
        line.len() + rest.len() <= usize::MAX,
        status_of(line) == Some(status),
        has_block(kind, status) ==> terminator::block_end(line + rest, line.len() as int) == Some(
            (line + rest).len() as int,
        ),
        !has_block(kind, status) ==> rest.len() == 0,
    ensures
        frame_status(kind, line + rest) == FrameStatus::CompleteAt((line + rest).len() as usize),
{
    let whole = line + rest;
    assert(whole.subrange(0, line.len() as int) =~= line);
    assert forall|j: int| 0 <= j < line.len() - 2 implies #[trigger] whole[j] >= 0x20 by {
        assert(whole[j] == line[j]);
    }
    assert(whole[line.len() - 2] == line[line.len() - 2]);
    assert(whole[line.len() - 1] == line[line.len() - 1]);
    terminator::lemma_line_status_is(whole, 0, line.len() - 2);
}

/// A status line of the server is one line with its status.
pub proof fn lemma_status_line(code: &str, number: nat, id: Seq<u8>, text: &str)
    requires
        values::is_message_id(id),
        code.spec_bytes().len() == 4,
        code.spec_bytes()[3] == SPACE,
        forall|i: int| 0 <= i < 3 ==> bytes::is_digit(#[trigger] code.spec_bytes()[i]),
        text.spec_bytes().len() >= 2,
        terminator::crlf_at(text.spec_bytes(), text.spec_bytes().len() - 2),
        forall|i: int|
            0 <= i < text.spec_bytes().len() - 2 ==> #[trigger] text.spec_bytes()[i] >= 0x20,
    ensures
        ({
            let line = generate::status_line(code, number, id, text);
            &&& forall|j: int| 0 <= j < line.len() - 2 ==> #[trigger] line[j] >= 0x20
            &&& terminator::crlf_at(line, line.len() - 2)
            &&& status_of(line) == status_of(code.spec_bytes())
            &&& bytes::ends_with(line, CRLF.spec_bytes())
        }),
{
    let line = generate::status_line(code, number, id, text);
    let digits = bytes::decimal(number);
    let head = code.spec_bytes();
    let tail = text.spec_bytes();
    reveal_strlit(" ");
    assert(" ".is_ascii());
    bytes::lemma_decimal(number);
    terminator::lemma_dot_terminator();
    let at = 4 + digits.len() as int;
    let end = at + 1 + id.len();
    assert(line.len() == end + tail.len());
    assert forall|j: int| 0 <= j < line.len() - 2 implies #[trigger] line[j] >= 0x20 by {
        if j < 3 {
            assert(line[j] == head[j]);
        } else if j == 3 {
            assert(line[j] == head[3]);
        } else if j < at {
            assert(line[j] == digits[j - 4]);
            assert(bytes::is_digit(digits[j - 4]));
        } else if j == at {
            assert(line[j] == " ".spec_bytes()[0]);
        } else if j < end {
            assert(line[j] == id[j - at - 1]);
            if 0 < j - at - 1 < id.len() - 1 {
                assert(values::is_graphic(id.subrange(1, id.len() - 1)[j - at - 2]));
            }
        } else {
            assert(line[j] == tail[j - end]);
        }
    }
    assert(line[line.len() - 2] == tail[tail.len() - 2]);
    assert(line[line.len() - 1] == tail[tail.len() - 1]);
    assert(line.subrange(line.len() - 2, line.len() as int) =~= seq![CR, LF]);
    assert(line[0] == head[0] && line[1] == head[1] && line[2] == head[2] && line[3] == head[3]);
}

/// The server's answer to `BODY` for a message-id or a number is one response to the client, as
/// long as its status line is not too long.
pub proof fn law_body_answer_is_one_response(number: nat, id: Seq<u8>, target: int)
    requires
        values::is_message_id(id),
        generate::status_line("222 ", number, id, " body follows\r\n").len()
            <= MAX_INITIAL_RESPONSE_LINE_BYTES,
        generate::body_text(number, id, target).len() <= usize::MAX,
    ensures
        frame_status(RequestKind::Body, generate::body_text(number, id, target))
            == FrameStatus::CompleteAt(generate::body_text(number, id, target).len() as usize),
{
    reveal_strlit("222 ");
    reveal_strlit(" body follows\r\n");
    assert("222 ".is_ascii());
    assert(" body follows\r\n".is_ascii());
    let line = generate::status_line("222 ", number, id, " body follows\r\n");
    let whole = generate::body_text(number, id, target);
    lemma_status_line("222 ", number, id, " body follows\r\n");
    generate::law_generated_is_one_block(line, target);
    generate::lemma_generated_starts(line, target);
    let rest = whole.subrange(line.len() as int, whole.len() as int);
    assert(whole =~= line + rest);
    lemma_frame(RequestKind::Body, line, rest, 222);
}

/// The server's answer to `STAT` is one response to the client, as long as it is not too long.
pub proof fn law_stat_answer_is_one_response(number: nat, id: Seq<u8>)
    requires
        values::is_message_id(id),
        generate::stat_text(number, id).len() <= MAX_INITIAL_RESPONSE_LINE_BYTES,
    ensures
        frame_status(RequestKind::Stat, generate::stat_text(number, id)) == FrameStatus::CompleteAt(
            generate::stat_text(number, id).len() as usize,
        ),
{
    reveal_strlit("223 ");
    reveal_strlit(" article retrieved\r\n");
    assert("223 ".is_ascii());
    assert(" article retrieved\r\n".is_ascii());
    let line = generate::stat_text(number, id);
    lemma_status_line("223 ", number, id, " article retrieved\r\n");
    assert(line + Seq::<u8>::empty() =~= line);
    lemma_frame(RequestKind::Stat, line, Seq::empty(), 223);
}

/// No line of the synthetic headers starts with a dot.
pub proof fn lemma_header_lines(id: Seq<u8>)
    requires
        values::is_message_id(id),
    ensures
        ({
            let headers = generate::article_headers(id);
            &&& headers.len() > 2
            &&& headers[0] != DOT && headers[0] != LF && headers[1] != DOT
            &&& bytes::ends_with(headers, CRLF.spec_bytes())
            &&& forall|i: int|
                2 <= i < headers.len() && #[trigger] headers[i] == DOT ==> !(headers[i - 2] == CR
                    && headers[i - 1] == LF)
        }),
{
    reveal_strlit(
        "Path: nntpbench.local!mock\r\nFrom: Bench User <bench@nntpbench.local>\r\nNewsgroups: alt.binaries.bench\r\nSubject: nntpbench synthetic article\r\nMessage-ID: ",
    );
    reveal_strlit("\r\nDate: Fri, 15 May 2026 00:00:00 +0000\r\n");
    assert(generate::SYNTHETIC_HEADERS.is_ascii());
    assert(generate::SYNTHETIC_DATE.is_ascii());
    terminator::lemma_dot_terminator();
    let head = generate::SYNTHETIC_HEADERS.spec_bytes();
    let tail = generate::SYNTHETIC_DATE.spec_bytes();
    let headers = generate::article_headers(id);
    assert(forall|i: int|
        2 <= i < head.len() && #[trigger] head[i] == DOT ==> head[i - 1] != LF);
    assert(forall|i: int| 0 <= i < tail.len() ==> #[trigger] tail[i] != DOT);
    assert(head.last() == SPACE);
    let at = head.len() as int;
    let end = at + id.len();
    assert forall|i: int| 2 <= i < headers.len() && #[trigger] headers[i] == DOT implies !(headers[i
        - 2] == CR && headers[i - 1] == LF) by {
        if i < at {
            assert(headers[i] == head[i] && headers[i - 1] == head[i - 1]);
        } else if i == at {
            assert(headers[i] == id[0]);
        } else if i < end {
            assert(headers[i - 1] == id[i - 1 - at]);
            if 0 < i - 1 - at {
                assert(values::is_graphic(id.subrange(1, id.len() - 1)[i - 2 - at]));
            }
        } else {
            assert(headers[i] == tail[i - end]);
        }
    }
    assert(headers[0] == head[0] && headers[1] == head[1]);
    assert(headers.subrange(headers.len() - 2, headers.len() as int) =~= seq![CR, LF]) by {
        assert(headers[headers.len() - 2] == tail[tail.len() - 2]);
        assert(headers[headers.len() - 1] == tail[tail.len() - 1]);
    }
}

/// A block ends where it does behind some lines of its own that do not start with a dot.
proof fn lemma_block_with_headers(whole: Seq<u8>, start: int, middle: int)
    requires
        0 < start,
        start + 2 < middle <= whole.len(),
        whole[start - 1] == LF,
        terminator::crlf_at(whole, middle - 2),
        whole[start] != DOT && whole[start] != LF && whole[start + 1] != DOT,
        forall|i: int|
            start + 2 <= i < middle && #[trigger] whole[i] == DOT ==> !(whole[i - 2] == CR
                && whole[i - 1] == LF),
        terminator::block_end(whole, middle) == Some(whole.len() as int),
    ensures
        terminator::block_end(whole, start) == Some(whole.len() as int),
{
    let end = whole.len() as int;
    terminator::lemma_block_end(whole, middle, middle);
    assert(terminator::dot_line_ends_at(whole, start, end));
    assert forall|e: int| start <= e < end implies !terminator::dot_line_ends_at(
        whole,
        start,
        e,
    ) by {
        if terminator::dot_line_ends_at(whole, start, e) {
            let at = e - 3;
            assert(whole[at] == DOT);
            if at >= middle {
                if at > middle {
                    assert(terminator::crlf_at(whole, at - 2));
                    assert(at != middle + 1) by {
                        assert(whole[middle - 1] == LF);
                    }
                }
                assert(terminator::dot_line_ends_at(whole, middle, e));
            } else if at >= start + 2 {
                assert(!(whole[at - 2] == CR && whole[at - 1] == LF));
            }
        }
    }
    terminator::lemma_block_end_is(whole, start, end);
}

/// A generated response whose prefix is a line, headers and an empty line is a block behind the
/// line.
proof fn lemma_article_block(line: Seq<u8>, headers: Seq<u8>, target: int)
    requires
        line.len() >= 2,
        terminator::crlf_at(line, line.len() - 2),
        headers.len() > 2,
        headers[0] != DOT && headers[0] != LF && headers[1] != DOT,
        forall|i: int|
            2 <= i < headers.len() && #[trigger] headers[i] == DOT ==> !(headers[i - 2] == CR
                && headers[i - 1] == LF),
    ensures
        ({
            let whole = generate::generated(line + headers + CRLF.spec_bytes(), target);
            &&& terminator::block_end(whole, line.len() as int) == Some(whole.len() as int)
            &&& whole.len() >= line.len()
            &&& whole.subrange(0, line.len() as int) == line
        }),
{
    let prefix = line + headers + CRLF.spec_bytes();
    let whole = generate::generated(prefix, target);
    terminator::lemma_dot_terminator();
    assert(prefix.subrange(prefix.len() - 2, prefix.len() as int) =~= CRLF.spec_bytes());
    generate::law_generated_is_one_block(prefix, target);
    generate::lemma_generated_starts(prefix, target);
    let start = line.len() as int;
    let middle = prefix.len() as int;
    assert forall|i: int| 0 <= i < middle implies whole[i] == prefix[i] by {
        assert(whole.subrange(0, middle)[i] == whole[i]);
    }
    assert forall|i: int| start <= i < start + headers.len() implies whole[i] == headers[i
        - start] by {}
    assert(whole[start - 1] == line[start - 1]);
    assert forall|i: int| start + 2 <= i < middle && #[trigger] whole[i] == DOT implies !(whole[i
        - 2] == CR && whole[i - 1] == LF) by {
        if i < start + headers.len() {
            assert(headers[i - start] == DOT);
        } else {
            assert(prefix[i] == CRLF.spec_bytes()[i - start - headers.len()]);
        }
    }
    lemma_block_with_headers(whole, start, middle);
    assert(whole.subrange(0, start) =~= line);
}

/// The server's answer to `ARTICLE` for a message-id or a number is one response to the client,
/// as long as its status line is not too long.
#[verifier::rlimit(30)]
pub proof fn law_article_answer_is_one_response(number: nat, id: Seq<u8>, target: int)
    requires
        values::is_message_id(id),
        generate::status_line("220 ", number, id, " article follows\r\n").len()
            <= MAX_INITIAL_RESPONSE_LINE_BYTES,
        generate::article_text(number, id, target).len() <= usize::MAX,
    ensures
        frame_status(RequestKind::Article, generate::article_text(number, id, target))
            == FrameStatus::CompleteAt(generate::article_text(number, id, target).len() as usize),
{
    let line = generate::status_line("220 ", number, id, " article follows\r\n");
    let whole = generate::article_text(number, id, target);
    assert(status_of(line) == Some(220u16) && terminator::crlf_at(line, line.len() - 2) && (
    forall|j: int| 0 <= j < line.len() - 2 ==> #[trigger] line[j] >= 0x20)) by {
        reveal_strlit("220 ");
        reveal_strlit(" article follows\r\n");
        assert("220 ".is_ascii());
        assert(" article follows\r\n".is_ascii());
        lemma_status_line("220 ", number, id, " article follows\r\n");
    }
    assert(terminator::block_end(whole, line.len() as int) == Some(whole.len() as int)
        && whole.len() >= line.len() && whole.subrange(0, line.len() as int) == line) by {
        lemma_header_lines(id);
        lemma_article_block(line, generate::article_headers(id), target);
    }
    let rest = whole.subrange(line.len() as int, whole.len() as int);
    assert(whole =~= whole.subrange(0, line.len() as int) + rest);
    lemma_frame(RequestKind::Article, line, rest, 220);
}

/// The server's answer to `HEAD` for a message-id or a number is one response to the client, as
/// long as its status line is not too long.
pub proof fn law_head_answer_is_one_response(number: nat, id: Seq<u8>)
    requires
        values::is_message_id(id),
        generate::status_line("221 ", number, id, " article retrieved\r\n").len()
            <= MAX_INITIAL_RESPONSE_LINE_BYTES,
        generate::head_text(number, id).len() <= usize::MAX,
    ensures
        frame_status(RequestKind::Head, generate::head_text(number, id)) == FrameStatus::CompleteAt(
            generate::head_text(number, id).len() as usize,
        ),
{
    reveal_strlit("221 ");
    reveal_strlit(" article retrieved\r\n");
    assert("221 ".is_ascii());
    assert(" article retrieved\r\n".is_ascii());
    let line = generate::status_line("221 ", number, id, " article retrieved\r\n");
    let headers = generate::article_headers(id);
    let text = line + headers;
    let whole = generate::head_text(number, id);
    lemma_status_line("221 ", number, id, " article retrieved\r\n");
    lemma_header_lines(id);
    terminator::lemma_dot_terminator();
    assert(text.subrange(text.len() - 2, text.len() as int) =~= headers.subrange(
        headers.len() - 2,
        headers.len() as int,
    ));
    assert(whole =~= text + seq![DOT, CR, LF]);
    let start = line.len() as int;
    let middle = text.len() as int;
    assert(text[middle - 2] == text.subrange(middle - 2, middle)[0]);
    assert(text[middle - 1] == text.subrange(middle - 2, middle)[1]);
    assert forall|i: int| start <= i < middle implies whole[i] == headers[i - start] by {}
    assert(whole[start - 1] == line[start - 1]);
    assert(terminator::dot_line_ends_at(whole, middle, middle + 3));
    terminator::lemma_block_end_is(whole, middle, middle + 3);
    assert forall|i: int| start + 2 <= i < middle && #[trigger] whole[i] == DOT implies !(whole[i
        - 2] == CR && whole[i - 1] == LF) by {
        assert(headers[i - start] == DOT);
    }
    lemma_block_with_headers(whole, start, middle);
    let rest = whole.subrange(start, whole.len() as int);
    assert(whole =~= line + rest);
    lemma_frame(RequestKind::Head, line, rest, 221);
}

/// The status of a response line is the number of three digits that it starts with, before a space
/// or the line end. Other lines have none.
pub proof fn law_status_is_the_number_of_the_line(line: Seq<u8>, status: u16)
    ensures
        status_of(line) == Some(status) <==> {
            &&& line.len() >= 4
            &&& bytes::all_digits(line.take(3))
            &&& bytes::decimal_value(line.take(3)) == status
            &&& line[3] == 32 || line[3] == 13
        },
{
    if line.len() >= 4 {
        let code = line.take(3);
        reveal_with_fuel(bytes::decimal_value, 4);
        assert(code[0] == line[0] && code[1] == line[1] && code[2] == line[2]);
        assert(code.drop_last().drop_last().drop_last() =~= Seq::<u8>::empty());
        assert(code.last() == line[2]);
        assert(code.drop_last().last() == line[1]);
        assert(code.drop_last().drop_last().last() == line[0]);
        if bytes::all_digits(code) {
            assert(bytes::is_digit(code[0]) && bytes::is_digit(code[1]) && bytes::is_digit(
                code[2],
            ));
        }
    }
}

/// A response is read as one line or with a block behind it by its status alone; only the status
/// that `GROUP` and `LISTGROUP` share goes by the request.
pub proof fn law_blocks_go_by_the_status(kind: RequestKind, other: RequestKind, status: u16)
    ensures
        status != 211 ==> has_block(kind, status) == has_block(other, status),
        has_block(kind, 211) <==> kind == RequestKind::ListGroup,
        status >= 300 ==> !has_block(kind, status),
{
}

/// A response without a block is its line, whatever follows.
pub proof fn law_response_without_a_block_is_its_line(
    kind: RequestKind,
    line: Seq<u8>,
    status: u16,
    rest: Seq<u8>,
)
    requires
        forall|i: int| 0 <= i < line.len() ==> #[trigger] line[i] != 13 && line[i] != 10,
        line.len() + 2 + rest.len() <= usize::MAX,
        line.len() + 2 <= MAX_INITIAL_RESPONSE_LINE_BYTES,
        status_of(line + seq![13u8, 10u8]) == Some(status),
    ensures
        ({
            let input = line + seq![13u8, 10u8] + rest;
            &&& !has_block(kind, status) ==> frame_status(kind, input) == FrameStatus::CompleteAt(
                (line.len() + 2) as usize,
            )
            &&& has_block(kind, status) ==> frame_status(kind, input) == (match terminator::block_end(
                rest,
                0,
            ) {
                Some(end) => FrameStatus::CompleteAt((line.len() + 2 + end) as usize),
                None => FrameStatus::NeedMore,
            })
        }),
        frame_status(kind, line) == FrameStatus::NeedMore,
{
    let input = line + seq![13u8, 10u8] + rest;
    let limit = MAX_INITIAL_RESPONSE_LINE_BYTES as int;
    terminator::law_line_goes_up_to_its_end(line, rest, limit);
    let first = line + seq![13u8, 10u8];
    assert(input.subrange(0, (line.len() + 2) as int) =~= first);
    terminator::lemma_block_end_shift(first, rest, 0);
    assert(input =~= first + rest);
}

/// A response that starts with no status, or whose line is too long or spoiled, is refused.
pub proof fn law_other_lines_are_no_responses(kind: RequestKind, line: Seq<u8>, rest: Seq<u8>)
    requires
        forall|i: int| 0 <= i < line.len() ==> #[trigger] line[i] != 13 && line[i] != 10,
        line.len() + 2 + rest.len() <= usize::MAX,
    ensures
        line.len() + 2 <= MAX_INITIAL_RESPONSE_LINE_BYTES && status_of(line + seq![13u8, 10u8]) is None
            ==> frame_status(kind, line + seq![13u8, 10u8] + rest) == FrameStatus::Invalid,
        line.len() + 2 > MAX_INITIAL_RESPONSE_LINE_BYTES ==> frame_status(
            kind,
            line + seq![13u8, 10u8] + rest,
        ) == FrameStatus::TooLong,
        line.len() >= MAX_INITIAL_RESPONSE_LINE_BYTES ==> frame_status(kind, line)
            == FrameStatus::TooLong,
        frame_status(kind, line + seq![10u8] + rest) == FrameStatus::Invalid,
{
    let input = line + seq![13u8, 10u8] + rest;
    terminator::law_line_goes_up_to_its_end(line, rest, MAX_INITIAL_RESPONSE_LINE_BYTES as int);
    assert(input.subrange(0, (line.len() + 2) as int) =~= line + seq![13u8, 10u8]);
}

} // verus!
