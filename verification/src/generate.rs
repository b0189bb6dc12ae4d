//! Synthetic articles: their responses are made up to a wanted size.
use crate::bytes;
use crate::bytes::{decimal_bytes, AT, DOT, GREATER, LESS};
use crate::message_id::MessageId;
use crate::responses::{ARTICLE_RESPONSE_PREFIX, BODY_LINE, BODY_RESPONSE_PREFIX, CRLF};
use crate::terminator;
use crate::terminator::{
    append_crlf, append_dot_terminator, find_crlf_line_end, strip_dot_terminator_suffix,
    target_before_dot_terminator,
};
use crate::values;
use vstd::prelude::*;
use vstd::string::StringSliceAdditionalSpecFns;

verus! {

/// `copies` times `line`.
pub open spec fn repeated(line: Seq<u8>, copies: nat) -> Seq<u8>
    decreases copies,
{
    if copies == 0 {
        Seq::empty()
    } else {
        repeated(line, (copies - 1) as nat) + line
    }
}

/// The fewest pieces of `size` that make up `total`.
pub open spec fn pieces(total: int, size: int) -> nat {
    (total / size + (if total % size > 0 {
        1int
    } else {
        0int
    })) as nat
}

/// `text` with whole body lines behind it, the fewest with which it has `target` bytes.
pub open spec fn filled(text: Seq<u8>, target: int) -> Seq<u8> {
    if text.len() < target {
        text + repeated(
            BODY_LINE.spec_bytes(),
            pieces(target - text.len(), BODY_LINE.spec_bytes().len() as int),
        )
    } else {
        text
    }
}

/// A complete response: the prefix, body lines up to the wanted size, and the dot line.
pub open spec fn generated(prefix: Seq<u8>, target: int) -> Seq<u8> {
    terminator::terminated(filled(prefix, target))
}

/// The length of `generated`, where the prefix ends in a line end.
pub open spec fn generated_len(prefix_len: int, target: int) -> int {
    let line_len = BODY_LINE.spec_bytes().len();
    if prefix_len < target {
        prefix_len + pieces(target - prefix_len, line_len as int) * line_len + 3
    } else {
        prefix_len + 3
    }
}

/// The body line: its size, its line end, and that no dot stands in it.
pub proof fn lemma_body_line()
    ensures
        BODY_LINE.spec_bytes().len() == 80,
        bytes::ends_with(BODY_LINE.spec_bytes(), CRLF.spec_bytes()),
        forall|i: int| 0 <= i < 80 ==> #[trigger] BODY_LINE.spec_bytes()[i] != DOT,
{
    reveal_strlit(
        "This is synthetic NNTP article payload for throughput and latency benchmarking\r\n",
    );
    assert(BODY_LINE.is_ascii());
    terminator::lemma_dot_terminator();
    let line = BODY_LINE.spec_bytes();
    assert(line.len() == 80);
    assert(line.subrange(78, 80) =~= seq![13u8, 10u8]);
}

proof fn lemma_repeated_len(line: Seq<u8>, copies: nat)
    ensures
        repeated(line, copies).len() == copies * line.len(),
    decreases copies,
{
    if copies > 0 {
        lemma_repeated_len(line, (copies - 1) as nat);
        assert(copies * line.len() == (copies - 1) * line.len() + line.len()) by (nonlinear_arith)
            requires
                copies > 0,
        ;
    } else {
        assert(0 * line.len() == 0);
    }
}

proof fn lemma_repeated_without(line: Seq<u8>, copies: nat, byte: u8)
    requires
        forall|i: int| 0 <= i < line.len() ==> line[i] != byte,
    ensures
        forall|i: int| 0 <= i < repeated(line, copies).len() ==> repeated(line, copies)[i] != byte,
    decreases copies,
{
    if copies > 0 {
        lemma_repeated_without(line, (copies - 1) as nat, byte);
        let rest = repeated(line, (copies - 1) as nat);
        assert forall|i: int| 0 <= i < repeated(line, copies).len() implies repeated(line, copies)[i]
            != byte by {
            if i < rest.len() {
                assert(repeated(line, copies)[i] == rest[i]);
            } else {
                assert(repeated(line, copies)[i] == line[i - rest.len()]);
            }
        }
    }
}

/// The pieces cover the total, and one fewer would not.
proof fn lemma_pieces(total: int, size: int)
    requires
        total >= 0,
        size > 0,
    ensures
        total <= pieces(total, size) * size < total + size,
{
    let quotient = total / size;
    let rest = total % size;
    assert(total == size * quotient + rest && 0 <= rest < size && quotient >= 0) by (
    nonlinear_arith)
        requires
            total >= 0,
            size > 0,
            quotient == total / size,
            rest == total % size,
    ;
    assert(size * quotient == quotient * size) by (nonlinear_arith);
    assert((quotient + 1) * size == quotient * size + size) by (nonlinear_arith);
}

/// A text that ends in a line end still does so after more body lines.
proof fn lemma_filled_ends_line(text: Seq<u8>, target: int)
    requires
        bytes::ends_with(text, CRLF.spec_bytes()),
    ensures
        bytes::ends_with(filled(text, target), CRLF.spec_bytes()),
{
    lemma_body_line();
    terminator::lemma_dot_terminator();
    let line = BODY_LINE.spec_bytes();
    if text.len() < target {
        let copies = pieces(target - text.len(), 80);
        lemma_pieces(target - text.len(), 80);
        let rest = repeated(line, (copies - 1) as nat);
        let whole = filled(text, target);
        assert(whole =~= text + rest + line);
        assert(whole.subrange(whole.len() - 2, whole.len() as int) =~= line.subrange(78, 80));
    }
}

/// The response that `build_generated_response` makes.
pub struct GeneratedResponse<'a> {
    pub prefix: &'a [u8],
    pub target_bytes: usize,
}

impl<'a> GeneratedResponse<'a> {
    pub fn new(prefix: &'a [u8], target_bytes: usize) -> (response: Self)
        ensures
            response.prefix@ == prefix@,
            response.target_bytes == target_bytes,
    {
        GeneratedResponse { prefix, target_bytes }
    }

    /// The room that the whole response takes when its prefix ends in a line end.
    pub fn total_len(&self) -> (len: usize)
        requires
            generated_len(self.prefix@.len() as int, self.target_bytes as int) <= usize::MAX,
        ensures
            len == generated_len(self.prefix@.len() as int, self.target_bytes as int),
    {
        proof {
            lemma_body_line();
        }
        let mut payload: usize = 0;
        if self.prefix.len() < self.target_bytes {
            let missing: usize = self.target_bytes - self.prefix.len();
            proof {
                lemma_pieces(missing as int, 80);
            }
            let mut copies: usize = missing / 80;
            if missing % 80 > 0 {
                copies = copies + 1;
            }
            payload = copies * 80;
        }
        self.prefix.len() + payload + 3
    }
}

/// Appends whole copies of `line`, the fewest that have `min_bytes` bytes together.
pub fn append_repeated_payload_at_least(buffer: &mut Vec<u8>, line: &[u8], min_bytes: usize)
    ensures
        line@.len() == 0 ==> final(buffer)@ == old(buffer)@,
        line@.len() > 0 ==> final(buffer)@ == old(buffer)@ + repeated(
            line@,
            pieces(min_bytes as int, line@.len() as int),
        ),
{
    if line.len() == 0 {
        return ;
    }
    let mut copies: usize = min_bytes / line.len();
    if min_bytes % line.len() > 0 {
        proof {
            assert(min_bytes as int / line@.len() as int * 1 <= min_bytes) by (nonlinear_arith)
                requires
                    line@.len() > 0,
                    min_bytes >= 0,
            ;
            if line@.len() == 1 {
                assert(min_bytes as int % 1 == 0);
            } else {
                assert(min_bytes as int / line@.len() as int * 2 <= min_bytes) by (nonlinear_arith)
                    requires
                        line@.len() >= 2,
                        min_bytes >= 0,
                ;
            }
        }
        copies = copies + 1;
    }
    let mut done: usize = 0;
    assert(buffer@ =~= old(buffer)@ + repeated(line@, 0));
    while done < copies
        invariant
            done <= copies,
            buffer@ == old(buffer)@ + repeated(line@, done as nat),
        decreases copies - done,
    {
        buffer.extend_from_slice(line);
        done = done + 1;
        assert(repeated(line@, done as nat) == repeated(line@, (done - 1) as nat) + line@);
        assert(buffer@ =~= old(buffer)@ + repeated(line@, done as nat));
    }
}

fn fill(buffer: &mut Vec<u8>, target_bytes: usize)
    ensures
        final(buffer)@ == filled(old(buffer)@, target_bytes as int),
{
    if buffer.len() < target_bytes {
        let missing: usize = target_bytes - buffer.len();
        proof {
            lemma_body_line();
        }
        append_repeated_payload_at_least(buffer, BODY_LINE.as_bytes(), missing);
    }
}

/// A response of about `target_bytes` bytes that starts with `prefix`.
pub fn build_generated_response(prefix: &[u8], target_bytes: usize) -> (response: Vec<u8>)
    ensures
        response@ == generated(prefix@, target_bytes as int),
{
    let mut buffer: Vec<u8> = Vec::new();
    buffer.extend_from_slice(prefix);
    assert(buffer@ =~= prefix@);
    fill(&mut buffer, target_bytes);
    append_dot_terminator(&mut buffer);
    buffer
}

/// A response starts with its prefix.
pub proof fn lemma_generated_starts(prefix: Seq<u8>, target: int)
    requires
        bytes::ends_with(prefix, CRLF.spec_bytes()),
    ensures
        generated(prefix, target).len() >= prefix.len(),
        generated(prefix, target).subrange(0, prefix.len() as int) == prefix,
{
    lemma_filled_ends_line(prefix, target);
    assert(generated(prefix, target).subrange(0, prefix.len() as int) =~= prefix);
}

/// The size that is reserved for a response is the size that it has.
pub proof fn law_generated_len(prefix: Seq<u8>, target: int)
    requires
        bytes::ends_with(prefix, CRLF.spec_bytes()),
    ensures
        generated(prefix, target).len() == generated_len(prefix.len() as int, target),
{
    lemma_body_line();
    terminator::lemma_dot_terminator();
    lemma_filled_ends_line(prefix, target);
    if prefix.len() < target {
        lemma_repeated_len(BODY_LINE.spec_bytes(), pieces(target - prefix.len(), 80));
    }
}

/// A response is at least as long as wanted, and by less than a line and its end longer, once
/// its prefix fits.
pub proof fn law_generated_near_target(prefix: Seq<u8>, target: int)
    requires
        bytes::ends_with(prefix, CRLF.spec_bytes()),
        prefix.len() <= target,
    ensures
        target + 3 <= generated(prefix, target).len() < target + 3 + BODY_LINE.spec_bytes().len(),
{
    law_generated_len(prefix, target);
    lemma_body_line();
    if prefix.len() < target {
        lemma_pieces(target - prefix.len(), 80);
    }
}

/// A generated response is one complete block: the first dot line behind its prefix is its end.
pub proof fn law_generated_is_one_block(prefix: Seq<u8>, target: int)
    requires
        bytes::ends_with(prefix, CRLF.spec_bytes()),
    ensures
        terminator::block_end(generated(prefix, target), prefix.len() as int) == Some(
            generated(prefix, target).len() as int,
        ),
{
    lemma_body_line();
    terminator::lemma_dot_terminator();
    lemma_filled_ends_line(prefix, target);
    let text = filled(prefix, target);
    let whole = generated(prefix, target);
    let start = prefix.len() as int;
    let end = whole.len() as int;
    assert(whole =~= text + seq![DOT, 13u8, 10u8]);
    assert(text.subrange(text.len() - 2, text.len() as int) == seq![13u8, 10u8]);
    assert(text[text.len() - 2] == text.subrange(text.len() - 2, text.len() as int)[0]);
    assert(text[text.len() - 1] == text.subrange(text.len() - 2, text.len() as int)[1]);
    if start < target {
        let copies = pieces(target - start, 80);
        lemma_repeated_without(BODY_LINE.spec_bytes(), copies, DOT);
        lemma_repeated_len(BODY_LINE.spec_bytes(), copies);
        lemma_pieces(target - start, 80);
        assert forall|i: int| start <= i < text.len() implies text[i] != DOT by {
            assert(text[i] == repeated(BODY_LINE.spec_bytes(), copies)[i - start]);
        }
    }
    assert(terminator::dot_line_ends_at(whole, start, end)) by {
        if start < target {
            assert(text.len() >= start + 2);
        }
    }
    assert forall|e: int| start <= e < end implies !terminator::dot_line_ends_at(
        whole,
        start,
        e,
    ) by {
        if terminator::dot_line_ends_at(whole, start, e) {
            assert(whole[e - 3] == text[e - 3]);
        }
    }
    terminator::lemma_block_end_is(whole, start, end);
}

pub const SYNTHETIC_HEADERS: &'static str =
    "Path: nntpbench.local!mock\r\nFrom: Bench User <bench@nntpbench.local>\r\nNewsgroups: alt.binaries.bench\r\nSubject: nntpbench synthetic article\r\nMessage-ID: ";

pub const SYNTHETIC_DATE: &'static str = "\r\nDate: Fri, 15 May 2026 00:00:00 +0000\r\n";

/// The headers of the synthetic article with this message-id.
pub open spec fn article_headers(message_id: Seq<u8>) -> Seq<u8> {
    SYNTHETIC_HEADERS.spec_bytes() + message_id + SYNTHETIC_DATE.spec_bytes()
}

/// A status line with an article number and a message-id.
pub open spec fn status_line(code: &str, article_id: nat, message_id: Seq<u8>, text: &str) -> Seq<
    u8,
> {
    code.spec_bytes() + bytes::decimal(article_id) + " ".spec_bytes() + message_id
        + text.spec_bytes()
}

/// The message-id of an article of the selected group.
pub open spec fn article_message_id(article_id: nat) -> Seq<u8> {
    "<article.".spec_bytes() + bytes::decimal(article_id) + "@nntpbench.local>".spec_bytes()
}

/// A number between `head`, which opens the angle brackets, and the domain of the server makes a
/// message-id.
pub proof fn lemma_numbered_message_id(head: &str, number: nat)
    requires
        head.spec_bytes().len() > 0,
        head.spec_bytes()[0] == LESS,
        forall|i: int|
            0 < i < head.spec_bytes().len() ==> values::is_graphic(#[trigger] head.spec_bytes()[i])
                && head.spec_bytes()[i] != LESS && head.spec_bytes()[i] != GREATER
                && head.spec_bytes()[i] != AT,
    ensures
        values::is_message_id(
            head.spec_bytes() + bytes::decimal(number) + "@nntpbench.local>".spec_bytes(),
        ),
        "@nntpbench.local>".spec_bytes().len() == 17,
{
    reveal_strlit("@nntpbench.local>");
    assert("@nntpbench.local>".is_ascii());
    bytes::lemma_decimal(number);
    let start = head.spec_bytes();
    let digits = bytes::decimal(number);
    let tail = "@nntpbench.local>".spec_bytes();
    let id = start + digits + tail;
    let content = id.subrange(1, id.len() - 1);
    let local = start.len() - 1;
    let at = local + digits.len();
    assert(id[0] == start[0]);
    assert(id.last() == tail[16]);
    assert forall|i: int| 0 <= i < content.len() implies values::is_graphic(#[trigger] content[i])
        && content[i] != LESS && content[i] != GREATER && (content[i] == AT ==> i == at) by {
        if i < local {
            assert(content[i] == start[i + 1]);
        } else if i < at {
            assert(content[i] == digits[i - local]);
            assert(bytes::is_digit(digits[i - local]));
        } else {
            assert(content[i] == tail[i - at]);
        }
    }
    assert(content[at] == tail[0]);
    bytes::lemma_find_byte_is(content, AT, 0, at);
    let domain = content.subrange(at + 1, content.len() as int);
    assert forall|i: int| 0 <= i < domain.len() implies domain[i] == #[trigger] tail[i + 1] by {}
    assert(domain.len() == 15);
    assert(!bytes::has_byte(domain, AT)) by {
        if bytes::has_byte(domain, AT) {
            let i = choose|i: int| 0 <= i < domain.len() && domain[i] == AT;
            assert(domain[i] == content[at + 1 + i]);
        }
    }
    assert forall|i: int| 0 <= i < domain.len() - 1 implies !(#[trigger] domain[i] == DOT && domain[i
        + 1] == DOT) by {
        assert(domain[i] == tail[i + 1]);
        assert(domain[i + 1] == tail[i + 2]);
    }
    assert(domain[0] == tail[1]);
    assert(domain.last() == tail[15]);
}

/// What an article of the selected group is called is a message-id, and not a long one.
pub proof fn lemma_article_message_id(article_id: u64)
    ensures
        values::is_message_id(article_message_id(article_id as nat)),
        article_message_id(article_id as nat).len() <= 46,
{
    reveal_strlit("<article.");
    assert("<article.".is_ascii());
    bytes::lemma_decimal_len(article_id as nat);
    lemma_numbered_message_id("<article.", article_id as nat);
}

pub open spec fn article_text(article_id: nat, message_id: Seq<u8>, target: int) -> Seq<u8> {
    generated(
        status_line("220 ", article_id, message_id, " article follows\r\n") + article_headers(
            message_id,
        ) + CRLF.spec_bytes(),
        target,
    )
}

pub open spec fn body_text(article_id: nat, message_id: Seq<u8>, target: int) -> Seq<u8> {
    generated(status_line("222 ", article_id, message_id, " body follows\r\n"), target)
}

pub open spec fn head_text(article_id: nat, message_id: Seq<u8>) -> Seq<u8> {
    terminator::terminated(
        status_line("221 ", article_id, message_id, " article retrieved\r\n") + article_headers(
            message_id,
        ),
    )
}

pub open spec fn stat_text(article_id: nat, message_id: Seq<u8>) -> Seq<u8> {
    status_line("223 ", article_id, message_id, " article retrieved\r\n")
}

fn append_status_line(
    buffer: &mut Vec<u8>,
    code: &str,
    article_id: u64,
    message_id: &[u8],
    text: &str,
)
    ensures
        final(buffer)@ == old(buffer)@ + status_line(code, article_id as nat, message_id@, text),
{
    let number: Vec<u8> = decimal_bytes(article_id);
    buffer.extend_from_slice(code.as_bytes());
    buffer.extend_from_slice(number.as_slice());
    buffer.extend_from_slice(" ".as_bytes());
    buffer.extend_from_slice(message_id);
    buffer.extend_from_slice(text.as_bytes());
    assert(buffer@ =~= old(buffer)@ + status_line(code, article_id as nat, message_id@, text));
}

fn append_synthetic_article_headers(buffer: &mut Vec<u8>, message_id: &[u8])
    ensures
        final(buffer)@ == old(buffer)@ + article_headers(message_id@),
{
    buffer.extend_from_slice(SYNTHETIC_HEADERS.as_bytes());
    buffer.extend_from_slice(message_id);
    buffer.extend_from_slice(SYNTHETIC_DATE.as_bytes());
    assert(buffer@ =~= old(buffer)@ + article_headers(message_id@));
}

fn selected_message_id(article_id: u64) -> (text: Vec<u8>)
    ensures
        text@ == article_message_id(article_id as nat),
{
    let number: Vec<u8> = decimal_bytes(article_id);
    let mut text: Vec<u8> = Vec::new();
    text.extend_from_slice("<article.".as_bytes());
    text.extend_from_slice(number.as_slice());
    text.extend_from_slice("@nntpbench.local>".as_bytes());
    assert(text@ =~= article_message_id(article_id as nat));
    text
}

fn build_article_response(article_id: u64, message_id: &[u8], target_bytes: usize) -> (response:
    Vec<u8>)
    ensures
        response@ == article_text(article_id as nat, message_id@, target_bytes as int),
{
    let mut buffer: Vec<u8> = Vec::new();
    append_status_line(&mut buffer, "220 ", article_id, message_id, " article follows\r\n");
    append_synthetic_article_headers(&mut buffer, message_id);
    append_crlf(&mut buffer);
    assert(buffer@ =~= status_line(
        "220 ",
        article_id as nat,
        message_id@,
        " article follows\r\n",
    ) + article_headers(message_id@) + CRLF.spec_bytes());
    fill(&mut buffer, target_bytes);
    append_dot_terminator(&mut buffer);
    buffer
}

fn build_body_response(article_id: u64, message_id: &[u8], target_bytes: usize) -> (response: Vec<
    u8,
>)
    ensures
        response@ == body_text(article_id as nat, message_id@, target_bytes as int),
{
    let mut buffer: Vec<u8> = Vec::new();
    append_status_line(&mut buffer, "222 ", article_id, message_id, " body follows\r\n");
    assert(buffer@ =~= status_line("222 ", article_id as nat, message_id@, " body follows\r\n"));
    fill(&mut buffer, target_bytes);
    append_dot_terminator(&mut buffer);
    buffer
}

fn build_head_response(article_id: u64, message_id: &[u8]) -> (response: Vec<u8>)
    ensures
        response@ == head_text(article_id as nat, message_id@),
{
    let mut buffer: Vec<u8> = Vec::new();
    append_status_line(&mut buffer, "221 ", article_id, message_id, " article retrieved\r\n");
    append_synthetic_article_headers(&mut buffer, message_id);
    assert(buffer@ =~= status_line(
        "221 ",
        article_id as nat,
        message_id@,
        " article retrieved\r\n",
    ) + article_headers(message_id@));
    append_dot_terminator(&mut buffer);
    buffer
}

fn build_stat_response(article_id: u64, message_id: &[u8]) -> (response: Vec<u8>)
    ensures
        response@ == stat_text(article_id as nat, message_id@),
{
    let mut buffer: Vec<u8> = Vec::new();
    append_status_line(&mut buffer, "223 ", article_id, message_id, " article retrieved\r\n");
    assert(buffer@ =~= stat_text(article_id as nat, message_id@));
    buffer
}

/// The `ARTICLE` answer for an article of the selected group.
pub fn build_selected_article_response(article_id: u64, target_bytes: usize) -> (response: Vec<u8>)
    ensures
        response@ == article_text(
            article_id as nat,
            article_message_id(article_id as nat),
            target_bytes as int,
        ),
{
    let message_id: Vec<u8> = selected_message_id(article_id);
    build_article_response(article_id, message_id.as_slice(), target_bytes)
}

/// The `ARTICLE` answer for a message-id, with article number 0.
pub fn build_message_id_article_response(message_id: &MessageId, target_bytes: usize) -> (response:
    Vec<u8>)
    ensures
        response@ == article_text(0, message_id@, target_bytes as int),
{
    build_article_response(0, message_id.as_bytes(), target_bytes)
}

/// The `BODY` answer for an article of the selected group.
pub fn build_selected_body_response(article_id: u64, target_bytes: usize) -> (response: Vec<u8>)
    ensures
        response@ == body_text(
            article_id as nat,
            article_message_id(article_id as nat),
            target_bytes as int,
        ),
{
    let message_id: Vec<u8> = selected_message_id(article_id);
    build_body_response(article_id, message_id.as_slice(), target_bytes)
}

/// The `BODY` answer for a message-id, with article number 0.
pub fn build_message_id_body_response(message_id: &MessageId, target_bytes: usize) -> (response:
    Vec<u8>)
    ensures
        response@ == body_text(0, message_id@, target_bytes as int),
{
    build_body_response(0, message_id.as_bytes(), target_bytes)
}

/// The `HEAD` answer for an article of the selected group.
pub fn build_selected_head_response(article_id: u64) -> (response: Vec<u8>)
    ensures
        response@ == head_text(article_id as nat, article_message_id(article_id as nat)),
{
    let message_id: Vec<u8> = selected_message_id(article_id);
    build_head_response(article_id, message_id.as_slice())
}

/// The `HEAD` answer for a message-id, with article number 0.
pub fn build_message_id_head_response(message_id: &MessageId) -> (response: Vec<u8>)
    ensures
        response@ == head_text(0, message_id@),
{
    build_head_response(0, message_id.as_bytes())
}

/// The `STAT` answer for an article of the selected group.
pub fn build_selected_stat_response(article_id: u64) -> (response: Vec<u8>)
    ensures
        response@ == stat_text(article_id as nat, article_message_id(article_id as nat)),
{
    let message_id: Vec<u8> = selected_message_id(article_id);
    build_stat_response(article_id, message_id.as_slice())
}

/// The `STAT` answer for a message-id, with article number 0.
pub fn build_message_id_stat_response(message_id: &MessageId) -> (response: Vec<u8>)
    ensures
        response@ == stat_text(0, message_id@),
{
    build_stat_response(0, message_id.as_bytes())
}

/// The first `len` bytes of `line` written over and over.
pub open spec fn cycled(line: Seq<u8>, len: int) -> Seq<u8> {
    Seq::new(len as nat, |i: int| line[i % line.len() as int])
}

/// The room for text in a response of `target` bytes.
pub open spec fn room_before_dot(target: int) -> int {
    if target >= 3 {
        target - 3
    } else {
        0
    }
}

/// `text` with `line` written over and over behind it, cut where the dot line of a response of
/// `target` bytes would start.
pub open spec fn padded(text: Seq<u8>, line: Seq<u8>, target: int) -> Seq<u8> {
    if text.len() < room_before_dot(target) {
        text + cycled(line, room_before_dot(target) - text.len())
    } else {
        text
    }
}

proof fn lemma_cycled_more(line: Seq<u8>, copies: int, more: int)
    requires
        line.len() > 0,
        copies >= 0,
        0 <= more <= line.len(),
    ensures
        cycled(line, copies * line.len() + more) == cycled(line, copies * line.len())
            + line.subrange(0, more),
        copies * line.len() >= 0,
{
    let done = copies * line.len();
    assert(done >= 0) by (nonlinear_arith)
        requires
            copies >= 0,
            done == copies * line.len(),
    ;
    assert forall|j: int| 0 <= j < line.len() implies #[trigger] ((done + j) % (line.len() as int))
        == j by {
        vstd::arithmetic::div_mod::lemma_mod_multiples_vanish(copies, j, line.len() as int);
        vstd::arithmetic::mul::lemma_mul_is_commutative(copies, line.len() as int);
        vstd::arithmetic::div_mod::lemma_small_mod(j as nat, line.len());
    }
    let whole = cycled(line, done + more);
    assert forall|i: int| 0 <= i < done + more implies whole[i] == (cycled(line, done)
        + line.subrange(0, more))[i] by {
        if i >= done {
            assert((done + (i - done)) % (line.len() as int) == i - done);
        }
    }
    assert(whole =~= cycled(line, done) + line.subrange(0, more));
}

/// Appends `line` over and over until only the dot line of a response of `target_bytes` bytes
/// has room.
pub fn append_repeated_payload(response: &mut Vec<u8>, line: &[u8], target_bytes: usize)
    requires
        line@.len() > 0 || old(response)@.len() > room_before_dot(target_bytes as int),
    ensures
        final(response)@ == padded(old(response)@, line@, target_bytes as int),
{
    let room: usize = target_before_dot_terminator(target_bytes);
    if response.len() >= room {
        return ;
    }
    let ghost before = response@;
    let ghost mut copies: int = 0;
    assert(copies * line@.len() == 0);
    assert(response@ =~= before + cycled(line@, 0));
    while line.len() <= room - response.len()
        invariant
            line@.len() > 0,
            copies >= 0,
            response@.len() <= room,
            response@ == before + cycled(line@, copies * line@.len()),
        decreases room - response@.len(),
    {
        proof {
            lemma_cycled_more(line@, copies, line@.len() as int);
            assert(line@.subrange(0, line@.len() as int) =~= line@);
            assert((copies + 1) * line@.len() == copies * line@.len() + line@.len())
                by (nonlinear_arith);
            copies = copies + 1;
        }
        response.extend_from_slice(line);
        assert(response@ =~= before + cycled(line@, copies * line@.len()));
    }
    let remaining: usize = room - response.len();
    proof {
        lemma_cycled_more(line@, copies, remaining as int);
    }
    if remaining > 0 {
        response.extend_from_slice(&line[0..remaining]);
    }
    assert(response@ =~= padded(before, line@, target_bytes as int));
}

/// What follows the status line of a response, without its dot line.
pub open spec fn payload_of(response: Seq<u8>) -> Seq<u8> {
    let start = match terminator::crlf_line_end(response, 0) {
        Some(end) => end,
        None => 0,
    };
    let payload = response.subrange(start, response.len() as int);
    match terminator::without_dot_line(payload) {
        Some(text) => text,
        None => payload,
    }
}

pub fn body_payload(body: &[u8]) -> (payload: &[u8])
    ensures
        payload@ == payload_of(body@),
{
    let start: usize = match find_crlf_line_end(body, 0) {
        Some(end) => end,
        None => 0,
    };
    let payload: &[u8] = &body[start..body.len()];
    match strip_dot_terminator_suffix(payload) {
        Some(text) => text,
        None => payload,
    }
}

pub fn ensure_terminated(response: &mut Vec<u8>)
    ensures
        final(response)@ == terminator::terminated(old(response)@),
{
    append_dot_terminator(response);
}

/// A `BODY` response of about `target_bytes` bytes.
pub fn generate_body(target_bytes: usize) -> (response: Vec<u8>)
    ensures
        response@ == terminator::terminated(
            padded(
                BODY_RESPONSE_PREFIX.spec_bytes(),
                BODY_LINE.spec_bytes(),
                target_bytes as int,
            ),
        ),
{
    let mut response: Vec<u8> = Vec::new();
    response.extend_from_slice(BODY_RESPONSE_PREFIX.as_bytes());
    assert(response@ =~= BODY_RESPONSE_PREFIX.spec_bytes());
    proof {
        lemma_body_line();
    }
    append_repeated_payload(&mut response, BODY_LINE.as_bytes(), target_bytes);
    ensure_terminated(&mut response);
    response
}

/// An `ARTICLE` response of about `target_bytes` bytes whose text is the payload of `body`.
pub fn generate_article(target_bytes: usize, body: &[u8]) -> (response: Vec<u8>)
    requires
        payload_of(body@).len() > 0 || ARTICLE_RESPONSE_PREFIX.spec_bytes().len() > room_before_dot(
            target_bytes as int,
        ),
    ensures
        response@ == terminator::terminated(
            padded(
                ARTICLE_RESPONSE_PREFIX.spec_bytes(),
                payload_of(body@),
                target_bytes as int,
            ),
        ),
{
    let mut response: Vec<u8> = Vec::new();
    response.extend_from_slice(ARTICLE_RESPONSE_PREFIX.as_bytes());
    assert(response@ =~= ARTICLE_RESPONSE_PREFIX.spec_bytes());
    append_repeated_payload(&mut response, body_payload(body), target_bytes);
    ensure_terminated(&mut response);
    response
}

/// A generated body has at least the wanted size, and at most two bytes more once its prefix
/// fits; it ends in a dot line on a line of its own.
pub proof fn law_generated_body_size(target: int)
    requires
        target >= BODY_RESPONSE_PREFIX.spec_bytes().len() + 3,
    ensures
        ({
            let response = terminator::terminated(
                padded(BODY_RESPONSE_PREFIX.spec_bytes(), BODY_LINE.spec_bytes(), target),
            );
            target <= response.len() <= target + 2 && bytes::ends_with(
                response,
                crate::responses::TERMINATOR.spec_bytes(),
            )
        }),
{
    terminator::lemma_dot_terminator();
    let text = padded(BODY_RESPONSE_PREFIX.spec_bytes(), BODY_LINE.spec_bytes(), target);
    terminator::law_strip_undoes_append(text);
}

/// The headers of an article carry its message-id on the line for it, and those of two articles
/// differ in nothing else.
pub proof fn law_headers_carry_the_message_id(id: Seq<u8>, other: Seq<u8>) -> (around: (
    Seq<u8>,
    Seq<u8>,
))
    ensures
        article_headers(id) == around.0 + "\r\nMessage-ID: ".spec_bytes() + id
            + "\r\n".spec_bytes() + around.1,
        article_headers(other) == around.0 + "\r\nMessage-ID: ".spec_bytes() + other
            + "\r\n".spec_bytes() + around.1,
        bytes::ends_with(article_headers(id), "\r\n".spec_bytes()),
{
    reveal_strlit("\r\nMessage-ID: ");
    reveal_strlit("\r\n");
    reveal_strlit(
        "Path: nntpbench.local!mock\r\nFrom: Bench User <bench@nntpbench.local>\r\nNewsgroups: alt.binaries.bench\r\nSubject: nntpbench synthetic article\r\nMessage-ID: ",
    );
    reveal_strlit("\r\nDate: Fri, 15 May 2026 00:00:00 +0000\r\n");
    assert("\r\nMessage-ID: ".is_ascii());
    assert("\r\n".is_ascii());
    assert(SYNTHETIC_HEADERS.is_ascii());
    assert(SYNTHETIC_DATE.is_ascii());
    let head = SYNTHETIC_HEADERS.spec_bytes();
    let tail = SYNTHETIC_DATE.spec_bytes();
    let label = "\r\nMessage-ID: ".spec_bytes();
    let feed = "\r\n".spec_bytes();
    let first = head.subrange(0, head.len() - 14);
    let last = tail.subrange(2, tail.len() as int);
    assert(label.len() == 14);
    assert(head =~= first + label);
    assert(tail =~= feed + last);
    assert(article_headers(id) =~= first + label + id + feed + last);
    assert(article_headers(other) =~= first + label + other + feed + last);
    let whole = article_headers(id);
    assert(whole.subrange(whole.len() - 2, whole.len() as int) =~= feed);
    (first, last)
}

/// The start of a status line: its code, the number of the article and its message-id.
pub open spec fn article_line(code: &str, number: nat, id: Seq<u8>) -> Seq<u8> {
    code.spec_bytes() + bytes::decimal(number) + " ".spec_bytes() + id
}

/// `ARTICLE` and `HEAD` answer with the number and the message-id of the article in the status line
/// and then with the headers of that article, `BODY` and `STAT` with the status line alone; only
/// `ARTICLE` and `BODY` send body lines.
pub proof fn law_answers_are_about_the_article(number: nat, id: Seq<u8>, target: int)
    ensures
        article_text(number, id, target) == generated(
            article_line("220 ", number, id) + " article follows\r\n".spec_bytes()
                + article_headers(id) + "\r\n".spec_bytes(),
            target,
        ),
        head_text(number, id) == article_line("221 ", number, id)
            + " article retrieved\r\n".spec_bytes() + article_headers(id) + ".\r\n".spec_bytes(),
        body_text(number, id, target) == generated(
            article_line("222 ", number, id) + " body follows\r\n".spec_bytes(),
            target,
        ),
        stat_text(number, id) == article_line("223 ", number, id)
            + " article retrieved\r\n".spec_bytes(),
{
    let around = law_headers_carry_the_message_id(id, id);
    let line = status_line("221 ", number, id, " article retrieved\r\n");
    let headers = article_headers(id);
    terminator::lemma_dot_terminator();
    let text = line + headers;
    assert(text.subrange(text.len() - 2, text.len() as int) =~= headers.subrange(
        headers.len() - 2,
        headers.len() as int,
    ));
}

proof fn lemma_repeated_at(line: Seq<u8>, copies: nat, i: int)
    requires
        line.len() > 0,
        0 <= i < repeated(line, copies).len(),
    ensures
        repeated(line, copies)[i] == line[i % line.len() as int],
    decreases copies,
{
    if copies > 0 {
        let before = repeated(line, (copies - 1) as nat);
        lemma_repeated_len(line, (copies - 1) as nat);
        if i < before.len() {
            lemma_repeated_at(line, (copies - 1) as nat, i);
        } else {
            let j = i - before.len();
            vstd::arithmetic::div_mod::lemma_mod_multiples_vanish(
                copies - 1,
                j,
                line.len() as int,
            );
            vstd::arithmetic::mul::lemma_mul_is_commutative(copies - 1, line.len() as int);
            vstd::arithmetic::div_mod::lemma_small_mod(j as nat, line.len());
            assert(repeated(line, copies)[i] == line[j]);
        }
    }
}

/// A made-up response is its prefix, then the body line over and over, whole each time, and then the
/// dot line.
pub proof fn law_generated_repeats_the_body_line(prefix: Seq<u8>, target: int, i: int)
    requires
        bytes::ends_with(prefix, "\r\n".spec_bytes()),
        prefix.len() <= i < generated(prefix, target).len() - 3,
    ensures
        generated(prefix, target).take(prefix.len() as int) == prefix,
        generated(prefix, target)[i] == BODY_LINE.spec_bytes()[(i - prefix.len())
            % BODY_LINE.spec_bytes().len() as int],
        (generated(prefix, target).len() - 3 - prefix.len()) % BODY_LINE.spec_bytes().len() as int
            == 0,
        generated(prefix, target).skip(generated(prefix, target).len() - 3)
            == ".\r\n".spec_bytes(),
{
    lemma_body_line();
    terminator::lemma_dot_terminator();
    lemma_filled_ends_line(prefix, target);
    let line = BODY_LINE.spec_bytes();
    let text = filled(prefix, target);
    let whole = generated(prefix, target);
    assert(whole.take(prefix.len() as int) =~= prefix);
    assert(whole.skip(whole.len() - 3) =~= ".\r\n".spec_bytes());
    let copies = pieces(target - prefix.len(), 80);
    lemma_repeated_at(line, copies, i - prefix.len());
    lemma_repeated_len(line, copies);
    vstd::arithmetic::div_mod::lemma_mod_multiples_basic(copies as int, 80);
}

/// The number stands in the message-id of an article of the selected group, so no two articles
/// share one.
pub proof fn law_article_ids_carry_the_number(number: u64)
    ensures
        ({
            let id = article_message_id(number as nat);
            &&& values::is_message_id(id)
            &&& id.len() > 26
            &&& id.take(9) == "<article.".spec_bytes()
            &&& bytes::number(id.subrange(9, id.len() - 17)) == Some(number)
            &&& id.skip(id.len() - 17) == "@nntpbench.local>".spec_bytes()
        }),
{
    lemma_article_message_id(number);
    reveal_strlit("<article.");
    assert("<article.".is_ascii());
    lemma_numbered_message_id("<article.", number as nat);
    bytes::lemma_decimal(number as nat);
    bytes::law_number_of_decimal(number);
    let id = article_message_id(number as nat);
    assert(id.subrange(9, id.len() - 17) =~= bytes::decimal(number as nat));
    assert(id.take(9) =~= "<article.".spec_bytes());
    assert(id.skip(id.len() - 17) =~= "@nntpbench.local>".spec_bytes());
}

/// A text is padded up to three bytes before the wanted size, by a line that is written over and
/// over; one that has that size is left as it is.
pub proof fn law_padding_fills_the_room(text: Seq<u8>, line: Seq<u8>, target: int, i: int)
    requires
        line.len() > 0,
        text.len() <= i < padded(text, line, target).len(),
    ensures
        padded(text, line, target).take(text.len() as int) == text,
        padded(text, line, target)[i] == line[(i - text.len()) % line.len() as int],
        padded(text, line, target).len() == target - 3,
{
    assert(padded(text, line, target).take(text.len() as int) =~= text);
}

/// A text that needs no padding is not padded.
pub proof fn law_full_text_is_not_padded(text: Seq<u8>, line: Seq<u8>, target: int)
    requires
        target - 3 <= text.len(),
    ensures
        padded(text, line, target) == text,
{
}

/// The payload of a response is what stands between its first line and its dot line.
pub proof fn law_payload_stands_behind_the_first_line(line: Seq<u8>, text: Seq<u8>)
    requires
        forall|i: int| 0 <= i < line.len() ==> #[trigger] line[i] != 13,
        text.len() == 0 || bytes::ends_with(text, "\r\n".spec_bytes()),
    ensures
        payload_of(line + "\r\n".spec_bytes() + text + ".\r\n".spec_bytes()) == text,
{
    terminator::lemma_dot_terminator();
    let feed = "\r\n".spec_bytes();
    let dot = ".\r\n".spec_bytes();
    let response = line + feed + text + dot;
    let end = line.len() as int;
    let payload = response.subrange(end + 2, response.len() as int);
    assert(payload =~= text + dot);
    assert(terminator::crlf_line_end(response, 0) == Some(end + 2)) by {
        assert forall|i: int| 0 <= i < end implies #[trigger] response[i] != 13 by {
            assert(response[i] == line[i]);
        }
        assert(response[end] == feed[0]);
        assert(response[end + 1] == feed[1]);
        terminator::lemma_crlf_line_end_is(response, 0, end);
    }
    assert(terminator::without_dot_line(payload) == Some(text)) by {
        if text.len() == 0 {
            assert(payload =~= dot);
            assert(payload.subrange(0, 0) =~= text);
        } else {
            terminator::law_strip_undoes_append(text);
        }
    }
}

} // verus!
