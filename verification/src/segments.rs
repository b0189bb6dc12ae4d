//! The file of segments: a size, a tab and a message-id on each line.
use crate::bytes;
use crate::bytes::{index_from, CR, LF, SPACE, TAB};
use crate::message_id;
use crate::message_id::{is_bracketed, MessageId};
use crate::text::{decode, joined_within};
use crate::values;
use crate::workload::SegmentSet;
use vstd::prelude::*;
use vstd::string::StringSliceAdditionalSpecFns;
use vstd::utf8;

verus! {

/// Why a file of segments cannot be used.
#[derive(Debug, Clone, Copy, PartialEq, Eq, Structural)]
pub enum SegmentError {
    /// The line with this number has no tab.
    MissingTab(u64),
    NotUtf8,
    InvalidMessageId,
    TooLong,
    /// No line holds a segment.
    Empty,
}

pub open spec fn is_line_end_blank(byte: u8) -> bool {
    byte == LF || byte == CR || byte == SPACE || byte == TAB
}

/// The line without blanks and line ends behind it.
pub open spec fn cut_end(line: Seq<u8>) -> Seq<u8>
    decreases line.len(),
{
    if line.len() > 0 && is_line_end_blank(line.last()) {
        cut_end(line.drop_last())
    } else {
        line
    }
}

/// The line without blanks before it.
pub open spec fn cut_start(line: Seq<u8>) -> Seq<u8>
    decreases line.len(),
{
    if line.len() > 0 && (line[0] == SPACE || line[0] == TAB) {
        cut_start(line.drop_first())
    } else {
        line
    }
}

pub open spec fn trimmed_line(line: Seq<u8>) -> Seq<u8> {
    cut_start(cut_end(line))
}

pub fn trim_ascii_line(line: &[u8]) -> (trimmed: &[u8])
    ensures
        trimmed@ == trimmed_line(line@),
{
    let mut end: usize = line.len();
    assert(line@.subrange(0, end as int) =~= line@);
    while end > 0 && (line[end - 1] == LF || line[end - 1] == CR || line[end - 1] == SPACE
        || line[end - 1] == TAB)
        invariant
            end <= line@.len(),
            cut_end(line@) == cut_end(line@.subrange(0, end as int)),
        decreases end,
    {
        assert(line@.subrange(0, end as int).drop_last() =~= line@.subrange(0, end - 1));
        end = end - 1;
    }
    let mut start: usize = 0;
    let ghost cut = line@.subrange(0, end as int);
    while start < end && (line[start] == SPACE || line[start] == TAB)
        invariant
            start <= end <= line@.len(),
            cut == line@.subrange(0, end as int),
            cut_start(cut) == cut_start(line@.subrange(start as int, end as int)),
        decreases end - start,
    {
        assert(line@.subrange(start as int, end as int).drop_first() =~= line@.subrange(
            start + 1,
            end as int,
        ));
        start = start + 1;
    }
    &line[start..end]
}

/// The message-id of a segment, with its angle brackets or without them.
pub open spec fn segment_id(value: Seq<u8>) -> Result<Seq<u8>, SegmentError> {
    let id = message_id::bracketed(value);
    if !utf8::valid_utf8(value) {
        Err(SegmentError::NotUtf8)
    } else if id != value && value.len() + 2 > 512 {
        Err(SegmentError::TooLong)
    } else if !values::is_message_id(id) {
        Err(SegmentError::InvalidMessageId)
    } else {
        Ok(id)
    }
}

pub fn shared_message_id_from_bytes(value: &[u8]) -> (id: Result<MessageId, SegmentError>)
    ensures
        match id {
            Ok(found) => segment_id(value@) == Ok::<Seq<u8>, SegmentError>(found@),
            Err(error) => segment_id(value@) == Err::<Seq<u8>, SegmentError>(error),
        },
{
    let text: &str = match decode(value) {
        Some(text) => text,
        None => {
            return Err(SegmentError::NotUtf8);
        },
    };
    if is_bracketed(text) {
        return match MessageId::from_borrowed(text) {
            Ok(id) => Ok(id),
            Err(_) => Err(SegmentError::InvalidMessageId),
        };
    }
    proof {
        message_id::lemma_brackets();
        message_id::lemma_encode_concat("<"@, text@);
        message_id::lemma_encode_concat("<"@ + text@, ">"@);
        assert(message_id::bracketed(value@).len() == value@.len() + 2);
    }
    if let Some(start) = joined_within::<512>("<", text) {
        if let Some(whole) = joined_within::<512>(start.as_str(), ">") {
            return match MessageId::from_shared(whole) {
                Ok(id) => Ok(id),
                Err(_) => Err(SegmentError::InvalidMessageId),
            };
        }
    }
    Err(SegmentError::TooLong)
}

/// The message-id that a line holds; none where there is nothing on it.
pub open spec fn line_segment(line: Seq<u8>, number: int) -> Result<Option<Seq<u8>>, SegmentError> {
    let trimmed = trimmed_line(line);
    let tab = bytes::find_byte(trimmed, TAB, 0);
    if trimmed.len() == 0 {
        Ok(None)
    } else if tab >= trimmed.len() {
        Err(SegmentError::MissingTab(number as u64))
    } else {
        match segment_id(trimmed_line(trimmed.subrange(tab + 1, trimmed.len() as int))) {
            Ok(id) => Ok(Some(id)),
            Err(error) => Err(error),
        }
    }
}

/// Where the line that starts at `from` ends, with its line feed.
pub open spec fn line_end(content: Seq<u8>, from: int) -> int {
    let feed = bytes::find_byte(content, LF, from);
    if feed < content.len() {
        feed + 1
    } else {
        content.len() as int
    }
}

/// The message-ids of the lines from `from` on, of which the first has this number, or what is
/// wrong with the first bad line.
pub open spec fn segments_from(content: Seq<u8>, from: int, number: int) -> Result<
    Seq<Seq<u8>>,
    SegmentError,
>
    decreases content.len() - from,
{
    let end = line_end(content, from);
    if from < 0 || from >= content.len() || end <= from {
        Ok(Seq::empty())
    } else {
        match line_segment(content.subrange(from, end), number) {
            Err(error) => Err(error),
            Ok(found) => match segments_from(content, end, number + 1) {
                Err(error) => Err(error),
                Ok(rest) => match found {
                    Some(id) => Ok(seq![id] + rest),
                    None => Ok(rest),
                },
            },
        }
    }
}

/// The segments of a file.
pub open spec fn segments_of(content: Seq<u8>) -> Result<Seq<Seq<u8>>, SegmentError> {
    match segments_from(content, 0, 1) {
        Err(error) => Err(error),
        Ok(ids) => if ids.len() == 0 {
            Err(SegmentError::Empty)
        } else {
            Ok(ids)
        },
    }
}

fn parse_segment_line(line: &[u8], number: u64) -> (segment: Result<
    Option<MessageId>,
    SegmentError,
>)
    ensures
        match segment {
            Ok(Some(id)) => line_segment(line@, number as int) == Ok::<
                Option<Seq<u8>>,
                SegmentError,
            >(Some(id@)),
            Ok(None) => line_segment(line@, number as int) == Ok::<Option<Seq<u8>>, SegmentError>(
                None,
            ),
            Err(error) => line_segment(line@, number as int) == Err::<
                Option<Seq<u8>>,
                SegmentError,
            >(error),
        },
{
    let trimmed: &[u8] = trim_ascii_line(line);
    if trimmed.len() == 0 {
        return Ok(None);
    }
    let tab: usize = index_from(trimmed, TAB, 0);
    if tab >= trimmed.len() {
        return Err(SegmentError::MissingTab(number));
    }
    match shared_message_id_from_bytes(trim_ascii_line(&trimmed[tab + 1..trimmed.len()])) {
        Ok(id) => Ok(Some(id)),
        Err(error) => Err(error),
    }
}

/// The message-ids before some that are still to come, or what is wrong with the latter.
pub open spec fn before_rest(
    found: Seq<Seq<u8>>,
    rest: Result<Seq<Seq<u8>>, SegmentError>,
) -> Result<Seq<Seq<u8>>, SegmentError> {
    match rest {
        Ok(ids) => Ok(found + ids),
        Err(error) => Err(error),
    }
}

/// Reads the content of a file of segments.
pub fn parse_segments(content: &[u8]) -> (segments: Result<SegmentSet, SegmentError>)
    ensures
        match segments {
            Ok(set) => set.wf() && segments_of(content@) == Ok::<Seq<Seq<u8>>, SegmentError>(set@),
            Err(error) => segments_of(content@) == Err::<Seq<Seq<u8>>, SegmentError>(error),
        },
{
    let mut set: SegmentSet = SegmentSet { ids: Vec::new() };
    let mut start: usize = 0;
    let mut number: u64 = 0;
    assert(content.len() == content@.len());
    proof {
        let rest = segments_from(content@, 0, 1);
        if rest is Ok {
            assert(set@ + rest->Ok_0 =~= rest->Ok_0);
        }
    }
    while start < content.len()
        invariant
            start <= content@.len(),
            content@.len() <= usize::MAX,
            number <= start,
            segments_from(content@, 0, 1) == before_rest(
                set@,
                segments_from(content@, start as int, number + 1),
            ),
        decreases content@.len() - start,
    {
        let feed: usize = index_from(content, LF, start);
        let end: usize = if feed < content.len() {
            feed + 1
        } else {
            content.len()
        };
        proof {
            bytes::lemma_find_byte(content@, LF, start as int);
        }
        assert(end == line_end(content@, start as int));
        let ghost before = set@;
        number = number + 1;
        match parse_segment_line(&content[start..end], number) {
            Ok(Some(id)) => {
                set.ids.push(id);
                proof {
                    let rest = segments_from(content@, end as int, number + 1);
                    assert(set@ =~= before.push(id@));
                    if rest is Ok {
                        assert(before + (seq![id@] + rest->Ok_0) =~= set@ + rest->Ok_0);
                    }
                }
            },
            Ok(None) => {},
            Err(error) => {
                return Err(error);
            },
        }
        start = end;
    }
    assert(set@ + Seq::<Seq<u8>>::empty() =~= set@);
    if set.ids.len() == 0 {
        assert(set@ =~= Seq::<Seq<u8>>::empty());
        Err(SegmentError::Empty)
    } else {
        Ok(set)
    }
}

proof fn lemma_cut_end(text: Seq<u8>, tail: Seq<u8>)
    requires
        forall|i: int| 0 <= i < tail.len() ==> is_line_end_blank(#[trigger] tail[i]),
        text.len() > 0 ==> !is_line_end_blank(text.last()),
    ensures
        cut_end(text + tail) == text,
    decreases tail.len(),
{
    let whole = text + tail;
    if tail.len() == 0 {
        assert(whole =~= text);
    } else {
        assert(whole.last() == tail.last());
        assert(whole.drop_last() =~= text + tail.drop_last());
        lemma_cut_end(text, tail.drop_last());
    }
}

proof fn lemma_cut_start(head: Seq<u8>, text: Seq<u8>)
    requires
        forall|i: int| 0 <= i < head.len() ==> #[trigger] head[i] == SPACE || head[i] == TAB,
        text.len() > 0 ==> text[0] != SPACE && text[0] != TAB,
    ensures
        cut_start(head + text) == text,
    decreases head.len(),
{
    let whole = head + text;
    if head.len() == 0 {
        assert(whole =~= text);
    } else {
        assert(whole[0] == head[0]);
        assert(whole.drop_first() =~= head.drop_first() + text);
        lemma_cut_start(head.drop_first(), text);
    }
}

/// Trimming a line takes off the blanks before the text and the blanks and line ends behind it, and
/// nothing else.
pub proof fn law_trimming_takes_off_blanks(head: Seq<u8>, text: Seq<u8>, tail: Seq<u8>)
    requires
        forall|i: int| 0 <= i < head.len() ==> #[trigger] head[i] == 32 || head[i] == 9,
        forall|i: int|
            0 <= i < tail.len() ==> #[trigger] tail[i] == 32 || tail[i] == 9 || tail[i] == 13
                || tail[i] == 10,
        text.len() > 0,
        text[0] != 32 && text[0] != 9,
        text.last() != 32 && text.last() != 9 && text.last() != 13 && text.last() != 10,
    ensures
        trimmed_line(head + text + tail) == text,
        trimmed_line(tail) == Seq::<u8>::empty(),
{
    assert(is_line_end_blank(32) && is_line_end_blank(9));
    lemma_cut_end(head + text, tail);
    lemma_cut_start(head, text);
    lemma_cut_end(Seq::empty(), tail);
    assert(Seq::<u8>::empty() + tail =~= tail);
}

/// A value that is a message-id, with its angle brackets or without them, is that segment.
pub proof fn law_segment_is_the_message_id(id: Seq<u8>)
    requires
        values::is_message_id(id),
    ensures
        segment_id(id) == Ok::<Seq<u8>, SegmentError>(id),
        id.len() <= 512 ==> segment_id(id.subrange(1, id.len() - 1)) == Ok::<
            Seq<u8>,
            SegmentError,
        >(id),
{
    let content = id.subrange(1, id.len() - 1);
    values::lemma_message_id_is_ascii(id);
    assert(content.len() > 0);
    assert forall|i: int| 0 <= i < content.len() implies #[trigger] content[i] < 0x80 by {
        assert(values::is_graphic(content[i]));
    }
    values::lemma_ascii_is_utf8(content);
    assert(content[0] != 60);
    assert(message_id::bracketed(content) =~= id);
}

/// A line of a file of segments is a size, a tab and a message-id; what the size says makes no
/// difference, nor do blanks and line ends around the message-id.
pub proof fn law_segment_line(size: Seq<u8>, value: Seq<u8>, tail: Seq<u8>, number: int)
    requires
        size.len() > 0,
        size[0] != 32,
        forall|i: int| 0 <= i < size.len() ==> #[trigger] size[i] != 9,
        forall|i: int|
            0 <= i < tail.len() ==> #[trigger] tail[i] == 32 || tail[i] == 9 || tail[i] == 13
                || tail[i] == 10,
        value.len() > 0,
        value[0] != 32 && value[0] != 9,
        value.last() != 32 && value.last() != 9 && value.last() != 13 && value.last() != 10,
    ensures
        line_segment(size + seq![9u8] + value + tail, number) == (match segment_id(value) {
            Ok(id) => Ok(Some(id)),
            Err(error) => Err(error),
        }),
        line_segment(tail, number) == Ok::<Option<Seq<u8>>, SegmentError>(None),
{
    let text = size + seq![9u8] + value;
    let none = Seq::<u8>::empty();
    law_trimming_takes_off_blanks(none, text, tail);
    assert(none + text + tail =~= size + seq![9u8] + value + tail);
    let at = size.len() as int;
    assert forall|j: int| 0 <= j < at implies text[j] != TAB by {
        assert(text[j] == size[j]);
    }
    assert(text[at] == TAB);
    bytes::lemma_find_byte_is(text, TAB, 0, at);
    assert(text.subrange(at + 1, text.len() as int) =~= value);
    law_trimming_takes_off_blanks(none, value, none);
    assert(none + value + none =~= value);
}

/// A line without a tab is an error that names its number.
pub proof fn law_line_without_a_tab_is_an_error(text: Seq<u8>, tail: Seq<u8>, number: u64)
    requires
        forall|i: int| 0 <= i < text.len() ==> #[trigger] text[i] != 9,
        forall|i: int|
            0 <= i < tail.len() ==> #[trigger] tail[i] == 32 || tail[i] == 9 || tail[i] == 13
                || tail[i] == 10,
        text.len() > 0,
        text[0] != 32,
        text.last() != 32 && text.last() != 13 && text.last() != 10,
    ensures
        line_segment(text + tail, number as int) == Err::<Option<Seq<u8>>, SegmentError>(
            SegmentError::MissingTab(number),
        ),
{
    let none = Seq::<u8>::empty();
    law_trimming_takes_off_blanks(none, text, tail);
    assert(none + text + tail =~= text + tail);
    bytes::lemma_find_byte_is(text, TAB, 0, text.len() as int);
}

/// Where a line ends does not depend on what stands before it.
pub proof fn lemma_line_end_shift(prefix: Seq<u8>, content: Seq<u8>, from: int)
    requires
        0 <= from <= content.len(),
    ensures
        line_end(prefix + content, prefix.len() + from) == prefix.len() + line_end(content, from),
        from <= line_end(content, from) <= content.len(),
        from < content.len() ==> from < line_end(content, from),
{
    let whole = prefix + content;
    let shift = prefix.len() as int;
    bytes::lemma_find_byte(content, LF, from);
    let feed = bytes::find_byte(content, LF, from);
    assert forall|j: int| shift + from <= j < shift + feed implies whole[j] != LF by {
        assert(whole[j] == content[j - shift]);
    }
    if feed < content.len() {
        assert(whole[shift + feed] == content[feed]);
    }
    bytes::lemma_find_byte_is(whole, LF, shift + from, shift + feed);
}

/// The first line ends with its line feed.
pub proof fn lemma_first_line_end(line: Seq<u8>, rest: Seq<u8>)
    requires
        line.len() > 0,
        line.last() == LF,
        forall|i: int| 0 <= i < line.len() - 1 ==> #[trigger] line[i] != LF,
    ensures
        line_end(line + rest, 0) == line.len(),
        (line + rest).subrange(0, line.len() as int) == line,
{
    let whole = line + rest;
    let at = line.len() - 1;
    assert forall|j: int| 0 <= j < at implies whole[j] != LF by {
        assert(whole[j] == line[j]);
    }
    assert(whole[at] == line[at]);
    bytes::lemma_find_byte_is(whole, LF, 0, at);
    assert(whole.subrange(0, line.len() as int) =~= line);
}

proof fn lemma_segments_shift(prefix: Seq<u8>, content: Seq<u8>, from: int, number: int)
    requires
        0 <= from <= content.len(),
    ensures
        segments_from(prefix + content, prefix.len() + from, number) == segments_from(
            content,
            from,
            number,
        ),
    decreases content.len() - from,
{
    lemma_line_end_shift(prefix, content, from);
    let whole = prefix + content;
    let shift = prefix.len() as int;
    let end = line_end(content, from);
    if from < content.len() {
        assert(whole.subrange(shift + from, shift + end) =~= content.subrange(from, end));
        lemma_segments_shift(prefix, content, end, number + 1);
    }
}

/// The segments of a file are that of its first line, if it holds one, and then those of the other
/// lines; the first line that is wrong makes the file wrong.
pub proof fn law_segments_go_line_by_line(line: Seq<u8>, rest: Seq<u8>, number: int)
    requires
        line.len() > 0,
        line.last() == 10,
        forall|i: int| 0 <= i < line.len() - 1 ==> #[trigger] line[i] != 10,
    ensures
        segments_from(Seq::empty(), 0, number) == Ok::<Seq<Seq<u8>>, SegmentError>(Seq::empty()),
        segments_from(line + rest, 0, number) == (match (
            line_segment(line, number),
            segments_from(rest, 0, number + 1),
        ) {
            (Err(error), _) => Err(error),
            (_, Err(error)) => Err(error),
            (Ok(Some(id)), Ok(ids)) => Ok(seq![id] + ids),
            (Ok(None), Ok(ids)) => Ok(ids),
        }),
{
    lemma_first_line_end(line, rest);
    lemma_segments_shift(line, rest, 0, number + 1);
}

/// A file without segments cannot be used, and one with segments gives all of them.
pub proof fn law_file_without_segments_is_an_error(content: Seq<u8>, ids: Seq<Seq<u8>>)
    requires
        segments_from(content, 0, 1) == Ok::<Seq<Seq<u8>>, SegmentError>(ids),
    ensures
        ids.len() == 0 ==> segments_of(content) == Err::<Seq<Seq<u8>>, SegmentError>(
            SegmentError::Empty,
        ),
        ids.len() > 0 ==> segments_of(content) == Ok::<Seq<Seq<u8>>, SegmentError>(ids),
{
}

} // verus!
