//! Which articles a command selects, and answers to `OVER`, `XOVER`, `HDR` and `XHDR`.
use crate::bytes;
use crate::bytes::{
    contains_byte, contains_subslice, decimal_bytes, field_first, field_second, has_prefix,
    matches_word, only_digits, parse_number, DASH, SPACE,
};
use crate::groups;
use crate::groups::{check_listed, range_selects_articles, FixtureGroup, SessionState};
use crate::request_line::RequestKind;
use crate::responses::{
    HDR_BYTES_1_RESPONSE, HDR_BYTES_2_RESPONSE, HDR_BYTES_MESSAGE_ID_RESPONSE, HDR_BYTES_RESPONSE,
    HDR_EMPTY_RESPONSE, HDR_FIELD_UNAVAILABLE_RESPONSE, HDR_LINES_1_RESPONSE, HDR_LINES_2_RESPONSE,
    HDR_LINES_MESSAGE_ID_RESPONSE, HDR_LINES_RESPONSE, HDR_MESSAGE_ID_1_RESPONSE,
    HDR_MESSAGE_ID_2_RESPONSE, HDR_MESSAGE_ID_MESSAGE_ID_RESPONSE, HDR_MESSAGE_ID_RESPONSE,
    HDR_RESPONSE, HDR_SUBJECT_1_RESPONSE, HDR_SUBJECT_2_RESPONSE, HDR_SUBJECT_MESSAGE_ID_RESPONSE,
    NO_ARTICLES_IN_RANGE_RESPONSE, NO_ARTICLE_MESSAGE_ID_RESPONSE, NO_ARTICLE_NUMBER_RESPONSE,
    NO_CURRENT_ARTICLE_RESPONSE, NO_GROUP_SELECTED_RESPONSE, OVER_2_RESPONSE,
    OVER_EMPTY_RESPONSE, OVER_MESSAGE_ID_RESPONSE, OVER_RANGE_RESPONSE, OVER_RESPONSE, XHDR_BYTES_1_RESPONSE,
    XHDR_BYTES_2_RESPONSE, XHDR_BYTES_MESSAGE_ID_RESPONSE, XHDR_BYTES_RESPONSE,
    XHDR_EMPTY_RESPONSE, XHDR_LINES_1_RESPONSE, XHDR_LINES_2_RESPONSE, XHDR_LINES_MESSAGE_ID_RESPONSE,
    XHDR_LINES_RESPONSE, XHDR_MESSAGE_ID_1_RESPONSE, XHDR_MESSAGE_ID_2_RESPONSE,
    XHDR_MESSAGE_ID_MESSAGE_ID_RESPONSE, XHDR_MESSAGE_ID_RESPONSE, XHDR_RESPONSE,
    XHDR_SUBJECT_1_RESPONSE, XHDR_SUBJECT_2_RESPONSE, XHDR_SUBJECT_MESSAGE_ID_RESPONSE,
    XOVER_RESPONSE,
};
use crate::terminator;
use crate::terminator::DOT_TERMINATOR;
use vstd::prelude::*;
use vstd::string::StringSliceAdditionalSpecFns;

verus! {

/// The selector is a message-id.
pub open spec fn names_message_id(selector: Seq<u8>) -> bool {
    bytes::starts_with(selector, "<".spec_bytes())
}

pub fn overview_selector_is_message_id(selector: &[u8]) -> (found: bool)
    ensures
        found == names_message_id(selector@),
{
    has_prefix(selector, "<".as_bytes())
}

pub fn overview_selector_requires_group(selector: &[u8]) -> (needed: bool)
    ensures
        needed == !names_message_id(selector@),
{
    !has_prefix(selector, "<".as_bytes())
}

pub fn overview_selector_is_range(selector: &[u8]) -> (found: bool)
    ensures
        found == bytes::has_byte(selector@, DASH),
{
    contains_byte(selector, DASH)
}

/// The part of the arguments that selects articles.
pub open spec fn selector_of(kind: RequestKind, args: Seq<u8>) -> Option<Seq<u8>> {
    match kind {
        RequestKind::Over | RequestKind::Xover => if args.len() == 0 {
            None
        } else {
            Some(args)
        },
        RequestKind::Hdr | RequestKind::Xhdr => bytes::second_field(args),
        _ => None,
    }
}

pub fn overview_selector_arg(kind: RequestKind, args: &[u8]) -> (selector: Option<&[u8]>)
    ensures
        bytes::opt_view(selector) == selector_of(kind, args@),
{
    match kind {
        RequestKind::Over | RequestKind::Xover => if args.len() == 0 {
            None
        } else {
            Some(args)
        },
        RequestKind::Hdr | RequestKind::Xhdr => field_second(args),
        _ => None,
    }
}

/// The header or metadata item that a query asks for.
#[derive(Debug, Clone, Copy, PartialEq, Eq, Structural)]
pub enum HeaderColumn {
    MessageId,
    Bytes,
    Lines,
    Subject,
}

/// What a selector picks among the articles that have an overview, which are 1 and 2.
#[derive(Debug, Clone, Copy, PartialEq, Eq, Structural)]
pub enum SelectorShape {
    MessageId,
    FirstOnly,
    SecondOnly,
    Both,
    Neither,
}

/// The queried column. Every name but three means the subject.
pub open spec fn column_of(args: Seq<u8>) -> HeaderColumn {
    let name = bytes::first_field(args);
    if bytes::is_word(name, "Message-ID") {
        HeaderColumn::MessageId
    } else if bytes::is_word(name, ":bytes") {
        HeaderColumn::Bytes
    } else if bytes::is_word(name, ":lines") {
        HeaderColumn::Lines
    } else {
        HeaderColumn::Subject
    }
}

fn header_column(args: &[u8]) -> (column: HeaderColumn)
    ensures
        column == column_of(args@),
{
    let name: &[u8] = field_first(args);
    if matches_word(name, "Message-ID") {
        HeaderColumn::MessageId
    } else if matches_word(name, ":bytes") {
        HeaderColumn::Bytes
    } else if matches_word(name, ":lines") {
        HeaderColumn::Lines
    } else {
        HeaderColumn::Subject
    }
}

pub open spec fn shape_of_rows(first: bool, second: bool) -> SelectorShape {
    if first && second {
        SelectorShape::Both
    } else if first {
        SelectorShape::FirstOnly
    } else if second {
        SelectorShape::SecondOnly
    } else {
        SelectorShape::Neither
    }
}

/// What a selector picks in a group with `count` articles: an article by its message-id, or those
/// of the group that lie in the range.
pub open spec fn shape_of(selector: Seq<u8>, count: u64) -> SelectorShape {
    if names_message_id(selector) {
        SelectorShape::MessageId
    } else {
        shape_of_rows(
            groups::is_listed(Some(selector), 1, count),
            groups::is_listed(Some(selector), 2, count),
        )
    }
}

fn selector_shape(selector: &[u8], count: u64) -> (shape: SelectorShape)
    ensures
        shape == shape_of(selector@, count),
{
    if overview_selector_is_message_id(selector) {
        return SelectorShape::MessageId;
    }
    let first: bool = check_listed(Some(selector), 1, count);
    let second: bool = check_listed(Some(selector), 2, count);
    if first && second {
        SelectorShape::Both
    } else if first {
        SelectorShape::FirstOnly
    } else if second {
        SelectorShape::SecondOnly
    } else {
        SelectorShape::Neither
    }
}

/// The rows that `OVER` and `XOVER` answer with. Without a selector it is that of article 1.
pub open spec fn overview_shape(args: Seq<u8>, count: u64) -> SelectorShape {
    if args.len() == 0 {
        SelectorShape::FirstOnly
    } else {
        shape_of(args, count)
    }
}

/// The answer to `OVER` in a group with `count` articles.
pub open spec fn over_text(args: Seq<u8>, count: u64) -> &'static str {
    match overview_shape(args, count) {
        SelectorShape::MessageId => OVER_MESSAGE_ID_RESPONSE,
        SelectorShape::FirstOnly => OVER_RESPONSE,
        SelectorShape::SecondOnly => OVER_2_RESPONSE,
        SelectorShape::Both => OVER_RANGE_RESPONSE,
        SelectorShape::Neither => OVER_EMPTY_RESPONSE,
    }
}

pub fn over_response_within(args: &[u8], count: u64) -> (text: &'static str)
    ensures
        text == over_text(args@, count),
{
    if args.len() == 0 {
        return OVER_RESPONSE;
    }
    match selector_shape(args, count) {
        SelectorShape::MessageId => OVER_MESSAGE_ID_RESPONSE,
        SelectorShape::FirstOnly => OVER_RESPONSE,
        SelectorShape::SecondOnly => OVER_2_RESPONSE,
        SelectorShape::Both => OVER_RANGE_RESPONSE,
        SelectorShape::Neither => OVER_EMPTY_RESPONSE,
    }
}

/// The answer to `OVER` among the articles of `alt.test`.
pub fn over_response_for_args(args: &[u8]) -> (text: &'static str)
    ensures
        text == over_text(args@, groups::group_size(FixtureGroup::AltTest)),
{
    over_response_within(args, FixtureGroup::AltTest.article_count())
}

/// The answer to `XOVER` in a group with `count` articles.
pub open spec fn xover_text(args: Seq<u8>, count: u64) -> &'static str {
    match overview_shape(args, count) {
        SelectorShape::MessageId => OVER_MESSAGE_ID_RESPONSE,
        SelectorShape::FirstOnly => OVER_RESPONSE,
        SelectorShape::SecondOnly => OVER_2_RESPONSE,
        SelectorShape::Both => XOVER_RESPONSE,
        SelectorShape::Neither => OVER_EMPTY_RESPONSE,
    }
}

pub fn xover_response_within(args: &[u8], count: u64) -> (text: &'static str)
    ensures
        text == xover_text(args@, count),
{
    if args.len() == 0 {
        return OVER_RESPONSE;
    }
    match selector_shape(args, count) {
        SelectorShape::MessageId => OVER_MESSAGE_ID_RESPONSE,
        SelectorShape::FirstOnly => OVER_RESPONSE,
        SelectorShape::SecondOnly => OVER_2_RESPONSE,
        SelectorShape::Both => XOVER_RESPONSE,
        SelectorShape::Neither => OVER_EMPTY_RESPONSE,
    }
}

/// The answer to `XOVER` among the articles of `alt.test`.
pub fn xover_response_for_args(args: &[u8]) -> (text: &'static str)
    ensures
        text == xover_text(args@, groups::group_size(FixtureGroup::AltTest)),
{
    xover_response_within(args, FixtureGroup::AltTest.article_count())
}

/// The rows that `HDR` and `XHDR` answer with. Without a selector it is all of the group.
pub open spec fn header_shape(selector: Option<Seq<u8>>, count: u64) -> SelectorShape {
    match selector {
        Some(text) => shape_of(text, count),
        None => shape_of_rows(count >= 1, count >= 2),
    }
}

fn header_selector_shape(selector: Option<&[u8]>, count: u64) -> (shape: SelectorShape)
    ensures
        shape == header_shape(bytes::opt_view(selector), count),
{
    match selector {
        Some(text) => selector_shape(text, count),
        None => if count >= 2 {
            SelectorShape::Both
        } else if count >= 1 {
            SelectorShape::FirstOnly
        } else {
            SelectorShape::Neither
        },
    }
}

/// The answer to `HDR`, by column and rows.
pub open spec fn hdr_cell(column: HeaderColumn, shape: SelectorShape) -> &'static str {
    match (column, shape) {
        (HeaderColumn::MessageId, SelectorShape::MessageId) => HDR_MESSAGE_ID_MESSAGE_ID_RESPONSE,
        (HeaderColumn::MessageId, SelectorShape::FirstOnly) => HDR_MESSAGE_ID_1_RESPONSE,
        (HeaderColumn::MessageId, SelectorShape::SecondOnly) => HDR_MESSAGE_ID_2_RESPONSE,
        (HeaderColumn::MessageId, SelectorShape::Both) => HDR_MESSAGE_ID_RESPONSE,
        (HeaderColumn::Bytes, SelectorShape::MessageId) => HDR_BYTES_MESSAGE_ID_RESPONSE,
        (HeaderColumn::Bytes, SelectorShape::FirstOnly) => HDR_BYTES_1_RESPONSE,
        (HeaderColumn::Bytes, SelectorShape::SecondOnly) => HDR_BYTES_2_RESPONSE,
        (HeaderColumn::Bytes, SelectorShape::Both) => HDR_BYTES_RESPONSE,
        (HeaderColumn::Lines, SelectorShape::MessageId) => HDR_LINES_MESSAGE_ID_RESPONSE,
        (HeaderColumn::Lines, SelectorShape::FirstOnly) => HDR_LINES_1_RESPONSE,
        (HeaderColumn::Lines, SelectorShape::SecondOnly) => HDR_LINES_2_RESPONSE,
        (HeaderColumn::Lines, SelectorShape::Both) => HDR_LINES_RESPONSE,
        (HeaderColumn::Subject, SelectorShape::MessageId) => HDR_SUBJECT_MESSAGE_ID_RESPONSE,
        (HeaderColumn::Subject, SelectorShape::FirstOnly) => HDR_SUBJECT_1_RESPONSE,
        (HeaderColumn::Subject, SelectorShape::SecondOnly) => HDR_SUBJECT_2_RESPONSE,
        (HeaderColumn::Subject, SelectorShape::Both) => HDR_RESPONSE,
        (_, SelectorShape::Neither) => HDR_EMPTY_RESPONSE,
    }
}

/// The answer to `HDR` in a group with `count` articles.
pub open spec fn hdr_text(args: Seq<u8>, count: u64) -> &'static str {
    hdr_cell(column_of(args), header_shape(selector_of(RequestKind::Hdr, args), count))
}

pub fn hdr_response_within(args: &[u8], count: u64) -> (text: &'static str)
    ensures
        text == hdr_text(args@, count),
{
    match (
        header_column(args),
        header_selector_shape(overview_selector_arg(RequestKind::Hdr, args), count),
    ) {
        (HeaderColumn::MessageId, SelectorShape::MessageId) => HDR_MESSAGE_ID_MESSAGE_ID_RESPONSE,
        (HeaderColumn::MessageId, SelectorShape::FirstOnly) => HDR_MESSAGE_ID_1_RESPONSE,
        (HeaderColumn::MessageId, SelectorShape::SecondOnly) => HDR_MESSAGE_ID_2_RESPONSE,
        (HeaderColumn::MessageId, SelectorShape::Both) => HDR_MESSAGE_ID_RESPONSE,
        (HeaderColumn::Bytes, SelectorShape::MessageId) => HDR_BYTES_MESSAGE_ID_RESPONSE,
        (HeaderColumn::Bytes, SelectorShape::FirstOnly) => HDR_BYTES_1_RESPONSE,
        (HeaderColumn::Bytes, SelectorShape::SecondOnly) => HDR_BYTES_2_RESPONSE,
        (HeaderColumn::Bytes, SelectorShape::Both) => HDR_BYTES_RESPONSE,
        (HeaderColumn::Lines, SelectorShape::MessageId) => HDR_LINES_MESSAGE_ID_RESPONSE,
        (HeaderColumn::Lines, SelectorShape::FirstOnly) => HDR_LINES_1_RESPONSE,
        (HeaderColumn::Lines, SelectorShape::SecondOnly) => HDR_LINES_2_RESPONSE,
        (HeaderColumn::Lines, SelectorShape::Both) => HDR_LINES_RESPONSE,
        (HeaderColumn::Subject, SelectorShape::MessageId) => HDR_SUBJECT_MESSAGE_ID_RESPONSE,
        (HeaderColumn::Subject, SelectorShape::FirstOnly) => HDR_SUBJECT_1_RESPONSE,
        (HeaderColumn::Subject, SelectorShape::SecondOnly) => HDR_SUBJECT_2_RESPONSE,
        (HeaderColumn::Subject, SelectorShape::Both) => HDR_RESPONSE,
        (_, SelectorShape::Neither) => HDR_EMPTY_RESPONSE,
    }
}

/// The answer to `HDR` among the articles of `alt.test`.
pub fn hdr_response_for_args(args: &[u8]) -> (text: &'static str)
    ensures
        text == hdr_text(args@, groups::group_size(FixtureGroup::AltTest)),
{
    hdr_response_within(args, FixtureGroup::AltTest.article_count())
}

/// The answer to `XHDR`, by column and rows.
pub open spec fn xhdr_cell(column: HeaderColumn, shape: SelectorShape) -> &'static str {
    match (column, shape) {
        (HeaderColumn::MessageId, SelectorShape::MessageId) => XHDR_MESSAGE_ID_MESSAGE_ID_RESPONSE,
        (HeaderColumn::MessageId, SelectorShape::FirstOnly) => XHDR_MESSAGE_ID_1_RESPONSE,
        (HeaderColumn::MessageId, SelectorShape::SecondOnly) => XHDR_MESSAGE_ID_2_RESPONSE,
        (HeaderColumn::MessageId, SelectorShape::Both) => XHDR_MESSAGE_ID_RESPONSE,
        (HeaderColumn::Bytes, SelectorShape::MessageId) => XHDR_BYTES_MESSAGE_ID_RESPONSE,
        (HeaderColumn::Bytes, SelectorShape::FirstOnly) => XHDR_BYTES_1_RESPONSE,
        (HeaderColumn::Bytes, SelectorShape::SecondOnly) => XHDR_BYTES_2_RESPONSE,
        (HeaderColumn::Bytes, SelectorShape::Both) => XHDR_BYTES_RESPONSE,
        (HeaderColumn::Lines, SelectorShape::MessageId) => XHDR_LINES_MESSAGE_ID_RESPONSE,
        (HeaderColumn::Lines, SelectorShape::FirstOnly) => XHDR_LINES_1_RESPONSE,
        (HeaderColumn::Lines, SelectorShape::SecondOnly) => XHDR_LINES_2_RESPONSE,
        (HeaderColumn::Lines, SelectorShape::Both) => XHDR_LINES_RESPONSE,
        (HeaderColumn::Subject, SelectorShape::MessageId) => XHDR_SUBJECT_MESSAGE_ID_RESPONSE,
        (HeaderColumn::Subject, SelectorShape::FirstOnly) => XHDR_SUBJECT_1_RESPONSE,
        (HeaderColumn::Subject, SelectorShape::SecondOnly) => XHDR_SUBJECT_2_RESPONSE,
        (HeaderColumn::Subject, SelectorShape::Both) => XHDR_RESPONSE,
        (_, SelectorShape::Neither) => XHDR_EMPTY_RESPONSE,
    }
}

/// The answer to `XHDR` in a group with `count` articles.
pub open spec fn xhdr_text(args: Seq<u8>, count: u64) -> &'static str {
    xhdr_cell(column_of(args), header_shape(selector_of(RequestKind::Xhdr, args), count))
}

pub fn xhdr_response_within(args: &[u8], count: u64) -> (text: &'static str)
    ensures
        text == xhdr_text(args@, count),
{
    match (
        header_column(args),
        header_selector_shape(overview_selector_arg(RequestKind::Xhdr, args), count),
    ) {
        (HeaderColumn::MessageId, SelectorShape::MessageId) => XHDR_MESSAGE_ID_MESSAGE_ID_RESPONSE,
        (HeaderColumn::MessageId, SelectorShape::FirstOnly) => XHDR_MESSAGE_ID_1_RESPONSE,
        (HeaderColumn::MessageId, SelectorShape::SecondOnly) => XHDR_MESSAGE_ID_2_RESPONSE,
        (HeaderColumn::MessageId, SelectorShape::Both) => XHDR_MESSAGE_ID_RESPONSE,
        (HeaderColumn::Bytes, SelectorShape::MessageId) => XHDR_BYTES_MESSAGE_ID_RESPONSE,
        (HeaderColumn::Bytes, SelectorShape::FirstOnly) => XHDR_BYTES_1_RESPONSE,
        (HeaderColumn::Bytes, SelectorShape::SecondOnly) => XHDR_BYTES_2_RESPONSE,
        (HeaderColumn::Bytes, SelectorShape::Both) => XHDR_BYTES_RESPONSE,
        (HeaderColumn::Lines, SelectorShape::MessageId) => XHDR_LINES_MESSAGE_ID_RESPONSE,
        (HeaderColumn::Lines, SelectorShape::FirstOnly) => XHDR_LINES_1_RESPONSE,
        (HeaderColumn::Lines, SelectorShape::SecondOnly) => XHDR_LINES_2_RESPONSE,
        (HeaderColumn::Lines, SelectorShape::Both) => XHDR_LINES_RESPONSE,
        (HeaderColumn::Subject, SelectorShape::MessageId) => XHDR_SUBJECT_MESSAGE_ID_RESPONSE,
        (HeaderColumn::Subject, SelectorShape::FirstOnly) => XHDR_SUBJECT_1_RESPONSE,
        (HeaderColumn::Subject, SelectorShape::SecondOnly) => XHDR_SUBJECT_2_RESPONSE,
        (HeaderColumn::Subject, SelectorShape::Both) => XHDR_RESPONSE,
        (_, SelectorShape::Neither) => XHDR_EMPTY_RESPONSE,
    }
}

/// The answer to `XHDR` among the articles of `alt.test`.
pub fn xhdr_response_for_args(args: &[u8]) -> (text: &'static str)
    ensures
        text == xhdr_text(args@, groups::group_size(FixtureGroup::AltTest)),
{
    xhdr_response_within(args, FixtureGroup::AltTest.article_count())
}

pub const OVER_HEAD: &'static str = "224 Overview information follows\r\n";

pub const OVER_ROW_1: &'static str =
    "1\tSubject one\tone@example.com\tFri, 16 May 2026 12:00:00 +0000\t<one@example.com>\t\t123\t4\r\n";

pub const OVER_ROW_2: &'static str =
    "2\tSubject two\ttwo@example.com\tFri, 16 May 2026 12:00:01 +0000\t<two@example.com>\t<ref@example.com>\t456\t8\r\n";

pub const HDR_HEAD: &'static str = "225 headers follow\r\n";

pub const XHDR_HEAD: &'static str = "221 headers follow\r\n";

pub const MESSAGE_ID_ROW_1: &'static str = "1 <one@example.com>\r\n";

pub const MESSAGE_ID_ROW_2: &'static str = "2 <two@example.com>\r\n";

pub const BYTES_ROW_1: &'static str = "1 123\r\n";

pub const BYTES_ROW_2: &'static str = "2 456\r\n";

pub const LINES_ROW_1: &'static str = "1 4\r\n";

pub const LINES_ROW_2: &'static str = "2 8\r\n";

pub const SUBJECT_ROW_1: &'static str = "1 example one\r\n";

pub const SUBJECT_ROW_2: &'static str = "2 example two\r\n";

#[verifier::rlimit(30)]
proof fn lemma_over_rows()
    ensures
        OVER_EMPTY_RESPONSE.spec_bytes() == OVER_HEAD.spec_bytes() + DOT_TERMINATOR.spec_bytes(),
        OVER_RESPONSE.spec_bytes() == OVER_HEAD.spec_bytes() + OVER_ROW_1.spec_bytes()
            + DOT_TERMINATOR.spec_bytes(),
        OVER_2_RESPONSE.spec_bytes() == OVER_HEAD.spec_bytes() + OVER_ROW_2.spec_bytes()
            + DOT_TERMINATOR.spec_bytes(),
        OVER_RANGE_RESPONSE.spec_bytes() == OVER_HEAD.spec_bytes() + OVER_ROW_1.spec_bytes()
            + OVER_ROW_2.spec_bytes() + DOT_TERMINATOR.spec_bytes(),
{
    terminator::lemma_dot_terminator();
    reveal_strlit("224 Overview information follows\r\n");
    assert(OVER_HEAD.is_ascii());
    reveal_strlit(
        "1\tSubject one\tone@example.com\tFri, 16 May 2026 12:00:00 +0000\t<one@example.com>\t\t123\t4\r\n",
    );
    assert(OVER_ROW_1.is_ascii());
    reveal_strlit(
        "2\tSubject two\ttwo@example.com\tFri, 16 May 2026 12:00:01 +0000\t<two@example.com>\t<ref@example.com>\t456\t8\r\n",
    );
    assert(OVER_ROW_2.is_ascii());
    assert(OVER_EMPTY_RESPONSE.spec_bytes() =~= OVER_HEAD.spec_bytes()
        + DOT_TERMINATOR.spec_bytes()) by {
        reveal_strlit("224 Overview information follows\r\n.\r\n");
        assert(OVER_EMPTY_RESPONSE.is_ascii());
    }
    assert(OVER_RESPONSE.spec_bytes() =~= OVER_HEAD.spec_bytes() + OVER_ROW_1.spec_bytes()
        + DOT_TERMINATOR.spec_bytes()) by {
        reveal_strlit(
            "224 Overview information follows\r\n1\tSubject one\tone@example.com\tFri, 16 May 2026 12:00:00 +0000\t<one@example.com>\t\t123\t4\r\n.\r\n",
        );
        assert(OVER_RESPONSE.is_ascii());
    }
    assert(OVER_2_RESPONSE.spec_bytes() =~= OVER_HEAD.spec_bytes() + OVER_ROW_2.spec_bytes()
        + DOT_TERMINATOR.spec_bytes()) by {
        reveal_strlit(
            "224 Overview information follows\r\n2\tSubject two\ttwo@example.com\tFri, 16 May 2026 12:00:01 +0000\t<two@example.com>\t<ref@example.com>\t456\t8\r\n.\r\n",
        );
        assert(OVER_2_RESPONSE.is_ascii());
    }
    assert(OVER_RANGE_RESPONSE.spec_bytes() =~= OVER_HEAD.spec_bytes() + OVER_ROW_1.spec_bytes()
        + OVER_ROW_2.spec_bytes() + DOT_TERMINATOR.spec_bytes()) by {
        reveal_strlit(
            "224 Overview information follows\r\n1\tSubject one\tone@example.com\tFri, 16 May 2026 12:00:00 +0000\t<one@example.com>\t\t123\t4\r\n2\tSubject two\ttwo@example.com\tFri, 16 May 2026 12:00:01 +0000\t<two@example.com>\t<ref@example.com>\t456\t8\r\n.\r\n",
        );
        assert(OVER_RANGE_RESPONSE.is_ascii());
    }
}

#[verifier::rlimit(30)]
proof fn lemma_hdr_message_id_rows()
    ensures
        HDR_EMPTY_RESPONSE.spec_bytes() == HDR_HEAD.spec_bytes() + DOT_TERMINATOR.spec_bytes(),
        HDR_MESSAGE_ID_1_RESPONSE.spec_bytes() == HDR_HEAD.spec_bytes()
            + MESSAGE_ID_ROW_1.spec_bytes() + DOT_TERMINATOR.spec_bytes(),
        HDR_MESSAGE_ID_2_RESPONSE.spec_bytes() == HDR_HEAD.spec_bytes()
            + MESSAGE_ID_ROW_2.spec_bytes() + DOT_TERMINATOR.spec_bytes(),
        HDR_MESSAGE_ID_RESPONSE.spec_bytes() == HDR_HEAD.spec_bytes()
            + MESSAGE_ID_ROW_1.spec_bytes() + MESSAGE_ID_ROW_2.spec_bytes()
            + DOT_TERMINATOR.spec_bytes(),
{
    terminator::lemma_dot_terminator();
    reveal_strlit("225 headers follow\r\n");
    assert(HDR_HEAD.is_ascii());
    reveal_strlit("1 <one@example.com>\r\n");
    assert(MESSAGE_ID_ROW_1.is_ascii());
    reveal_strlit("2 <two@example.com>\r\n");
    assert(MESSAGE_ID_ROW_2.is_ascii());
    assert(HDR_EMPTY_RESPONSE.spec_bytes() =~= HDR_HEAD.spec_bytes()
        + DOT_TERMINATOR.spec_bytes()) by {
        reveal_strlit("225 headers follow\r\n.\r\n");
        assert(HDR_EMPTY_RESPONSE.is_ascii());
    }
    assert(HDR_MESSAGE_ID_1_RESPONSE.spec_bytes() =~= HDR_HEAD.spec_bytes()
        + MESSAGE_ID_ROW_1.spec_bytes() + DOT_TERMINATOR.spec_bytes()) by {
        reveal_strlit("225 headers follow\r\n1 <one@example.com>\r\n.\r\n");
        assert(HDR_MESSAGE_ID_1_RESPONSE.is_ascii());
    }
    assert(HDR_MESSAGE_ID_2_RESPONSE.spec_bytes() =~= HDR_HEAD.spec_bytes()
        + MESSAGE_ID_ROW_2.spec_bytes() + DOT_TERMINATOR.spec_bytes()) by {
        reveal_strlit("225 headers follow\r\n2 <two@example.com>\r\n.\r\n");
        assert(HDR_MESSAGE_ID_2_RESPONSE.is_ascii());
    }
    assert(HDR_MESSAGE_ID_RESPONSE.spec_bytes() =~= HDR_HEAD.spec_bytes()
        + MESSAGE_ID_ROW_1.spec_bytes() + MESSAGE_ID_ROW_2.spec_bytes()
        + DOT_TERMINATOR.spec_bytes()) by {
        reveal_strlit("225 headers follow\r\n1 <one@example.com>\r\n2 <two@example.com>\r\n.\r\n");
        assert(HDR_MESSAGE_ID_RESPONSE.is_ascii());
    }
}

#[verifier::rlimit(30)]
proof fn lemma_hdr_bytes_rows()
    ensures
        HDR_EMPTY_RESPONSE.spec_bytes() == HDR_HEAD.spec_bytes() + DOT_TERMINATOR.spec_bytes(),
        HDR_BYTES_1_RESPONSE.spec_bytes() == HDR_HEAD.spec_bytes() + BYTES_ROW_1.spec_bytes()
            + DOT_TERMINATOR.spec_bytes(),
        HDR_BYTES_2_RESPONSE.spec_bytes() == HDR_HEAD.spec_bytes() + BYTES_ROW_2.spec_bytes()
            + DOT_TERMINATOR.spec_bytes(),
        HDR_BYTES_RESPONSE.spec_bytes() == HDR_HEAD.spec_bytes() + BYTES_ROW_1.spec_bytes()
            + BYTES_ROW_2.spec_bytes() + DOT_TERMINATOR.spec_bytes(),
{
    terminator::lemma_dot_terminator();
    reveal_strlit("225 headers follow\r\n");
    assert(HDR_HEAD.is_ascii());
    reveal_strlit("1 123\r\n");
    assert(BYTES_ROW_1.is_ascii());
    reveal_strlit("2 456\r\n");
    assert(BYTES_ROW_2.is_ascii());
    assert(HDR_EMPTY_RESPONSE.spec_bytes() =~= HDR_HEAD.spec_bytes()
        + DOT_TERMINATOR.spec_bytes()) by {
        reveal_strlit("225 headers follow\r\n.\r\n");
        assert(HDR_EMPTY_RESPONSE.is_ascii());
    }
    assert(HDR_BYTES_1_RESPONSE.spec_bytes() =~= HDR_HEAD.spec_bytes() + BYTES_ROW_1.spec_bytes()
        + DOT_TERMINATOR.spec_bytes()) by {
        reveal_strlit("225 headers follow\r\n1 123\r\n.\r\n");
        assert(HDR_BYTES_1_RESPONSE.is_ascii());
    }
    assert(HDR_BYTES_2_RESPONSE.spec_bytes() =~= HDR_HEAD.spec_bytes() + BYTES_ROW_2.spec_bytes()
        + DOT_TERMINATOR.spec_bytes()) by {
        reveal_strlit("225 headers follow\r\n2 456\r\n.\r\n");
        assert(HDR_BYTES_2_RESPONSE.is_ascii());
    }
    assert(HDR_BYTES_RESPONSE.spec_bytes() =~= HDR_HEAD.spec_bytes() + BYTES_ROW_1.spec_bytes()
        + BYTES_ROW_2.spec_bytes() + DOT_TERMINATOR.spec_bytes()) by {
        reveal_strlit("225 headers follow\r\n1 123\r\n2 456\r\n.\r\n");
        assert(HDR_BYTES_RESPONSE.is_ascii());
    }
}

#[verifier::rlimit(30)]
proof fn lemma_hdr_lines_rows()
    ensures
        HDR_EMPTY_RESPONSE.spec_bytes() == HDR_HEAD.spec_bytes() + DOT_TERMINATOR.spec_bytes(),
        HDR_LINES_1_RESPONSE.spec_bytes() == HDR_HEAD.spec_bytes() + LINES_ROW_1.spec_bytes()
            + DOT_TERMINATOR.spec_bytes(),
        HDR_LINES_2_RESPONSE.spec_bytes() == HDR_HEAD.spec_bytes() + LINES_ROW_2.spec_bytes()
            + DOT_TERMINATOR.spec_bytes(),
        HDR_LINES_RESPONSE.spec_bytes() == HDR_HEAD.spec_bytes() + LINES_ROW_1.spec_bytes()
            + LINES_ROW_2.spec_bytes() + DOT_TERMINATOR.spec_bytes(),
{
    terminator::lemma_dot_terminator();
    reveal_strlit("225 headers follow\r\n");
    assert(HDR_HEAD.is_ascii());
    reveal_strlit("1 4\r\n");
    assert(LINES_ROW_1.is_ascii());
    reveal_strlit("2 8\r\n");
    assert(LINES_ROW_2.is_ascii());
    assert(HDR_EMPTY_RESPONSE.spec_bytes() =~= HDR_HEAD.spec_bytes()
        + DOT_TERMINATOR.spec_bytes()) by {
        reveal_strlit("225 headers follow\r\n.\r\n");
        assert(HDR_EMPTY_RESPONSE.is_ascii());
    }
    assert(HDR_LINES_1_RESPONSE.spec_bytes() =~= HDR_HEAD.spec_bytes() + LINES_ROW_1.spec_bytes()
        + DOT_TERMINATOR.spec_bytes()) by {
        reveal_strlit("225 headers follow\r\n1 4\r\n.\r\n");
        assert(HDR_LINES_1_RESPONSE.is_ascii());
    }
    assert(HDR_LINES_2_RESPONSE.spec_bytes() =~= HDR_HEAD.spec_bytes() + LINES_ROW_2.spec_bytes()
        + DOT_TERMINATOR.spec_bytes()) by {
        reveal_strlit("225 headers follow\r\n2 8\r\n.\r\n");
        assert(HDR_LINES_2_RESPONSE.is_ascii());
    }
    assert(HDR_LINES_RESPONSE.spec_bytes() =~= HDR_HEAD.spec_bytes() + LINES_ROW_1.spec_bytes()
        + LINES_ROW_2.spec_bytes() + DOT_TERMINATOR.spec_bytes()) by {
        reveal_strlit("225 headers follow\r\n1 4\r\n2 8\r\n.\r\n");
        assert(HDR_LINES_RESPONSE.is_ascii());
    }
}

#[verifier::rlimit(30)]
proof fn lemma_hdr_subject_rows()
    ensures
        HDR_EMPTY_RESPONSE.spec_bytes() == HDR_HEAD.spec_bytes() + DOT_TERMINATOR.spec_bytes(),
        HDR_SUBJECT_1_RESPONSE.spec_bytes() == HDR_HEAD.spec_bytes() + SUBJECT_ROW_1.spec_bytes()
            + DOT_TERMINATOR.spec_bytes(),
        HDR_SUBJECT_2_RESPONSE.spec_bytes() == HDR_HEAD.spec_bytes() + SUBJECT_ROW_2.spec_bytes()
            + DOT_TERMINATOR.spec_bytes(),
        HDR_RESPONSE.spec_bytes() == HDR_HEAD.spec_bytes() + SUBJECT_ROW_1.spec_bytes()
            + SUBJECT_ROW_2.spec_bytes() + DOT_TERMINATOR.spec_bytes(),
{
    terminator::lemma_dot_terminator();
    reveal_strlit("225 headers follow\r\n");
    assert(HDR_HEAD.is_ascii());
    reveal_strlit("1 example one\r\n");
    assert(SUBJECT_ROW_1.is_ascii());
    reveal_strlit("2 example two\r\n");
    assert(SUBJECT_ROW_2.is_ascii());
    assert(HDR_EMPTY_RESPONSE.spec_bytes() =~= HDR_HEAD.spec_bytes()
        + DOT_TERMINATOR.spec_bytes()) by {
        reveal_strlit("225 headers follow\r\n.\r\n");
        assert(HDR_EMPTY_RESPONSE.is_ascii());
    }
    assert(HDR_SUBJECT_1_RESPONSE.spec_bytes() =~= HDR_HEAD.spec_bytes()
        + SUBJECT_ROW_1.spec_bytes() + DOT_TERMINATOR.spec_bytes()) by {
        reveal_strlit("225 headers follow\r\n1 example one\r\n.\r\n");
        assert(HDR_SUBJECT_1_RESPONSE.is_ascii());
    }
    assert(HDR_SUBJECT_2_RESPONSE.spec_bytes() =~= HDR_HEAD.spec_bytes()
        + SUBJECT_ROW_2.spec_bytes() + DOT_TERMINATOR.spec_bytes()) by {
        reveal_strlit("225 headers follow\r\n2 example two\r\n.\r\n");
        assert(HDR_SUBJECT_2_RESPONSE.is_ascii());
    }
    assert(HDR_RESPONSE.spec_bytes() =~= HDR_HEAD.spec_bytes() + SUBJECT_ROW_1.spec_bytes()
        + SUBJECT_ROW_2.spec_bytes() + DOT_TERMINATOR.spec_bytes()) by {
        reveal_strlit("225 headers follow\r\n1 example one\r\n2 example two\r\n.\r\n");
        assert(HDR_RESPONSE.is_ascii());
    }
}

#[verifier::rlimit(30)]
proof fn lemma_xhdr_message_id_rows()
    ensures
        XHDR_EMPTY_RESPONSE.spec_bytes() == XHDR_HEAD.spec_bytes() + DOT_TERMINATOR.spec_bytes(),
        XHDR_MESSAGE_ID_1_RESPONSE.spec_bytes() == XHDR_HEAD.spec_bytes()
            + MESSAGE_ID_ROW_1.spec_bytes() + DOT_TERMINATOR.spec_bytes(),
        XHDR_MESSAGE_ID_2_RESPONSE.spec_bytes() == XHDR_HEAD.spec_bytes()
            + MESSAGE_ID_ROW_2.spec_bytes() + DOT_TERMINATOR.spec_bytes(),
        XHDR_MESSAGE_ID_RESPONSE.spec_bytes() == XHDR_HEAD.spec_bytes()
            + MESSAGE_ID_ROW_1.spec_bytes() + MESSAGE_ID_ROW_2.spec_bytes()
            + DOT_TERMINATOR.spec_bytes(),
{
    terminator::lemma_dot_terminator();
    reveal_strlit("221 headers follow\r\n");
    assert(XHDR_HEAD.is_ascii());
    reveal_strlit("1 <one@example.com>\r\n");
    assert(MESSAGE_ID_ROW_1.is_ascii());
    reveal_strlit("2 <two@example.com>\r\n");
    assert(MESSAGE_ID_ROW_2.is_ascii());
    assert(XHDR_EMPTY_RESPONSE.spec_bytes() =~= XHDR_HEAD.spec_bytes()
        + DOT_TERMINATOR.spec_bytes()) by {
        reveal_strlit("221 headers follow\r\n.\r\n");
        assert(XHDR_EMPTY_RESPONSE.is_ascii());
    }
    assert(XHDR_MESSAGE_ID_1_RESPONSE.spec_bytes() =~= XHDR_HEAD.spec_bytes()
        + MESSAGE_ID_ROW_1.spec_bytes() + DOT_TERMINATOR.spec_bytes()) by {
        reveal_strlit("221 headers follow\r\n1 <one@example.com>\r\n.\r\n");
        assert(XHDR_MESSAGE_ID_1_RESPONSE.is_ascii());
    }
    assert(XHDR_MESSAGE_ID_2_RESPONSE.spec_bytes() =~= XHDR_HEAD.spec_bytes()
        + MESSAGE_ID_ROW_2.spec_bytes() + DOT_TERMINATOR.spec_bytes()) by {
        reveal_strlit("221 headers follow\r\n2 <two@example.com>\r\n.\r\n");
        assert(XHDR_MESSAGE_ID_2_RESPONSE.is_ascii());
    }
    assert(XHDR_MESSAGE_ID_RESPONSE.spec_bytes() =~= XHDR_HEAD.spec_bytes()
        + MESSAGE_ID_ROW_1.spec_bytes() + MESSAGE_ID_ROW_2.spec_bytes()
        + DOT_TERMINATOR.spec_bytes()) by {
        reveal_strlit("221 headers follow\r\n1 <one@example.com>\r\n2 <two@example.com>\r\n.\r\n");
        assert(XHDR_MESSAGE_ID_RESPONSE.is_ascii());
    }
}

#[verifier::rlimit(30)]
proof fn lemma_xhdr_bytes_rows()
    ensures
        XHDR_EMPTY_RESPONSE.spec_bytes() == XHDR_HEAD.spec_bytes() + DOT_TERMINATOR.spec_bytes(),
        XHDR_BYTES_1_RESPONSE.spec_bytes() == XHDR_HEAD.spec_bytes() + BYTES_ROW_1.spec_bytes()
            + DOT_TERMINATOR.spec_bytes(),
        XHDR_BYTES_2_RESPONSE.spec_bytes() == XHDR_HEAD.spec_bytes() + BYTES_ROW_2.spec_bytes()
            + DOT_TERMINATOR.spec_bytes(),
        XHDR_BYTES_RESPONSE.spec_bytes() == XHDR_HEAD.spec_bytes() + BYTES_ROW_1.spec_bytes()
            + BYTES_ROW_2.spec_bytes() + DOT_TERMINATOR.spec_bytes(),
{
    terminator::lemma_dot_terminator();
    reveal_strlit("221 headers follow\r\n");
    assert(XHDR_HEAD.is_ascii());
    reveal_strlit("1 123\r\n");
    assert(BYTES_ROW_1.is_ascii());
    reveal_strlit("2 456\r\n");
    assert(BYTES_ROW_2.is_ascii());
    assert(XHDR_EMPTY_RESPONSE.spec_bytes() =~= XHDR_HEAD.spec_bytes()
        + DOT_TERMINATOR.spec_bytes()) by {
        reveal_strlit("221 headers follow\r\n.\r\n");
        assert(XHDR_EMPTY_RESPONSE.is_ascii());
    }
    assert(XHDR_BYTES_1_RESPONSE.spec_bytes() =~= XHDR_HEAD.spec_bytes() + BYTES_ROW_1.spec_bytes()
        + DOT_TERMINATOR.spec_bytes()) by {
        reveal_strlit("221 headers follow\r\n1 123\r\n.\r\n");
        assert(XHDR_BYTES_1_RESPONSE.is_ascii());
    }
    assert(XHDR_BYTES_2_RESPONSE.spec_bytes() =~= XHDR_HEAD.spec_bytes() + BYTES_ROW_2.spec_bytes()
        + DOT_TERMINATOR.spec_bytes()) by {
        reveal_strlit("221 headers follow\r\n2 456\r\n.\r\n");
        assert(XHDR_BYTES_2_RESPONSE.is_ascii());
    }
    assert(XHDR_BYTES_RESPONSE.spec_bytes() =~= XHDR_HEAD.spec_bytes() + BYTES_ROW_1.spec_bytes()
        + BYTES_ROW_2.spec_bytes() + DOT_TERMINATOR.spec_bytes()) by {
        reveal_strlit("221 headers follow\r\n1 123\r\n2 456\r\n.\r\n");
        assert(XHDR_BYTES_RESPONSE.is_ascii());
    }
}

#[verifier::rlimit(30)]
proof fn lemma_xhdr_lines_rows()
    ensures
        XHDR_EMPTY_RESPONSE.spec_bytes() == XHDR_HEAD.spec_bytes() + DOT_TERMINATOR.spec_bytes(),
        XHDR_LINES_1_RESPONSE.spec_bytes() == XHDR_HEAD.spec_bytes() + LINES_ROW_1.spec_bytes()
            + DOT_TERMINATOR.spec_bytes(),
        XHDR_LINES_2_RESPONSE.spec_bytes() == XHDR_HEAD.spec_bytes() + LINES_ROW_2.spec_bytes()
            + DOT_TERMINATOR.spec_bytes(),
        XHDR_LINES_RESPONSE.spec_bytes() == XHDR_HEAD.spec_bytes() + LINES_ROW_1.spec_bytes()
            + LINES_ROW_2.spec_bytes() + DOT_TERMINATOR.spec_bytes(),
{
    terminator::lemma_dot_terminator();
    reveal_strlit("221 headers follow\r\n");
    assert(XHDR_HEAD.is_ascii());
    reveal_strlit("1 4\r\n");
    assert(LINES_ROW_1.is_ascii());
    reveal_strlit("2 8\r\n");
    assert(LINES_ROW_2.is_ascii());
    assert(XHDR_EMPTY_RESPONSE.spec_bytes() =~= XHDR_HEAD.spec_bytes()
        + DOT_TERMINATOR.spec_bytes()) by {
        reveal_strlit("221 headers follow\r\n.\r\n");
        assert(XHDR_EMPTY_RESPONSE.is_ascii());
    }
    assert(XHDR_LINES_1_RESPONSE.spec_bytes() =~= XHDR_HEAD.spec_bytes() + LINES_ROW_1.spec_bytes()
        + DOT_TERMINATOR.spec_bytes()) by {
        reveal_strlit("221 headers follow\r\n1 4\r\n.\r\n");
        assert(XHDR_LINES_1_RESPONSE.is_ascii());
    }
    assert(XHDR_LINES_2_RESPONSE.spec_bytes() =~= XHDR_HEAD.spec_bytes() + LINES_ROW_2.spec_bytes()
        + DOT_TERMINATOR.spec_bytes()) by {
        reveal_strlit("221 headers follow\r\n2 8\r\n.\r\n");
        assert(XHDR_LINES_2_RESPONSE.is_ascii());
    }
    assert(XHDR_LINES_RESPONSE.spec_bytes() =~= XHDR_HEAD.spec_bytes() + LINES_ROW_1.spec_bytes()
        + LINES_ROW_2.spec_bytes() + DOT_TERMINATOR.spec_bytes()) by {
        reveal_strlit("221 headers follow\r\n1 4\r\n2 8\r\n.\r\n");
        assert(XHDR_LINES_RESPONSE.is_ascii());
    }
}

#[verifier::rlimit(30)]
proof fn lemma_xhdr_subject_rows()
    ensures
        XHDR_EMPTY_RESPONSE.spec_bytes() == XHDR_HEAD.spec_bytes() + DOT_TERMINATOR.spec_bytes(),
        XHDR_SUBJECT_1_RESPONSE.spec_bytes() == XHDR_HEAD.spec_bytes() + SUBJECT_ROW_1.spec_bytes()
            + DOT_TERMINATOR.spec_bytes(),
        XHDR_SUBJECT_2_RESPONSE.spec_bytes() == XHDR_HEAD.spec_bytes() + SUBJECT_ROW_2.spec_bytes()
            + DOT_TERMINATOR.spec_bytes(),
        XHDR_RESPONSE.spec_bytes() == XHDR_HEAD.spec_bytes() + SUBJECT_ROW_1.spec_bytes()
            + SUBJECT_ROW_2.spec_bytes() + DOT_TERMINATOR.spec_bytes(),
{
    terminator::lemma_dot_terminator();
    reveal_strlit("221 headers follow\r\n");
    assert(XHDR_HEAD.is_ascii());
    reveal_strlit("1 example one\r\n");
    assert(SUBJECT_ROW_1.is_ascii());
    reveal_strlit("2 example two\r\n");
    assert(SUBJECT_ROW_2.is_ascii());
    assert(XHDR_EMPTY_RESPONSE.spec_bytes() =~= XHDR_HEAD.spec_bytes()
        + DOT_TERMINATOR.spec_bytes()) by {
        reveal_strlit("221 headers follow\r\n.\r\n");
        assert(XHDR_EMPTY_RESPONSE.is_ascii());
    }
    assert(XHDR_SUBJECT_1_RESPONSE.spec_bytes() =~= XHDR_HEAD.spec_bytes()
        + SUBJECT_ROW_1.spec_bytes() + DOT_TERMINATOR.spec_bytes()) by {
        reveal_strlit("221 headers follow\r\n1 example one\r\n.\r\n");
        assert(XHDR_SUBJECT_1_RESPONSE.is_ascii());
    }
    assert(XHDR_SUBJECT_2_RESPONSE.spec_bytes() =~= XHDR_HEAD.spec_bytes()
        + SUBJECT_ROW_2.spec_bytes() + DOT_TERMINATOR.spec_bytes()) by {
        reveal_strlit("221 headers follow\r\n2 example two\r\n.\r\n");
        assert(XHDR_SUBJECT_2_RESPONSE.is_ascii());
    }
    assert(XHDR_RESPONSE.spec_bytes() =~= XHDR_HEAD.spec_bytes() + SUBJECT_ROW_1.spec_bytes()
        + SUBJECT_ROW_2.spec_bytes() + DOT_TERMINATOR.spec_bytes()) by {
        reveal_strlit("221 headers follow\r\n1 example one\r\n2 example two\r\n.\r\n");
        assert(XHDR_RESPONSE.is_ascii());
    }
}

/// The row of a header query for article 1 or 2.
pub open spec fn header_row(column: HeaderColumn, second: bool) -> &'static str {
    match (column, second) {
        (HeaderColumn::MessageId, false) => MESSAGE_ID_ROW_1,
        (HeaderColumn::MessageId, true) => MESSAGE_ID_ROW_2,
        (HeaderColumn::Bytes, false) => BYTES_ROW_1,
        (HeaderColumn::Bytes, true) => BYTES_ROW_2,
        (HeaderColumn::Lines, false) => LINES_ROW_1,
        (HeaderColumn::Lines, true) => LINES_ROW_2,
        (HeaderColumn::Subject, false) => SUBJECT_ROW_1,
        (HeaderColumn::Subject, true) => SUBJECT_ROW_2,
    }
}

/// A text where a row is listed, nothing where it is not.
pub open spec fn row_if(listed: bool, row: &str) -> Seq<u8> {
    if listed {
        row.spec_bytes()
    } else {
        Seq::empty()
    }
}

/// `OVER` and `XOVER` answer a range with the row of each article that has one, lies in the range
/// and is in the group, and with no other row.
pub proof fn law_overview_lists_the_range(args: Seq<u8>, count: u64)
    requires
        args.len() > 0,
        !names_message_id(args),
    ensures
        over_text(args, count).spec_bytes() == OVER_HEAD.spec_bytes() + row_if(
            groups::is_listed(Some(args), 1, count),
            OVER_ROW_1,
        ) + row_if(groups::is_listed(Some(args), 2, count), OVER_ROW_2)
            + DOT_TERMINATOR.spec_bytes(),
        xover_text(args, count).spec_bytes() == over_text(args, count).spec_bytes(),
{
    lemma_over_rows();
    let head = OVER_HEAD.spec_bytes();
    let first = row_if(groups::is_listed(Some(args), 1, count), OVER_ROW_1);
    let second = row_if(groups::is_listed(Some(args), 2, count), OVER_ROW_2);
    lemma_no_rows(head, first, second);
}

/// Nothing between texts changes nothing.
proof fn lemma_no_rows(head: Seq<u8>, first: Seq<u8>, second: Seq<u8>)
    ensures
        first.len() == 0 ==> head + first == head,
        second.len() == 0 ==> head + first + second == head + first,
{
    if first.len() == 0 {
        assert(head + first =~= head);
    }
    if second.len() == 0 {
        assert(head + first + second =~= head + first);
    }
}

/// `HDR` answers a range with the row of each article that has one, lies in the range and is in the
/// group, and with no other row.
pub proof fn law_hdr_lists_the_range(args: Seq<u8>, selector: Seq<u8>, count: u64)
    requires
        selector_of(RequestKind::Hdr, args) == Some(selector),
        !names_message_id(selector),
    ensures
        hdr_text(args, count).spec_bytes() == HDR_HEAD.spec_bytes() + row_if(
            groups::is_listed(Some(selector), 1, count),
            header_row(column_of(args), false),
        ) + row_if(
            groups::is_listed(Some(selector), 2, count),
            header_row(column_of(args), true),
        ) + DOT_TERMINATOR.spec_bytes(),
{
    let column = column_of(args);
    let head = HDR_HEAD.spec_bytes();
    let first = row_if(groups::is_listed(Some(selector), 1, count), header_row(column, false));
    let second = row_if(groups::is_listed(Some(selector), 2, count), header_row(column, true));
    lemma_no_rows(head, first, second);
    match column {
        HeaderColumn::MessageId => lemma_hdr_message_id_rows(),
        HeaderColumn::Bytes => lemma_hdr_bytes_rows(),
        HeaderColumn::Lines => lemma_hdr_lines_rows(),
        HeaderColumn::Subject => lemma_hdr_subject_rows(),
    }
}

/// `XHDR` answers a range with the row of each article that has one, lies in the range and is in the
/// group, and with no other row.
pub proof fn law_xhdr_lists_the_range(args: Seq<u8>, selector: Seq<u8>, count: u64)
    requires
        selector_of(RequestKind::Xhdr, args) == Some(selector),
        !names_message_id(selector),
    ensures
        xhdr_text(args, count).spec_bytes() == XHDR_HEAD.spec_bytes() + row_if(
            groups::is_listed(Some(selector), 1, count),
            header_row(column_of(args), false),
        ) + row_if(
            groups::is_listed(Some(selector), 2, count),
            header_row(column_of(args), true),
        ) + DOT_TERMINATOR.spec_bytes(),
{
    let column = column_of(args);
    let head = XHDR_HEAD.spec_bytes();
    let first = row_if(groups::is_listed(Some(selector), 1, count), header_row(column, false));
    let second = row_if(groups::is_listed(Some(selector), 2, count), header_row(column, true));
    lemma_no_rows(head, first, second);
    match column {
        HeaderColumn::MessageId => lemma_xhdr_message_id_rows(),
        HeaderColumn::Bytes => lemma_xhdr_bytes_rows(),
        HeaderColumn::Lines => lemma_xhdr_lines_rows(),
        HeaderColumn::Subject => lemma_xhdr_subject_rows(),
    }
}

/// The headers and metadata items that can be queried.
pub open spec fn is_supported_field(field: Seq<u8>) -> bool {
    ||| bytes::is_word(field, ":bytes")
    ||| bytes::is_word(field, ":lines")
    ||| bytes::is_word(field, "Subject")
    ||| bytes::is_word(field, "From")
    ||| bytes::is_word(field, "Date")
    ||| bytes::is_word(field, "Message-ID")
    ||| bytes::is_word(field, "References")
}

pub fn hdr_field_is_supported(field: &[u8]) -> (supported: bool)
    ensures
        supported == is_supported_field(field@),
{
    matches_word(field, ":bytes") || matches_word(field, ":lines") || matches_word(field, "Subject")
        || matches_word(field, "From") || matches_word(field, "Date") || matches_word(
        field,
        "Message-ID",
    ) || matches_word(field, "References")
}

/// The current article as a selector.
pub open spec fn current_selector(current_article: Option<u64>) -> Option<Seq<u8>> {
    match current_article {
        Some(article_id) => Some(bytes::decimal(article_id as nat)),
        None => None,
    }
}

pub fn current_article_selector_args(state: &SessionState) -> (selector: Option<Vec<u8>>)
    ensures
        match selector {
            Some(text) => current_selector(state.current_article) == Some(text@),
            None => current_selector(state.current_article) is None,
        },
{
    match state.current_article {
        Some(article_id) => Some(decimal_bytes(article_id)),
        None => None,
    }
}

/// The arguments of `OVER` and `XOVER` with the current article in place of none.
pub open spec fn overview_args(args: Seq<u8>, current_article: Option<u64>) -> Seq<u8> {
    match current_selector(current_article) {
        Some(selector) => if args.len() == 0 {
            selector
        } else {
            args
        },
        None => args,
    }
}

pub fn current_overview_args(args: &[u8], state: &SessionState) -> (resolved: Vec<u8>)
    ensures
        resolved@ == overview_args(args@, state.current_article),
{
    if args.len() == 0 {
        if let Some(selector) = current_article_selector_args(state) {
            return selector;
        }
    }
    let mut resolved: Vec<u8> = Vec::new();
    resolved.extend_from_slice(args);
    assert(resolved@ =~= args@);
    resolved
}

/// The arguments of `HDR` and `XHDR` with the current article behind a header that stands alone.
pub open spec fn header_args(args: Seq<u8>, current_article: Option<u64>) -> Seq<u8> {
    match current_selector(current_article) {
        Some(selector) => if bytes::second_field(args) is Some {
            args
        } else {
            args + seq![SPACE] + selector
        },
        None => args,
    }
}

pub fn current_header_args(args: &[u8], state: &SessionState) -> (resolved: Vec<u8>)
    ensures
        resolved@ == header_args(args@, state.current_article),
{
    let mut resolved: Vec<u8> = Vec::new();
    resolved.extend_from_slice(args);
    if field_second(args).is_none() {
        if let Some(selector) = current_article_selector_args(state) {
            resolved.push(SPACE);
            resolved.extend_from_slice(selector.as_slice());
            assert(resolved@ =~= args@ + seq![SPACE] + selector@);
            return resolved;
        }
    }
    assert(resolved@ =~= args@);
    resolved
}

/// Why the current article cannot be used, if it cannot.
pub open spec fn current_error(state: SessionState) -> Option<&'static str> {
    if !state.group_selected {
        Some(NO_GROUP_SELECTED_RESPONSE)
    } else if state.current_article is None {
        Some(NO_CURRENT_ARTICLE_RESPONSE)
    } else {
        None
    }
}

fn current_article_error(state: &SessionState) -> (error: Option<&'static str>)
    ensures
        error == current_error(*state),
{
    if !state.group_selected {
        Some(NO_GROUP_SELECTED_RESPONSE)
    } else if state.current_article.is_none() {
        Some(NO_CURRENT_ARTICLE_RESPONSE)
    } else {
        None
    }
}

/// The number is beyond the articles in reach.
pub open spec fn is_beyond(article_id: Option<u64>, state: SessionState) -> bool {
    match article_id {
        Some(id) => id > groups::articles_in_reach(state),
        None => false,
    }
}

fn check_beyond(article_id: Option<u64>, state: &SessionState) -> (beyond: bool)
    ensures
        beyond == is_beyond(article_id, *state),
{
    match article_id {
        Some(id) => id > state.article_count(),
        None => false,
    }
}

/// A message-id with this word in it names no article.
pub open spec fn says_missing(args: Seq<u8>) -> bool {
    bytes::has_run(args, "missing".spec_bytes())
}

fn check_says_missing(args: &[u8]) -> (found: bool)
    ensures
        found == says_missing(args@),
{
    proof {
        reveal_strlit("missing");
        assert("missing".is_ascii());
    }
    contains_subslice(args, "missing".as_bytes())
}

/// Why `ARTICLE`, `HEAD`, `STAT` or `BODY` selects no article, if it does not.
pub open spec fn article_error(
    args: Seq<u8>,
    article_id: Option<u64>,
    has_message_id: bool,
    state: SessionState,
    current_selector_allowed: bool,
) -> Option<&'static str> {
    if args.len() == 0 && current_selector_allowed {
        current_error(state)
    } else if article_id is Some && !state.group_selected {
        Some(NO_GROUP_SELECTED_RESPONSE)
    } else if is_beyond(article_id, state) {
        Some(NO_ARTICLE_NUMBER_RESPONSE)
    } else if has_message_id && says_missing(args) {
        Some(NO_ARTICLE_MESSAGE_ID_RESPONSE)
    } else {
        None
    }
}

pub fn article_selector_error(
    args: &[u8],
    article_id: Option<u64>,
    has_message_id: bool,
    state: &SessionState,
    current_selector_allowed: bool,
) -> (error: Option<&'static str>)
    ensures
        error == article_error(args@, article_id, has_message_id, *state, current_selector_allowed),
{
    if args.len() == 0 && current_selector_allowed {
        current_article_error(state)
    } else if article_id.is_some() && !state.group_selected {
        Some(NO_GROUP_SELECTED_RESPONSE)
    } else if check_beyond(article_id, state) {
        Some(NO_ARTICLE_NUMBER_RESPONSE)
    } else if has_message_id && check_says_missing(args) {
        Some(NO_ARTICLE_MESSAGE_ID_RESPONSE)
    } else {
        None
    }
}

/// A header query.
pub open spec fn is_header_query(kind: RequestKind) -> bool {
    kind == RequestKind::Hdr || kind == RequestKind::Xhdr
}

/// The command asks about the current article.
pub open spec fn asks_current(kind: RequestKind, args: Seq<u8>) -> bool {
    if kind == RequestKind::Over || kind == RequestKind::Xover {
        args.len() == 0
    } else {
        is_header_query(kind) && bytes::second_field(args) is None
    }
}

/// Why a selector of `OVER`, `XOVER`, `HDR` or `XHDR` selects nothing, if it does not.
pub open spec fn selector_error(
    selector: Option<Seq<u8>>,
    args: Seq<u8>,
    article_id: Option<u64>,
    has_message_id: bool,
    state: SessionState,
) -> Option<&'static str> {
    let text = match selector {
        Some(text) => text,
        None => Seq::empty(),
    };
    let count = groups::articles_in_reach(state);
    if selector is Some && !names_message_id(text) && !state.group_selected {
        Some(NO_GROUP_SELECTED_RESPONSE)
    } else if selector is Some && !names_message_id(text) && bytes::has_byte(text, DASH)
        && !groups::range_selects(text, count) {
        Some(NO_ARTICLES_IN_RANGE_RESPONSE)
    } else if (selector is Some && bytes::all_digits(text) && is_beyond(bytes::number(text), state))
        || is_beyond(article_id, state) {
        Some(NO_ARTICLE_NUMBER_RESPONSE)
    } else if (has_message_id || (selector is Some && names_message_id(text))) && says_missing(
        args,
    ) {
        Some(NO_ARTICLE_MESSAGE_ID_RESPONSE)
    } else {
        None
    }
}

/// Why `OVER`, `XOVER`, `HDR` or `XHDR` is refused, if it is.
pub open spec fn overview_error(
    kind: RequestKind,
    args: Seq<u8>,
    article_id: Option<u64>,
    has_message_id: bool,
    state: SessionState,
) -> Option<&'static str> {
    let header = bytes::first_field(args);
    if is_header_query(kind) && header.len() > 0 && !is_supported_field(header) {
        Some(HDR_FIELD_UNAVAILABLE_RESPONSE)
    } else if asks_current(kind, args) {
        current_error(state)
    } else {
        selector_error(selector_of(kind, args), args, article_id, has_message_id, state)
    }
}

/// The header that a query names, if it names one.
pub fn header_query_name_from_args(args: &[u8]) -> (name: Option<&[u8]>)
    ensures
        bytes::opt_view(name) == (if bytes::first_field(args@).len() == 0 {
            None
        } else {
            Some(bytes::first_field(args@))
        }),
{
    let first: &[u8] = field_first(args);
    if first.len() == 0 {
        None
    } else {
        Some(first)
    }
}

pub fn overview_selector_error(
    kind: RequestKind,
    args: &[u8],
    article_id: Option<u64>,
    has_message_id: bool,
    state: &SessionState,
) -> (error: Option<&'static str>)
    ensures
        error == overview_error(kind, args@, article_id, has_message_id, *state),
{
    let header_query: bool = kind == RequestKind::Hdr || kind == RequestKind::Xhdr;
    if header_query {
        if let Some(header) = header_query_name_from_args(args) {
            if !hdr_field_is_supported(header) {
                return Some(HDR_FIELD_UNAVAILABLE_RESPONSE);
            }
        }
    }
    let current: bool = if kind == RequestKind::Over || kind == RequestKind::Xover {
        args.len() == 0
    } else {
        header_query && field_second(args).is_none()
    };
    if current {
        return current_article_error(state);
    }
    let mut by_message_id: bool = has_message_id;
    let mut beyond: bool = check_beyond(article_id, state);
    if let Some(selector) = overview_selector_arg(kind, args) {
        if overview_selector_requires_group(selector) && !state.group_selected {
            return Some(NO_GROUP_SELECTED_RESPONSE);
        }
        if !overview_selector_is_message_id(selector) && overview_selector_is_range(selector)
            && !range_selects_articles(selector, state.article_count()) {
            return Some(NO_ARTICLES_IN_RANGE_RESPONSE);
        }
        beyond = beyond || (only_digits(selector) && check_beyond(parse_number(selector), state));
        by_message_id = by_message_id || overview_selector_is_message_id(selector);
    }
    if beyond {
        Some(NO_ARTICLE_NUMBER_RESPONSE)
    } else if by_message_id && check_says_missing(args) {
        Some(NO_ARTICLE_MESSAGE_ID_RESPONSE)
    } else {
        None
    }
}

/// A selector is a message-id exactly where it starts with an angle bracket.
pub proof fn law_message_id_selectors_start_with_a_bracket(selector: Seq<u8>)
    ensures
        names_message_id(selector) <==> selector.len() > 0 && selector[0] == 60,
{
    reveal_strlit("<");
    assert("<".is_ascii());
    assert("<".spec_bytes() =~= seq![60u8]);
    if selector.len() > 0 {
        assert(selector.subrange(0, 1) =~= seq![selector[0]]);
        assert(seq![selector[0]][0] == selector[0]);
    }
}

/// `OVER` and `XOVER` answer a message-id with the row of the first article, under the number 0.
pub proof fn law_overview_of_message_id(args: Seq<u8>, count: u64)
    requires
        names_message_id(args),
    ensures
        over_text(args, count).spec_bytes() == OVER_HEAD.spec_bytes() + seq![48u8]
            + OVER_ROW_1.spec_bytes().skip(1) + DOT_TERMINATOR.spec_bytes(),
        xover_text(args, count).spec_bytes() == over_text(args, count).spec_bytes(),
{
    law_message_id_selectors_start_with_a_bracket(args);
    terminator::lemma_dot_terminator();
    reveal_strlit("224 Overview information follows\r\n");
    assert(OVER_HEAD.is_ascii());
    reveal_strlit(
        "1\tSubject one\tone@example.com\tFri, 16 May 2026 12:00:00 +0000\t<one@example.com>\t\t123\t4\r\n",
    );
    assert(OVER_ROW_1.is_ascii());
    reveal_strlit(
        "224 Overview information follows\r\n0\tSubject one\tone@example.com\tFri, 16 May 2026 12:00:00 +0000\t<one@example.com>\t\t123\t4\r\n.\r\n",
    );
    assert(OVER_MESSAGE_ID_RESPONSE.is_ascii());
    assert(OVER_MESSAGE_ID_RESPONSE.spec_bytes() =~= OVER_HEAD.spec_bytes() + seq![48u8]
        + OVER_ROW_1.spec_bytes().skip(1) + DOT_TERMINATOR.spec_bytes());
}

/// `HDR` and `XHDR` answer a message-id with the row of the first article, under the number 0.
#[verifier::rlimit(30)]
pub proof fn law_headers_of_message_id(args: Seq<u8>, selector: Seq<u8>, count: u64)
    requires
        bytes::second_field(args) == Some(selector),
        names_message_id(selector),
    ensures
        hdr_text(args, count).spec_bytes() == HDR_HEAD.spec_bytes() + seq![48u8] + header_row(
            column_of(args),
            false,
        ).spec_bytes().skip(1) + DOT_TERMINATOR.spec_bytes(),
        xhdr_text(args, count).spec_bytes() == XHDR_HEAD.spec_bytes() + seq![48u8] + header_row(
            column_of(args),
            false,
        ).spec_bytes().skip(1) + DOT_TERMINATOR.spec_bytes(),
{
    terminator::lemma_dot_terminator();
    lemma_hdr_message_id_cells();
    lemma_xhdr_message_id_cells();
}

#[verifier::rlimit(30)]
proof fn lemma_hdr_message_id_cells()
    ensures
        forall|column: HeaderColumn|
            (#[trigger] hdr_cell(column, SelectorShape::MessageId)).spec_bytes()
                == HDR_HEAD.spec_bytes() + seq![48u8] + header_row(
                column,
                false,
            ).spec_bytes().skip(1) + DOT_TERMINATOR.spec_bytes(),
{
    terminator::lemma_dot_terminator();
    reveal_strlit("225 headers follow\r\n");
    assert(HDR_HEAD.is_ascii());
    let head = HDR_HEAD.spec_bytes();
    let dot = DOT_TERMINATOR.spec_bytes();
    assert(HDR_MESSAGE_ID_MESSAGE_ID_RESPONSE.spec_bytes() =~= head + seq![48u8] + MESSAGE_ID_ROW_1.spec_bytes().skip(1) + dot) by {
        reveal_strlit("225 headers follow\r\n0 <one@example.com>\r\n.\r\n");
        reveal_strlit("1 <one@example.com>\r\n");
        assert(HDR_MESSAGE_ID_MESSAGE_ID_RESPONSE.is_ascii());
        assert(MESSAGE_ID_ROW_1.is_ascii());
    }
    assert(HDR_BYTES_MESSAGE_ID_RESPONSE.spec_bytes() =~= head + seq![48u8] + BYTES_ROW_1.spec_bytes().skip(1) + dot) by {
        reveal_strlit("225 headers follow\r\n0 123\r\n.\r\n");
        reveal_strlit("1 123\r\n");
        assert(HDR_BYTES_MESSAGE_ID_RESPONSE.is_ascii());
        assert(BYTES_ROW_1.is_ascii());
    }
    assert(HDR_LINES_MESSAGE_ID_RESPONSE.spec_bytes() =~= head + seq![48u8] + LINES_ROW_1.spec_bytes().skip(1) + dot) by {
        reveal_strlit("225 headers follow\r\n0 4\r\n.\r\n");
        reveal_strlit("1 4\r\n");
        assert(HDR_LINES_MESSAGE_ID_RESPONSE.is_ascii());
        assert(LINES_ROW_1.is_ascii());
    }
    assert(HDR_SUBJECT_MESSAGE_ID_RESPONSE.spec_bytes() =~= head + seq![48u8] + SUBJECT_ROW_1.spec_bytes().skip(1) + dot) by {
        reveal_strlit("225 headers follow\r\n0 example one\r\n.\r\n");
        reveal_strlit("1 example one\r\n");
        assert(HDR_SUBJECT_MESSAGE_ID_RESPONSE.is_ascii());
        assert(SUBJECT_ROW_1.is_ascii());
    }
}

#[verifier::rlimit(30)]
proof fn lemma_xhdr_message_id_cells()
    ensures
        forall|column: HeaderColumn|
            (#[trigger] xhdr_cell(column, SelectorShape::MessageId)).spec_bytes()
                == XHDR_HEAD.spec_bytes() + seq![48u8] + header_row(
                column,
                false,
            ).spec_bytes().skip(1) + DOT_TERMINATOR.spec_bytes(),
{
    terminator::lemma_dot_terminator();
    reveal_strlit("221 headers follow\r\n");
    assert(XHDR_HEAD.is_ascii());
    let head = XHDR_HEAD.spec_bytes();
    let dot = DOT_TERMINATOR.spec_bytes();
    assert(XHDR_MESSAGE_ID_MESSAGE_ID_RESPONSE.spec_bytes() =~= head + seq![48u8] + MESSAGE_ID_ROW_1.spec_bytes().skip(1) + dot) by {
        reveal_strlit("221 headers follow\r\n0 <one@example.com>\r\n.\r\n");
        reveal_strlit("1 <one@example.com>\r\n");
        assert(XHDR_MESSAGE_ID_MESSAGE_ID_RESPONSE.is_ascii());
        assert(MESSAGE_ID_ROW_1.is_ascii());
    }
    assert(XHDR_BYTES_MESSAGE_ID_RESPONSE.spec_bytes() =~= head + seq![48u8] + BYTES_ROW_1.spec_bytes().skip(1) + dot) by {
        reveal_strlit("221 headers follow\r\n0 123\r\n.\r\n");
        reveal_strlit("1 123\r\n");
        assert(XHDR_BYTES_MESSAGE_ID_RESPONSE.is_ascii());
        assert(BYTES_ROW_1.is_ascii());
    }
    assert(XHDR_LINES_MESSAGE_ID_RESPONSE.spec_bytes() =~= head + seq![48u8] + LINES_ROW_1.spec_bytes().skip(1) + dot) by {
        reveal_strlit("221 headers follow\r\n0 4\r\n.\r\n");
        reveal_strlit("1 4\r\n");
        assert(XHDR_LINES_MESSAGE_ID_RESPONSE.is_ascii());
        assert(LINES_ROW_1.is_ascii());
    }
    assert(XHDR_SUBJECT_MESSAGE_ID_RESPONSE.spec_bytes() =~= head + seq![48u8] + SUBJECT_ROW_1.spec_bytes().skip(1) + dot) by {
        reveal_strlit("221 headers follow\r\n0 example one\r\n.\r\n");
        reveal_strlit("1 example one\r\n");
        assert(XHDR_SUBJECT_MESSAGE_ID_RESPONSE.is_ascii());
        assert(SUBJECT_ROW_1.is_ascii());
    }
}

/// The first word of a header query decides what its rows say of the first article and of the
/// second.
pub proof fn law_header_name_decides_the_rows(name: Seq<u8>, selector: Seq<u8>)
    requires
        forall|i: int|
            0 <= i < name.len() ==> #[trigger] name[i] != bytes::SPACE && name[i] != bytes::TAB,
    ensures
        ({
            let args = name + seq![SPACE] + selector;
            let first = header_row(column_of(args), false);
            let second = header_row(column_of(args), true);
            &&& column_of(args) == column_of(name)
            &&& bytes::same_letters(name, "Message-ID".spec_bytes()) ==> first
                == "1 <one@example.com>\r\n" && second == "2 <two@example.com>\r\n"
            &&& bytes::same_letters(name, ":bytes".spec_bytes()) ==> first == "1 123\r\n" && second
                == "2 456\r\n"
            &&& bytes::same_letters(name, ":lines".spec_bytes()) ==> first == "1 4\r\n" && second
                == "2 8\r\n"
            &&& bytes::same_letters(name, "Subject".spec_bytes()) ==> first == "1 example one\r\n"
                && second == "2 example two\r\n"
        }),
{
    let args = name + seq![SPACE] + selector;
    let at = name.len() as int;
    assert forall|j: int| 0 <= j < at implies !crate::request_line::is_blank(#[trigger] args[j]) by {
        assert(args[j] == name[j]);
    }
    assert(args[at] == SPACE);
    crate::request_line::lemma_blank_from_is(args, 0, at);
    crate::request_line::lemma_blank_from_is(name, 0, at);
    assert(args.subrange(0, at) =~= name);
    assert(name.subrange(0, at) =~= name);
    reveal_strlit("Message-ID");
    reveal_strlit(":bytes");
    reveal_strlit(":lines");
    reveal_strlit("Subject");
    assert("Message-ID".is_ascii() && ":bytes".is_ascii() && ":lines".is_ascii());
    assert("Subject".is_ascii());
    if bytes::same_letters(name, ":lines".spec_bytes()) {
        assert(bytes::lower(name[1]) == bytes::lower(":lines".spec_bytes()[1]));
        assert(bytes::same_letters(name, ":bytes".spec_bytes()) ==> bytes::lower(name[1])
            == bytes::lower(":bytes".spec_bytes()[1]));
    }
}

/// Every answer to a look at articles starts with the line that says what follows.
pub proof fn law_looks_are_answered_with_their_line(args: Seq<u8>, count: u64)
    ensures
        bytes::starts_with(over_text(args, count).spec_bytes(), OVER_HEAD.spec_bytes()),
        bytes::starts_with(xover_text(args, count).spec_bytes(), OVER_HEAD.spec_bytes()),
        bytes::starts_with(hdr_text(args, count).spec_bytes(), HDR_HEAD.spec_bytes()),
        bytes::starts_with(xhdr_text(args, count).spec_bytes(), XHDR_HEAD.spec_bytes()),
{
    lemma_over_starts(args, count);
    lemma_hdr_starts(column_of(args), header_shape(selector_of(RequestKind::Hdr, args), count));
    lemma_xhdr_starts(column_of(args), header_shape(selector_of(RequestKind::Xhdr, args), count));
}

proof fn lemma_over_starts(args: Seq<u8>, count: u64)
    ensures
        bytes::starts_with(over_text(args, count).spec_bytes(), OVER_HEAD.spec_bytes()),
        bytes::starts_with(xover_text(args, count).spec_bytes(), OVER_HEAD.spec_bytes()),
{
    let head = OVER_HEAD.spec_bytes();
    let text = over_text(args, count).spec_bytes();
    if overview_shape(args, count) == SelectorShape::MessageId {
        law_overview_of_message_id(args, count);
    } else {
        lemma_over_rows();
    }
    assert(text.subrange(0, head.len() as int) =~= head);
}

proof fn lemma_hdr_starts(column: HeaderColumn, shape: SelectorShape)
    ensures
        bytes::starts_with(hdr_cell(column, shape).spec_bytes(), HDR_HEAD.spec_bytes()),
{
    let head = HDR_HEAD.spec_bytes();
    let text = hdr_cell(column, shape).spec_bytes();
    if shape == SelectorShape::MessageId {
        lemma_hdr_message_id_cells();
    } else {
        match column {
            HeaderColumn::MessageId => lemma_hdr_message_id_rows(),
            HeaderColumn::Bytes => lemma_hdr_bytes_rows(),
            HeaderColumn::Lines => lemma_hdr_lines_rows(),
            HeaderColumn::Subject => lemma_hdr_subject_rows(),
        }
    }
    assert(text.subrange(0, head.len() as int) =~= head);
}

proof fn lemma_xhdr_starts(column: HeaderColumn, shape: SelectorShape)
    ensures
        bytes::starts_with(xhdr_cell(column, shape).spec_bytes(), XHDR_HEAD.spec_bytes()),
{
    let head = XHDR_HEAD.spec_bytes();
    let text = xhdr_cell(column, shape).spec_bytes();
    if shape == SelectorShape::MessageId {
        lemma_xhdr_message_id_cells();
    } else {
        match column {
            HeaderColumn::MessageId => lemma_xhdr_message_id_rows(),
            HeaderColumn::Bytes => lemma_xhdr_bytes_rows(),
            HeaderColumn::Lines => lemma_xhdr_lines_rows(),
            HeaderColumn::Subject => lemma_xhdr_subject_rows(),
        }
    }
    assert(text.subrange(0, head.len() as int) =~= head);
}

} // verus!
