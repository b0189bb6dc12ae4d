//! What the server answers, as the client that asked reads it.
use crate::bytes;
use crate::bytes::{DOT, LF};
use crate::commands;
use crate::commands::{CommandLineBatch, ParsedCommand};
use crate::date;
use crate::generate;
use crate::groups;
use crate::groups::{FixtureGroup, SessionState};
use crate::listing;
use crate::overview;
use crate::overview::{HeaderColumn, SelectorShape};
use crate::request_line;
use crate::request_line::RequestKind;
use crate::response;
use crate::response::FrameStatus;
use crate::responses::{
    ARTICLE_NOT_WANTED_RESPONSE, ARTICLE_RESPONSE_PREFIX, BODY_RESPONSE_PREFIX,
    CAPABILITIES_RESPONSE, COMMAND_UNAVAILABLE_RESPONSE, CRLF, GROUP_COMP_RESPONSE, GROUP_RESPONSE,
    HDR_BYTES_1_RESPONSE, HDR_BYTES_2_RESPONSE, HDR_BYTES_MESSAGE_ID_RESPONSE, HDR_BYTES_RESPONSE,
    HDR_EMPTY_RESPONSE, HDR_FIELD_UNAVAILABLE_RESPONSE, HDR_LINES_1_RESPONSE, HDR_LINES_2_RESPONSE,
    HDR_LINES_MESSAGE_ID_RESPONSE, HDR_LINES_RESPONSE, HDR_MESSAGE_ID_1_RESPONSE,
    HDR_MESSAGE_ID_2_RESPONSE, HDR_MESSAGE_ID_MESSAGE_ID_RESPONSE, HDR_MESSAGE_ID_RESPONSE,
    HDR_RESPONSE, HDR_SUBJECT_1_RESPONSE, HDR_SUBJECT_2_RESPONSE, HDR_SUBJECT_MESSAGE_ID_RESPONSE,
    HEAD_RESPONSE, HELP_RESPONSE, LAST_RESPONSE, LINE_TOO_LONG_RESPONSE, LISTGROUP_1_2_RESPONSE,
    LISTGROUP_1_RESPONSE, LISTGROUP_2_3_RESPONSE, LISTGROUP_2_RESPONSE, LISTGROUP_3_RESPONSE,
    LISTGROUP_COMP_EMPTY_RESPONSE, LISTGROUP_COMP_RESPONSE, LISTGROUP_EMPTY_RESPONSE,
    LISTGROUP_RESPONSE, LIST_ACTIVE_ALT_RESPONSE, LIST_ACTIVE_COMP_RESPONSE,
    LIST_ACTIVE_TIMES_ALT_RESPONSE, LIST_ACTIVE_TIMES_COMP_RESPONSE, LIST_ACTIVE_TIMES_RESPONSE,
    LIST_DISTRIB_PATS_RESPONSE, LIST_EMPTY_RESPONSE, LIST_HEADERS_RESPONSE,
    LIST_INFO_EMPTY_RESPONSE, LIST_NEWSGROUPS_ALT_RESPONSE, LIST_NEWSGROUPS_COMP_RESPONSE,
    LIST_NEWSGROUPS_RESPONSE, LIST_OVERVIEW_FMT_RESPONSE, LIST_RESPONSE, MODE_READER_RESPONSE,
    NAVIGATION_ARTICLE_2_RESPONSE, NAVIGATION_ARTICLE_3_RESPONSE, NEWGROUPS_EMPTY_RESPONSE,
    NEWGROUPS_RESPONSE, NEWNEWS_EMPTY_RESPONSE, NEWNEWS_RESPONSE, NEXT_RESPONSE,
    NO_ARTICLES_IN_RANGE_RESPONSE, NO_ARTICLE_MESSAGE_ID_RESPONSE, NO_ARTICLE_NUMBER_RESPONSE,
    NO_CURRENT_ARTICLE_RESPONSE, NO_GROUP_SELECTED_RESPONSE, NO_NEXT_ARTICLE_RESPONSE,
    NO_PREVIOUS_ARTICLE_RESPONSE, NO_SUCH_GROUP_RESPONSE, OVER_2_RESPONSE, OVER_EMPTY_RESPONSE,
    OVER_MESSAGE_ID_RESPONSE, OVER_RANGE_RESPONSE, OVER_RESPONSE, POSTING_NOT_PERMITTED_RESPONSE,
    QUIT_RESPONSE, STAT_RESPONSE, SYNTAX_ERROR_RESPONSE, TLS_REQUIRED_RESPONSE,
    UNKNOWN_COMMAND_RESPONSE, XHDR_BYTES_1_RESPONSE, XHDR_BYTES_2_RESPONSE,
    XHDR_BYTES_MESSAGE_ID_RESPONSE, XHDR_BYTES_RESPONSE, XHDR_EMPTY_RESPONSE, XHDR_LINES_1_RESPONSE,
    XHDR_LINES_2_RESPONSE, XHDR_LINES_MESSAGE_ID_RESPONSE, XHDR_LINES_RESPONSE,
    XHDR_MESSAGE_ID_1_RESPONSE, XHDR_MESSAGE_ID_2_RESPONSE, XHDR_MESSAGE_ID_MESSAGE_ID_RESPONSE,
    XHDR_MESSAGE_ID_RESPONSE, XHDR_RESPONSE, XHDR_SUBJECT_1_RESPONSE, XHDR_SUBJECT_2_RESPONSE,
    XHDR_SUBJECT_MESSAGE_ID_RESPONSE,
};
use crate::server_config::ServerConfig;
use crate::session;
use crate::session::CommandFacts;
use crate::terminator;
use crate::terminator::DOT_TERMINATOR;
use crate::text;
use crate::values;
use crate::values::MAX_INITIAL_RESPONSE_LINE_BYTES;
use vstd::prelude::*;
use vstd::string::StringSliceAdditionalSpecFns;

verus! {

/// The whole text is the first response in it, to a request of this kind.
pub open spec fn is_one_response(kind: RequestKind, text: Seq<u8>) -> bool {
    response::frame_status(kind, text) == FrameStatus::CompleteAt(text.len() as usize)
}

/// A text that is one status line.
pub open spec fn is_line_text(text: Seq<u8>, status: u16) -> bool {
    &&& 4 <= text.len() <= MAX_INITIAL_RESPONSE_LINE_BYTES
    &&& response::status_of(text) == Some(status)
    &&& terminator::crlf_at(text, text.len() - 2)
    &&& forall|j: int| 0 <= j < text.len() - 2 ==> #[trigger] text[j] >= 0x20
}

/// A text that is a status line of `end` bytes and a block of lines behind it.
pub open spec fn is_block_text(text: Seq<u8>, end: int, status: u16) -> bool {
    &&& 4 <= end <= MAX_INITIAL_RESPONSE_LINE_BYTES
    &&& end + 3 <= text.len() <= 0xffff_ffff
    &&& response::status_of(text) == Some(status)
    &&& terminator::crlf_at(text, end - 2)
    &&& forall|j: int| 0 <= j < end - 2 ==> #[trigger] text[j] >= 0x20
    &&& terminator::crlf_at(text, text.len() - 5)
    &&& text[text.len() - 3] == DOT
    &&& terminator::crlf_at(text, text.len() - 2)
    &&& forall|i: int|
        end <= i < text.len() - 3 && #[trigger] text[i] == DOT ==> text[i - 1] != LF
}

/// One status line with the status of an error.
pub open spec fn is_refusal_text(text: Seq<u8>) -> bool {
    response::status_of(text) matches Some(status) && status >= 400 && is_line_text(text, status)
}

proof fn lemma_line_text(kind: RequestKind, text: Seq<u8>, status: u16)
    requires
        is_line_text(text, status),
        !response::has_block(kind, status),
    ensures
        is_one_response(kind, text),
{
    terminator::lemma_line_status_is(text, 0, text.len() - 2);
    assert(text.subrange(0, text.len() as int) =~= text);
}

proof fn lemma_block_text(kind: RequestKind, text: Seq<u8>, end: int, status: u16)
    requires
        is_block_text(text, end, status),
        response::has_block(kind, status),
    ensures
        is_one_response(kind, text),
{
    let len = text.len() as int;
    terminator::lemma_line_status_is(text, 0, end - 2);
    let line = text.subrange(0, end);
    assert(line[0] == text[0] && line[1] == text[1] && line[2] == text[2] && line[3] == text[3]);
    assert(terminator::dot_line_ends_at(text, end, len));
    assert forall|e: int| end <= e < len implies !terminator::dot_line_ends_at(text, end, e) by {
        if terminator::dot_line_ends_at(text, end, e) {
            assert(text[e - 3] == DOT);
            assert(text[e - 4] == LF);
        }
    }
    terminator::lemma_block_end_is(text, end, len);
}

/// A text that is one response and has the status of no error.
pub open spec fn is_answer_text(kind: RequestKind, text: Seq<u8>) -> bool {
    &&& is_one_response(kind, text)
    &&& response::status_of(text) matches Some(status) && status < 400
}

proof fn lemma_refusal_text(kind: RequestKind, text: Seq<u8>)
    requires
        is_refusal_text(text),
    ensures
        is_one_response(kind, text),
{
    lemma_line_text(kind, text, response::status_of(text)->0);
}

#[verifier::rlimit(30)]
proof fn lemma_selection_refusals()
    ensures
        is_refusal_text(NO_ARTICLES_IN_RANGE_RESPONSE.spec_bytes()),
        is_refusal_text(NO_ARTICLE_MESSAGE_ID_RESPONSE.spec_bytes()),
        is_refusal_text(NO_ARTICLE_NUMBER_RESPONSE.spec_bytes()),
        is_refusal_text(NO_CURRENT_ARTICLE_RESPONSE.spec_bytes()),
        is_refusal_text(NO_GROUP_SELECTED_RESPONSE.spec_bytes()),
        is_refusal_text(NO_NEXT_ARTICLE_RESPONSE.spec_bytes()),
        is_refusal_text(NO_PREVIOUS_ARTICLE_RESPONSE.spec_bytes()),
        is_refusal_text(NO_SUCH_GROUP_RESPONSE.spec_bytes()),
{
    assert(is_refusal_text(NO_ARTICLES_IN_RANGE_RESPONSE.spec_bytes())) by {
        reveal_strlit("423 no articles in that range\r\n");
        assert(NO_ARTICLES_IN_RANGE_RESPONSE.is_ascii());
    }
    assert(is_refusal_text(NO_ARTICLE_MESSAGE_ID_RESPONSE.spec_bytes())) by {
        reveal_strlit("430 no article with that message-id\r\n");
        assert(NO_ARTICLE_MESSAGE_ID_RESPONSE.is_ascii());
    }
    assert(is_refusal_text(NO_ARTICLE_NUMBER_RESPONSE.spec_bytes())) by {
        reveal_strlit("423 no article with that number\r\n");
        assert(NO_ARTICLE_NUMBER_RESPONSE.is_ascii());
    }
    assert(is_refusal_text(NO_CURRENT_ARTICLE_RESPONSE.spec_bytes())) by {
        reveal_strlit("420 no current article selected\r\n");
        assert(NO_CURRENT_ARTICLE_RESPONSE.is_ascii());
    }
    assert(is_refusal_text(NO_GROUP_SELECTED_RESPONSE.spec_bytes())) by {
        reveal_strlit("412 no newsgroup selected\r\n");
        assert(NO_GROUP_SELECTED_RESPONSE.is_ascii());
    }
    assert(is_refusal_text(NO_NEXT_ARTICLE_RESPONSE.spec_bytes())) by {
        reveal_strlit("421 no next article in this group\r\n");
        assert(NO_NEXT_ARTICLE_RESPONSE.is_ascii());
    }
    assert(is_refusal_text(NO_PREVIOUS_ARTICLE_RESPONSE.spec_bytes())) by {
        reveal_strlit("422 no previous article in this group\r\n");
        assert(NO_PREVIOUS_ARTICLE_RESPONSE.is_ascii());
    }
    assert(is_refusal_text(NO_SUCH_GROUP_RESPONSE.spec_bytes())) by {
        reveal_strlit("411 no such newsgroup\r\n");
        assert(NO_SUCH_GROUP_RESPONSE.is_ascii());
    }
}

#[verifier::rlimit(30)]
proof fn lemma_command_refusals()
    ensures
        is_refusal_text(ARTICLE_NOT_WANTED_RESPONSE.spec_bytes()),
        is_refusal_text(COMMAND_UNAVAILABLE_RESPONSE.spec_bytes()),
        is_refusal_text(HDR_FIELD_UNAVAILABLE_RESPONSE.spec_bytes()),
        is_refusal_text(LINE_TOO_LONG_RESPONSE.spec_bytes()),
        is_refusal_text(POSTING_NOT_PERMITTED_RESPONSE.spec_bytes()),
        is_refusal_text(SYNTAX_ERROR_RESPONSE.spec_bytes()),
        is_refusal_text(TLS_REQUIRED_RESPONSE.spec_bytes()),
        is_refusal_text(UNKNOWN_COMMAND_RESPONSE.spec_bytes()),
{
    assert(is_refusal_text(ARTICLE_NOT_WANTED_RESPONSE.spec_bytes())) by {
        reveal_strlit("435 article not wanted\r\n");
        assert(ARTICLE_NOT_WANTED_RESPONSE.is_ascii());
    }
    assert(is_refusal_text(COMMAND_UNAVAILABLE_RESPONSE.spec_bytes())) by {
        reveal_strlit("502 command unavailable\r\n");
        assert(COMMAND_UNAVAILABLE_RESPONSE.is_ascii());
    }
    assert(is_refusal_text(HDR_FIELD_UNAVAILABLE_RESPONSE.spec_bytes())) by {
        reveal_strlit("503 HDR field unavailable\r\n");
        assert(HDR_FIELD_UNAVAILABLE_RESPONSE.is_ascii());
    }
    assert(is_refusal_text(LINE_TOO_LONG_RESPONSE.spec_bytes())) by {
        reveal_strlit("501 command line too long\r\n");
        assert(LINE_TOO_LONG_RESPONSE.is_ascii());
    }
    assert(is_refusal_text(POSTING_NOT_PERMITTED_RESPONSE.spec_bytes())) by {
        reveal_strlit("440 posting not permitted\r\n");
        assert(POSTING_NOT_PERMITTED_RESPONSE.is_ascii());
    }
    assert(is_refusal_text(SYNTAX_ERROR_RESPONSE.spec_bytes())) by {
        reveal_strlit("501 command syntax error\r\n");
        assert(SYNTAX_ERROR_RESPONSE.is_ascii());
    }
    assert(is_refusal_text(TLS_REQUIRED_RESPONSE.spec_bytes())) by {
        reveal_strlit("483 command unavailable until TLS has been negotiated\r\n");
        assert(TLS_REQUIRED_RESPONSE.is_ascii());
    }
    assert(is_refusal_text(UNKNOWN_COMMAND_RESPONSE.spec_bytes())) by {
        reveal_strlit("500 unknown command\r\n");
        assert(UNKNOWN_COMMAND_RESPONSE.is_ascii());
    }
}

proof fn lemma_list_active(kind: RequestKind, patterns: Seq<u8>)
    ensures
        is_answer_text(kind, LIST_RESPONSE.spec_bytes()),
        is_answer_text(kind, listing::list_active_text(patterns).spec_bytes()),
{
    assert(is_block_text(LIST_RESPONSE.spec_bytes(), 32, 215)) by {
        reveal_strlit(
            "215 list of newsgroups follows\r\ncomp.lang.rust 0000000001 0000000001 y\r\nalt.test 0000000003 0000000001 y\r\n.\r\n",
        );
        assert(LIST_RESPONSE.is_ascii());
    }
    assert(is_block_text(LIST_ACTIVE_COMP_RESPONSE.spec_bytes(), 32, 215)) by {
        reveal_strlit(
            "215 list of newsgroups follows\r\ncomp.lang.rust 0000000001 0000000001 y\r\n.\r\n",
        );
        assert(LIST_ACTIVE_COMP_RESPONSE.is_ascii());
    }
    assert(is_block_text(LIST_ACTIVE_ALT_RESPONSE.spec_bytes(), 32, 215)) by {
        reveal_strlit(
            "215 list of newsgroups follows\r\nalt.test 0000000003 0000000001 y\r\n.\r\n",
        );
        assert(LIST_ACTIVE_ALT_RESPONSE.is_ascii());
    }
    assert(is_block_text(LIST_EMPTY_RESPONSE.spec_bytes(), 32, 215)) by {
        reveal_strlit("215 list of newsgroups follows\r\n.\r\n");
        assert(LIST_EMPTY_RESPONSE.is_ascii());
    }
    lemma_block_text(kind, LIST_RESPONSE.spec_bytes(), 32, 215);
    lemma_block_text(kind, listing::list_active_text(patterns).spec_bytes(), 32, 215);
}

proof fn lemma_list_active_times(kind: RequestKind, patterns: Seq<u8>)
    ensures
        is_answer_text(kind, listing::list_active_times_text(patterns).spec_bytes()),
{
    assert(is_block_text(LIST_ACTIVE_TIMES_RESPONSE.spec_bytes(), 25, 215)) by {
        reveal_strlit(
            "215 information follows\r\ncomp.lang.rust 1715904000 admin@nntpbench.local\r\nalt.test 1715907600 admin@nntpbench.local\r\n.\r\n",
        );
        assert(LIST_ACTIVE_TIMES_RESPONSE.is_ascii());
    }
    assert(is_block_text(LIST_ACTIVE_TIMES_COMP_RESPONSE.spec_bytes(), 25, 215)) by {
        reveal_strlit(
            "215 information follows\r\ncomp.lang.rust 1715904000 admin@nntpbench.local\r\n.\r\n",
        );
        assert(LIST_ACTIVE_TIMES_COMP_RESPONSE.is_ascii());
    }
    assert(is_block_text(LIST_ACTIVE_TIMES_ALT_RESPONSE.spec_bytes(), 25, 215)) by {
        reveal_strlit(
            "215 information follows\r\nalt.test 1715907600 admin@nntpbench.local\r\n.\r\n",
        );
        assert(LIST_ACTIVE_TIMES_ALT_RESPONSE.is_ascii());
    }
    assert(is_block_text(LIST_INFO_EMPTY_RESPONSE.spec_bytes(), 25, 215)) by {
        reveal_strlit("215 information follows\r\n.\r\n");
        assert(LIST_INFO_EMPTY_RESPONSE.is_ascii());
    }
    lemma_block_text(kind, listing::list_active_times_text(patterns).spec_bytes(), 25, 215);
}

proof fn lemma_list_newsgroups(kind: RequestKind, patterns: Seq<u8>)
    ensures
        is_answer_text(kind, listing::list_newsgroups_text(patterns).spec_bytes()),
{
    assert(is_block_text(LIST_NEWSGROUPS_RESPONSE.spec_bytes(), 25, 215)) by {
        reveal_strlit(
            "215 information follows\r\ncomp.lang.rust The Rust programming language\r\nalt.test Synthetic benchmark group\r\n.\r\n",
        );
        assert(LIST_NEWSGROUPS_RESPONSE.is_ascii());
    }
    assert(is_block_text(LIST_NEWSGROUPS_COMP_RESPONSE.spec_bytes(), 25, 215)) by {
        reveal_strlit(
            "215 information follows\r\ncomp.lang.rust The Rust programming language\r\n.\r\n",
        );
        assert(LIST_NEWSGROUPS_COMP_RESPONSE.is_ascii());
    }
    assert(is_block_text(LIST_NEWSGROUPS_ALT_RESPONSE.spec_bytes(), 25, 215)) by {
        reveal_strlit("215 information follows\r\nalt.test Synthetic benchmark group\r\n.\r\n");
        assert(LIST_NEWSGROUPS_ALT_RESPONSE.is_ascii());
    }
    assert(is_block_text(LIST_INFO_EMPTY_RESPONSE.spec_bytes(), 25, 215)) by {
        reveal_strlit("215 information follows\r\n.\r\n");
        assert(LIST_INFO_EMPTY_RESPONSE.is_ascii());
    }
    lemma_block_text(kind, listing::list_newsgroups_text(patterns).spec_bytes(), 25, 215);
}

proof fn lemma_list_others(kind: RequestKind)
    ensures
        is_answer_text(kind, LIST_OVERVIEW_FMT_RESPONSE.spec_bytes()),
        is_answer_text(kind, LIST_HEADERS_RESPONSE.spec_bytes()),
        is_answer_text(kind, LIST_DISTRIB_PATS_RESPONSE.spec_bytes()),
{
    assert(is_block_text(LIST_OVERVIEW_FMT_RESPONSE.spec_bytes(), 42, 215)) by {
        reveal_strlit(
            "215 Order of fields in overview database\r\nSubject:\r\nFrom:\r\nDate:\r\nMessage-ID:\r\nReferences:\r\n:bytes\r\n:lines\r\n.\r\n",
        );
        assert(LIST_OVERVIEW_FMT_RESPONSE.is_ascii());
    }
    assert(is_block_text(LIST_HEADERS_RESPONSE.spec_bytes(), 23, 215)) by {
        reveal_strlit(
            "215 headers supported\r\n:bytes\r\n:lines\r\nSubject\r\nFrom\r\nDate\r\nMessage-ID\r\nReferences\r\n.\r\n",
        );
        assert(LIST_HEADERS_RESPONSE.is_ascii());
    }
    assert(is_block_text(LIST_DISTRIB_PATS_RESPONSE.spec_bytes(), 27, 215)) by {
        reveal_strlit("215 distribution patterns\r\n1:*:world\r\n2:*.local:local\r\n.\r\n");
        assert(LIST_DISTRIB_PATS_RESPONSE.is_ascii());
    }
    lemma_block_text(kind, LIST_OVERVIEW_FMT_RESPONSE.spec_bytes(), 42, 215);
    lemma_block_text(kind, LIST_HEADERS_RESPONSE.spec_bytes(), 23, 215);
    lemma_block_text(kind, LIST_DISTRIB_PATS_RESPONSE.spec_bytes(), 27, 215);
}

proof fn lemma_group(group: FixtureGroup)
    ensures
        is_answer_text(RequestKind::Group, groups::group_text(group).spec_bytes()),
{
    assert(is_line_text(GROUP_RESPONSE.spec_bytes(), 211)) by {
        reveal_strlit("211 3 1 3 alt.test\r\n");
        assert(GROUP_RESPONSE.is_ascii());
    }
    assert(is_line_text(GROUP_COMP_RESPONSE.spec_bytes(), 211)) by {
        reveal_strlit("211 1 1 1 comp.lang.rust\r\n");
        assert(GROUP_COMP_RESPONSE.is_ascii());
    }
    lemma_line_text(RequestKind::Group, groups::group_text(group).spec_bytes(), 211);
}

#[verifier::rlimit(30)]
proof fn lemma_alt_listing(range: Option<Seq<u8>>)
    ensures
        is_block_text(
            groups::listing_text(FixtureGroup::AltTest, range).spec_bytes(),
            20,
            211,
        ),
{
    assert(is_block_text(LISTGROUP_RESPONSE.spec_bytes(), 20, 211)) by {
        reveal_strlit("211 3 1 3 alt.test\r\n1\r\n2\r\n3\r\n.\r\n");
        assert(LISTGROUP_RESPONSE.is_ascii());
    }
    assert(is_block_text(LISTGROUP_EMPTY_RESPONSE.spec_bytes(), 20, 211)) by {
        reveal_strlit("211 3 1 3 alt.test\r\n.\r\n");
        assert(LISTGROUP_EMPTY_RESPONSE.is_ascii());
    }
    assert(is_block_text(LISTGROUP_1_RESPONSE.spec_bytes(), 20, 211)) by {
        reveal_strlit("211 3 1 3 alt.test\r\n1\r\n.\r\n");
        assert(LISTGROUP_1_RESPONSE.is_ascii());
    }
    assert(is_block_text(LISTGROUP_2_RESPONSE.spec_bytes(), 20, 211)) by {
        reveal_strlit("211 3 1 3 alt.test\r\n2\r\n.\r\n");
        assert(LISTGROUP_2_RESPONSE.is_ascii());
    }
    assert(is_block_text(LISTGROUP_3_RESPONSE.spec_bytes(), 20, 211)) by {
        reveal_strlit("211 3 1 3 alt.test\r\n3\r\n.\r\n");
        assert(LISTGROUP_3_RESPONSE.is_ascii());
    }
    assert(is_block_text(LISTGROUP_1_2_RESPONSE.spec_bytes(), 20, 211)) by {
        reveal_strlit("211 3 1 3 alt.test\r\n1\r\n2\r\n.\r\n");
        assert(LISTGROUP_1_2_RESPONSE.is_ascii());
    }
    assert(is_block_text(LISTGROUP_2_3_RESPONSE.spec_bytes(), 20, 211)) by {
        reveal_strlit("211 3 1 3 alt.test\r\n2\r\n3\r\n.\r\n");
        assert(LISTGROUP_2_3_RESPONSE.is_ascii());
    }
}

proof fn lemma_comp_listing(range: Option<Seq<u8>>)
    ensures
        is_block_text(
            groups::listing_text(FixtureGroup::CompLangRust, range).spec_bytes(),
            26,
            211,
        ),
{
    assert(is_block_text(LISTGROUP_COMP_RESPONSE.spec_bytes(), 26, 211)) by {
        reveal_strlit("211 1 1 1 comp.lang.rust\r\n1\r\n.\r\n");
        assert(LISTGROUP_COMP_RESPONSE.is_ascii());
    }
    assert(is_block_text(LISTGROUP_COMP_EMPTY_RESPONSE.spec_bytes(), 26, 211)) by {
        reveal_strlit("211 1 1 1 comp.lang.rust\r\n.\r\n");
        assert(LISTGROUP_COMP_EMPTY_RESPONSE.is_ascii());
    }
}

proof fn lemma_listgroup(args: Seq<u8>, current: Option<FixtureGroup>)
    requires
        !groups::names_unknown_group(args),
    ensures
        is_answer_text(
            RequestKind::ListGroup,
            groups::listgroup_text(args, current).spec_bytes(),
        ),
{
    let text = groups::listgroup_text(args, current).spec_bytes();
    let range = groups::listgroup_range(args);
    if groups::listed_group(args, current) == Some(FixtureGroup::CompLangRust) {
        lemma_comp_listing(range);
        lemma_block_text(RequestKind::ListGroup, text, 26, 211);
    } else {
        lemma_alt_listing(range);
        lemma_block_text(RequestKind::ListGroup, text, 20, 211);
    }
}

proof fn lemma_moves(kind: RequestKind)
    ensures
        is_answer_text(kind, LAST_RESPONSE.spec_bytes()),
        is_answer_text(kind, NEXT_RESPONSE.spec_bytes()),
        is_answer_text(kind, NAVIGATION_ARTICLE_2_RESPONSE.spec_bytes()),
        is_answer_text(kind, NAVIGATION_ARTICLE_3_RESPONSE.spec_bytes()),
{
    assert(is_line_text(LAST_RESPONSE.spec_bytes(), 223)) by {
        reveal_strlit("223 1 <prev@alt.test> article retrieved - request text separately\r\n");
        assert(LAST_RESPONSE.is_ascii());
    }
    assert(is_line_text(NEXT_RESPONSE.spec_bytes(), 223)) by {
        reveal_strlit("223 2 <next@alt.test> article retrieved - request text separately\r\n");
        assert(NEXT_RESPONSE.is_ascii());
    }
    assert(is_line_text(NAVIGATION_ARTICLE_2_RESPONSE.spec_bytes(), 223)) by {
        reveal_strlit(
            "223 2 <article.2@alt.test> article retrieved - request text separately\r\n",
        );
        assert(NAVIGATION_ARTICLE_2_RESPONSE.is_ascii());
    }
    assert(is_line_text(NAVIGATION_ARTICLE_3_RESPONSE.spec_bytes(), 223)) by {
        reveal_strlit(
            "223 3 <article.3@alt.test> article retrieved - request text separately\r\n",
        );
        assert(NAVIGATION_ARTICLE_3_RESPONSE.is_ascii());
    }
    lemma_line_text(kind, LAST_RESPONSE.spec_bytes(), 223);
    lemma_line_text(kind, NEXT_RESPONSE.spec_bytes(), 223);
    lemma_line_text(kind, NAVIGATION_ARTICLE_2_RESPONSE.spec_bytes(), 223);
    lemma_line_text(kind, NAVIGATION_ARTICLE_3_RESPONSE.spec_bytes(), 223);
}

proof fn lemma_news(kind: RequestKind)
    ensures
        is_answer_text(kind, NEWGROUPS_RESPONSE.spec_bytes()),
        is_answer_text(kind, NEWGROUPS_EMPTY_RESPONSE.spec_bytes()),
        is_answer_text(kind, NEWNEWS_RESPONSE.spec_bytes()),
        is_answer_text(kind, NEWNEWS_EMPTY_RESPONSE.spec_bytes()),
{
    assert(is_block_text(NEWGROUPS_RESPONSE.spec_bytes(), 36, 231)) by {
        reveal_strlit(
            "231 list of new newsgroups follows\r\ncomp.lang.rust 0000000001 0000000001 y\r\nalt.test 0000000003 0000000001 y\r\n.\r\n",
        );
        assert(NEWGROUPS_RESPONSE.is_ascii());
    }
    assert(is_block_text(NEWGROUPS_EMPTY_RESPONSE.spec_bytes(), 36, 231)) by {
        reveal_strlit("231 list of new newsgroups follows\r\n.\r\n");
        assert(NEWGROUPS_EMPTY_RESPONSE.is_ascii());
    }
    assert(is_block_text(NEWNEWS_RESPONSE.spec_bytes(), 34, 230)) by {
        reveal_strlit(
            "230 list of new articles follows\r\n<one@alt.test>\r\n<two@alt.test>\r\n.\r\n",
        );
        assert(NEWNEWS_RESPONSE.is_ascii());
    }
    assert(is_block_text(NEWNEWS_EMPTY_RESPONSE.spec_bytes(), 34, 230)) by {
        reveal_strlit("230 list of new articles follows\r\n.\r\n");
        assert(NEWNEWS_EMPTY_RESPONSE.is_ascii());
    }
    lemma_block_text(kind, NEWGROUPS_RESPONSE.spec_bytes(), 36, 231);
    lemma_block_text(kind, NEWGROUPS_EMPTY_RESPONSE.spec_bytes(), 36, 231);
    lemma_block_text(kind, NEWNEWS_RESPONSE.spec_bytes(), 34, 230);
    lemma_block_text(kind, NEWNEWS_EMPTY_RESPONSE.spec_bytes(), 34, 230);
}

#[verifier::rlimit(30)]
proof fn lemma_overviews(args: Seq<u8>, count: u64)
    ensures
        is_block_text(overview::over_text(args, count).spec_bytes(), 34, 224),
        is_block_text(overview::xover_text(args, count).spec_bytes(), 34, 224),
{
    assert(is_block_text(OVER_RESPONSE.spec_bytes(), 34, 224)) by {
        reveal_strlit(
            "224 Overview information follows\r\n1\tSubject one\tone@example.com\tFri, 16 May 2026 12:00:00 +0000\t<one@example.com>\t\t123\t4\r\n.\r\n",
        );
        assert(OVER_RESPONSE.is_ascii());
    }
    assert(is_block_text(OVER_MESSAGE_ID_RESPONSE.spec_bytes(), 34, 224)) by {
        reveal_strlit(
            "224 Overview information follows\r\n0\tSubject one\tone@example.com\tFri, 16 May 2026 12:00:00 +0000\t<one@example.com>\t\t123\t4\r\n.\r\n",
        );
        assert(OVER_MESSAGE_ID_RESPONSE.is_ascii());
    }
    assert(is_block_text(OVER_2_RESPONSE.spec_bytes(), 34, 224)) by {
        reveal_strlit(
            "224 Overview information follows\r\n2\tSubject two\ttwo@example.com\tFri, 16 May 2026 12:00:01 +0000\t<two@example.com>\t<ref@example.com>\t456\t8\r\n.\r\n",
        );
        assert(OVER_2_RESPONSE.is_ascii());
    }
    assert(is_block_text(OVER_RANGE_RESPONSE.spec_bytes(), 34, 224)) by {
        reveal_strlit(
            "224 Overview information follows\r\n1\tSubject one\tone@example.com\tFri, 16 May 2026 12:00:00 +0000\t<one@example.com>\t\t123\t4\r\n2\tSubject two\ttwo@example.com\tFri, 16 May 2026 12:00:01 +0000\t<two@example.com>\t<ref@example.com>\t456\t8\r\n.\r\n",
        );
        assert(OVER_RANGE_RESPONSE.is_ascii());
    }
    assert(is_block_text(OVER_EMPTY_RESPONSE.spec_bytes(), 34, 224)) by {
        reveal_strlit("224 Overview information follows\r\n.\r\n");
        assert(OVER_EMPTY_RESPONSE.is_ascii());
    }
}

proof fn lemma_over(kind: RequestKind, args: Seq<u8>, count: u64)
    ensures
        is_answer_text(kind, overview::over_text(args, count).spec_bytes()),
        is_answer_text(kind, overview::xover_text(args, count).spec_bytes()),
{
    lemma_overviews(args, count);
    lemma_block_text(kind, overview::over_text(args, count).spec_bytes(), 34, 224);
    lemma_block_text(kind, overview::xover_text(args, count).spec_bytes(), 34, 224);
}

proof fn lemma_hdr_message_id(shape: SelectorShape)
    ensures
        is_block_text(overview::hdr_cell(HeaderColumn::MessageId, shape).spec_bytes(), 20, 225),
{
    assert(is_block_text(HDR_MESSAGE_ID_MESSAGE_ID_RESPONSE.spec_bytes(), 20, 225)) by {
        reveal_strlit("225 headers follow\r\n0 <one@example.com>\r\n.\r\n");
        assert(HDR_MESSAGE_ID_MESSAGE_ID_RESPONSE.is_ascii());
    }
    assert(is_block_text(HDR_MESSAGE_ID_1_RESPONSE.spec_bytes(), 20, 225)) by {
        reveal_strlit("225 headers follow\r\n1 <one@example.com>\r\n.\r\n");
        assert(HDR_MESSAGE_ID_1_RESPONSE.is_ascii());
    }
    assert(is_block_text(HDR_MESSAGE_ID_2_RESPONSE.spec_bytes(), 20, 225)) by {
        reveal_strlit("225 headers follow\r\n2 <two@example.com>\r\n.\r\n");
        assert(HDR_MESSAGE_ID_2_RESPONSE.is_ascii());
    }
    assert(is_block_text(HDR_MESSAGE_ID_RESPONSE.spec_bytes(), 20, 225)) by {
        reveal_strlit(
            "225 headers follow\r\n1 <one@example.com>\r\n2 <two@example.com>\r\n.\r\n",
        );
        assert(HDR_MESSAGE_ID_RESPONSE.is_ascii());
    }
    assert(is_block_text(HDR_EMPTY_RESPONSE.spec_bytes(), 20, 225)) by {
        reveal_strlit("225 headers follow\r\n.\r\n");
        assert(HDR_EMPTY_RESPONSE.is_ascii());
    }
}

proof fn lemma_hdr_bytes(shape: SelectorShape)
    ensures
        is_block_text(overview::hdr_cell(HeaderColumn::Bytes, shape).spec_bytes(), 20, 225),
{
    assert(is_block_text(HDR_BYTES_MESSAGE_ID_RESPONSE.spec_bytes(), 20, 225)) by {
        reveal_strlit("225 headers follow\r\n0 123\r\n.\r\n");
        assert(HDR_BYTES_MESSAGE_ID_RESPONSE.is_ascii());
    }
    assert(is_block_text(HDR_BYTES_1_RESPONSE.spec_bytes(), 20, 225)) by {
        reveal_strlit("225 headers follow\r\n1 123\r\n.\r\n");
        assert(HDR_BYTES_1_RESPONSE.is_ascii());
    }
    assert(is_block_text(HDR_BYTES_2_RESPONSE.spec_bytes(), 20, 225)) by {
        reveal_strlit("225 headers follow\r\n2 456\r\n.\r\n");
        assert(HDR_BYTES_2_RESPONSE.is_ascii());
    }
    assert(is_block_text(HDR_BYTES_RESPONSE.spec_bytes(), 20, 225)) by {
        reveal_strlit("225 headers follow\r\n1 123\r\n2 456\r\n.\r\n");
        assert(HDR_BYTES_RESPONSE.is_ascii());
    }
    assert(is_block_text(HDR_EMPTY_RESPONSE.spec_bytes(), 20, 225)) by {
        reveal_strlit("225 headers follow\r\n.\r\n");
        assert(HDR_EMPTY_RESPONSE.is_ascii());
    }
}

proof fn lemma_hdr_lines(shape: SelectorShape)
    ensures
        is_block_text(overview::hdr_cell(HeaderColumn::Lines, shape).spec_bytes(), 20, 225),
{
    assert(is_block_text(HDR_LINES_MESSAGE_ID_RESPONSE.spec_bytes(), 20, 225)) by {
        reveal_strlit("225 headers follow\r\n0 4\r\n.\r\n");
        assert(HDR_LINES_MESSAGE_ID_RESPONSE.is_ascii());
    }
    assert(is_block_text(HDR_LINES_1_RESPONSE.spec_bytes(), 20, 225)) by {
        reveal_strlit("225 headers follow\r\n1 4\r\n.\r\n");
        assert(HDR_LINES_1_RESPONSE.is_ascii());
    }
    assert(is_block_text(HDR_LINES_2_RESPONSE.spec_bytes(), 20, 225)) by {
        reveal_strlit("225 headers follow\r\n2 8\r\n.\r\n");
        assert(HDR_LINES_2_RESPONSE.is_ascii());
    }
    assert(is_block_text(HDR_LINES_RESPONSE.spec_bytes(), 20, 225)) by {
        reveal_strlit("225 headers follow\r\n1 4\r\n2 8\r\n.\r\n");
        assert(HDR_LINES_RESPONSE.is_ascii());
    }
    assert(is_block_text(HDR_EMPTY_RESPONSE.spec_bytes(), 20, 225)) by {
        reveal_strlit("225 headers follow\r\n.\r\n");
        assert(HDR_EMPTY_RESPONSE.is_ascii());
    }
}

proof fn lemma_hdr_subject(shape: SelectorShape)
    ensures
        is_block_text(overview::hdr_cell(HeaderColumn::Subject, shape).spec_bytes(), 20, 225),
{
    assert(is_block_text(HDR_SUBJECT_MESSAGE_ID_RESPONSE.spec_bytes(), 20, 225)) by {
        reveal_strlit("225 headers follow\r\n0 example one\r\n.\r\n");
        assert(HDR_SUBJECT_MESSAGE_ID_RESPONSE.is_ascii());
    }
    assert(is_block_text(HDR_SUBJECT_1_RESPONSE.spec_bytes(), 20, 225)) by {
        reveal_strlit("225 headers follow\r\n1 example one\r\n.\r\n");
        assert(HDR_SUBJECT_1_RESPONSE.is_ascii());
    }
    assert(is_block_text(HDR_SUBJECT_2_RESPONSE.spec_bytes(), 20, 225)) by {
        reveal_strlit("225 headers follow\r\n2 example two\r\n.\r\n");
        assert(HDR_SUBJECT_2_RESPONSE.is_ascii());
    }
    assert(is_block_text(HDR_RESPONSE.spec_bytes(), 20, 225)) by {
        reveal_strlit("225 headers follow\r\n1 example one\r\n2 example two\r\n.\r\n");
        assert(HDR_RESPONSE.is_ascii());
    }
    assert(is_block_text(HDR_EMPTY_RESPONSE.spec_bytes(), 20, 225)) by {
        reveal_strlit("225 headers follow\r\n.\r\n");
        assert(HDR_EMPTY_RESPONSE.is_ascii());
    }
}

proof fn lemma_hdr(kind: RequestKind, args: Seq<u8>, count: u64)
    ensures
        is_answer_text(kind, overview::hdr_text(args, count).spec_bytes()),
{
    let shape = overview::header_shape(overview::selector_of(RequestKind::Hdr, args), count);
    lemma_hdr_message_id(shape);
    lemma_hdr_bytes(shape);
    lemma_hdr_lines(shape);
    lemma_hdr_subject(shape);
    lemma_block_text(kind, overview::hdr_text(args, count).spec_bytes(), 20, 225);
}

proof fn lemma_xhdr_message_id(shape: SelectorShape)
    ensures
        is_block_text(overview::xhdr_cell(HeaderColumn::MessageId, shape).spec_bytes(), 20, 221),
{
    assert(is_block_text(XHDR_MESSAGE_ID_MESSAGE_ID_RESPONSE.spec_bytes(), 20, 221)) by {
        reveal_strlit("221 headers follow\r\n0 <one@example.com>\r\n.\r\n");
        assert(XHDR_MESSAGE_ID_MESSAGE_ID_RESPONSE.is_ascii());
    }
    assert(is_block_text(XHDR_MESSAGE_ID_1_RESPONSE.spec_bytes(), 20, 221)) by {
        reveal_strlit("221 headers follow\r\n1 <one@example.com>\r\n.\r\n");
        assert(XHDR_MESSAGE_ID_1_RESPONSE.is_ascii());
    }
    assert(is_block_text(XHDR_MESSAGE_ID_2_RESPONSE.spec_bytes(), 20, 221)) by {
        reveal_strlit("221 headers follow\r\n2 <two@example.com>\r\n.\r\n");
        assert(XHDR_MESSAGE_ID_2_RESPONSE.is_ascii());
    }
    assert(is_block_text(XHDR_MESSAGE_ID_RESPONSE.spec_bytes(), 20, 221)) by {
        reveal_strlit(
            "221 headers follow\r\n1 <one@example.com>\r\n2 <two@example.com>\r\n.\r\n",
        );
        assert(XHDR_MESSAGE_ID_RESPONSE.is_ascii());
    }
    assert(is_block_text(XHDR_EMPTY_RESPONSE.spec_bytes(), 20, 221)) by {
        reveal_strlit("221 headers follow\r\n.\r\n");
        assert(XHDR_EMPTY_RESPONSE.is_ascii());
    }
}

proof fn lemma_xhdr_bytes(shape: SelectorShape)
    ensures
        is_block_text(overview::xhdr_cell(HeaderColumn::Bytes, shape).spec_bytes(), 20, 221),
{
    assert(is_block_text(XHDR_BYTES_MESSAGE_ID_RESPONSE.spec_bytes(), 20, 221)) by {
        reveal_strlit("221 headers follow\r\n0 123\r\n.\r\n");
        assert(XHDR_BYTES_MESSAGE_ID_RESPONSE.is_ascii());
    }
    assert(is_block_text(XHDR_BYTES_1_RESPONSE.spec_bytes(), 20, 221)) by {
        reveal_strlit("221 headers follow\r\n1 123\r\n.\r\n");
        assert(XHDR_BYTES_1_RESPONSE.is_ascii());
    }
    assert(is_block_text(XHDR_BYTES_2_RESPONSE.spec_bytes(), 20, 221)) by {
        reveal_strlit("221 headers follow\r\n2 456\r\n.\r\n");
        assert(XHDR_BYTES_2_RESPONSE.is_ascii());
    }
    assert(is_block_text(XHDR_BYTES_RESPONSE.spec_bytes(), 20, 221)) by {
        reveal_strlit("221 headers follow\r\n1 123\r\n2 456\r\n.\r\n");
        assert(XHDR_BYTES_RESPONSE.is_ascii());
    }
    assert(is_block_text(XHDR_EMPTY_RESPONSE.spec_bytes(), 20, 221)) by {
        reveal_strlit("221 headers follow\r\n.\r\n");
        assert(XHDR_EMPTY_RESPONSE.is_ascii());
    }
}

proof fn lemma_xhdr_lines(shape: SelectorShape)
    ensures
        is_block_text(overview::xhdr_cell(HeaderColumn::Lines, shape).spec_bytes(), 20, 221),
{
    assert(is_block_text(XHDR_LINES_MESSAGE_ID_RESPONSE.spec_bytes(), 20, 221)) by {
        reveal_strlit("221 headers follow\r\n0 4\r\n.\r\n");
        assert(XHDR_LINES_MESSAGE_ID_RESPONSE.is_ascii());
    }
    assert(is_block_text(XHDR_LINES_1_RESPONSE.spec_bytes(), 20, 221)) by {
        reveal_strlit("221 headers follow\r\n1 4\r\n.\r\n");
        assert(XHDR_LINES_1_RESPONSE.is_ascii());
    }
    assert(is_block_text(XHDR_LINES_2_RESPONSE.spec_bytes(), 20, 221)) by {
        reveal_strlit("221 headers follow\r\n2 8\r\n.\r\n");
        assert(XHDR_LINES_2_RESPONSE.is_ascii());
    }
    assert(is_block_text(XHDR_LINES_RESPONSE.spec_bytes(), 20, 221)) by {
        reveal_strlit("221 headers follow\r\n1 4\r\n2 8\r\n.\r\n");
        assert(XHDR_LINES_RESPONSE.is_ascii());
    }
    assert(is_block_text(XHDR_EMPTY_RESPONSE.spec_bytes(), 20, 221)) by {
        reveal_strlit("221 headers follow\r\n.\r\n");
        assert(XHDR_EMPTY_RESPONSE.is_ascii());
    }
}

proof fn lemma_xhdr_subject(shape: SelectorShape)
    ensures
        is_block_text(overview::xhdr_cell(HeaderColumn::Subject, shape).spec_bytes(), 20, 221),
{
    assert(is_block_text(XHDR_SUBJECT_MESSAGE_ID_RESPONSE.spec_bytes(), 20, 221)) by {
        reveal_strlit("221 headers follow\r\n0 example one\r\n.\r\n");
        assert(XHDR_SUBJECT_MESSAGE_ID_RESPONSE.is_ascii());
    }
    assert(is_block_text(XHDR_SUBJECT_1_RESPONSE.spec_bytes(), 20, 221)) by {
        reveal_strlit("221 headers follow\r\n1 example one\r\n.\r\n");
        assert(XHDR_SUBJECT_1_RESPONSE.is_ascii());
    }
    assert(is_block_text(XHDR_SUBJECT_2_RESPONSE.spec_bytes(), 20, 221)) by {
        reveal_strlit("221 headers follow\r\n2 example two\r\n.\r\n");
        assert(XHDR_SUBJECT_2_RESPONSE.is_ascii());
    }
    assert(is_block_text(XHDR_RESPONSE.spec_bytes(), 20, 221)) by {
        reveal_strlit("221 headers follow\r\n1 example one\r\n2 example two\r\n.\r\n");
        assert(XHDR_RESPONSE.is_ascii());
    }
    assert(is_block_text(XHDR_EMPTY_RESPONSE.spec_bytes(), 20, 221)) by {
        reveal_strlit("221 headers follow\r\n.\r\n");
        assert(XHDR_EMPTY_RESPONSE.is_ascii());
    }
}

proof fn lemma_xhdr(kind: RequestKind, args: Seq<u8>, count: u64)
    ensures
        is_answer_text(kind, overview::xhdr_text(args, count).spec_bytes()),
{
    let shape = overview::header_shape(overview::selector_of(RequestKind::Xhdr, args), count);
    lemma_xhdr_message_id(shape);
    lemma_xhdr_bytes(shape);
    lemma_xhdr_lines(shape);
    lemma_xhdr_subject(shape);
    lemma_block_text(kind, overview::xhdr_text(args, count).spec_bytes(), 20, 221);
}

proof fn lemma_others(kind: RequestKind)
    ensures
        is_answer_text(kind, CAPABILITIES_RESPONSE.spec_bytes()),
        is_answer_text(kind, HELP_RESPONSE.spec_bytes()),
        is_answer_text(kind, MODE_READER_RESPONSE.spec_bytes()),
        is_answer_text(kind, QUIT_RESPONSE.spec_bytes()),
{
    assert(is_block_text(CAPABILITIES_RESPONSE.spec_bytes(), 22, 101)) by {
        reveal_strlit(
            "101 Capability list:\r\nVERSION 2\r\nREADER\r\nMODE-READER\r\nLIST ACTIVE ACTIVE.TIMES DISTRIB.PATS NEWSGROUPS OVERVIEW.FMT HEADERS\r\nOVER MSGID\r\nHDR\r\nNEWNEWS\r\nAUTHINFO\r\n.\r\n",
        );
        assert(CAPABILITIES_RESPONSE.is_ascii());
    }
    assert(is_block_text(HELP_RESPONSE.spec_bytes(), 23, 100)) by {
        reveal_strlit(
            "100 help text follows\r\nARTICLE\r\nAUTHINFO\r\nBODY\r\nCAPABILITIES\r\nCHECK\r\nDATE\r\nGROUP\r\nHDR\r\nHEAD\r\nHELP\r\nIHAVE\r\nLAST\r\nLIST\r\nLISTGROUP\r\nMODE READER\r\nNEWGROUPS\r\nNEWNEWS\r\nNEXT\r\nOVER\r\nPOST\r\nQUIT\r\nSTARTTLS\r\nSTAT\r\nTAKETHIS\r\nXHDR\r\nXOVER\r\n.\r\n",
        );
        assert(HELP_RESPONSE.is_ascii());
    }
    assert(is_line_text(MODE_READER_RESPONSE.spec_bytes(), 201)) by {
        reveal_strlit("201 posting not permitted\r\n");
        assert(MODE_READER_RESPONSE.is_ascii());
    }
    assert(is_line_text(QUIT_RESPONSE.spec_bytes(), 205)) by {
        reveal_strlit("205 closing connection\r\n");
        assert(QUIT_RESPONSE.is_ascii());
    }
    lemma_block_text(kind, CAPABILITIES_RESPONSE.spec_bytes(), 22, 101);
    lemma_block_text(kind, HELP_RESPONSE.spec_bytes(), 23, 100);
    lemma_line_text(kind, MODE_READER_RESPONSE.spec_bytes(), 201);
    lemma_line_text(kind, QUIT_RESPONSE.spec_bytes(), 205);
}

/// What is made for an article with a number and a message-id.
pub open spec fn made_text(
    kind: RequestKind,
    number: nat,
    id: Seq<u8>,
    config: ServerConfig,
) -> Seq<u8> {
    match kind {
        RequestKind::Article => generate::article_text(number, id, config.article_bytes as int),
        RequestKind::Head => generate::head_text(number, id),
        RequestKind::Stat => generate::stat_text(number, id),
        _ => generate::body_text(number, id, config.body_bytes as int),
    }
}

/// The status line of what is made for an article with a number and a message-id.
pub open spec fn made_line(kind: RequestKind, number: nat, id: Seq<u8>) -> Seq<u8> {
    match kind {
        RequestKind::Article => generate::status_line("220 ", number, id, " article follows\r\n"),
        RequestKind::Head => generate::status_line("221 ", number, id, " article retrieved\r\n"),
        RequestKind::Stat => generate::status_line("223 ", number, id, " article retrieved\r\n"),
        _ => generate::status_line("222 ", number, id, " body follows\r\n"),
    }
}

proof fn lemma_first_id()
    ensures
        bytes::decimal(1) == "1".spec_bytes(),
        generate::article_message_id(1) == "<article.1@nntpbench.local>".spec_bytes(),
{
    reveal_strlit("1");
    reveal_strlit("<article.");
    reveal_strlit("@nntpbench.local>");
    reveal_strlit("<article.1@nntpbench.local>");
    assert("1".is_ascii());
    assert("<article.".is_ascii());
    assert("@nntpbench.local>".is_ascii());
    assert("<article.1@nntpbench.local>".is_ascii());
    assert(bytes::decimal(1) =~= "1".spec_bytes());
    assert(generate::article_message_id(1) =~= "<article.1@nntpbench.local>".spec_bytes());
}

proof fn lemma_prepared_stat(id: Seq<u8>)
    requires
        id == generate::article_message_id(1),
    ensures
        STAT_RESPONSE.spec_bytes() == generate::stat_text(1, id),
{
    lemma_first_id();
    reveal_strlit("1");
    reveal_strlit("<article.1@nntpbench.local>");
    reveal_strlit("223 ");
    reveal_strlit(" ");
    reveal_strlit(" article retrieved\r\n");
    reveal_strlit("223 1 <article.1@nntpbench.local> article retrieved\r\n");
    assert("1".is_ascii());
    assert("<article.1@nntpbench.local>".is_ascii());
    assert("223 ".is_ascii());
    assert(" ".is_ascii());
    assert(" article retrieved\r\n".is_ascii());
    assert(STAT_RESPONSE.is_ascii());
    assert(STAT_RESPONSE.spec_bytes() =~= generate::stat_text(1, id));
}

proof fn lemma_prepared_body(id: Seq<u8>)
    requires
        id == generate::article_message_id(1),
    ensures
        BODY_RESPONSE_PREFIX.spec_bytes() == made_line(RequestKind::Body, 1, id),
{
    lemma_first_id();
    reveal_strlit("1");
    reveal_strlit("<article.1@nntpbench.local>");
    reveal_strlit("222 ");
    reveal_strlit(" ");
    reveal_strlit(" body follows\r\n");
    reveal_strlit("222 1 <article.1@nntpbench.local> body follows\r\n");
    assert("1".is_ascii());
    assert("<article.1@nntpbench.local>".is_ascii());
    assert("222 ".is_ascii());
    assert(" ".is_ascii());
    assert(" body follows\r\n".is_ascii());
    assert(BODY_RESPONSE_PREFIX.is_ascii());
    assert(BODY_RESPONSE_PREFIX.spec_bytes() =~= made_line(RequestKind::Body, 1, id));
}

#[verifier::rlimit(30)]
proof fn lemma_prepared_article(id: Seq<u8>)
    requires
        id == generate::article_message_id(1),
    ensures
        ARTICLE_RESPONSE_PREFIX.spec_bytes() == made_line(RequestKind::Article, 1, id)
            + generate::article_headers(id) + CRLF.spec_bytes(),
{
    lemma_first_id();
    reveal_strlit("1");
    reveal_strlit("<article.1@nntpbench.local>");
    reveal_strlit("220 ");
    reveal_strlit(" ");
    reveal_strlit(" article follows\r\n");
    reveal_strlit(
        "Path: nntpbench.local!mock\r\nFrom: Bench User <bench@nntpbench.local>\r\nNewsgroups: alt.binaries.bench\r\nSubject: nntpbench synthetic article\r\nMessage-ID: ",
    );
    reveal_strlit("\r\nDate: Fri, 15 May 2026 00:00:00 +0000\r\n");
    reveal_strlit(
        "220 1 <article.1@nntpbench.local> article follows\r\nPath: nntpbench.local!mock\r\nFrom: Bench User <bench@nntpbench.local>\r\nNewsgroups: alt.binaries.bench\r\nSubject: nntpbench synthetic article\r\nMessage-ID: <article.1@nntpbench.local>\r\nDate: Fri, 15 May 2026 00:00:00 +0000\r\n\r\n",
    );
    assert("1".is_ascii());
    assert("<article.1@nntpbench.local>".is_ascii());
    assert("220 ".is_ascii());
    assert(" ".is_ascii());
    assert(" article follows\r\n".is_ascii());
    assert(generate::SYNTHETIC_HEADERS.is_ascii());
    assert(generate::SYNTHETIC_DATE.is_ascii());
    assert(ARTICLE_RESPONSE_PREFIX.is_ascii());
    terminator::lemma_dot_terminator();
    assert(ARTICLE_RESPONSE_PREFIX.spec_bytes() =~= made_line(RequestKind::Article, 1, id)
            + generate::article_headers(id) + CRLF.spec_bytes());
}

#[verifier::rlimit(30)]
proof fn lemma_prepared_head(id: Seq<u8>)
    requires
        id == generate::article_message_id(1),
    ensures
        HEAD_RESPONSE.spec_bytes() == made_line(RequestKind::Head, 1, id)
            + generate::article_headers(id) + DOT_TERMINATOR.spec_bytes(),
{
    lemma_first_id();
    reveal_strlit("1");
    reveal_strlit("<article.1@nntpbench.local>");
    reveal_strlit("221 ");
    reveal_strlit(" ");
    reveal_strlit(" article retrieved\r\n");
    reveal_strlit(
        "Path: nntpbench.local!mock\r\nFrom: Bench User <bench@nntpbench.local>\r\nNewsgroups: alt.binaries.bench\r\nSubject: nntpbench synthetic article\r\nMessage-ID: ",
    );
    reveal_strlit("\r\nDate: Fri, 15 May 2026 00:00:00 +0000\r\n");
    reveal_strlit(
        "221 1 <article.1@nntpbench.local> article retrieved\r\nPath: nntpbench.local!mock\r\nFrom: Bench User <bench@nntpbench.local>\r\nNewsgroups: alt.binaries.bench\r\nSubject: nntpbench synthetic article\r\nMessage-ID: <article.1@nntpbench.local>\r\nDate: Fri, 15 May 2026 00:00:00 +0000\r\n.\r\n",
    );
    assert("1".is_ascii());
    assert("<article.1@nntpbench.local>".is_ascii());
    assert("221 ".is_ascii());
    assert(" ".is_ascii());
    assert(" article retrieved\r\n".is_ascii());
    assert(generate::SYNTHETIC_HEADERS.is_ascii());
    assert(generate::SYNTHETIC_DATE.is_ascii());
    assert(HEAD_RESPONSE.is_ascii());
    terminator::lemma_dot_terminator();
    assert(HEAD_RESPONSE.spec_bytes() =~= made_line(RequestKind::Head, 1, id)
            + generate::article_headers(id) + DOT_TERMINATOR.spec_bytes());
}

/// The headers of an article end a line, so nothing stands between them and the dot.
proof fn lemma_head_text(number: nat, id: Seq<u8>)
    requires
        values::is_message_id(id),
    ensures
        generate::head_text(number, id) == made_line(RequestKind::Head, number, id)
            + generate::article_headers(id) + DOT_TERMINATOR.spec_bytes(),
{
    let line = made_line(RequestKind::Head, number, id);
    let headers = generate::article_headers(id);
    let text = line + headers;
    response::lemma_header_lines(id);
    terminator::lemma_dot_terminator();
    assert(text.subrange(text.len() - 2, text.len() as int) =~= headers.subrange(
        headers.len() - 2,
        headers.len() as int,
    ));
}

/// Article 1 is answered like every other article, though its answers are prepared.
pub proof fn law_first_article_is_like_the_others(
    kind: RequestKind,
    article_id: u64,
    config: ServerConfig,
)
    requires
        config.is_prepared(),
    ensures
        session::numbered_text(kind, article_id, config) == made_text(
            kind,
            article_id as nat,
            generate::article_message_id(article_id as nat),
            config,
        ),
{
    if article_id == 1 {
        let id = generate::article_message_id(1);
        match kind {
            RequestKind::Article => {
                lemma_prepared_article(id);
            },
            RequestKind::Head => {
                generate::lemma_article_message_id(1);
                lemma_prepared_head(id);
                lemma_head_text(1, id);
            },
            RequestKind::Stat => {
                lemma_prepared_stat(id);
            },
            _ => {
                lemma_prepared_body(id);
            },
        }
    }
}

#[verifier::rlimit(30)]
proof fn lemma_line_of(kind: RequestKind, number: nat, id: Seq<u8>)
    requires
        session::retrieves(kind),
        values::is_message_id(id),
    ensures
        made_line(kind, number, id).len() >= 4,
        made_line(kind, number, id).len() <= 26 + bytes::decimal(number).len() + id.len(),
        response::status_of(made_line(kind, number, id)) matches Some(status) && status < 400,
        bytes::ends_with(made_line(kind, number, id), CRLF.spec_bytes()),
{
    reveal_strlit("220 ");
    reveal_strlit("221 ");
    reveal_strlit("222 ");
    reveal_strlit("223 ");
    reveal_strlit(" ");
    reveal_strlit(" article follows\r\n");
    reveal_strlit(" article retrieved\r\n");
    reveal_strlit(" body follows\r\n");
    assert("220 ".is_ascii());
    assert("221 ".is_ascii());
    assert("222 ".is_ascii());
    assert("223 ".is_ascii());
    assert(" ".is_ascii());
    assert(" article follows\r\n".is_ascii());
    assert(" article retrieved\r\n".is_ascii());
    assert(" body follows\r\n".is_ascii());
    match kind {
        RequestKind::Article => {
            response::lemma_status_line("220 ", number, id, " article follows\r\n");
        },
        RequestKind::Head => {
            response::lemma_status_line("221 ", number, id, " article retrieved\r\n");
        },
        RequestKind::Stat => {
            response::lemma_status_line("223 ", number, id, " article retrieved\r\n");
        },
        _ => {
            response::lemma_status_line("222 ", number, id, " body follows\r\n");
        },
    }
}

/// What is made for an article starts with its status line.
proof fn lemma_made_text(kind: RequestKind, number: nat, id: Seq<u8>, config: ServerConfig)
    requires
        session::retrieves(kind),
        values::is_message_id(id),
    ensures
        response::status_of(made_text(kind, number, id, config)) matches Some(status) && status
            < 400,
{
    let line = made_line(kind, number, id);
    let text = made_text(kind, number, id, config);
    lemma_line_of(kind, number, id);
    match kind {
        RequestKind::Article => {
            let prefix = line + generate::article_headers(id) + CRLF.spec_bytes();
            assert(prefix.subrange(
                prefix.len() - CRLF.spec_bytes().len(),
                prefix.len() as int,
            ) =~= CRLF.spec_bytes());
            generate::lemma_generated_starts(prefix, config.article_bytes as int);
            assert(text.subrange(0, prefix.len() as int).subrange(0, line.len() as int) =~= line);
            assert(text.subrange(0, line.len() as int) =~= line);
        },
        RequestKind::Head => {
            lemma_head_text(number, id);
            assert(text.subrange(0, line.len() as int) =~= line);
        },
        RequestKind::Stat => {
            assert(text.subrange(0, line.len() as int) =~= line);
        },
        _ => {
            generate::lemma_generated_starts(line, config.body_bytes as int);
        },
    }
    let start = text.subrange(0, line.len() as int);
    assert(start[0] == text[0] && start[1] == text[1] && start[2] == text[2] && start[3]
        == text[3]);
}

/// What is made for an article is one response, unless its status line is too long.
proof fn lemma_made_response(kind: RequestKind, number: nat, id: Seq<u8>, config: ServerConfig)
    requires
        session::retrieves(kind),
        values::is_message_id(id),
        made_line(kind, number, id).len() <= MAX_INITIAL_RESPONSE_LINE_BYTES,
        made_text(kind, number, id, config).len() <= usize::MAX,
    ensures
        is_one_response(kind, made_text(kind, number, id, config)),
{
    match kind {
        RequestKind::Article => {
            response::law_article_answer_is_one_response(number, id, config.article_bytes as int);
        },
        RequestKind::Head => {
            response::law_head_answer_is_one_response(number, id);
        },
        RequestKind::Stat => {
            response::law_stat_answer_is_one_response(number, id);
        },
        _ => {
            response::law_body_answer_is_one_response(number, id, config.body_bytes as int);
        },
    }
}

proof fn lemma_numbered_response(kind: RequestKind, article_id: u64, config: ServerConfig)
    requires
        session::retrieves(kind),
        config.is_prepared(),
        session::numbered_text(kind, article_id, config).len() <= usize::MAX,
    ensures
        is_one_response(kind, session::numbered_text(kind, article_id, config)),
{
    let number = article_id as nat;
    let id = generate::article_message_id(number);
    law_first_article_is_like_the_others(kind, article_id, config);
    generate::lemma_article_message_id(article_id);
    bytes::lemma_decimal_len(number);
    lemma_line_of(kind, number, id);
    lemma_made_response(kind, number, id, config);
}

proof fn lemma_date(kind: RequestKind, now: u64)
    ensures
        is_answer_text(kind, date::date_response(now as int)),
{
    let text = date::date_response(now as int);
    reveal_strlit("111 ");
    assert(date::DATE_PREFIX.is_ascii());
    terminator::lemma_dot_terminator();
    date::law_date_response_shape(now);
    let digits = text.subrange(4, 18);
    assert forall|j: int| 0 <= j < 18 implies #[trigger] text[j] >= 0x20 by {
        if j < 4 {
            assert(text[j] == text.subrange(0, 4)[j]);
        } else {
            assert(text[j] == digits[j - 4]);
            assert(bytes::is_digit(digits[j - 4]));
        }
    }
    assert(text.subrange(0, 4)[0] == text[0] && text.subrange(0, 4)[1] == text[1]
        && text.subrange(0, 4)[2] == text[2] && text.subrange(0, 4)[3] == text[3]);
    assert(text.subrange(18, 20)[0] == text[18] && text.subrange(18, 20)[1] == text[19]);
    lemma_line_text(kind, text, 111);
}

proof fn lemma_refusal(facts: CommandFacts, state: SessionState)
    requires
        session::refusal(facts, state) is Some,
    ensures
        is_refusal_text(session::refusal(facts, state)->0.spec_bytes()),
{
    lemma_selection_refusals();
    lemma_command_refusals();
}

/// The answers that are told from one of the fixed texts.
proof fn lemma_fixed_text(facts: CommandFacts, state: SessionState, now: u64)
    requires
        session::refusal(facts, state) is None,
        !session::retrieves(facts.kind),
        facts.kind != RequestKind::Date,
    ensures
        is_one_response(facts.kind, session::fixed_text(facts, state, now).spec_bytes()),
        session::is_in_reach(state) ==> is_answer_text(
            facts.kind,
            session::fixed_text(facts, state, now).spec_bytes(),
        ),
{
    let kind = facts.kind;
    let args = facts.args;
    match kind {
        RequestKind::List | RequestKind::ListActive => {
            lemma_list_active(kind, listing::list_wildmat(kind, args));
        },
        RequestKind::ListActiveTimes => {
            lemma_list_active_times(kind, listing::list_wildmat(kind, args));
        },
        RequestKind::ListNewsgroups => {
            lemma_list_newsgroups(kind, listing::list_wildmat(kind, args));
        },
        RequestKind::ListOverviewFmt
        | RequestKind::ListHeaders
        | RequestKind::ListDistribPats => {
            lemma_list_others(kind);
        },
        RequestKind::Group => {
            lemma_group(groups::group_named(args)->0);
        },
        RequestKind::ListGroup => {
            lemma_listgroup(args, Some(session::listgroup_target(args, state)));
        },
        RequestKind::Last | RequestKind::Next => {
            lemma_moves(kind);
            lemma_selection_refusals();
            lemma_refusal_text(kind, NO_ARTICLE_NUMBER_RESPONSE.spec_bytes());
        },
        RequestKind::NewGroups | RequestKind::NewNews => {
            lemma_news(kind);
        },
        RequestKind::Over | RequestKind::Xover => {
            lemma_over(
                kind,
                overview::overview_args(args, state.current_article),
                groups::articles_in_reach(state),
            );
        },
        RequestKind::Hdr => {
            lemma_hdr(
                kind,
                overview::header_args(args, state.current_article),
                groups::articles_in_reach(state),
            );
        },
        RequestKind::Xhdr => {
            lemma_xhdr(
                kind,
                overview::header_args(args, state.current_article),
                groups::articles_in_reach(state),
            );
        },
        _ => {
            lemma_others(kind);
        },
    }
}

/// Every answer of a session is one response to the client that asked: it ends where the client
/// takes the response to end, whatever the command and the state of the session. Left out are
/// answers that name a message-id in a status line that is too long for a client.
pub proof fn law_every_answer_is_one_response(
    command: ParsedCommand,
    lines: Option<&CommandLineBatch>,
    config: ServerConfig,
    state: SessionState,
    now: u64,
)
    requires
        config.is_prepared(),
        session::reply_text(session::facts_of(command, lines), config, state, now).len()
            <= usize::MAX,
        session::retrieves(command.kind) ==> (commands::message_id_of(command, lines) matches Some(
            id,
        ) ==> made_line(command.kind, 0, id).len() <= MAX_INITIAL_RESPONSE_LINE_BYTES),
    ensures
        is_one_response(
            command.kind,
            session::reply_text(session::facts_of(command, lines), config, state, now),
        ),
{
    let facts = session::facts_of(command, lines);
    if session::refusal(facts, state) is Some {
        lemma_refusal(facts, state);
        lemma_refusal_text(command.kind, session::refusal(facts, state)->0.spec_bytes());
    } else if session::retrieves(command.kind) {
        match facts.message_id {
            Some(id) => {
                lemma_made_response(command.kind, 0, id, config);
            },
            None => {
                lemma_numbered_response(
                    command.kind,
                    session::chosen_article(facts.article_id, state),
                    config,
                );
            },
        }
    } else if command.kind == RequestKind::Date {
        lemma_date(command.kind, now);
    } else {
        lemma_fixed_text(facts, state, now);
    }
}

/// Pipelined answers are read one by one: the first of them ends where the next begins, whatever
/// that is.
pub proof fn law_pipelined_answers_stay_apart(
    command: ParsedCommand,
    lines: Option<&CommandLineBatch>,
    config: ServerConfig,
    state: SessionState,
    now: u64,
    next: Seq<u8>,
)
    requires
        config.is_prepared(),
        session::reply_text(session::facts_of(command, lines), config, state, now).len()
            + next.len() <= usize::MAX,
        session::retrieves(command.kind) ==> (commands::message_id_of(command, lines) matches Some(
            id,
        ) ==> made_line(command.kind, 0, id).len() <= MAX_INITIAL_RESPONSE_LINE_BYTES),
    ensures
        ({
            let reply = session::reply_text(session::facts_of(command, lines), config, state, now);
            response::frame_status(command.kind, reply + next) == FrameStatus::CompleteAt(
                reply.len() as usize,
            )
        }),
{
    let reply = session::reply_text(session::facts_of(command, lines), config, state, now);
    law_every_answer_is_one_response(command, lines, config, state, now);
    response::law_more_input_keeps_the_response(command.kind, reply, next);
}

/// An answer has the status of an error exactly where the command is refused.
pub proof fn law_error_status_is_a_refusal(
    command: ParsedCommand,
    lines: Option<&CommandLineBatch>,
    config: ServerConfig,
    state: SessionState,
    now: u64,
)
    requires
        config.is_prepared(),
        session::is_in_reach(state),
    ensures
        ({
            let facts = session::facts_of(command, lines);
            response::status_of(session::reply_text(facts, config, state, now)) matches Some(status)
                && (status >= 400 <==> session::refusal(facts, state) is Some)
        }),
{
    let facts = session::facts_of(command, lines);
    if session::refusal(facts, state) is Some {
        lemma_refusal(facts, state);
    } else if session::retrieves(command.kind) {
        match facts.message_id {
            Some(id) => {
                lemma_made_text(command.kind, 0, id, config);
            },
            None => {
                let article_id = session::chosen_article(facts.article_id, state);
                law_first_article_is_like_the_others(command.kind, article_id, config);
                generate::lemma_article_message_id(article_id);
                lemma_made_text(
                    command.kind,
                    article_id as nat,
                    generate::article_message_id(article_id as nat),
                    config,
                );
            },
        }
    } else if command.kind == RequestKind::Date {
        lemma_date(command.kind, now);
    } else {
        lemma_fixed_text(facts, state, now);
    }
}

proof fn lemma_lone_text(line: Seq<u8>, now: u64)
    requires
        !session::retrieves(request_line::request_kind(line)),
        request_line::request_kind(line) != RequestKind::Date,
    ensures
        is_one_response(
            request_line::request_kind(line),
            session::lone_text(line, now).spec_bytes(),
        ),
{
    let kind = request_line::request_kind(line);
    let args = request_line::request_args(line);
    let text = session::lone_text(line, now).spec_bytes();
    match kind {
        RequestKind::List | RequestKind::ListActive => {
            lemma_list_active(kind, listing::list_wildmat(kind, args));
        },
        RequestKind::ListActiveTimes => {
            lemma_list_active_times(kind, listing::list_wildmat(kind, args));
        },
        RequestKind::ListNewsgroups => {
            lemma_list_newsgroups(kind, listing::list_wildmat(kind, args));
        },
        RequestKind::ListOverviewFmt
        | RequestKind::ListHeaders
        | RequestKind::ListDistribPats => {
            lemma_list_others(kind);
        },
        RequestKind::Group => match groups::group_named(args) {
            Some(group) => {
                lemma_group(group);
            },
            None => {
                lemma_selection_refusals();
                lemma_refusal_text(kind, text);
            },
        },
        RequestKind::ListGroup => if groups::names_unknown_group(args) {
            lemma_selection_refusals();
            lemma_refusal_text(kind, text);
        } else {
            lemma_listgroup(args, None);
        },
        RequestKind::Last | RequestKind::Next => {
            lemma_moves(kind);
        },
        RequestKind::NewGroups | RequestKind::NewNews => {
            lemma_news(kind);
        },
        RequestKind::Over | RequestKind::Xover => {
            lemma_over(kind, args, groups::group_size(FixtureGroup::AltTest));
        },
        RequestKind::Hdr => {
            lemma_hdr(kind, args, groups::group_size(FixtureGroup::AltTest));
        },
        RequestKind::Xhdr => {
            lemma_xhdr(kind, args, groups::group_size(FixtureGroup::AltTest));
        },
        RequestKind::Capabilities
        | RequestKind::Help
        | RequestKind::ModeReader
        | RequestKind::Quit => {
            lemma_others(kind);
        },
        _ => {
            lemma_command_refusals();
            lemma_refusal_text(kind, text);
        },
    }
}

/// The answer to a request without a session is one response to the client that asked. What the
/// store holds is sent as it is, so it has to be one.
pub proof fn law_every_lone_answer_is_one_response(
    line: Seq<u8>,
    config: ServerConfig,
    now: u64,
    stored: Option<Seq<u8>>,
)
    requires
        config.is_prepared(),
        session::lone_reply(line, config, now, stored).len() <= usize::MAX,
        stored matches Some(text) ==> is_one_response(RequestKind::Article, text),
        session::retrieves(request_line::request_kind(line)) ==> (
        request_line::request_message_id(line) matches Some(id) ==> made_line(
            request_line::request_kind(line),
            0,
            id,
        ).len() <= MAX_INITIAL_RESPONSE_LINE_BYTES),
    ensures
        is_one_response(
            request_line::request_kind(line),
            session::lone_reply(line, config, now, stored),
        ),
{
    let kind = request_line::request_kind(line);
    let article_id = text::article_id_arg(request_line::request_args(line));
    let message_id = request_line::request_message_id(line);
    if kind == RequestKind::Date {
        lemma_date(kind, now);
    } else if kind == RequestKind::Article && config.article_dir is Some {
        lemma_selection_refusals();
        lemma_refusal_text(
            kind,
            session::not_found_text(article_id, message_id is Some).spec_bytes(),
        );
    } else if session::retrieves(kind) {
        match message_id {
            Some(id) => {
                lemma_made_response(kind, 0, id, config);
            },
            None => {
                lemma_numbered_response(
                    kind,
                    match article_id {
                        Some(id) => id,
                        None => 1,
                    },
                    config,
                );
            },
        }
    } else {
        lemma_lone_text(line, now);
    }
}

} // verus!
