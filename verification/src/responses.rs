//! The fixed texts that the server answers with.
use vstd::prelude::*;

verus! {

pub const CRLF: &'static str = "\r\n";

pub const TERMINATOR: &'static str = "\r\n.\r\n";

pub const GREETING: &'static str = "201 nntpbench mock server ready\r\n";

pub const MODE_READER_RESPONSE: &'static str = "201 posting not permitted\r\n";

pub const DATE_RESPONSE: &'static str = "111 20260602120000\r\n";

pub const LIST_RESPONSE: &'static str =
    "215 list of newsgroups follows\r\ncomp.lang.rust 0000000001 0000000001 y\r\nalt.test 0000000003 0000000001 y\r\n.\r\n";

pub const LIST_ACTIVE_COMP_RESPONSE: &'static str =
    "215 list of newsgroups follows\r\ncomp.lang.rust 0000000001 0000000001 y\r\n.\r\n";

pub const LIST_ACTIVE_ALT_RESPONSE: &'static str =
    "215 list of newsgroups follows\r\nalt.test 0000000003 0000000001 y\r\n.\r\n";

pub const LIST_EMPTY_RESPONSE: &'static str = "215 list of newsgroups follows\r\n.\r\n";

pub const LIST_ACTIVE_TIMES_RESPONSE: &'static str =
    "215 information follows\r\ncomp.lang.rust 1715904000 admin@nntpbench.local\r\nalt.test 1715907600 admin@nntpbench.local\r\n.\r\n";

pub const LIST_ACTIVE_TIMES_COMP_RESPONSE: &'static str =
    "215 information follows\r\ncomp.lang.rust 1715904000 admin@nntpbench.local\r\n.\r\n";

pub const LIST_ACTIVE_TIMES_ALT_RESPONSE: &'static str =
    "215 information follows\r\nalt.test 1715907600 admin@nntpbench.local\r\n.\r\n";

pub const LIST_INFO_EMPTY_RESPONSE: &'static str = "215 information follows\r\n.\r\n";

pub const LIST_NEWSGROUPS_RESPONSE: &'static str =
    "215 information follows\r\ncomp.lang.rust The Rust programming language\r\nalt.test Synthetic benchmark group\r\n.\r\n";

pub const LIST_NEWSGROUPS_COMP_RESPONSE: &'static str =
    "215 information follows\r\ncomp.lang.rust The Rust programming language\r\n.\r\n";

pub const LIST_NEWSGROUPS_ALT_RESPONSE: &'static str =
    "215 information follows\r\nalt.test Synthetic benchmark group\r\n.\r\n";

pub const LIST_OVERVIEW_FMT_RESPONSE: &'static str =
    "215 Order of fields in overview database\r\nSubject:\r\nFrom:\r\nDate:\r\nMessage-ID:\r\nReferences:\r\n:bytes\r\n:lines\r\n.\r\n";

pub const LIST_HEADERS_RESPONSE: &'static str =
    "215 headers supported\r\n:bytes\r\n:lines\r\nSubject\r\nFrom\r\nDate\r\nMessage-ID\r\nReferences\r\n.\r\n";

pub const LIST_DISTRIB_PATS_RESPONSE: &'static str =
    "215 distribution patterns\r\n1:*:world\r\n2:*.local:local\r\n.\r\n";

pub const GROUP_RESPONSE: &'static str = "211 3 1 3 alt.test\r\n";

pub const GROUP_COMP_RESPONSE: &'static str = "211 1 1 1 comp.lang.rust\r\n";

pub const LISTGROUP_RESPONSE: &'static str = "211 3 1 3 alt.test\r\n1\r\n2\r\n3\r\n.\r\n";

pub const LISTGROUP_COMP_RESPONSE: &'static str = "211 1 1 1 comp.lang.rust\r\n1\r\n.\r\n";

pub const LISTGROUP_COMP_EMPTY_RESPONSE: &'static str = "211 1 1 1 comp.lang.rust\r\n.\r\n";

pub const LISTGROUP_EMPTY_RESPONSE: &'static str = "211 3 1 3 alt.test\r\n.\r\n";

pub const LISTGROUP_1_RESPONSE: &'static str = "211 3 1 3 alt.test\r\n1\r\n.\r\n";

pub const LISTGROUP_2_RESPONSE: &'static str = "211 3 1 3 alt.test\r\n2\r\n.\r\n";

pub const LISTGROUP_3_RESPONSE: &'static str = "211 3 1 3 alt.test\r\n3\r\n.\r\n";

pub const LISTGROUP_1_2_RESPONSE: &'static str = "211 3 1 3 alt.test\r\n1\r\n2\r\n.\r\n";

pub const LISTGROUP_2_3_RESPONSE: &'static str = "211 3 1 3 alt.test\r\n2\r\n3\r\n.\r\n";

pub const LAST_RESPONSE: &'static str =
    "223 1 <prev@alt.test> article retrieved - request text separately\r\n";

pub const NEXT_RESPONSE: &'static str =
    "223 2 <next@alt.test> article retrieved - request text separately\r\n";

pub const NAVIGATION_ARTICLE_2_RESPONSE: &'static str =
    "223 2 <article.2@alt.test> article retrieved - request text separately\r\n";

pub const NAVIGATION_ARTICLE_3_RESPONSE: &'static str =
    "223 3 <article.3@alt.test> article retrieved - request text separately\r\n";

pub const NEWGROUPS_RESPONSE: &'static str =
    "231 list of new newsgroups follows\r\ncomp.lang.rust 0000000001 0000000001 y\r\nalt.test 0000000003 0000000001 y\r\n.\r\n";

pub const NEWGROUPS_EMPTY_RESPONSE: &'static str = "231 list of new newsgroups follows\r\n.\r\n";

pub const NEWNEWS_RESPONSE: &'static str =
    "230 list of new articles follows\r\n<one@alt.test>\r\n<two@alt.test>\r\n.\r\n";

pub const NEWNEWS_EMPTY_RESPONSE: &'static str = "230 list of new articles follows\r\n.\r\n";

pub const POST_RESPONSE: &'static str = "340 send article to be posted\r\n";

pub const IHAVE_RESPONSE: &'static str = "335 send article to be transferred\r\n";

pub const CHECK_RESPONSE: &'static str = "238 <check@test> send article to be transferred\r\n";

pub const TAKETHIS_RESPONSE: &'static str = "239 <take@test> article transferred ok\r\n";

pub const AUTHINFO_USER_RESPONSE: &'static str = "381 more authentication information required\r\n";

pub const AUTHINFO_RESPONSE: &'static str = "281 authentication accepted\r\n";

pub const STARTTLS_RESPONSE: &'static str = "382 continue with TLS negotiation\r\n";

pub const OVER_EMPTY_RESPONSE: &'static str = "224 Overview information follows\r\n.\r\n";

pub const OVER_RESPONSE: &'static str =
    "224 Overview information follows\r\n1\tSubject one\tone@example.com\tFri, 16 May 2026 12:00:00 +0000\t<one@example.com>\t\t123\t4\r\n.\r\n";

pub const OVER_MESSAGE_ID_RESPONSE: &'static str =
    "224 Overview information follows\r\n0\tSubject one\tone@example.com\tFri, 16 May 2026 12:00:00 +0000\t<one@example.com>\t\t123\t4\r\n.\r\n";

pub const OVER_2_RESPONSE: &'static str =
    "224 Overview information follows\r\n2\tSubject two\ttwo@example.com\tFri, 16 May 2026 12:00:01 +0000\t<two@example.com>\t<ref@example.com>\t456\t8\r\n.\r\n";

pub const OVER_RANGE_RESPONSE: &'static str =
    "224 Overview information follows\r\n1\tSubject one\tone@example.com\tFri, 16 May 2026 12:00:00 +0000\t<one@example.com>\t\t123\t4\r\n2\tSubject two\ttwo@example.com\tFri, 16 May 2026 12:00:01 +0000\t<two@example.com>\t<ref@example.com>\t456\t8\r\n.\r\n";

pub const XOVER_RESPONSE: &'static str = OVER_RANGE_RESPONSE;

pub const HDR_EMPTY_RESPONSE: &'static str = "225 headers follow\r\n.\r\n";

pub const HDR_RESPONSE: &'static str =
    "225 headers follow\r\n1 example one\r\n2 example two\r\n.\r\n";

pub const HDR_SUBJECT_MESSAGE_ID_RESPONSE: &'static str =
    "225 headers follow\r\n0 example one\r\n.\r\n";

pub const HDR_SUBJECT_1_RESPONSE: &'static str = "225 headers follow\r\n1 example one\r\n.\r\n";

pub const HDR_SUBJECT_2_RESPONSE: &'static str = "225 headers follow\r\n2 example two\r\n.\r\n";

pub const XHDR_EMPTY_RESPONSE: &'static str = "221 headers follow\r\n.\r\n";

pub const XHDR_RESPONSE: &'static str =
    "221 headers follow\r\n1 example one\r\n2 example two\r\n.\r\n";

pub const XHDR_SUBJECT_MESSAGE_ID_RESPONSE: &'static str =
    "221 headers follow\r\n0 example one\r\n.\r\n";

pub const XHDR_SUBJECT_1_RESPONSE: &'static str = "221 headers follow\r\n1 example one\r\n.\r\n";

pub const XHDR_SUBJECT_2_RESPONSE: &'static str = "221 headers follow\r\n2 example two\r\n.\r\n";

pub const HDR_MESSAGE_ID_RESPONSE: &'static str =
    "225 headers follow\r\n1 <one@example.com>\r\n2 <two@example.com>\r\n.\r\n";

pub const HDR_MESSAGE_ID_MESSAGE_ID_RESPONSE: &'static str =
    "225 headers follow\r\n0 <one@example.com>\r\n.\r\n";

pub const HDR_MESSAGE_ID_1_RESPONSE: &'static str =
    "225 headers follow\r\n1 <one@example.com>\r\n.\r\n";

pub const HDR_MESSAGE_ID_2_RESPONSE: &'static str =
    "225 headers follow\r\n2 <two@example.com>\r\n.\r\n";

pub const HDR_BYTES_RESPONSE: &'static str = "225 headers follow\r\n1 123\r\n2 456\r\n.\r\n";

pub const HDR_BYTES_MESSAGE_ID_RESPONSE: &'static str = "225 headers follow\r\n0 123\r\n.\r\n";

pub const HDR_BYTES_1_RESPONSE: &'static str = "225 headers follow\r\n1 123\r\n.\r\n";

pub const HDR_BYTES_2_RESPONSE: &'static str = "225 headers follow\r\n2 456\r\n.\r\n";

pub const HDR_LINES_RESPONSE: &'static str = "225 headers follow\r\n1 4\r\n2 8\r\n.\r\n";

pub const HDR_LINES_MESSAGE_ID_RESPONSE: &'static str = "225 headers follow\r\n0 4\r\n.\r\n";

pub const HDR_LINES_1_RESPONSE: &'static str = "225 headers follow\r\n1 4\r\n.\r\n";

pub const HDR_LINES_2_RESPONSE: &'static str = "225 headers follow\r\n2 8\r\n.\r\n";

pub const XHDR_MESSAGE_ID_RESPONSE: &'static str =
    "221 headers follow\r\n1 <one@example.com>\r\n2 <two@example.com>\r\n.\r\n";

pub const XHDR_MESSAGE_ID_MESSAGE_ID_RESPONSE: &'static str =
    "221 headers follow\r\n0 <one@example.com>\r\n.\r\n";

pub const XHDR_MESSAGE_ID_1_RESPONSE: &'static str =
    "221 headers follow\r\n1 <one@example.com>\r\n.\r\n";

pub const XHDR_MESSAGE_ID_2_RESPONSE: &'static str =
    "221 headers follow\r\n2 <two@example.com>\r\n.\r\n";

pub const XHDR_BYTES_RESPONSE: &'static str = "221 headers follow\r\n1 123\r\n2 456\r\n.\r\n";

pub const XHDR_BYTES_MESSAGE_ID_RESPONSE: &'static str = "221 headers follow\r\n0 123\r\n.\r\n";

pub const XHDR_BYTES_1_RESPONSE: &'static str = "221 headers follow\r\n1 123\r\n.\r\n";

pub const XHDR_BYTES_2_RESPONSE: &'static str = "221 headers follow\r\n2 456\r\n.\r\n";

pub const XHDR_LINES_RESPONSE: &'static str = "221 headers follow\r\n1 4\r\n2 8\r\n.\r\n";

pub const XHDR_LINES_MESSAGE_ID_RESPONSE: &'static str = "221 headers follow\r\n0 4\r\n.\r\n";

pub const XHDR_LINES_1_RESPONSE: &'static str = "221 headers follow\r\n1 4\r\n.\r\n";

pub const XHDR_LINES_2_RESPONSE: &'static str = "221 headers follow\r\n2 8\r\n.\r\n";

pub const HEAD_RESPONSE: &'static str =
    "221 1 <article.1@nntpbench.local> article retrieved\r\nPath: nntpbench.local!mock\r\nFrom: Bench User <bench@nntpbench.local>\r\nNewsgroups: alt.binaries.bench\r\nSubject: nntpbench synthetic article\r\nMessage-ID: <article.1@nntpbench.local>\r\nDate: Fri, 15 May 2026 00:00:00 +0000\r\n.\r\n";

pub const STAT_RESPONSE: &'static str = "223 1 <article.1@nntpbench.local> article retrieved\r\n";

pub const HELP_RESPONSE: &'static str =
    "100 help text follows\r\nARTICLE\r\nAUTHINFO\r\nBODY\r\nCAPABILITIES\r\nCHECK\r\nDATE\r\nGROUP\r\nHDR\r\nHEAD\r\nHELP\r\nIHAVE\r\nLAST\r\nLIST\r\nLISTGROUP\r\nMODE READER\r\nNEWGROUPS\r\nNEWNEWS\r\nNEXT\r\nOVER\r\nPOST\r\nQUIT\r\nSTARTTLS\r\nSTAT\r\nTAKETHIS\r\nXHDR\r\nXOVER\r\n.\r\n";

pub const CAPABILITIES_RESPONSE: &'static str =
    "101 Capability list:\r\nVERSION 2\r\nREADER\r\nMODE-READER\r\nLIST ACTIVE ACTIVE.TIMES DISTRIB.PATS NEWSGROUPS OVERVIEW.FMT HEADERS\r\nOVER MSGID\r\nHDR\r\nNEWNEWS\r\nAUTHINFO\r\n.\r\n";

pub const QUIT_RESPONSE: &'static str = "205 closing connection\r\n";

pub const ARTICLE_NOT_FOUND_RESPONSE: &'static str = "430 no article with that number\r\n";

pub const BODY_RESPONSE_PREFIX: &'static str = "222 1 <article.1@nntpbench.local> body follows\r\n";

pub const ARTICLE_RESPONSE_PREFIX: &'static str =
    "220 1 <article.1@nntpbench.local> article follows\r\nPath: nntpbench.local!mock\r\nFrom: Bench User <bench@nntpbench.local>\r\nNewsgroups: alt.binaries.bench\r\nSubject: nntpbench synthetic article\r\nMessage-ID: <article.1@nntpbench.local>\r\nDate: Fri, 15 May 2026 00:00:00 +0000\r\n\r\n";

pub const BODY_LINE: &'static str =
    "This is synthetic NNTP article payload for throughput and latency benchmarking\r\n";

pub const NO_SUCH_GROUP_RESPONSE: &'static str = "411 no such newsgroup\r\n";

pub const NO_GROUP_SELECTED_RESPONSE: &'static str = "412 no newsgroup selected\r\n";

pub const NO_CURRENT_ARTICLE_RESPONSE: &'static str = "420 no current article selected\r\n";

pub const NO_NEXT_ARTICLE_RESPONSE: &'static str = "421 no next article in this group\r\n";

pub const NO_PREVIOUS_ARTICLE_RESPONSE: &'static str = "422 no previous article in this group\r\n";

pub const NO_ARTICLE_NUMBER_RESPONSE: &'static str = "423 no article with that number\r\n";

pub const NO_ARTICLES_IN_RANGE_RESPONSE: &'static str = "423 no articles in that range\r\n";

pub const NO_ARTICLE_MESSAGE_ID_RESPONSE: &'static str = "430 no article with that message-id\r\n";

pub const ARTICLE_NOT_WANTED_RESPONSE: &'static str = "435 article not wanted\r\n";

pub const POSTING_NOT_PERMITTED_RESPONSE: &'static str = "440 posting not permitted\r\n";

pub const TLS_REQUIRED_RESPONSE: &'static str =
    "483 command unavailable until TLS has been negotiated\r\n";

pub const UNKNOWN_COMMAND_RESPONSE: &'static str = "500 unknown command\r\n";

pub const LINE_TOO_LONG_RESPONSE: &'static str = "501 command line too long\r\n";

pub const SYNTAX_ERROR_RESPONSE: &'static str = "501 command syntax error\r\n";

pub const COMMAND_UNAVAILABLE_RESPONSE: &'static str = "502 command unavailable\r\n";

pub const HDR_FIELD_UNAVAILABLE_RESPONSE: &'static str = "503 HDR field unavailable\r\n";

} // verus!
