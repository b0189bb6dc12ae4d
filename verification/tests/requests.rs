//! Requests answered one at a time, and requests read from a batch of input.
use std::time::{SystemTime, UNIX_EPOCH};

use nntpbench::responses::{
    GROUP_RESPONSE, HDR_MESSAGE_ID_1_RESPONSE, HDR_SUBJECT_1_RESPONSE, HEAD_RESPONSE,
    HELP_RESPONSE, LAST_RESPONSE, LISTGROUP_2_3_RESPONSE, LISTGROUP_COMP_RESPONSE,
    LISTGROUP_RESPONSE, LIST_ACTIVE_TIMES_COMP_RESPONSE, LIST_ACTIVE_TIMES_RESPONSE,
    LIST_DISTRIB_PATS_RESPONSE, LIST_HEADERS_RESPONSE, LIST_NEWSGROUPS_COMP_RESPONSE,
    LIST_NEWSGROUPS_RESPONSE, LIST_OVERVIEW_FMT_RESPONSE, LIST_RESPONSE, MODE_READER_RESPONSE,
    NEWGROUPS_RESPONSE, NEWNEWS_RESPONSE, NEXT_RESPONSE, OVER_MESSAGE_ID_RESPONSE,
    OVER_RANGE_RESPONSE, STAT_RESPONSE, XHDR_MESSAGE_ID_1_RESPONSE, XHDR_SUBJECT_1_RESPONSE,
    XOVER_RESPONSE,
};
use nntpbench::terminator::find_dot_terminated_block_end;
use nntpbench::{
    for_each_request_line_in_batch, process_request_to_buffer, RequestKind, RequestLine, ServerArgs,
    ServerConfig, Stats,
};

fn test_args() -> ServerArgs {
    ServerArgs {
        body_bytes: 1024,
        article_bytes: 2048,
        article_dir: None,
        max_connections: 16,
        max_pipeline_depth: 8,
        nodelay: true,
        socket_recv_buffer: 16 * 1024 * 1024,
        socket_send_buffer: 16 * 1024 * 1024,
        stats_interval_secs: 0,
        flush: false,
        pending_write_bytes: 800 * 1024,
    }
}

fn test_config() -> ServerConfig {
    ServerConfig::from_args(test_args())
}

fn now() -> u64 {
    SystemTime::now().duration_since(UNIX_EPOCH).unwrap().as_secs()
}

fn assert_date_response(response: &[u8]) {
    assert_eq!(response.len(), 20);
    assert!(response.starts_with(b"111 "));
    assert!(response.ends_with(b"\r\n"));
    assert!(response[4..18].iter().all(u8::is_ascii_digit));
}

fn answer(line: &[u8], config: &ServerConfig, stats: &mut Stats, output: &mut Vec<u8>) -> bool {
    process_request_to_buffer(RequestLine::parse(line), config, stats, output, now(), None)
}

fn kinds(requests: &[RequestLine<'_>]) -> Vec<RequestKind> {
    requests.iter().map(|request| request.kind()).collect()
}

#[test]
fn process_request_to_buffer_counts_and_returns_quit() {
    let config = test_config();
    let mut stats = Stats::new(0);
    let mut output = Vec::new();

    assert!(!answer(b"ARTICLE <bench@nntpbench.local>\r\n", &config, &mut stats, &mut output));
    assert!(answer(b"QUIT\r\n", &config, &mut stats, &mut output));

    let snapshot = stats.snapshot(0);
    assert_eq!(snapshot.commands, 2);
    assert_eq!(snapshot.article_requests, 1);
    assert!(output.starts_with(b"220 "));
    assert!(output.ends_with(b"205 closing connection\r\n"));
}

#[test]
fn process_request_to_buffer_supports_negotiation_commands() {
    let config = test_config();
    let mut stats = Stats::new(0);
    let mut output = Vec::new();

    assert!(!answer(b"LIST ACTIVE\r\n", &config, &mut stats, &mut output));
    assert!(!answer(b"LIST ACTIVE.TIMES\r\n", &config, &mut stats, &mut output));
    assert!(!answer(b"LIST ACTIVE.TIMES comp.lang.*\r\n", &config, &mut stats, &mut output));
    assert!(!answer(b"LIST NEWSGROUPS\r\n", &config, &mut stats, &mut output));
    assert!(!answer(b"LIST NEWSGROUPS comp.lang.*\r\n", &config, &mut stats, &mut output));
    assert!(!answer(b"LIST OVERVIEW.FMT\r\n", &config, &mut stats, &mut output));
    assert!(!answer(b"LIST HEADERS\r\n", &config, &mut stats, &mut output));
    assert!(!answer(b"LIST DISTRIB.PATS\r\n", &config, &mut stats, &mut output));
    assert!(!answer(b"HELP\r\n", &config, &mut stats, &mut output));
    assert!(!answer(b"MODE READER\r\n", &config, &mut stats, &mut output));
    assert!(!answer(b"DATE\r\n", &config, &mut stats, &mut output));

    let expected_prefix = [
        LIST_RESPONSE.as_bytes(),
        LIST_ACTIVE_TIMES_RESPONSE.as_bytes(),
        LIST_ACTIVE_TIMES_COMP_RESPONSE.as_bytes(),
        LIST_NEWSGROUPS_RESPONSE.as_bytes(),
        LIST_NEWSGROUPS_COMP_RESPONSE.as_bytes(),
        LIST_OVERVIEW_FMT_RESPONSE.as_bytes(),
        LIST_HEADERS_RESPONSE.as_bytes(),
        LIST_DISTRIB_PATS_RESPONSE.as_bytes(),
        HELP_RESPONSE.as_bytes(),
        MODE_READER_RESPONSE.as_bytes(),
    ]
    .concat();
    assert!(output.starts_with(&expected_prefix));
    assert_date_response(&output[expected_prefix.len()..]);
    assert_eq!(stats.snapshot(0).commands, 11);
}

#[test]
fn process_request_to_buffer_supports_remaining_rfc_commands() {
    let config = test_config();
    let mut stats = Stats::new(0);
    let mut output = Vec::new();

    assert!(!answer(b"POST\r\n", &config, &mut stats, &mut output));
    assert!(!answer(b"IHAVE <article@test>\r\n", &config, &mut stats, &mut output));
    assert!(!answer(b"CHECK <article@test>\r\n", &config, &mut stats, &mut output));
    assert!(!answer(b"TAKETHIS <article@test>\r\n", &config, &mut stats, &mut output));
    assert!(!answer(b"AUTHINFO USER bench\r\n", &config, &mut stats, &mut output));
    assert!(!answer(b"AUTHINFO PASS bench\r\n", &config, &mut stats, &mut output));
    assert!(!answer(b"AUTHINFO SASL BENCH\r\n", &config, &mut stats, &mut output));
    assert!(!answer(b"STARTTLS\r\n", &config, &mut stats, &mut output));

    assert_eq!(
        output,
        [
            b"440 posting not permitted\r\n".as_slice(),
            b"435 article not wanted\r\n".as_slice(),
            b"502 command unavailable\r\n",
            b"502 command unavailable\r\n",
            b"483 command unavailable until TLS has been negotiated\r\n",
            b"483 command unavailable until TLS has been negotiated\r\n",
            b"502 command unavailable\r\n",
            b"502 command unavailable\r\n",
        ]
        .concat()
    );
    assert_eq!(stats.snapshot(0).commands, 8);
}

#[test]
fn process_request_to_buffer_supports_overview_commands() {
    let config = test_config();
    let mut stats = Stats::new(0);
    let mut output = Vec::new();

    assert!(!answer(b"OVER 1-10\r\n", &config, &mut stats, &mut output));
    assert!(!answer(b"OVER <overview@test>\r\n", &config, &mut stats, &mut output));
    assert!(!answer(b"XOVER 1-10\r\n", &config, &mut stats, &mut output));
    assert!(!answer(b"XOVER <overview@test>\r\n", &config, &mut stats, &mut output));
    assert!(!answer(b"HDR Subject 1\r\n", &config, &mut stats, &mut output));
    assert!(!answer(b"HDR Message-ID 1\r\n", &config, &mut stats, &mut output));
    assert!(!answer(b"XHDR Subject 1\r\n", &config, &mut stats, &mut output));
    assert!(!answer(b"XHDR Message-ID 1\r\n", &config, &mut stats, &mut output));

    assert_eq!(
        output,
        [
            OVER_RANGE_RESPONSE.as_bytes(),
            OVER_MESSAGE_ID_RESPONSE.as_bytes(),
            XOVER_RESPONSE.as_bytes(),
            OVER_MESSAGE_ID_RESPONSE.as_bytes(),
            HDR_SUBJECT_1_RESPONSE.as_bytes(),
            HDR_MESSAGE_ID_1_RESPONSE.as_bytes(),
            XHDR_SUBJECT_1_RESPONSE.as_bytes(),
            XHDR_MESSAGE_ID_1_RESPONSE.as_bytes(),
        ]
        .concat()
    );
    assert_eq!(stats.snapshot(0).commands, 8);
}

#[test]
fn process_request_to_buffer_supports_group_navigation_commands() {
    let config = test_config();
    let mut stats = Stats::new(0);
    let mut output = Vec::new();

    assert!(!answer(b"GROUP alt.test\r\n", &config, &mut stats, &mut output));
    assert!(!answer(b"LISTGROUP\r\n", &config, &mut stats, &mut output));
    assert!(!answer(b"LISTGROUP comp.lang.rust\r\n", &config, &mut stats, &mut output));
    assert!(!answer(b"LISTGROUP 1-\r\n", &config, &mut stats, &mut output));
    assert!(!answer(b"LISTGROUP 2-3\r\n", &config, &mut stats, &mut output));
    assert!(!answer(b"LISTGROUP example.valid\r\n", &config, &mut stats, &mut output));
    assert!(!answer(b"LAST\r\n", &config, &mut stats, &mut output));
    assert!(!answer(b"NEXT\r\n", &config, &mut stats, &mut output));

    assert_eq!(
        output,
        [
            GROUP_RESPONSE.as_bytes(),
            LISTGROUP_RESPONSE.as_bytes(),
            LISTGROUP_COMP_RESPONSE.as_bytes(),
            LISTGROUP_RESPONSE.as_bytes(),
            LISTGROUP_2_3_RESPONSE.as_bytes(),
            b"411 no such newsgroup\r\n".as_slice(),
            LAST_RESPONSE.as_bytes(),
            NEXT_RESPONSE.as_bytes()
        ]
        .concat()
    );
    assert_eq!(stats.snapshot(0).commands, 8);
}

#[test]
fn process_request_to_buffer_supports_discovery_commands() {
    let config = test_config();
    let mut stats = Stats::new(0);
    let mut output = Vec::new();

    assert!(!answer(b"NEWGROUPS 231231 235959 GMT\r\n", &config, &mut stats, &mut output));
    assert!(!answer(b"NEWNEWS alt.* 231231 235959 GMT\r\n", &config, &mut stats, &mut output));

    assert_eq!(output, [NEWGROUPS_RESPONSE.as_bytes(), NEWNEWS_RESPONSE.as_bytes()].concat());
    assert_eq!(stats.snapshot(0).commands, 2);
}

#[test]
fn process_request_to_buffer_supports_body_head_stat_capabilities_and_unknown() {
    let config = test_config();
    let mut stats = Stats::new(0);
    let mut output = Vec::new();

    assert!(!answer(b"BODY <body@test>\r\n", &config, &mut stats, &mut output));
    assert!(!answer(b"CAPABILITIES\r\n", &config, &mut stats, &mut output));
    assert!(!answer(b"HEAD 1\r\n", &config, &mut stats, &mut output));
    assert!(!answer(b"STAT 1\r\n", &config, &mut stats, &mut output));
    assert!(!answer(b"XYZZY 1\r\n", &config, &mut stats, &mut output));

    let snapshot = stats.snapshot(0);
    assert_eq!(snapshot.commands, 5);
    assert_eq!(snapshot.article_requests, 2);
    assert_eq!(snapshot.body_requests, 1);
    assert!(output.starts_with(b"222 "));
    assert!(
        output
            .windows(HEAD_RESPONSE.as_bytes().len())
            .any(|window| window == HEAD_RESPONSE.as_bytes())
    );
    assert!(
        output
            .windows(STAT_RESPONSE.as_bytes().len())
            .any(|window| window == STAT_RESPONSE.as_bytes())
    );
    assert!(output.ends_with(b"500 unknown command\r\n"));
}

#[test]
fn for_each_request_line_in_batch_returns_consumed_prefix() {
    let batch = for_each_request_line_in_batch(b"ARTICLE 1\r\nBODY 2\r\nQUIT", 8);
    assert_eq!(batch.consumed, b"ARTICLE 1\r\nBODY 2\r\n".len());
    assert_eq!(kinds(&batch.requests), vec![RequestKind::Article, RequestKind::Body]);

    let batch = for_each_request_line_in_batch(b"DATE\nMODE READER\n", 8);
    assert_eq!(batch.consumed, 0);
    assert!(batch.requests.is_empty());

    let input = b"TAKETHIS <take@test>\r\nHeader: value\r\n\r\nbody\r\n.\r\nQUIT\r\n";
    let batch = for_each_request_line_in_batch(input, 8);
    assert_eq!(
        batch.consumed,
        b"TAKETHIS <take@test>\r\nHeader: value\r\n\r\nbody\r\n.\r\nQUIT\r\n".len()
    );
    assert_eq!(kinds(&batch.requests), vec![RequestKind::TakeThis, RequestKind::Quit]);
}

#[test]
fn for_each_request_line_in_batch_skips_incomplete_takethis_until_body_finishes() {
    let input = b"TAKETHIS <take@test>\r\nHeader: value\r\n\r\nbody\r\nQUIT\r\n";
    let batch = for_each_request_line_in_batch(input, 8);
    assert_eq!(batch.consumed, 0);
    assert!(batch.requests.is_empty());
}

#[test]
fn for_each_request_line_in_batch_requires_crlf_dot_terminator_for_takethis() {
    let input = b"TAKETHIS <take@test>\r\nHeader: value\r\n\r\nbody\n.\nQUIT\r\n";
    let batch = for_each_request_line_in_batch(input, 8);
    assert_eq!(batch.consumed, 0);
    assert!(batch.requests.is_empty());
}

#[test]
fn batch_scanner_requires_exact_rfc_takethis_dot_terminator() {
    for near_miss in [
        b".\n".as_slice(),
        b".\r",
        b".\r ",
        b"..\r\n",
        b".body\r\n",
        b"\n.\r\n",
        b"\r.\r\n",
        b"\r\n.\n",
    ] {
        for (prefix, suffix) in [
            (b"".as_slice(), b"".as_slice()),
            (b"a\r\n", b"b"),
            (b"a.", b".b\r\n"),
            (b"\n", b"\r"),
            (b"\r\n..", b"\n.x"),
        ] {
            let mut input = b"TAKETHIS <take@test>\r\nx".to_vec();
            input.extend_from_slice(prefix);
            input.extend_from_slice(near_miss);
            input.extend_from_slice(suffix);
            if find_dot_terminated_block_end(&input, b"TAKETHIS <take@test>\r\n".len()).is_some() {
                continue;
            }
            input.extend_from_slice(b"QUIT\r\n");

            let batch = for_each_request_line_in_batch(&input, 8);
            assert_eq!(batch.consumed, 0, "{input:?}");
            assert!(batch.requests.is_empty(), "{input:?}");
        }
    }
}

#[test]
fn batch_scanner_consumes_takethis_through_first_rfc_dot_terminator() {
    for body in [
        b"xx".as_slice(),
        b"x.\rx",
        b"x\r\n..\r\nx",
        b"x\n.\nx",
        b"x\r.\r\nx",
        b"x\r\n.body\r\n.\nx",
        b"x....x",
    ] {
        for trailer in ["", "A", "dot . dash -", "QUI"] {
            let mut input = b"TAKETHIS <take@test>\r\n".to_vec();
            input.extend_from_slice(body);
            input.extend_from_slice(b"\r\n.\r\nQUIT\r\n");
            input.extend_from_slice(trailer.as_bytes());

            let batch = for_each_request_line_in_batch(&input, 8);
            assert_eq!(kinds(&batch.requests), vec![RequestKind::TakeThis, RequestKind::Quit]);
            assert_eq!(
                batch.consumed,
                b"TAKETHIS <take@test>\r\n".len() + body.len() + b"\r\n.\r\nQUIT\r\n".len()
            );
        }
    }
}

#[test]
fn a_batch_stops_at_its_depth_and_goes_on_from_there() {
    let input = b"DATE\r\nHELP\r\nQUIT\r\n";
    let first = for_each_request_line_in_batch(input, 2);
    assert_eq!(kinds(&first.requests), vec![RequestKind::Date, RequestKind::Help]);
    let rest = for_each_request_line_in_batch(&input[first.consumed..], 2);
    assert_eq!(kinds(&rest.requests), vec![RequestKind::Quit]);
    assert_eq!(first.consumed + rest.consumed, input.len());
    assert_eq!(for_each_request_line_in_batch(input, 0).consumed, 0);
}

#[test]
fn more_input_keeps_the_requests_of_a_batch() {
    let mut input = b"ARTICLE 1\r\nTAKETHIS <a@b>\r\nbody".to_vec();
    let before = kinds(&for_each_request_line_in_batch(&input, 8).requests);
    assert_eq!(before, vec![RequestKind::Article]);
    input.extend_from_slice(b"\r\n.\r\nQUIT\r\n");
    let after = kinds(&for_each_request_line_in_batch(&input, 8).requests);
    assert_eq!(after, vec![RequestKind::Article, RequestKind::TakeThis, RequestKind::Quit]);
}

#[test]
fn a_stored_article_answers_its_request() {
    let mut args = test_args();
    args.article_dir = Some("articles".to_string());
    let config = ServerConfig::from_args(args);
    let mut stats = Stats::new(0);

    let mut output = Vec::new();
    let request = RequestLine::parse(b"ARTICLE <a@b>\r\n");
    process_request_to_buffer(request, &config, &mut stats, &mut output, 0, Some(b"220 stored"));
    assert_eq!(output, b"220 stored");

    output.clear();
    let request = RequestLine::parse(b"ARTICLE <a@b>\r\n");
    process_request_to_buffer(request, &config, &mut stats, &mut output, 0, None);
    assert_eq!(output, b"430 no article with that message-id\r\n");

    output.clear();
    let request = RequestLine::parse(b"ARTICLE 5\r\n");
    process_request_to_buffer(request, &config, &mut stats, &mut output, 0, None);
    assert_eq!(output, b"423 no article with that number\r\n");
    assert_eq!(stats.article_requests, 3);
}

#[test]
fn a_date_request_is_answered_with_the_moment_at_hand() {
    let config = test_config();
    let mut stats = Stats::new(0);
    let mut output = Vec::new();
    let request = RequestLine::parse(b"DATE\r\n");
    process_request_to_buffer(request, &config, &mut stats, &mut output, 951_827_696, None);
    assert_eq!(output, b"111 20000229123456\r\n");
    assert_eq!(stats.bytes_sent, 20);
}
