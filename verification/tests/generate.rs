//! Generated articles and bodies, and the settings and counters of a server.
use nntpbench::generate::{
    append_repeated_payload, append_repeated_payload_at_least, body_payload,
    build_generated_response, build_message_id_body_response, build_message_id_stat_response,
    build_selected_article_response, build_selected_head_response, ensure_terminated,
    GeneratedResponse,
};
use nntpbench::response::{response_frame_end, FrameStatus};
use nntpbench::responses::{
    BODY_LINE, BODY_RESPONSE_PREFIX, HEAD_RESPONSE, STAT_RESPONSE, TERMINATOR,
};
use nntpbench::terminator::{
    append_dot_terminator, find_dot_terminated_block_end, strip_dot_terminator_suffix,
    target_before_dot_terminator,
};
use nntpbench::{
    generate_article, generate_body, MessageId, RequestKind, ServerArgs, ServerConfig,
    SessionStats, Stats,
};

fn test_args() -> ServerArgs {
    ServerArgs {
        body_bytes: 1024,
        article_bytes: 2048,
        article_dir: None,
        max_connections: 16,
        max_pipeline_depth: 8,
        nodelay: true,
        socket_recv_buffer: 16 * 1024 * 1024,
        socket_send_buffer: 16 * 1024 * 1024,
        stats_interval_secs: 0,
        flush: false,
        pending_write_bytes: 800 * 1024,
    }
}

#[test]
fn generated_responses_are_multiline_terminated() {
    let body = generate_body(1024);
    let article = generate_article(2048, &body);

    assert!(body.starts_with(b"222 "));
    assert!(article.starts_with(b"220 "));
    assert!(body.ends_with(b"\r\n.\r\n"));
    assert!(article.ends_with(b"\r\n.\r\n"));
    assert!(article.windows(b"\r\n\r\n".len()).any(|window| window == b"\r\n\r\n"));
}

#[test]
fn generated_multiline_payload_avoids_false_dot_candidates() {
    let body = generate_body(4096);
    let body_content = body_payload(&body);
    assert!(!body_content.contains(&b'.'));

    let article = generate_article(8192, &body);
    let header_end = memchr::memmem::find(&article, b"\r\n\r\n").unwrap() + b"\r\n\r\n".len();
    let article_content = strip_dot_terminator_suffix(&article[header_end..]).unwrap();
    assert!(!article_content.contains(&b'.'));
}

#[test]
fn generated_responses_are_near_target_size() {
    let body = generate_body(4096);
    let article = generate_article(8192, &body);

    assert!(body.len() >= 4096);
    assert!(body.len() < 4096 + BODY_LINE.len() + TERMINATOR.len());
    assert!(article.len() >= 8192);
    assert!(article.len() < 8192 + BODY_LINE.len() + TERMINATOR.len());
}

#[test]
fn generated_responses_handle_tiny_targets_and_existing_crlf() {
    let body = generate_body(0);
    let article = generate_article(0, &body);
    assert!(body.ends_with(b"\r\n.\r\n"));
    assert!(article.ends_with(b"\r\n.\r\n"));

    let mut already_crlf = b"222 body follows\r\n".to_vec();
    ensure_terminated(&mut already_crlf);
    assert!(already_crlf.ends_with(b"222 body follows\r\n.\r\n"));

    let mut exact = Vec::new();
    append_repeated_payload(&mut exact, b"abc\r\n", 2);
    assert!(exact.is_empty());
}

#[test]
fn body_payload_skips_first_status_line_or_returns_whole_input() {
    assert_eq!(body_payload(b"222 body follows\r\npayload"), b"payload");
    assert_eq!(body_payload(b"payload-without-crlf"), b"payload-without-crlf");
    assert_eq!(body_payload(b"222 body follows\r\npayload\r\n.\r\n"), b"payload\r\n");
}

#[test]
fn server_config_clamps_pipeline_depth_and_keeps_responses() {
    let mut low = test_args();
    low.max_pipeline_depth = 0;
    let config = ServerConfig::from_args(low);
    assert_eq!(config.max_pipeline_depth, 1);
    assert_eq!(config.body_bytes, 1024);
    assert_eq!(config.article_bytes, 2048);

    let mut high = test_args();
    high.max_pipeline_depth = 4096;
    high.socket_recv_buffer = 4096;
    high.socket_send_buffer = 8192;
    let config = ServerConfig::from_args(high);
    assert_eq!(config.max_pipeline_depth, 1024);
    assert_eq!(config.socket_recv_buffer, 4096);
    assert_eq!(config.socket_send_buffer, 8192);
}

#[test]
fn server_config_holds_the_responses_it_generates() {
    let config = ServerConfig::from_args(test_args());
    assert_eq!(config.head_response(), HEAD_RESPONSE.as_bytes());
    assert_eq!(config.stat_response(), STAT_RESPONSE.as_bytes());
    assert_eq!(config.body_response(), &build_generated_response(
        BODY_RESPONSE_PREFIX.as_bytes(),
        1024
    )[..]);
    assert_eq!(config.article_response(), &build_selected_article_response(1, 2048)[..]);
}

#[test]
fn generated_response_knows_its_length() {
    for target in [0, 47, 48, 49, 1000, 4096, 65_536] {
        let descriptor = GeneratedResponse::new(BODY_RESPONSE_PREFIX.as_bytes(), target);
        assert_eq!(descriptor.prefix, BODY_RESPONSE_PREFIX.as_bytes());
        assert_eq!(descriptor.target_bytes, target);
        let response = build_generated_response(BODY_RESPONSE_PREFIX.as_bytes(), target);
        assert_eq!(descriptor.total_len(), response.len());
        assert!(response.len() >= target);
        assert_eq!(
            find_dot_terminated_block_end(&response, BODY_RESPONSE_PREFIX.len()),
            Some(response.len())
        );
    }
}

#[test]
fn repeated_payload_reaches_its_size() {
    let mut buffer = b"x".to_vec();
    append_repeated_payload_at_least(&mut buffer, b"ab\r\n", 5);
    assert_eq!(buffer, b"xab\r\nab\r\n");
    let mut buffer = Vec::new();
    append_repeated_payload_at_least(&mut buffer, b"ab\r\n", 0);
    assert!(buffer.is_empty());
}

#[test]
fn articles_of_a_message_id_have_the_number_zero() {
    let id = MessageId::from_borrowed("<a@b>").unwrap();
    assert_eq!(build_message_id_stat_response(&id), b"223 0 <a@b> article retrieved\r\n");
    let body = build_message_id_body_response(&id, 100);
    assert!(body.starts_with(b"222 0 <a@b> body follows\r\n"));
    assert_eq!(
        response_frame_end(RequestKind::Body, &body),
        FrameStatus::CompleteAt(body.len())
    );
    assert_eq!(build_selected_head_response(1), HEAD_RESPONSE.as_bytes());
}

#[test]
fn terminators_are_put_on_and_taken_off() {
    let mut block = b"line".to_vec();
    append_dot_terminator(&mut block);
    assert_eq!(block, b"line\r\n.\r\n");
    assert_eq!(strip_dot_terminator_suffix(&block), Some(b"line\r\n".as_slice()));
    assert_eq!(strip_dot_terminator_suffix(b".\r\n"), Some(b"".as_slice()));
    assert_eq!(strip_dot_terminator_suffix(b"line.\r\n"), None);
    assert_eq!(target_before_dot_terminator(10), 7);
    assert_eq!(target_before_dot_terminator(2), 0);
}

#[test]
fn stats_snapshot_and_rates_reflect_counters() {
    let mut stats = Stats::new(0);
    stats.accepted_connections = 2;
    stats.refused_connections = 1;
    stats.active_connections = 3;
    stats.commands = 4;
    stats.pipeline_batches = 5;
    stats.article_requests = 6;
    stats.body_requests = 7;
    stats.bytes_sent = 8;
    stats.errors = 9;

    let snapshot = stats.snapshot(0);
    assert_eq!(snapshot.accepted_connections, 2);
    assert_eq!(snapshot.refused_connections, 1);
    assert_eq!(snapshot.active_connections, 3);
    assert_eq!(snapshot.commands, 4);
    assert_eq!(snapshot.pipeline_batches, 5);
    assert_eq!(snapshot.article_requests, 6);
    assert_eq!(snapshot.body_requests, 7);
    assert_eq!(snapshot.bytes_sent, 8);
    assert_eq!(snapshot.errors, 9);
}

#[test]
fn growth_is_counted_from_the_snapshot_before() {
    let mut stats = Stats::new(1_000);
    stats.count_opened();
    stats.commands = 10;
    stats.bytes_sent = 100;
    let first = stats.snapshot(5_000);
    let growth = first.growth_since(stats.started, None);
    assert_eq!(growth.window, 4_000);
    assert_eq!(growth.connections, 1);
    assert_eq!(growth.commands, 10);
    assert_eq!(growth.bytes_sent, 100);

    stats.count_opened();
    stats.commands = 25;
    stats.bytes_sent = 700;
    let second = stats.snapshot(6_500);
    let growth = second.growth_since(stats.started, Some(first));
    assert_eq!(growth.window, 1_500);
    assert_eq!(growth.connections, 1);
    assert_eq!(growth.commands, 15);
    assert_eq!(growth.bytes_sent, 600);
}

#[test]
fn connections_and_sessions_are_counted() {
    let mut stats = Stats::new(0);
    stats.count_refused();
    stats.count_opened();
    stats.count_opened();
    stats.count_closed(true);
    let mut session = SessionStats::new();
    session.count_sent(20);
    session.count_batch(1);
    session.count_batch(2);
    stats.add_session(&session);
    assert_eq!(stats.refused_connections, 1);
    assert_eq!(stats.accepted_connections, 2);
    assert_eq!(stats.active_connections, 1);
    assert_eq!(stats.errors, 1);
    assert_eq!(stats.bytes_sent, 20);
    assert_eq!(stats.pipeline_batches, 1);
}
