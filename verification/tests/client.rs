//! Settings, workloads and segments of a client.
use nntpbench::auth::{
    authentication_after_pass, authentication_after_user, start_authentication, AuthRejection,
    AuthStep,
};
use nntpbench::client::{plan_sessions, socket_buffer_size_u32, ConfigError, PipelineProgress};
use nntpbench::download::{
    article_download_target_path, article_outcome, article_ref_for_download_target,
    download_target_label, parse_article_targets, ArticleDownloadTarget, ArticleOutcome,
    DownloadProgress, InvalidTarget,
};
use nntpbench::response::{response_frame_end, response_status, FrameStatus};
use nntpbench::responses::ARTICLE_NOT_FOUND_RESPONSE;
use nntpbench::segments::{
    parse_segments, shared_message_id_from_bytes, trim_ascii_line, SegmentError,
};
use nntpbench::store::{article_id_tree_path, message_id_tree_path};
use nntpbench::terminator::TERMINATOR_TAIL_SIZE;
use nntpbench::workload::{
    append_client_workload_request, client_command_kind, client_request_for_command,
    request_kind_for_client_command, requests_for_connection, segment_ref_for_request,
};
use nntpbench::{
    bench_client_request_for_command, bench_client_segment_request_for_command, ArticleRef,
    ClientArgs, ClientCommandMix, ClientConfig, ClientSession, MessageId, Request, RequestKind,
    SegmentSet, Stats,
};

fn test_client_args() -> ClientArgs {
    ClientArgs {
        ports: Vec::new(),
        auth_user: None,
        auth_pass: None,
        article_ids: None,
        article_output_dir: None,
        article_verify_dir: None,
        requests: 0,
        transfer_bytes: 0,
        duration_secs: 0,
        connections: 1,
        client_offset: 0,
        total_clients: 0,
        pipeline_depth: 64,
        command_mix: ClientCommandMix::Alternate,
        start_id: 1,
        read_buffer_bytes: 256 * 1024,
        nodelay: true,
        socket_recv_buffer: 16 * 1024 * 1024,
        socket_send_buffer: 16 * 1024 * 1024,
        csv: false,
        stats_interval_secs: 0,
    }
}

fn segment_for_request(
    segments: &SegmentSet,
    client_index: usize,
    total_clients: usize,
    request_index: u64,
) -> MessageId {
    segment_ref_for_request(segments, client_index, total_clients, request_index).clone()
}

#[test]
fn client_config_from_args_clamps_loads_segments_and_rotates_ports() {
    let segments = parse_segments(b"123\tbare@example.test\n456\t<wrapped@test>\n").unwrap();
    let mut args = test_client_args();
    args.ports = vec![1200, 1201];
    args.auth_user = Some("bench-user".to_string());
    args.auth_pass = Some("bench-pass".to_string());
    args.requests = 17;
    args.transfer_bytes = 8192;
    args.duration_secs = 3;
    args.connections = 0;
    args.client_offset = 4;
    args.total_clients = 0;
    args.pipeline_depth = 0;
    args.command_mix = ClientCommandMix::Body;
    args.start_id = 99;
    args.read_buffer_bytes = 1;
    args.nodelay = false;
    args.socket_recv_buffer = 4096;
    args.socket_send_buffer = 8192;
    args.csv = true;
    args.stats_interval_secs = 2;

    let config = ClientConfig::from_args(args, Some(segments)).unwrap();

    assert_eq!(config.requests, 17);
    assert_eq!(config.transfer_bytes, 8192);
    assert_eq!(config.duration_secs, 3);
    assert_eq!(config.connections, 1);
    assert_eq!(config.client_offset, 4);
    assert_eq!(config.total_clients, 1);
    assert_eq!(config.pipeline_depth, 1);
    assert_eq!(config.command_mix, ClientCommandMix::Body);
    assert_eq!(config.start_id, 99);
    assert_eq!(config.read_buffer_bytes, TERMINATOR_TAIL_SIZE);
    assert!(!config.nodelay);
    assert_eq!(config.socket_recv_buffer, 4096);
    assert_eq!(config.socket_send_buffer, 8192);
    assert!(config.csv);
    assert_eq!(config.stats_interval_secs, 2);
    assert_eq!(config.endpoint_port(0), Some(1200));
    assert_eq!(config.endpoint_port(1), Some(1201));
    assert_eq!(config.endpoint_port(2), Some(1200));
    assert!(config.segments.is_some());
    assert_eq!(config.auth_user.as_deref(), Some("bench-user"));
    assert_eq!(config.auth_pass.as_deref(), Some("bench-pass"));
}

#[test]
fn client_config_rejects_invalid_or_empty_segment_files() {
    assert_eq!(parse_segments(b"missing-tab\n").unwrap_err(), SegmentError::MissingTab(1));
    assert_eq!(parse_segments(b"\n\n").unwrap_err(), SegmentError::Empty);
}

#[test]
fn client_config_rejects_invalid_authinfo_values() {
    let mut args = test_client_args();
    args.auth_user = Some("bad\ruser".to_string());
    let err = ClientConfig::from_args(args, None).unwrap_err();
    assert_eq!(err, ConfigError::InvalidAuthUser);

    let mut args = test_client_args();
    args.auth_pass = Some("bad\npass".to_string());
    let err = ClientConfig::from_args(args, None).unwrap_err();
    assert_eq!(err, ConfigError::InvalidAuthPass);
}

#[test]
fn client_config_wants_article_ids_and_an_output_directory_together() {
    let mut args = test_client_args();
    args.article_ids = Some("ids".to_string());
    assert_eq!(ClientConfig::from_args(args, None).unwrap_err(), ConfigError::OutputDirRequired);

    let mut args = test_client_args();
    args.article_output_dir = Some("out".to_string());
    assert_eq!(ClientConfig::from_args(args, None).unwrap_err(), ConfigError::IdsRequiredForOutput);

    let mut args = test_client_args();
    args.article_verify_dir = Some("expected".to_string());
    assert_eq!(ClientConfig::from_args(args, None).unwrap_err(), ConfigError::IdsRequiredForVerify);
}

#[test]
fn client_session_new_copies_connection_distribution() {
    let segments = parse_segments(b"1\tone@test\n22\t<two@test>\n").unwrap();
    let mut args = test_client_args();
    args.ports = vec![1300, 1301];
    args.requests = 10;
    args.transfer_bytes = 100;
    args.auth_user = Some("session-user".to_string());
    args.auth_pass = Some("session-pass".to_string());
    args.connections = 2;
    args.total_clients = 8;
    args.pipeline_depth = 3;
    args.command_mix = ClientCommandMix::Article;
    args.read_buffer_bytes = 64;
    args.nodelay = false;
    args.socket_recv_buffer = 1024;
    args.socket_send_buffer = 2048;

    let config = ClientConfig::from_args(args, Some(segments)).unwrap();
    let session = ClientSession::new(&config, 3, 55, 7);

    assert_eq!(session.port, Some(1301));
    assert_eq!(session.client_index, 3);
    assert_eq!(session.total_clients, 8);
    assert_eq!(session.requests, 7);
    assert_eq!(session.transfer_bytes, 100);
    assert_eq!(session.next_id, 55);
    assert_eq!(session.pipeline_depth, 3);
    assert_eq!(session.command_mix, ClientCommandMix::Article);
    assert_eq!(session.read_buffer_bytes, 64);
    assert!(!config.nodelay);
    assert_eq!(config.socket_recv_buffer, 1024);
    assert_eq!(config.socket_send_buffer, 2048);
    assert!(config.segments.is_some());
    assert_eq!(config.auth_user.as_deref(), Some("session-user"));
    assert_eq!(config.auth_pass.as_deref(), Some("session-pass"));
}

#[test]
fn client_config_from_args_clamps_and_copies_fields() {
    let mut args = test_client_args();
    args.requests = 17;
    args.transfer_bytes = 8192;
    args.duration_secs = 3;
    args.connections = 0;
    args.client_offset = 4;
    args.total_clients = 0;
    args.pipeline_depth = 0;
    args.command_mix = ClientCommandMix::Body;
    args.start_id = 99;
    args.read_buffer_bytes = 1;
    args.nodelay = false;
    args.socket_recv_buffer = 4096;
    args.socket_send_buffer = 8192;
    args.csv = true;
    args.stats_interval_secs = 2;

    let config = ClientConfig::from_args(args, None).unwrap();

    assert_eq!(config.requests, 17);
    assert_eq!(config.transfer_bytes, 8192);
    assert_eq!(config.duration_secs, 3);
    assert_eq!(config.connections, 1);
    assert_eq!(config.client_offset, 4);
    assert_eq!(config.total_clients, 1);
    assert_eq!(config.pipeline_depth, 1);
    assert_eq!(config.command_mix, ClientCommandMix::Body);
    assert_eq!(config.start_id, 99);
    assert_eq!(config.read_buffer_bytes, TERMINATOR_TAIL_SIZE);
    assert!(!config.nodelay);
    assert_eq!(config.socket_recv_buffer, 4096);
    assert_eq!(config.socket_send_buffer, 8192);
    assert!(config.csv);
    assert_eq!(config.stats_interval_secs, 2);
    assert_eq!(config.endpoint_port(5), None);
}

#[test]
fn client_limit_and_distribution_helpers_cover_edge_cases() {
    let mut stats = Stats::new(0);
    assert!(!stats.transfer_limit_reached(0));
    assert!(!stats.transfer_limit_reached(10));
    stats.bytes_sent = 10;
    assert!(stats.transfer_limit_reached(10));

    assert_eq!(requests_for_connection(0, 3, 0), 0);
    assert_eq!(requests_for_connection(10, 3, 0), 4);
    assert_eq!(requests_for_connection(10, 3, 1), 3);
    assert_eq!(requests_for_connection(10, 3, 2), 3);
}

#[test]
fn segment_parsing_normalizes_msgids_and_selects_by_stride() {
    let segments = parse_segments(b"1\tbare@test\n2\t<wrapped@test>\n").unwrap();
    assert_eq!(segment_for_request(&segments, 0, 2, 0).as_str(), "<bare@test>");
    assert_eq!(segment_for_request(&segments, 1, 2, 0).as_str(), "<wrapped@test>");
}

#[test]
fn client_request_for_command_prefers_numeric_refs_without_segments() {
    let article = client_request_for_command(42, 0, ClientCommandMix::Article, None, 0, 1).unwrap();
    let body = client_request_for_command(7, 0, ClientCommandMix::Body, None, 0, 1).unwrap();
    let alternate_article =
        client_request_for_command(1, 0, ClientCommandMix::Alternate, None, 0, 1).unwrap();
    let alternate_body =
        client_request_for_command(2, 0, ClientCommandMix::Alternate, None, 0, 1).unwrap();

    assert_eq!(article.kind(), RequestKind::Article);
    assert_eq!(article.article_ref(), Some(&ArticleRef::Number(42)));
    assert!(article.message_id().is_none());
    assert_eq!(body.kind(), RequestKind::Body);
    assert_eq!(body.article_ref(), Some(&ArticleRef::Number(7)));
    assert!(body.message_id().is_none());
    assert_eq!(alternate_article.kind(), RequestKind::Article);
    assert_eq!(alternate_article.article_ref(), Some(&ArticleRef::Number(1)));
    assert!(alternate_article.message_id().is_none());
    assert_eq!(alternate_body.kind(), RequestKind::Body);
    assert_eq!(alternate_body.article_ref(), Some(&ArticleRef::Number(2)));
    assert!(alternate_body.message_id().is_none());
}

#[test]
fn client_request_for_command_keeps_message_ids_for_segments_and_zero_id() {
    let segments = parse_segments(b"1\tsegment@test\n2\tbody@test\n").unwrap();

    let segmented =
        client_request_for_command(11, 0, ClientCommandMix::Article, Some(&segments), 0, 1)
            .unwrap();
    let segmented_body =
        client_request_for_command(12, 1, ClientCommandMix::Body, Some(&segments), 0, 1).unwrap();
    let zero_article =
        client_request_for_command(0, 0, ClientCommandMix::Article, None, 0, 1).unwrap();
    let zero_body = client_request_for_command(0, 0, ClientCommandMix::Body, None, 0, 1).unwrap();
    let zero_alternate =
        client_request_for_command(0, 0, ClientCommandMix::Alternate, None, 0, 1).unwrap();

    assert_eq!(segmented.message_id().map(MessageId::as_str), Some("<segment@test>"));
    assert_eq!(segmented_body.message_id().map(MessageId::as_str), Some("<body@test>"));
    assert_eq!(
        zero_article.message_id().map(MessageId::as_str),
        Some("<bench.0@nntpbench.local>")
    );
    assert_eq!(zero_body.message_id().map(MessageId::as_str), Some("<bench.0@nntpbench.local>"));
    assert_eq!(zero_alternate.kind(), RequestKind::Body);
    assert_eq!(
        zero_alternate.message_id().map(MessageId::as_str),
        Some("<bench.0@nntpbench.local>")
    );
}

#[test]
fn client_request_for_command_uses_message_id_after_numeric_article_range() {
    let request =
        client_request_for_command(i32::MAX as u64 + 1, 0, ClientCommandMix::Article, None, 0, 1)
            .unwrap();
    match request {
        Request::Article { article_ref } => assert_eq!(
            article_ref.message_id().map(MessageId::as_str),
            Some("<bench.2147483648@nntpbench.local>")
        ),
        other => panic!("expected message-id ARTICLE fallback, got {other:?}"),
    }

    let request =
        client_request_for_command(i32::MAX as u64 + 2, 0, ClientCommandMix::Body, None, 0, 1)
            .unwrap();
    match request {
        Request::Body { article_ref } => assert_eq!(
            article_ref.message_id().map(MessageId::as_str),
            Some("<bench.2147483649@nntpbench.local>")
        ),
        other => panic!("expected message-id BODY fallback, got {other:?}"),
    }
}

#[test]
fn client_request_for_command_uses_numeric_selectors_for_nonzero_synthetic_ids() {
    for mix in [ClientCommandMix::Article, ClientCommandMix::Body, ClientCommandMix::Alternate] {
        for command_id in [1, 2, 3, 17, 100, 4999, 10_000] {
            let request = client_request_for_command(command_id, 0, mix, None, 0, 1).unwrap();
            let expected = match client_command_kind(command_id, mix) {
                ClientCommandMix::Article => RequestKind::Article,
                ClientCommandMix::Body => RequestKind::Body,
                ClientCommandMix::Alternate => unreachable!(),
            };
            assert_eq!(request.kind(), expected);
            assert_eq!(request.article_ref(), Some(&ArticleRef::Number(command_id)));
            assert!(request.message_id().is_none());
        }
    }
}

#[test]
fn client_request_for_command_uses_message_ids_for_zero_and_segment_inputs() {
    let segments = parse_segments(b"1\ta@x.test\n1\tb_1@y.test\n1\tc-2@z.test\n").unwrap();
    for mix in [ClientCommandMix::Article, ClientCommandMix::Body, ClientCommandMix::Alternate] {
        for request_index in [0, 1, 2, 3, 31] {
            for client_index in 0..4 {
                for total_clients in 1..4 {
                    let zero = client_request_for_command(
                        0,
                        request_index,
                        mix,
                        None,
                        client_index,
                        total_clients,
                    )
                    .unwrap();
                    assert_eq!(zero.message_id().unwrap().as_str(), "<bench.0@nntpbench.local>");

                    let segmented = client_request_for_command(
                        17,
                        request_index,
                        mix,
                        Some(&segments),
                        client_index,
                        total_clients,
                    )
                    .unwrap();
                    let expected =
                        segment_for_request(&segments, client_index, total_clients, request_index);
                    assert_eq!(segmented.message_id().unwrap().as_str(), expected.as_str());
                }
            }
        }
    }
}

#[test]
fn socket_buffer_size_rejects_values_too_large_for_tcp_socket() {
    assert_eq!(socket_buffer_size_u32(4096), Some(4096));
    assert_eq!(socket_buffer_size_u32(u32::MAX as usize + 1), None);
}

#[test]
fn workload_requests_are_the_wire_of_their_requests() {
    let segments = parse_segments(b"1\tone@test\n1\ttwo@test\n").unwrap();
    for (command_id, request_index, set) in
        [(0, 0, None), (1, 0, None), (2_147_483_648, 3, None), (7, 5, Some(&segments))]
    {
        for mix in [ClientCommandMix::Article, ClientCommandMix::Body, ClientCommandMix::Alternate]
        {
            let mut appended = b"before".to_vec();
            let kind = append_client_workload_request(
                &mut appended,
                command_id,
                request_index,
                mix,
                set,
                1,
                3,
            )
            .unwrap();
            let request =
                client_request_for_command(command_id, request_index, mix, set, 1, 3).unwrap();
            let mut wire = b"before".to_vec();
            request.write_wire_to(&mut wire);
            assert_eq!(appended, wire);
            assert_eq!(kind, request.kind());
            assert_eq!(kind, request_kind_for_client_command(command_id, mix));
        }
    }
}

#[test]
fn bench_requests_are_those_of_one_client() {
    let request = bench_client_request_for_command(5, 0, ClientCommandMix::Body).unwrap();
    assert_eq!(request.article_ref(), Some(&ArticleRef::Number(5)));
    let id = MessageId::from_borrowed("<segment@test>").unwrap();
    let request =
        bench_client_segment_request_for_command(id, ClientCommandMix::Article).unwrap();
    let mut wire = Vec::new();
    request.write_wire_to(&mut wire);
    assert_eq!(wire, b"ARTICLE <segment@test>\r\n");
}

#[test]
fn shares_of_the_requests_add_up_and_differ_by_one_at_most() {
    for (total, connections) in [(10_u64, 3_usize), (1, 4), (7, 7), (100, 9)] {
        let shares: Vec<u64> =
            (0..connections).map(|i| requests_for_connection(total, connections, i)).collect();
        assert_eq!(shares.iter().sum::<u64>(), total);
        assert!(shares.iter().max().unwrap() - shares.iter().min().unwrap() <= 1);
    }
}

#[test]
fn planned_sessions_share_the_requests_and_the_ids() {
    let mut args = test_client_args();
    args.requests = 10;
    args.connections = 3;
    args.ports = vec![1, 2];
    args.start_id = 100;
    let config = ClientConfig::from_args(args, None).unwrap();
    let sessions = plan_sessions(&config);
    assert_eq!(sessions.iter().map(|s| s.requests).collect::<Vec<_>>(), vec![4, 3, 3]);
    assert_eq!(sessions.iter().map(|s| s.next_id).collect::<Vec<_>>(), vec![100, 104, 107]);
    assert_eq!(
        sessions.iter().map(|s| s.port).collect::<Vec<_>>(),
        vec![Some(1), Some(2), Some(1)]
    );
}

#[test]
fn pipelines_are_filled_up_to_their_depth() {
    let mut args = test_client_args();
    args.requests = 5;
    args.pipeline_depth = 3;
    args.command_mix = ClientCommandMix::Article;
    let config = ClientConfig::from_args(args, None).unwrap();
    let session = ClientSession::new(&config, 0, 1, 5);
    let mut stats = Stats::new(0);
    let mut progress = PipelineProgress::new();
    let mut buffer = Vec::new();

    let filled = session.fill_pipeline(None, &mut buffer, &progress, &stats, false).unwrap();
    assert_eq!(filled, 3);
    assert_eq!(buffer, b"ARTICLE 1\r\nARTICLE 2\r\nARTICLE 3\r\n");
    progress.record_filled(filled, &mut stats);
    assert!(!session.wants_refill(&progress));
    assert_eq!(session.pipeline_refill_low_water(), 1);

    progress.record_response(&session, 10, &mut stats);
    progress.record_response(&session, 10, &mut stats);
    assert!(session.wants_refill(&progress));
    let filled = session.fill_pipeline(None, &mut buffer, &progress, &stats, false).unwrap();
    assert_eq!(filled, 2);
    assert_eq!(buffer, b"ARTICLE 4\r\nARTICLE 5\r\n");
    assert_eq!(session.fill_pipeline(None, &mut buffer, &progress, &stats, true).unwrap(), 0);
    assert_eq!(stats.commands, 2);
    assert_eq!(stats.bytes_sent, 20);
    assert_eq!(stats.pipeline_batches, 1);
}

#[test]
fn segment_lines_are_trimmed_and_checked() {
    assert_eq!(trim_ascii_line(b" \t a b \r\n"), b"a b");
    assert_eq!(trim_ascii_line(b" \r\n"), b"");
    assert_eq!(shared_message_id_from_bytes(b"a@b").unwrap().as_str(), "<a@b>");
    assert_eq!(shared_message_id_from_bytes(b"<a@b>").unwrap().as_str(), "<a@b>");
    assert_eq!(shared_message_id_from_bytes(b"a\xff@b").unwrap_err(), SegmentError::NotUtf8);
    assert_eq!(
        shared_message_id_from_bytes(b"no-at-sign").unwrap_err(),
        SegmentError::InvalidMessageId
    );
    let longest = format!("{}@b", "a".repeat(508));
    assert_eq!(
        shared_message_id_from_bytes(longest.as_bytes()).unwrap().as_str(),
        format!("<{longest}>")
    );
    let longer = format!("{}@b", "a".repeat(509));
    assert_eq!(
        shared_message_id_from_bytes(longer.as_bytes()).unwrap_err(),
        SegmentError::TooLong
    );
    let segments = parse_segments(b"1\tone@test\r\n\n \n2\t two@test ").unwrap();
    assert_eq!(
        segments.ids.iter().map(MessageId::as_str).collect::<Vec<_>>(),
        vec!["<one@test>", "<two@test>"]
    );
    assert_eq!(
        parse_segments(b"1\tone@test\n\nno tab\n").unwrap_err(),
        SegmentError::MissingTab(3)
    );
}

#[test]
fn a_password_is_sent_only_where_the_server_asks_for_it() {
    assert_eq!(start_authentication(false), AuthStep::Done);
    assert_eq!(start_authentication(true), AuthStep::SendUser);
    assert_eq!(authentication_after_user(281, true), AuthStep::Done);
    assert_eq!(authentication_after_user(381, true), AuthStep::SendPass);
    assert_eq!(
        authentication_after_user(381, false),
        AuthStep::Rejected(AuthRejection::PassRequired)
    );
    assert_eq!(
        authentication_after_user(481, true),
        AuthStep::Rejected(AuthRejection::User(481))
    );
    assert_eq!(authentication_after_pass(281), AuthStep::Done);
    assert_eq!(authentication_after_pass(481), AuthStep::Rejected(AuthRejection::Pass(481)));
}

#[test]
fn downloads_take_every_nth_target() {
    let mut stats = Stats::new(0);
    let mut progress = DownloadProgress::new(1);
    let mut sent = Vec::new();
    while let Some(place) = progress.next_target(false, 2, 8) {
        sent.push(place);
        progress.record_sent(3, 8);
    }
    assert_eq!(sent, vec![1, 4]);
    assert_eq!(progress.record_received(3, 8, 50, &mut stats), 1);
    assert_eq!(progress.next_target(false, 2, 8), Some(7));
    assert_eq!(progress.next_target(true, 2, 8), None);
    assert_eq!(progress.record_received(3, 8, 50, &mut stats), 4);
    assert_eq!(stats.commands, 2);
    assert_eq!(stats.article_requests, 2);
    assert_eq!(stats.bytes_sent, 100);
    assert_eq!(article_outcome(220), ArticleOutcome::Store);
    assert_eq!(article_outcome(430), ArticleOutcome::Skip);
    assert_eq!(article_outcome(500), ArticleOutcome::Unexpected(500));
}

/// Downloads the articles of a list from a server that sends `incoming`: what was sent to it, and
/// what is to be stored under which path.
fn download(
    ids: &str,
    pipeline_depth: usize,
    incoming: &[u8],
) -> (Vec<u8>, Vec<(Vec<String>, Vec<u8>)>) {
    let targets = parse_article_targets(ids.as_bytes()).unwrap();
    let mut stats = Stats::new(0);
    let mut progress = DownloadProgress::new(0);
    let mut wire = Vec::new();
    let mut stored = Vec::new();
    let mut rest = incoming;
    loop {
        while let Some(place) = progress.next_target(false, pipeline_depth, targets.len()) {
            let article_ref = article_ref_for_download_target(&targets[place]).unwrap();
            Request::Article { article_ref }.write_wire_to(&mut wire);
            progress.record_sent(1, targets.len());
        }
        if progress.in_flight == 0 {
            break;
        }
        let FrameStatus::CompleteAt(end) = response_frame_end(RequestKind::Article, rest) else {
            panic!("the server sends whole responses");
        };
        let response = &rest[..end];
        rest = &rest[end..];
        let place = progress.record_received(1, targets.len(), end as u64, &mut stats);
        match article_outcome(response_status(response).unwrap()) {
            ArticleOutcome::Store => stored.push((
                article_download_target_path(&targets[place]).unwrap(),
                response.to_vec(),
            )),
            ArticleOutcome::Skip => {}
            ArticleOutcome::Unexpected(status) => panic!("unexpected status {status}"),
        }
    }
    assert!(rest.is_empty());
    (wire, stored)
}

#[test]
fn client_article_id_mode_writes_220_responses_and_skips_430() {
    let response = b"220 1 <article.1@test> article follows\r\nSubject: one\r\n\r\nbody\r\n.\r\n";
    let mut incoming = response.to_vec();
    incoming.extend_from_slice(ARTICLE_NOT_FOUND_RESPONSE.as_bytes());
    let (wire, stored) = download("1\n2\n", 2, &incoming);
    assert_eq!(wire, b"ARTICLE 1\r\nARTICLE 2\r\n");
    assert_eq!(stored, vec![(article_id_tree_path(1), response.to_vec())]);
}

#[test]
fn client_article_id_file_accepts_message_ids() {
    let response =
        b"220 1 <abc123@ngPost> article follows\r\nSubject: message id\r\n\r\nbody\r\n.\r\n";
    let (wire, stored) = download("abc123@ngPost\n", 1, response);
    assert_eq!(wire, b"ARTICLE <abc123@ngPost>\r\n");
    let message_id = MessageId::from_borrowed("<abc123@ngPost>").unwrap();
    let path = message_id_tree_path(&message_id).unwrap();
    assert_eq!(stored, vec![(path, response.to_vec())]);
}

#[test]
fn article_targets_are_read_line_by_line() {
    let targets = parse_article_targets(b"7\r\n\n  <a@b> \nc@d").unwrap();
    let labels: Vec<Vec<u8>> = targets.iter().map(download_target_label).collect();
    assert_eq!(labels, vec![b"7".to_vec(), b"<a@b>".to_vec(), b"<c@d>".to_vec()]);
    assert!(matches!(targets[0], ArticleDownloadTarget::Number(7)));
    assert_eq!(parse_article_targets(b"1\n\nnothing here\n").unwrap_err(), InvalidTarget(3));
    assert_eq!(parse_article_targets(b"0\n").unwrap_err(), InvalidTarget(1));
    assert!(parse_article_targets(b"").unwrap().is_empty());
    assert!(article_ref_for_download_target(&ArticleDownloadTarget::Number(0)).is_err());
}

#[test]
fn connection_without_a_share_sends_nothing() {
    let mut args = test_client_args();
    args.requests = 1;
    args.connections = 2;
    args.pipeline_depth = 4;
    let config = ClientConfig::from_args(args, None).unwrap();
    let sessions = plan_sessions(&config);
    assert_eq!(sessions.iter().map(|session| session.requests).collect::<Vec<_>>(), vec![1, 0]);
    let stats = Stats::new(0);
    let filled: Vec<usize> = sessions
        .iter()
        .map(|session| {
            let mut buffer = Vec::new();
            session
                .fill_pipeline(None, &mut buffer, &PipelineProgress::new(), &stats, false)
                .unwrap()
        })
        .collect();
    assert_eq!(filled, vec![1, 0]);

    let mut args = test_client_args();
    args.requests = 0;
    args.pipeline_depth = 4;
    let config = ClientConfig::from_args(args, None).unwrap();
    let mut buffer = Vec::new();
    let session = plan_sessions(&config)[0];
    assert_eq!(
        session.fill_pipeline(None, &mut buffer, &PipelineProgress::new(), &stats, false),
        Ok(4)
    );
}

#[test]
fn finished_connections_sent_what_was_asked_for() {
    for (requests, connections) in [(1, 3), (2, 3), (3, 3), (10, 3), (7, 1)] {
        let mut args = test_client_args();
        args.requests = requests;
        args.connections = connections;
        args.pipeline_depth = 2;
        let config = ClientConfig::from_args(args, None).unwrap();
        let mut stats = Stats::new(0);
        for session in plan_sessions(&config) {
            let mut progress = PipelineProgress::new();
            let mut buffer = Vec::new();
            loop {
                let filled = session
                    .fill_pipeline(None, &mut buffer, &progress, &stats, false)
                    .unwrap();
                progress.record_filled(filled, &mut stats);
                assert!(progress.in_flight <= 2);
                if progress.in_flight == 0 {
                    break;
                }
                progress.record_response(&session, 10, &mut stats);
            }
            assert_eq!(progress.issued, session.requests);
            assert_eq!(progress.received, session.requests);
        }
        assert_eq!(stats.commands, requests);
    }
}

#[test]
fn downloading_clients_take_every_place_once_and_in_order() {
    let (targets, stride) = (11, 3);
    let mut taken = vec![0; targets];
    for client in 0..stride {
        let mut stats = Stats::new(0);
        let mut progress = DownloadProgress::new(client);
        let mut asked = Vec::new();
        let mut answered = Vec::new();
        loop {
            while let Some(place) = progress.next_target(false, 2, targets) {
                asked.push(place);
                progress.record_sent(stride, targets);
            }
            if progress.in_flight == 0 {
                break;
            }
            answered.push(progress.record_received(stride, targets, 1, &mut stats));
        }
        let turn: Vec<usize> = (0..targets).filter(|place| place % stride == client).collect();
        assert_eq!(asked, turn);
        assert_eq!(answered, turn);
        for place in asked {
            taken[place] += 1;
        }
    }
    assert_eq!(taken, vec![1; targets]);
}
