//! Whole sessions, from the bytes that a client sends to the bytes that it gets back.
use std::sync::Arc;
use std::time::{SystemTime, UNIX_EPOCH};

use nntpbench::auth::{
    authentication_after_pass, authentication_after_user, start_authentication, AuthStep,
};
use nntpbench::batch::{
    batch_commands, batch_goes_on, new_command_batch, next_line_looks_like_header, push_command,
    read_line_step, stage_command, start_batch, transfer_body_rule, LineStep, TransferBody,
};
use nntpbench::client::PipelineProgress;
use nntpbench::commands::{
    command_message_id, CommandBatch, CommandLineBatch, MAX_COMMAND_LINE_BYTES,
};
use nntpbench::date::date_response_for_unix_seconds;
use nntpbench::generate::{
    build_message_id_head_response, build_message_id_stat_response, build_selected_article_response,
};
use nntpbench::groups::SessionState;
use nntpbench::pending::{PendingWrite, WritePlan};
use nntpbench::response::{ResponseInput, Taken};
use nntpbench::responses::{
    CAPABILITIES_RESPONSE, GREETING, GROUP_COMP_RESPONSE, GROUP_RESPONSE, HDR_BYTES_1_RESPONSE,
    HDR_BYTES_2_RESPONSE, HDR_BYTES_MESSAGE_ID_RESPONSE, HDR_LINES_2_RESPONSE,
    HDR_MESSAGE_ID_2_RESPONSE, HDR_MESSAGE_ID_MESSAGE_ID_RESPONSE, HDR_SUBJECT_1_RESPONSE,
    HDR_SUBJECT_2_RESPONSE, HDR_SUBJECT_MESSAGE_ID_RESPONSE, HELP_RESPONSE, LAST_RESPONSE,
    LISTGROUP_2_3_RESPONSE, LISTGROUP_COMP_EMPTY_RESPONSE, LISTGROUP_COMP_RESPONSE,
    LISTGROUP_EMPTY_RESPONSE, LISTGROUP_RESPONSE, LIST_ACTIVE_ALT_RESPONSE,
    LIST_ACTIVE_COMP_RESPONSE, LIST_ACTIVE_TIMES_ALT_RESPONSE, LIST_ACTIVE_TIMES_COMP_RESPONSE,
    LIST_ACTIVE_TIMES_RESPONSE, LIST_DISTRIB_PATS_RESPONSE, LIST_EMPTY_RESPONSE,
    LIST_HEADERS_RESPONSE, LIST_NEWSGROUPS_ALT_RESPONSE, LIST_NEWSGROUPS_COMP_RESPONSE,
    LIST_NEWSGROUPS_RESPONSE, LIST_OVERVIEW_FMT_RESPONSE, LIST_RESPONSE, MODE_READER_RESPONSE,
    NAVIGATION_ARTICLE_2_RESPONSE, NAVIGATION_ARTICLE_3_RESPONSE, NEWGROUPS_EMPTY_RESPONSE,
    NEWGROUPS_RESPONSE, NEWNEWS_EMPTY_RESPONSE, NEWNEWS_RESPONSE, NEXT_RESPONSE, OVER_2_RESPONSE,
    OVER_MESSAGE_ID_RESPONSE, OVER_RANGE_RESPONSE, OVER_RESPONSE, QUIT_RESPONSE,
    XHDR_BYTES_1_RESPONSE, XHDR_BYTES_2_RESPONSE, XHDR_LINES_MESSAGE_ID_RESPONSE,
    XHDR_MESSAGE_ID_2_RESPONSE, XHDR_MESSAGE_ID_MESSAGE_ID_RESPONSE, XHDR_SUBJECT_1_RESPONSE,
    XHDR_SUBJECT_2_RESPONSE, XHDR_SUBJECT_MESSAGE_ID_RESPONSE, XOVER_RESPONSE,
};
use nntpbench::segments::parse_segments;
use nntpbench::server_config::MAX_SERVER_PIPELINE_DEPTH;
use nntpbench::session::{finish_lookup, handle_command, CommandAction};
use nntpbench::store::{article_id_tree_path, message_id_tree_path};
use nntpbench::terminator::{
    detect_bounded_response_line_end, find_crlf_line_end, BoundedResponseLineStatus,
};
use nntpbench::transfer::{scan_body_chunk, BodyScan, TakeThisBodyState};
use nntpbench::values::MAX_INITIAL_RESPONSE_LINE_BYTES;
use nntpbench::wildmat::wildmat_matches;
use nntpbench::workload::client_command_kind;
use nntpbench::{
    ClientArgs, ClientCommandMix, ClientConfig, ClientSession, MessageId, Request, RequestKind,
    ServerArgs, ServerConfig, SessionStats, Snapshot, Stats,
};

const READER_CAPACITY: usize = 256 * 1024;

fn test_args() -> ServerArgs {
    ServerArgs {
        body_bytes: 1024,
        article_bytes: 2048,
        article_dir: None,
        max_connections: 16,
        max_pipeline_depth: 8,
        nodelay: true,
        socket_recv_buffer: 16 * 1024 * 1024,
        socket_send_buffer: 16 * 1024 * 1024,
        stats_interval_secs: 0,
        flush: false,
        pending_write_bytes: 800 * 1024,
    }
}

fn test_config() -> Arc<ServerConfig> {
    Arc::new(ServerConfig::from_args(test_args()))
}

fn now() -> u64 {
    SystemTime::now().duration_since(UNIX_EPOCH).unwrap().as_secs()
}

/// What a client sends, in the pieces in which it arrives.
struct Reader<'a> {
    pieces: Vec<&'a [u8]>,
    capacity: usize,
    buffer: &'a [u8],
}

impl<'a> Reader<'a> {
    fn new(pieces: &[&'a [u8]], capacity: usize) -> Self {
        Reader { pieces: pieces.to_vec(), capacity, buffer: &[] }
    }

    fn buffer(&self) -> &'a [u8] {
        self.buffer
    }

    fn fill(&mut self) -> &'a [u8] {
        while self.buffer.is_empty() && !self.pieces.is_empty() {
            let piece = self.pieces[0];
            let take = piece.len().min(self.capacity);
            self.buffer = &piece[..take];
            if take == piece.len() {
                self.pieces.remove(0);
            } else {
                self.pieces[0] = &piece[take..];
            }
        }
        self.buffer
    }

    fn consume(&mut self, count: usize) {
        self.buffer = &self.buffer[count..];
    }
}

#[derive(Debug, PartialEq, Eq)]
enum ReadError {
    TruncatedLine,
    TruncatedBody,
    MalformedBody,
}

fn read_line(reader: &mut Reader<'_>) -> Result<Option<Vec<u8>>, ReadError> {
    let mut line = Vec::new();
    loop {
        match read_line_step(&mut line, reader.fill()) {
            LineStep::EndOfInput => return Ok(None),
            LineStep::Truncated => return Err(ReadError::TruncatedLine),
            LineStep::More(taken) => reader.consume(taken),
            LineStep::Complete(taken) => {
                reader.consume(taken);
                return Ok(Some(line));
            }
        }
    }
}

fn read_body(reader: &mut Reader<'_>) -> Result<(), ReadError> {
    let mut state = TakeThisBodyState::LineStart;
    loop {
        let available = reader.fill();
        if available.is_empty() {
            return Err(ReadError::TruncatedBody);
        }
        match scan_body_chunk(state, available) {
            BodyScan::More(next) => {
                state = next;
                reader.consume(available.len());
            }
            BodyScan::Complete(taken) => {
                reader.consume(taken);
                return Ok(());
            }
            BodyScan::Malformed(taken) => {
                reader.consume(taken);
                return Err(ReadError::MalformedBody);
            }
        }
    }
}

fn read_command(
    reader: &mut Reader<'_>,
    lines: &mut CommandLineBatch,
    batch: &mut CommandBatch,
) -> Result<bool, ReadError> {
    let Some(line) = read_line(reader)? else {
        return Ok(false);
    };
    let command = stage_command(&line, lines, batch);
    let has_transfer_body = match transfer_body_rule(command.kind, &line) {
        TransferBody::Always => true,
        TransferBody::IfHeadersFollow => next_line_looks_like_header(reader.fill()),
        TransferBody::Never => false,
    };
    if has_transfer_body {
        read_body(reader)?;
    }
    push_command(batch, command, has_transfer_body);
    Ok(true)
}

fn read_command_batch(
    reader: &mut Reader<'_>,
    lines: &mut CommandLineBatch,
    batch: &mut CommandBatch,
    max_pipeline_depth: usize,
) -> Result<bool, ReadError> {
    start_batch(batch);
    if !read_command(reader, lines, batch)? {
        return Ok(false);
    }
    while batch_goes_on(batch, max_pipeline_depth, reader.buffer()) {
        if !read_command(reader, lines, batch)? {
            break;
        }
    }
    Ok(true)
}

fn kinds(batch: &CommandBatch) -> Vec<RequestKind> {
    batch_commands(batch).iter().map(|command| command.kind).collect()
}

fn perform(plan: WritePlan, response: &[u8], output: &mut Vec<u8>) {
    match plan {
        WritePlan::Nothing => {}
        WritePlan::Waiting(waiting) => output.extend_from_slice(&waiting),
        WritePlan::WaitingAndResponse(waiting) => {
            output.extend_from_slice(&waiting);
            output.extend_from_slice(response);
        }
        WritePlan::Response => output.extend_from_slice(response),
    }
}

/// Stored articles, each with its path below the root of the store.
type Store = Vec<(Vec<String>, Vec<u8>)>;

fn stored(
    store: &Store,
    article_id: Option<u64>,
    message_id: Option<&MessageId>,
) -> Option<Vec<u8>> {
    let by_path = |path: Vec<String>| {
        store.iter().find(|(place, _)| *place == path).map(|(_, article)| article.clone())
    };
    if let Some(article) = article_id.and_then(|id| by_path(article_id_tree_path(id))) {
        return Some(article);
    }
    message_id.and_then(|id| by_path(message_id_tree_path(id).unwrap()))
}

/// The server's end of a connection.
struct ServerSide {
    config: Arc<ServerConfig>,
    lines: CommandLineBatch,
    batch: CommandBatch,
    pending: PendingWrite,
    state: SessionState,
    stats: SessionStats,
    closed: bool,
}

impl ServerSide {
    fn new(config: Arc<ServerConfig>) -> Self {
        ServerSide {
            lines: CommandLineBatch::new(),
            batch: new_command_batch(),
            pending: PendingWrite::new(config.pending_write_bytes),
            state: SessionState::new(),
            stats: SessionStats::new(),
            closed: false,
            config,
        }
    }

    fn greet(&mut self, output: &mut Vec<u8>) {
        output.extend_from_slice(GREETING.as_bytes());
        self.stats.count_sent(GREETING.len() as u64);
    }

    fn answer_batch(&mut self, store: &Store, output: &mut Vec<u8>) {
        let commands = batch_commands(&self.batch);
        self.stats.count_batch(commands.len());
        for command in commands {
            match handle_command(
                command,
                Some(&self.lines),
                &self.config,
                &mut self.stats,
                &mut self.state,
                now(),
            ) {
                CommandAction::Send { reply, close } => {
                    let plan = self.pending.write_response(reply.as_bytes());
                    perform(plan, reply.as_bytes(), output);
                    if close {
                        self.closed = true;
                        break;
                    }
                }
                CommandAction::Lookup { article_id, message_id } => {
                    let article = stored(store, article_id, message_id.as_ref());
                    if let Some(article) = &article {
                        perform(self.pending.flush(), &[], output);
                        output.extend_from_slice(article);
                        self.stats.count_sent(article.len() as u64);
                    }
                    if let Some(text) = finish_lookup(
                        article.is_some(),
                        article_id,
                        message_id.is_some(),
                        &mut self.stats,
                        &mut self.state,
                    ) {
                        let plan = self.pending.write_response(text.as_bytes());
                        perform(plan, text.as_bytes(), output);
                    }
                }
            }
        }
        perform(self.pending.flush(), &[], output);
    }

    fn receive(
        &mut self,
        store: &Store,
        input: &[u8],
        output: &mut Vec<u8>,
    ) -> Result<(), ReadError> {
        let mut reader = Reader::new(&[input], READER_CAPACITY);
        let depth = self.config.max_pipeline_depth.min(MAX_SERVER_PIPELINE_DEPTH);
        while !self.closed
            && read_command_batch(&mut reader, &mut self.lines, &mut self.batch, depth)?
        {
            self.answer_batch(store, output);
        }
        Ok(())
    }
}

fn run_session_with_store(
    config: Arc<ServerConfig>,
    store: &Store,
    input: &[u8],
) -> (Vec<u8>, Stats) {
    let mut server = ServerSide::new(config);
    let mut output = Vec::new();
    server.greet(&mut output);
    server.receive(store, input, &mut output).unwrap();
    let mut stats = Stats::new(0);
    stats.add_session(&server.stats);
    (output, stats)
}

fn run_session_with_input(config: Arc<ServerConfig>, input: &[u8]) -> (Vec<u8>, Stats) {
    run_session_with_store(config, &Store::new(), input)
}

fn run_session_with_input_allowing_server_error(
    config: Arc<ServerConfig>,
    input: &[u8],
) -> (Vec<u8>, Option<ReadError>) {
    let mut server = ServerSide::new(config);
    let mut output = Vec::new();
    server.greet(&mut output);
    let result = server.receive(&Store::new(), input, &mut output);
    (output, result.err())
}

fn without_greeting(output: &[u8]) -> &[u8] {
    assert!(
        output.starts_with(GREETING.as_bytes()),
        "output did not start with the greeting: {:?}",
        String::from_utf8_lossy(output)
    );
    &output[GREETING.len()..]
}

fn assert_single_response(input: &[u8], expected: &[u8], output: &[u8]) {
    assert_eq!(
        without_greeting(output),
        expected,
        "input {:?} should produce {:?}, got {:?}",
        String::from_utf8_lossy(input),
        String::from_utf8_lossy(expected),
        String::from_utf8_lossy(without_greeting(output))
    );
}

struct ServerResponseCase {
    name: &'static str,
    input: &'static [u8],
    expected: &'static [u8],
}

fn assert_responses(cases: &[ServerResponseCase]) {
    assert_responses_from_store(test_config(), &Store::new(), cases);
}

fn assert_responses_from_store(
    config: Arc<ServerConfig>,
    store: &Store,
    cases: &[ServerResponseCase],
) {
    let mut failures = Vec::new();
    for case in cases {
        let (output, _) = run_session_with_store(config.clone(), store, case.input);
        let actual = without_greeting(&output);
        if actual != case.expected {
            failures.push(format!(
                "{}: expected {:?}, got {:?}",
                case.name,
                String::from_utf8_lossy(case.expected),
                String::from_utf8_lossy(actual)
            ));
        }
    }
    assert!(failures.is_empty(), "{}", failures.join("\n"));
}

fn assert_response_tails(cases: &[ServerResponseCase]) {
    let mut failures = Vec::new();
    for case in cases {
        let (output, _) = run_session_with_input(test_config(), case.input);
        let actual = without_greeting(&output);
        if !actual.ends_with(case.expected) {
            failures.push(format!(
                "{}: expected tail {:?}, got {:?}",
                case.name,
                String::from_utf8_lossy(case.expected),
                String::from_utf8_lossy(actual)
            ));
        }
    }
    assert!(failures.is_empty(), "{}", failures.join("\n"));
}

fn assert_date_response(response: &[u8]) {
    assert_eq!(response.len(), 20);
    assert!(response.starts_with(b"111 "));
    assert!(response.ends_with(b"\r\n"));
    assert!(response[4..18].iter().all(u8::is_ascii_digit));
}

fn assert_current_date_response(response: &[u8], before: &[u8], after: &[u8]) {
    assert_date_response(response);
    assert!(
        response[4..12] == before[4..12] || response[4..12] == after[4..12],
        "DATE response should use current UTC day, got {:?}, before {:?}, after {:?}",
        String::from_utf8_lossy(response),
        String::from_utf8_lossy(before),
        String::from_utf8_lossy(after)
    );
}

fn current_date_response() -> Vec<u8> {
    date_response_for_unix_seconds(now())
}

#[test]
fn rfc3977_red_server_returns_501_for_syntax_error_not_article_body() {
    let input = b"ARTICLE <a@b> extra\r\n";
    let (output, _) = run_session_with_input(test_config(), input);
    assert_single_response(input, b"501 command syntax error\r\n", &output);
}

#[test]
fn rfc3977_red_group_unknown_group_returns_411() {
    let input = b"GROUP no.such.group\r\n";
    let (output, _) = run_session_with_input(test_config(), input);
    assert_single_response(input, b"411 no such newsgroup\r\n", &output);
}

#[test]
fn rfc3977_red_group_and_listgroup_responses_match_selected_group() {
    assert_responses(&[
        ServerResponseCase {
            name: "GROUP comp.lang.rust describes comp.lang.rust",
            input: b"GROUP comp.lang.rust\r\n",
            expected: GROUP_COMP_RESPONSE.as_bytes(),
        },
        ServerResponseCase {
            name: "GROUP valid but nonexistent group returns 411",
            input: b"GROUP example.valid\r\n",
            expected: b"411 no such newsgroup\r\n",
        },
        ServerResponseCase {
            name: "LISTGROUP comp.lang.rust describes comp.lang.rust",
            input: b"LISTGROUP comp.lang.rust\r\n",
            expected: LISTGROUP_COMP_RESPONSE.as_bytes(),
        },
        ServerResponseCase {
            name: "LISTGROUP valid but nonexistent group returns 411",
            input: b"LISTGROUP example.valid\r\n",
            expected: b"411 no such newsgroup\r\n",
        },
        ServerResponseCase {
            name: "current LISTGROUP follows selected comp.lang.rust",
            input: b"GROUP comp.lang.rust\r\nLISTGROUP\r\n",
            expected: b"211 1 1 1 comp.lang.rust\r\n211 1 1 1 comp.lang.rust\r\n1\r\n.\r\n",
        },
    ]);
}

#[test]
fn rfc3977_red_selected_group_article_bounds_are_enforced() {
    assert_response_tails(&[
        ServerResponseCase {
            name: "NEXT at end of one-article group",
            input: b"GROUP comp.lang.rust\r\nNEXT\r\n",
            expected: b"421 no next article in this group\r\n",
        },
        ServerResponseCase {
            name: "ARTICLE outside one-article group",
            input: b"GROUP comp.lang.rust\r\nARTICLE 2\r\n",
            expected: b"423 no article with that number\r\n",
        },
        ServerResponseCase {
            name: "HEAD outside one-article group",
            input: b"GROUP comp.lang.rust\r\nHEAD 2\r\n",
            expected: b"423 no article with that number\r\n",
        },
        ServerResponseCase {
            name: "BODY outside one-article group",
            input: b"GROUP comp.lang.rust\r\nBODY 2\r\n",
            expected: b"423 no article with that number\r\n",
        },
        ServerResponseCase {
            name: "STAT outside one-article group",
            input: b"GROUP comp.lang.rust\r\nSTAT 2\r\n",
            expected: b"423 no article with that number\r\n",
        },
        ServerResponseCase {
            name: "OVER outside one-article group",
            input: b"GROUP comp.lang.rust\r\nOVER 2\r\n",
            expected: b"423 no article with that number\r\n",
        },
        ServerResponseCase {
            name: "HDR outside one-article group",
            input: b"GROUP comp.lang.rust\r\nHDR Subject 2\r\n",
            expected: b"423 no article with that number\r\n",
        },
        ServerResponseCase {
            name: "LISTGROUP range outside one-article group",
            input: b"GROUP comp.lang.rust\r\nLISTGROUP 2-3\r\n",
            expected: LISTGROUP_COMP_EMPTY_RESPONSE.as_bytes(),
        },
    ]);
}

#[test]
fn rfc3977_red_last_before_group_returns_412_no_group_selected() {
    let input = b"LAST\r\n";
    let (output, _) = run_session_with_input(test_config(), input);
    assert_single_response(input, b"412 no newsgroup selected\r\n", &output);
}

#[test]
fn rfc3977_red_next_before_group_returns_412_no_group_selected() {
    let input = b"NEXT\r\n";
    let (output, _) = run_session_with_input(test_config(), input);
    assert_single_response(input, b"412 no newsgroup selected\r\n", &output);
}

#[test]
fn rfc3977_red_last_next_current_article_state_matrix() {
    assert_response_tails(&[
        ServerResponseCase {
            name: "LAST after GROUP at first article",
            input: b"GROUP alt.test\r\nLAST\r\n",
            expected: b"422 no previous article in this group\r\n",
        },
        ServerResponseCase {
            name: "NEXT after GROUP advances from first article",
            input: b"GROUP alt.test\r\nNEXT\r\n",
            expected: NEXT_RESPONSE.as_bytes(),
        },
        ServerResponseCase {
            name: "LAST at first article",
            input: b"GROUP alt.test\r\nARTICLE 1\r\nLAST\r\n",
            expected: b"422 no previous article in this group\r\n",
        },
        ServerResponseCase {
            name: "NEXT at last article",
            input: b"GROUP alt.test\r\nARTICLE 3\r\nNEXT\r\n",
            expected: b"421 no next article in this group\r\n",
        },
    ]);
}

#[test]
fn rfc3977_red_last_next_move_relative_to_current_article() {
    assert_response_tails(&[
        ServerResponseCase {
            name: "LAST from article 2 moves to article 1",
            input: b"GROUP alt.test\r\nARTICLE 2\r\nLAST\r\n",
            expected: LAST_RESPONSE.as_bytes(),
        },
        ServerResponseCase {
            name: "LAST from article 3 moves to article 2",
            input: b"GROUP alt.test\r\nARTICLE 3\r\nLAST\r\n",
            expected: NAVIGATION_ARTICLE_2_RESPONSE.as_bytes(),
        },
        ServerResponseCase {
            name: "NEXT from article 2 moves to article 3",
            input: b"GROUP alt.test\r\nARTICLE 2\r\nNEXT\r\n",
            expected: NAVIGATION_ARTICLE_3_RESPONSE.as_bytes(),
        },
        ServerResponseCase {
            name: "NEXT in one-article group has no next article",
            input: b"GROUP comp.lang.rust\r\nNEXT\r\n",
            expected: b"421 no next article in this group\r\n",
        },
    ]);
}

#[test]
fn rfc3977_red_current_article_fetch_before_group_returns_412() {
    let input = b"ARTICLE\r\n";
    let (output, _) = run_session_with_input(test_config(), input);
    assert_single_response(input, b"412 no newsgroup selected\r\n", &output);
}

#[test]
fn rfc3977_red_article_numeric_before_group_returns_412() {
    assert_responses(&[
        ServerResponseCase {
            name: "ARTICLE numeric before GROUP",
            input: b"ARTICLE 2\r\n",
            expected: b"412 no newsgroup selected\r\n",
        },
        ServerResponseCase {
            name: "HEAD numeric before GROUP",
            input: b"HEAD 2\r\n",
            expected: b"412 no newsgroup selected\r\n",
        },
        ServerResponseCase {
            name: "BODY numeric before GROUP",
            input: b"BODY 2\r\n",
            expected: b"412 no newsgroup selected\r\n",
        },
        ServerResponseCase {
            name: "STAT numeric before GROUP",
            input: b"STAT 2\r\n",
            expected: b"412 no newsgroup selected\r\n",
        },
    ]);
}

#[test]
fn rfc3977_red_article_file_backend_preserves_selector_state_and_errors() {
    let response =
        b"220 2 <article.2@test> article follows\r\nSubject: stored\r\n\r\nbody\r\n.\r\n";

    let message_response =
        b"220 1 <stored@ngPost> article follows\r\nSubject: message\r\n\r\nbody\r\n.\r\n";
    let message_id = MessageId::from_borrowed("<stored@ngPost>").unwrap();
    let store = vec![
        (article_id_tree_path(2), response.to_vec()),
        (message_id_tree_path(&message_id).unwrap(), message_response.to_vec()),
    ];

    let mut args = test_args();
    args.article_dir = Some("articles".to_string());
    let config = Arc::new(ServerConfig::from_args(args));
    assert_responses_from_store(
        config.clone(),
        &store,
        &[
            ServerResponseCase {
                name: "stored numeric ARTICLE before GROUP",
                input: b"ARTICLE 2\r\n",
                expected: b"412 no newsgroup selected\r\n",
            },
            ServerResponseCase {
                name: "stored missing message-id ARTICLE",
                input: b"ARTICLE <missing@ngPost>\r\n",
                expected: b"430 no article with that message-id\r\n",
            },
        ],
    );

    let (output, _) =
        run_session_with_store(config.clone(), &store, b"GROUP alt.test\r\nARTICLE 3\r\n");
    assert!(
        without_greeting(&output).ends_with(b"423 no article with that number\r\n"),
        "missing stored numeric ARTICLE should end with 423, got {:?}",
        String::from_utf8_lossy(without_greeting(&output))
    );

    let (output, _) = run_session_with_store(
        config,
        &store,
        b"GROUP alt.test\r\nARTICLE 2\r\nARTICLE <stored@ngPost>\r\nSTAT\r\n",
    );
    assert!(
        without_greeting(&output)
            .ends_with(b"223 2 <article.2@nntpbench.local> article retrieved\r\n"),
        "stored numeric ARTICLE must set current article, while message-id ARTICLE must not change it, got {:?}",
        String::from_utf8_lossy(without_greeting(&output))
    );
}

#[test]
fn rfc3977_red_missing_article_number_returns_423() {
    let input = b"GROUP alt.test\r\nARTICLE 999999\r\n";
    let (output, _) = run_session_with_input(test_config(), input);
    assert!(
        without_greeting(&output).ends_with(b"423 no article with that number\r\n"),
        "missing numeric ARTICLE should end with 423, got {:?}",
        String::from_utf8_lossy(without_greeting(&output))
    );
}

#[test]
fn rfc3977_red_article_family_numeric_selectors_echo_selected_article() {
    for (name, input, expected_prefix) in [
        (
            "ARTICLE numeric selector",
            b"GROUP alt.test\r\nARTICLE 2\r\n".as_slice(),
            b"220 2 <article.2@nntpbench.local> article follows\r\n".as_slice(),
        ),
        (
            "HEAD numeric selector",
            b"GROUP alt.test\r\nHEAD 2\r\n".as_slice(),
            b"221 2 <article.2@nntpbench.local> article retrieved\r\n".as_slice(),
        ),
        (
            "BODY numeric selector",
            b"GROUP alt.test\r\nBODY 2\r\n".as_slice(),
            b"222 2 <article.2@nntpbench.local> body follows\r\n".as_slice(),
        ),
        (
            "STAT numeric selector",
            b"GROUP alt.test\r\nSTAT 2\r\n".as_slice(),
            b"223 2 <article.2@nntpbench.local> article retrieved\r\n".as_slice(),
        ),
    ] {
        let (output, _) = run_session_with_input(test_config(), input);
        let actual = without_greeting(&output);
        assert!(
            actual
                .windows(expected_prefix.len())
                .any(|window| window == expected_prefix),
            "{name}: expected response prefix {:?}, got {:?}",
            String::from_utf8_lossy(expected_prefix),
            String::from_utf8_lossy(actual)
        );
    }

    let input = b"GROUP alt.test\r\nARTICLE 2\r\nSTAT\r\n";
    let (output, _) = run_session_with_input(test_config(), input);
    assert!(
        without_greeting(&output)
            .ends_with(b"223 2 <article.2@nntpbench.local> article retrieved\r\n"),
        "current STAT should report current article 2, got {:?}",
        String::from_utf8_lossy(without_greeting(&output))
    );
}

#[test]
fn rfc3977_red_article_family_message_id_selectors_do_not_change_current_article() {
    for (name, input, expected_prefix) in [
        (
            "ARTICLE message-id selector",
            b"ARTICLE <by-id@nntpbench.local>\r\n".as_slice(),
            b"220 0 <by-id@nntpbench.local> article follows\r\n".as_slice(),
        ),
        (
            "HEAD message-id selector",
            b"HEAD <by-id@nntpbench.local>\r\n".as_slice(),
            b"221 0 <by-id@nntpbench.local> article retrieved\r\n".as_slice(),
        ),
        (
            "BODY message-id selector",
            b"BODY <by-id@nntpbench.local>\r\n".as_slice(),
            b"222 0 <by-id@nntpbench.local> body follows\r\n".as_slice(),
        ),
        (
            "STAT message-id selector",
            b"STAT <by-id@nntpbench.local>\r\n".as_slice(),
            b"223 0 <by-id@nntpbench.local> article retrieved\r\n".as_slice(),
        ),
    ] {
        let (output, _) = run_session_with_input(test_config(), input);
        let actual = without_greeting(&output);
        assert!(
            actual.starts_with(expected_prefix),
            "{name}: expected message-id response prefix {:?}, got {:?}",
            String::from_utf8_lossy(expected_prefix),
            String::from_utf8_lossy(actual)
        );
    }

    let input =
        b"GROUP alt.test\r\nARTICLE 2\r\nARTICLE <by-id@nntpbench.local>\r\nSTAT\r\n";
    let (output, _) = run_session_with_input(test_config(), input);
    assert!(
        without_greeting(&output)
            .ends_with(b"223 2 <article.2@nntpbench.local> article retrieved\r\n"),
        "message-id ARTICLE must not change current article, got {:?}",
        String::from_utf8_lossy(without_greeting(&output))
    );
}

#[test]
fn rfc3977_red_posting_disabled_returns_440_for_post() {
    let input = b"POST\r\n";
    let (output, _) = run_session_with_input(test_config(), input);
    assert_single_response(input, b"440 posting not permitted\r\n", &output);
}

#[test]
fn rfc3977_red_ihave_rejected_on_reader_server_without_transfer_state() {
    let input = b"IHAVE <article@test>\r\n";
    let (output, _) = run_session_with_input(test_config(), input);
    assert_single_response(input, b"435 article not wanted\r\n", &output);
}

#[test]
fn rfc3977_red_newgroups_invalid_date_returns_501() {
    let input = b"NEWGROUPS 20261301 000000 GMT\r\n";
    let (output, _) = run_session_with_input(test_config(), input);
    assert_single_response(input, b"501 command syntax error\r\n", &output);
}

#[test]
fn rfc3977_red_newnews_invalid_wildmat_returns_501() {
    let input = b"NEWNEWS ! 20260101 000000 GMT\r\n";
    let (output, _) = run_session_with_input(test_config(), input);
    assert_single_response(input, b"501 command syntax error\r\n", &output);
}

#[test]
fn rfc3977_red_date_response_reflects_current_utc_date() {
    let input = b"DATE\r\n";
    let before = current_date_response();
    let (output, _) = run_session_with_input(test_config(), input);
    let after = current_date_response();
    assert_current_date_response(without_greeting(&output), &before, &after);
}

#[test]
fn rfc3977_red_over_invalid_selector_returns_501() {
    let input = b"OVER 0\r\n";
    let (output, _) = run_session_with_input(test_config(), input);
    assert_single_response(input, b"501 command syntax error\r\n", &output);
}

#[test]
fn rfc3977_red_hdr_invalid_header_name_returns_501() {
    let input = b"HDR Subject: 1\r\n";
    let (output, _) = run_session_with_input(test_config(), input);
    assert_single_response(input, b"501 command syntax error\r\n", &output);
}

#[test]
fn rfc3977_red_hdr_accepts_metadata_names_with_leading_colon() {
    let input = b"GROUP alt.test\r\nHDR :bytes 1\r\n";
    let (output, _) = run_session_with_input(test_config(), input);
    let text = String::from_utf8_lossy(without_greeting(&output));
    assert!(
        text.ends_with("\r\n225 headers follow\r\n1 123\r\n.\r\n"));
}

#[test]
fn rfc3977_red_capabilities_do_not_advertise_unavailable_extensions() {
    let (output, _) = run_session_with_input(test_config(), b"CAPABILITIES\r\n");
    let text = String::from_utf8_lossy(without_greeting(&output));
    assert!(
        text.contains("VERSION 2")
            && text.contains("READER\r\n")
            && text.contains("MODE-READER\r\n"),
        "missing required base/reader capabilities, got {text:?}"
    );
    assert!(
        text.contains("AUTHINFO\r\n"),
        "missing AUTHINFO capability marker, got {text:?}"
    );
    assert!(
        !text.contains("AUTHINFO USER")
            && !text.contains("STARTTLS")
            && !text.contains("SASL")
            && !text.contains("STREAMING"),
        "advertised unavailable extension capability, got {text:?}"
    );
}

#[test]
fn rfc4643_red_plaintext_user_pass_not_advertised_or_accepted() {
    assert_responses(&[
        ServerResponseCase {
            name: "AUTHINFO USER rejected before TLS",
            input: b"AUTHINFO USER bench\r\n",
            expected: b"483 command unavailable until TLS has been negotiated\r\n",
        },
        ServerResponseCase {
            name: "AUTHINFO PASS rejected before TLS",
            input: b"AUTHINFO PASS pass\r\n",
            expected: b"483 command unavailable until TLS has been negotiated\r\n",
        },
        ServerResponseCase {
            name: "AUTHINFO USER does not enable PASS without TLS",
            input: b"AUTHINFO USER bench\r\nAUTHINFO PASS pass\r\n",
            expected: b"483 command unavailable until TLS has been negotiated\r\n483 command unavailable until TLS has been negotiated\r\n",
        },
    ]);
}

#[test]
fn rfc4642_red_starttls_without_tls_support_returns_502() {
    let input = b"STARTTLS\r\n";
    let (output, _) = run_session_with_input(test_config(), input);
    assert_single_response(input, b"502 command unavailable\r\n", &output);
}

#[test]
fn rfc4643_red_authinfo_pass_before_tls_is_rejected() {
    let input = b"AUTHINFO PASS bench-pass\r\n";
    let (output, _) = run_session_with_input(test_config(), input);
    assert_single_response(
        input,
        b"483 command unavailable until TLS has been negotiated\r\n",
        &output);
}

#[test]
fn rfc4643_red_authinfo_sasl_unavailable_with_valid_syntax() {
    assert_responses(&[
        ServerResponseCase {
            name: "SASL mechanism unavailable when AUTHINFO has no arguments",
            input: b"AUTHINFO SASL MADE-UP-MECHANISM\r\n",
            expected: b"502 command unavailable\r\n",
        },
        ServerResponseCase {
            name: "SASL zero-length initial response marker",
            input: b"AUTHINFO SASL MADE-UP-MECHANISM =\r\n",
            expected: b"502 command unavailable\r\n",
        },
        ServerResponseCase {
            name: "SASL padded base64 initial response",
            input: b"AUTHINFO SASL MADE-UP-MECHANISM YQ==\r\n",
            expected: b"502 command unavailable\r\n",
        },
    ]);
}

#[test]
fn rfc4643_red_authinfo_sasl_rejects_malformed_initial_response() {
    assert_responses(&[
        ServerResponseCase {
            name: "SASL padding in middle",
            input: b"AUTHINFO SASL MADE-UP-MECHANISM AAA=BBB\r\n",
            expected: b"501 command syntax error\r\n",
        },
        ServerResponseCase {
            name: "SASL excessive padding",
            input: b"AUTHINFO SASL MADE-UP-MECHANISM Y===\r\n",
            expected: b"501 command syntax error\r\n",
        },
        ServerResponseCase {
            name: "SASL non-quad base64 length",
            input: b"AUTHINFO SASL MADE-UP-MECHANISM Y\r\n",
            expected: b"501 command syntax error\r\n",
        },
    ]);
}

#[test]
fn rfc4643_red_authinfo_sasl_rejects_malformed_mechanism_names() {
    assert_responses(&[
        ServerResponseCase {
            name: "SASL mechanism rejects lowercase",
            input: b"AUTHINFO SASL plain\r\n",
            expected: b"501 command syntax error\r\n",
        },
        ServerResponseCase {
            name: "SASL mechanism rejects dot",
            input: b"AUTHINFO SASL PLAIN.TEST\r\n",
            expected: b"501 command syntax error\r\n",
        },
        ServerResponseCase {
            name: "SASL mechanism rejects over 20 characters",
            input: b"AUTHINFO SASL ABCDEFGHIJKLMNOPQRSTU\r\n",
            expected: b"501 command syntax error\r\n",
        },
        ServerResponseCase {
            name: "SASL mechanism rejects lowercase with initial response",
            input: b"AUTHINFO SASL plain YQ==\r\n",
            expected: b"501 command syntax error\r\n",
        },
    ]);
}

#[test]
fn rfc4644_red_check_not_advertised_as_streaming_returns_502() {
    let input = b"CHECK <check@test>\r\n";
    let (output, _) = run_session_with_input(test_config(), input);
    assert_single_response(input, b"502 command unavailable\r\n", &output);
}

#[test]
fn rfc4644_red_takethis_not_advertised_as_streaming_returns_502() {
    let input = b"TAKETHIS <take@test>\r\nHeader: value\r\n\r\nbody\r\n.\r\n";
    let (output, _) = run_session_with_input(test_config(), input);
    assert_single_response(input, b"502 command unavailable\r\n", &output);
}

#[test]
fn rfc2980_red_xhdr_uses_221_response_code() {
    let (output, _) =
        run_session_with_input(test_config(), b"GROUP alt.test\r\nXHDR Subject 1\r\n");
    assert!(
        without_greeting(&output)
            .windows(b"\r\n221 ".len())
            .any(|window| window == b"\r\n221 "),
        "XHDR should use 221, got {:?}",
        String::from_utf8_lossy(without_greeting(&output))
    );
}

#[test]
fn rfc3977_red_capabilities_keyword_argument_matrix() {
    assert_responses(&[
        ServerResponseCase {
            name: "CAPABILITIES unknown keyword",
            input: b"CAPABILITIES AUTOUPDATE\r\n",
            expected: CAPABILITIES_RESPONSE.as_bytes(),
        },
        ServerResponseCase {
            name: "CAPABILITIES lowercase keyword",
            input: b"CAPABILITIES autoupdate\r\n",
            expected: CAPABILITIES_RESPONSE.as_bytes(),
        },
        ServerResponseCase {
            name: "CAPABILITIES one-character non-keyword",
            input: b"CAPABILITIES X\r\n",
            expected: b"501 command syntax error\r\n",
        },
        ServerResponseCase {
            name: "CAPABILITIES numeric non-keyword",
            input: b"CAPABILITIES 123\r\n",
            expected: b"501 command syntax error\r\n",
        },
        ServerResponseCase {
            name: "CAPABILITIES extra keyword token",
            input: b"CAPABILITIES AUTOUPDATE EXTRA\r\n",
            expected: b"501 command syntax error\r\n",
        },
    ]);
}

#[test]
fn rfc3977_red_date_with_arguments_returns_501() {
    let input = b"DATE now\r\n";
    let (output, _) = run_session_with_input(test_config(), input);
    assert_single_response(input, b"501 command syntax error\r\n", &output);
}

#[test]
fn rfc3977_red_mode_transit_returns_501_not_unknown_command() {
    let input = b"MODE TRANSIT\r\n";
    let (output, _) = run_session_with_input(test_config(), input);
    assert_single_response(input, b"501 command syntax error\r\n", &output);
}

#[test]
fn rfc3977_red_group_without_name_returns_501() {
    let input = b"GROUP\r\n";
    let (output, _) = run_session_with_input(test_config(), input);
    assert_single_response(input, b"501 command syntax error\r\n", &output);
}

#[test]
fn rfc3977_red_group_sets_current_article_to_first_article() {
    let input = b"GROUP alt.test\r\nARTICLE\r\n";
    let (output, _) = run_session_with_input(test_config(), input);
    let expected = b"220 1 <article.1@nntpbench.local> article follows\r\n";
    assert!(
        without_greeting(&output)
            .windows(expected.len())
            .any(|window| window == expected),
        "current ARTICLE after GROUP should return article 1, got {:?}",
        String::from_utf8_lossy(without_greeting(&output))
    );
}

#[test]
fn rfc3977_red_missing_numeric_body_returns_423_not_body_payload() {
    let input = b"GROUP alt.test\r\nBODY 999999\r\n";
    let (output, _) = run_session_with_input(test_config(), input);
    assert!(
        without_greeting(&output).ends_with(b"423 no article with that number\r\n"),
        "missing numeric BODY should end with 423, got {:?}",
        String::from_utf8_lossy(without_greeting(&output))
    );
}

#[test]
fn rfc3977_red_missing_message_id_head_returns_430_not_headers() {
    let input = b"HEAD <missing@nntpbench.local>\r\n";
    let (output, _) = run_session_with_input(test_config(), input);
    assert_single_response(
        input,
        b"430 no article with that message-id\r\n",
        &output);
}

#[test]
fn rfc3977_red_posting_disabled_rejects_pipelined_body_before_next_command() {
    let input = b"POST\r\nSubject: one\r\n\r\nbody\r\n.\r\nQUIT\r\n";
    let (output, _) = run_session_with_input(test_config(), input);
    assert_eq!(
        without_greeting(&output),
        b"440 posting not permitted\r\n205 closing connection\r\n");
}

#[test]
fn rfc3977_red_ihave_rejection_consumes_pipelined_body_before_next_command() {
    let input = b"IHAVE <article@test>\r\nSubject: one\r\n\r\nbody\r\n.\r\nQUIT\r\n";
    let (output, _) = run_session_with_input(test_config(), input);
    assert_eq!(
        without_greeting(&output),
        b"435 article not wanted\r\n205 closing connection\r\n");
}

#[test]
fn rfc3977_red_newnews_results_depend_on_requested_datetime() {
    let (old_output, _) =
        run_session_with_input(test_config(), b"NEWNEWS alt.* 700101 000000 GMT\r\n");
    let (previous_century_output, _) =
        run_session_with_input(test_config(), b"NEWNEWS alt.* 991231 235959 GMT\r\n");
    let (future_output, _) =
        run_session_with_input(test_config(), b"NEWNEWS alt.* 99991231 235959 GMT\r\n");
    assert_eq!(
        without_greeting(&old_output),
        without_greeting(&previous_century_output));
    assert_ne!(
        without_greeting(&old_output),
        without_greeting(&future_output));
}

#[test]
fn rfc3977_red_newnews_wildmat_filters_results() {
    assert_responses(&[
        ServerResponseCase {
            name: "NEWNEWS matching alt wildmat",
            input: b"NEWNEWS alt.* 20260101 000000 GMT\r\n",
            expected: NEWNEWS_RESPONSE.as_bytes(),
        },
        ServerResponseCase {
            name: "NEWNEWS nonmatching comp wildmat",
            input: b"NEWNEWS comp.lang.* 20260101 000000 GMT\r\n",
            expected: NEWNEWS_EMPTY_RESPONSE.as_bytes(),
        },
        ServerResponseCase {
            name: "NEWNEWS nonmatching exact wildmat",
            input: b"NEWNEWS comp.lang.rust 20260101 000000 GMT\r\n",
            expected: NEWNEWS_EMPTY_RESPONSE.as_bytes(),
        },
        ServerResponseCase {
            name: "NEWNEWS rightmost negated wildmat excludes alt",
            input: b"NEWNEWS *,!alt.* 20260101 000000 GMT\r\n",
            expected: NEWNEWS_EMPTY_RESPONSE.as_bytes(),
        },
        ServerResponseCase {
            name: "NEWNEWS question wildcard matches alt",
            input: b"NEWNEWS alt.?est 20260101 000000 GMT\r\n",
            expected: NEWNEWS_RESPONSE.as_bytes(),
        },
    ]);
}

#[test]
fn rfc3977_red_help_lists_supported_commands_consistently() {
    let (output, _) = run_session_with_input(test_config(), b"HELP\r\n");
    let text = String::from_utf8_lossy(without_greeting(&output));
    for command in [
        "ARTICLE",
        "AUTHINFO",
        "BODY",
        "CAPABILITIES",
        "CHECK",
        "DATE",
        "GROUP",
        "HDR",
        "HEAD",
        "HELP",
        "IHAVE",
        "LAST",
        "LIST",
        "LISTGROUP",
        "MODE READER",
        "NEWGROUPS",
        "NEWNEWS",
        "NEXT",
        "OVER",
        "POST",
        "QUIT",
        "STARTTLS",
        "STAT",
        "TAKETHIS",
        "XHDR",
        "XOVER",
    ] {
        assert!(
            text.contains(command));
    }
}

#[test]
fn rfc3977_red_listgroup_unknown_group_returns_411() {
    let input = b"LISTGROUP no.such.group\r\n";
    let (output, _) = run_session_with_input(test_config(), input);
    assert_single_response(input, b"411 no such newsgroup\r\n", &output);
}

#[test]
fn rfc3977_red_listgroup_current_before_group_returns_412() {
    let input = b"LISTGROUP\r\n";
    let (output, _) = run_session_with_input(test_config(), input);
    assert_single_response(input, b"412 no newsgroup selected\r\n", &output);
}

#[test]
fn rfc3977_red_listgroup_current_range_before_group_returns_412() {
    let input = b"LISTGROUP 2-3\r\n";
    let (output, _) = run_session_with_input(test_config(), input);
    assert_single_response(input, b"412 no newsgroup selected\r\n", &output);
}

#[test]
fn rfc3977_red_listgroup_range_filters_article_numbers() {
    assert_responses(&[
        ServerResponseCase {
            name: "LISTGROUP explicit group range filters article numbers",
            input: b"LISTGROUP alt.test 2-3\r\n",
            expected: LISTGROUP_2_3_RESPONSE.as_bytes(),
        },
        ServerResponseCase {
            name: "LISTGROUP reversed range is valid and empty",
            input: b"LISTGROUP alt.test 3-2\r\n",
            expected: LISTGROUP_EMPTY_RESPONSE.as_bytes(),
        },
        ServerResponseCase {
            name: "LISTGROUP range above high water is valid and empty",
            input: b"LISTGROUP alt.test 4-\r\n",
            expected: LISTGROUP_EMPTY_RESPONSE.as_bytes(),
        },
        ServerResponseCase {
            name: "LISTGROUP current group reversed range is valid and empty",
            input: b"GROUP alt.test\r\nLISTGROUP 3-2\r\n",
            expected: b"211 3 1 3 alt.test\r\n211 3 1 3 alt.test\r\n.\r\n",
        },
    ]);
}

#[test]
fn rfc3977_red_listgroup_zero_range_returns_501() {
    let input = b"LISTGROUP 0\r\n";
    let (output, _) = run_session_with_input(test_config(), input);
    assert_single_response(input, b"501 command syntax error\r\n", &output);
}

#[test]
fn rfc3977_red_list_active_unknown_wildmat_filters_results() {
    let input = b"LIST ACTIVE no.such.*\r\n";
    let (output, _) = run_session_with_input(test_config(), input);
    assert_single_response(
        input,
        b"215 list of newsgroups follows\r\n.\r\n",
        &output);
}

#[test]
fn rfc4643_red_authinfo_user_without_value_returns_501() {
    let input = b"AUTHINFO USER\r\n";
    let (output, _) = run_session_with_input(test_config(), input);
    assert_single_response(input, b"501 command syntax error\r\n", &output);
}

#[test]
fn rfc4642_red_starttls_with_arguments_returns_501() {
    let input = b"STARTTLS extra\r\n";
    let (output, _) = run_session_with_input(test_config(), input);
    assert_single_response(input, b"501 command syntax error\r\n", &output);
}

#[test]
fn rfc4644_red_check_invalid_message_id_returns_501() {
    let input = b"CHECK not-a-message-id\r\n";
    let (output, _) = run_session_with_input(test_config(), input);
    assert_single_response(input, b"501 command syntax error\r\n", &output);
}

#[test]
fn rfc3977_red_help_with_arguments_returns_501() {
    let input = b"HELP verbose\r\n";
    let (output, _) = run_session_with_input(test_config(), input);
    assert_single_response(input, b"501 command syntax error\r\n", &output);
}

#[test]
fn rfc3977_red_quit_with_arguments_returns_501() {
    let input = b"QUIT now\r\n";
    let (output, _) = run_session_with_input(test_config(), input);
    assert_single_response(input, b"501 command syntax error\r\n", &output);
}

#[test]
fn rfc3977_red_mode_reader_with_extra_argument_returns_501() {
    let input = b"MODE READER extra\r\n";
    let (output, _) = run_session_with_input(test_config(), input);
    assert_single_response(input, b"501 command syntax error\r\n", &output);
}

#[test]
fn rfc3977_red_stat_current_before_group_returns_412() {
    let input = b"STAT\r\n";
    let (output, _) = run_session_with_input(test_config(), input);
    assert_single_response(input, b"412 no newsgroup selected\r\n", &output);
}

#[test]
fn rfc3977_red_head_current_before_group_returns_412() {
    let input = b"HEAD\r\n";
    let (output, _) = run_session_with_input(test_config(), input);
    assert_single_response(input, b"412 no newsgroup selected\r\n", &output);
}

#[test]
fn rfc3977_red_body_current_before_group_returns_412() {
    let input = b"BODY\r\n";
    let (output, _) = run_session_with_input(test_config(), input);
    assert_single_response(input, b"412 no newsgroup selected\r\n", &output);
}

#[test]
fn rfc3977_red_head_missing_numeric_article_returns_423() {
    let input = b"GROUP alt.test\r\nHEAD 999999\r\n";
    let (output, _) = run_session_with_input(test_config(), input);
    assert!(
        without_greeting(&output).ends_with(b"423 no article with that number\r\n"),
        "missing numeric HEAD should end with 423, got {:?}",
        String::from_utf8_lossy(without_greeting(&output))
    );
}

#[test]
fn rfc3977_red_stat_missing_numeric_article_returns_423() {
    let input = b"GROUP alt.test\r\nSTAT 999999\r\n";
    let (output, _) = run_session_with_input(test_config(), input);
    assert!(
        without_greeting(&output).ends_with(b"423 no article with that number\r\n"),
        "missing numeric STAT should end with 423, got {:?}",
        String::from_utf8_lossy(without_greeting(&output))
    );
}

#[test]
fn rfc3977_red_over_missing_message_id_returns_430() {
    let input = b"OVER <missing@nntpbench.local>\r\n";
    let (output, _) = run_session_with_input(test_config(), input);
    assert_single_response(
        input,
        b"430 no article with that message-id\r\n",
        &output);
}

#[test]
fn rfc3977_red_hdr_missing_numeric_article_returns_423() {
    let input = b"GROUP alt.test\r\nHDR Subject 999999\r\n";
    let (output, _) = run_session_with_input(test_config(), input);
    assert!(
        without_greeting(&output).ends_with(b"423 no article with that number\r\n"),
        "missing numeric HDR should end with 423, got {:?}",
        String::from_utf8_lossy(without_greeting(&output))
    );
}

#[test]
fn rfc3977_red_list_active_times_unknown_wildmat_filters_results() {
    let input = b"LIST ACTIVE.TIMES no.such.*\r\n";
    let (output, _) = run_session_with_input(test_config(), input);
    assert_single_response(
        input,
        b"215 information follows\r\n.\r\n",
        &output);
}

#[test]
fn rfc3977_red_list_newsgroups_unknown_wildmat_filters_results() {
    let input = b"LIST NEWSGROUPS no.such.*\r\n";
    let (output, _) = run_session_with_input(test_config(), input);
    assert_single_response(
        input,
        b"215 information follows\r\n.\r\n",
        &output);
}

#[test]
fn rfc3977_red_list_wildmat_filters_matching_groups() {
    assert_responses(&[
        ServerResponseCase {
            name: "LIST ACTIVE unmatched valid wildmat",
            input: b"LIST ACTIVE comp.lang.python\r\n",
            expected: LIST_EMPTY_RESPONSE.as_bytes(),
        },
        ServerResponseCase {
            name: "LIST ACTIVE comp wildmat",
            input: b"LIST ACTIVE comp.lang.*\r\n",
            expected: LIST_ACTIVE_COMP_RESPONSE.as_bytes(),
        },
        ServerResponseCase {
            name: "LIST ACTIVE alt wildmat",
            input: b"LIST ACTIVE alt.*\r\n",
            expected: LIST_ACTIVE_ALT_RESPONSE.as_bytes(),
        },
        ServerResponseCase {
            name: "LIST ACTIVE rightmost negated wildmat excludes alt",
            input: b"LIST ACTIVE *,!alt.*\r\n",
            expected: LIST_ACTIVE_COMP_RESPONSE.as_bytes(),
        },
        ServerResponseCase {
            name: "LIST ACTIVE rightmost positive wildmat re-includes alt",
            input: b"LIST ACTIVE !alt.*,alt.*\r\n",
            expected: LIST_ACTIVE_ALT_RESPONSE.as_bytes(),
        },
        ServerResponseCase {
            name: "LIST ACTIVE question wildcard matches comp",
            input: b"LIST ACTIVE comp.lang.rus?\r\n",
            expected: LIST_ACTIVE_COMP_RESPONSE.as_bytes(),
        },
        ServerResponseCase {
            name: "LIST ACTIVE.TIMES comp wildmat",
            input: b"LIST ACTIVE.TIMES comp.lang.*\r\n",
            expected: LIST_ACTIVE_TIMES_COMP_RESPONSE.as_bytes(),
        },
        ServerResponseCase {
            name: "LIST ACTIVE.TIMES alt wildmat",
            input: b"LIST ACTIVE.TIMES alt.*\r\n",
            expected: LIST_ACTIVE_TIMES_ALT_RESPONSE.as_bytes(),
        },
        ServerResponseCase {
            name: "LIST NEWSGROUPS comp wildmat",
            input: b"LIST NEWSGROUPS comp.lang.*\r\n",
            expected: LIST_NEWSGROUPS_COMP_RESPONSE.as_bytes(),
        },
        ServerResponseCase {
            name: "LIST NEWSGROUPS rightmost negated wildmat excludes comp",
            input: b"LIST NEWSGROUPS *,!comp.*\r\n",
            expected: LIST_NEWSGROUPS_ALT_RESPONSE.as_bytes(),
        },
        ServerResponseCase {
            name: "LIST NEWSGROUPS alt wildmat",
            input: b"LIST NEWSGROUPS alt.*\r\n",
            expected: LIST_NEWSGROUPS_ALT_RESPONSE.as_bytes(),
        },
    ]);

    assert!(wildmat_matches("caf?".as_bytes(), "café".as_bytes()));
    assert!(wildmat_matches("ca*é".as_bytes(), "café".as_bytes()));
    assert!(!wildmat_matches("*,!café".as_bytes(), "café".as_bytes()));
}

#[test]
fn rfc3977_red_newgroups_results_depend_on_requested_datetime() {
    let (old_output, _) =
        run_session_with_input(test_config(), b"NEWGROUPS 700101 000000 GMT\r\n");
    let (future_output, _) =
        run_session_with_input(test_config(), b"NEWGROUPS 99991231 235959 GMT\r\n");
    assert_ne!(
        without_greeting(&old_output),
        without_greeting(&future_output));
}

#[test]
fn rfc3977_red_newgroups_uses_active_group_line_format() {
    assert_responses(&[
        ServerResponseCase {
            name: "NEWGROUPS active-format group state",
            input: b"NEWGROUPS 700101 000000 GMT\r\n",
            expected: NEWGROUPS_RESPONSE.as_bytes(),
        },
        ServerResponseCase {
            name: "NEWGROUPS six-digit 99 maps to previous century",
            input: b"NEWGROUPS 991231 235959 GMT\r\n",
            expected: NEWGROUPS_RESPONSE.as_bytes(),
        },
        ServerResponseCase {
            name: "NEWGROUPS empty list after explicit future timestamp",
            input: b"NEWGROUPS 99991231 235959 GMT\r\n",
            expected: NEWGROUPS_EMPTY_RESPONSE.as_bytes(),
        },
    ]);
}

#[test]
fn rfc3977_red_newgroups_invalid_timezone_returns_501() {
    let input = b"NEWGROUPS 20260101 000000 LOCAL\r\n";
    let (output, _) = run_session_with_input(test_config(), input);
    assert_single_response(input, b"501 command syntax error\r\n", &output);
}

#[test]
fn rfc3977_red_newnews_missing_time_returns_501() {
    let input = b"NEWNEWS comp.lang.* 20260101\r\n";
    let (output, _) = run_session_with_input(test_config(), input);
    assert_single_response(input, b"501 command syntax error\r\n", &output);
}

#[test]
fn rfc2980_red_xover_zero_range_returns_501() {
    let input = b"XOVER 0\r\n";
    let (output, _) = run_session_with_input(test_config(), input);
    assert_single_response(input, b"501 command syntax error\r\n", &output);
}

#[test]
fn rfc2980_red_xhdr_invalid_header_name_returns_501() {
    let input = b"XHDR Subject: 1\r\n";
    let (output, _) = run_session_with_input(test_config(), input);
    assert_single_response(input, b"501 command syntax error\r\n", &output);
}

#[test]
fn rfc4643_red_authinfo_pass_without_value_returns_501() {
    let input = b"AUTHINFO PASS\r\n";
    let (output, _) = run_session_with_input(test_config(), input);
    assert_single_response(input, b"501 command syntax error\r\n", &output);
}

#[test]
fn rfc4643_red_authinfo_sasl_without_mechanism_returns_501() {
    let input = b"AUTHINFO SASL\r\n";
    let (output, _) = run_session_with_input(test_config(), input);
    assert_single_response(input, b"501 command syntax error\r\n", &output);
}

#[test]
fn rfc4644_red_takethis_invalid_message_id_returns_501() {
    let input = b"TAKETHIS not-a-message-id\r\nHeader: value\r\n\r\nbody\r\n.\r\n";
    let (output, _) = run_session_with_input(test_config(), input);
    assert_single_response(input, b"501 command syntax error\r\n", &output);
}

#[test]
fn rfc3977_red_over_current_before_group_returns_412() {
    let input = b"OVER\r\n";
    let (output, _) = run_session_with_input(test_config(), input);
    assert_single_response(input, b"412 no newsgroup selected\r\n", &output);
}

#[test]
fn rfc3977_red_hdr_current_before_group_returns_412() {
    let input = b"HDR Subject\r\n";
    let (output, _) = run_session_with_input(test_config(), input);
    assert_single_response(input, b"412 no newsgroup selected\r\n", &output);
}

#[test]
fn rfc3977_red_overview_group_scoped_selectors_before_group_return_412() {
    assert_responses(&[
        ServerResponseCase {
            name: "OVER numeric selector before GROUP",
            input: b"OVER 1\r\n",
            expected: b"412 no newsgroup selected\r\n",
        },
        ServerResponseCase {
            name: "OVER range selector before GROUP",
            input: b"OVER 1-3\r\n",
            expected: b"412 no newsgroup selected\r\n",
        },
        ServerResponseCase {
            name: "XOVER range selector before GROUP",
            input: b"XOVER 1-3\r\n",
            expected: b"412 no newsgroup selected\r\n",
        },
        ServerResponseCase {
            name: "HDR numeric selector before GROUP",
            input: b"HDR Subject 1\r\n",
            expected: b"412 no newsgroup selected\r\n",
        },
        ServerResponseCase {
            name: "HDR range selector before GROUP",
            input: b"HDR Subject 1-3\r\n",
            expected: b"412 no newsgroup selected\r\n",
        },
        ServerResponseCase {
            name: "XHDR range selector before GROUP",
            input: b"XHDR Subject 1-3\r\n",
            expected: b"412 no newsgroup selected\r\n",
        },
    ]);
}

#[test]
fn rfc3977_red_hdr_subject_omits_header_name_from_values() {
    let input = b"GROUP alt.test\r\nHDR Subject 1\r\n";
    let (output, _) = run_session_with_input(test_config(), input);
    let text = String::from_utf8_lossy(without_greeting(&output));
    assert!(
        text.contains("\r\n225 ") && !text.contains(" Subject:"));
}

#[test]
fn rfc3977_red_hdr_message_id_returns_valid_message_id_values() {
    let input = b"GROUP alt.test\r\nHDR Message-ID 1\r\n";
    let (output, _) = run_session_with_input(test_config(), input);
    let text = String::from_utf8_lossy(without_greeting(&output));
    assert!(
        text.ends_with("\r\n225 headers follow\r\n1 <one@example.com>\r\n.\r\n"));
}

#[test]
fn rfc3977_red_hdr_unsupported_fields_return_503() {
    assert_response_tails(&[
        ServerResponseCase {
            name: "HDR unsupported header field",
            input: b"GROUP alt.test\r\nHDR Content-Type 1\r\n",
            expected: b"503 HDR field unavailable\r\n",
        },
        ServerResponseCase {
            name: "HDR unsupported metadata field",
            input: b"GROUP alt.test\r\nHDR :unknown 1\r\n",
            expected: b"503 HDR field unavailable\r\n",
        },
        ServerResponseCase {
            name: "XHDR unsupported header field",
            input: b"GROUP alt.test\r\nXHDR Content-Type 1\r\n",
            expected: b"503 HDR field unavailable\r\n",
        },
        ServerResponseCase {
            name: "XHDR unsupported metadata field",
            input: b"GROUP alt.test\r\nXHDR :unknown 1\r\n",
            expected: b"503 HDR field unavailable\r\n",
        },
    ]);
}

#[test]
fn rfc3977_red_hdr_metadata_fields_return_metadata_values() {
    assert_response_tails(&[
        ServerResponseCase {
            name: "HDR :bytes numeric selector",
            input: b"GROUP alt.test\r\nHDR :bytes 1\r\n",
            expected: HDR_BYTES_1_RESPONSE.as_bytes(),
        },
        ServerResponseCase {
            name: "HDR :lines numeric selector",
            input: b"GROUP alt.test\r\nHDR :lines 2\r\n",
            expected: HDR_LINES_2_RESPONSE.as_bytes(),
        },
        ServerResponseCase {
            name: "HDR :bytes message-id selector",
            input: b"HDR :bytes <one@example.com>\r\n",
            expected: HDR_BYTES_MESSAGE_ID_RESPONSE.as_bytes(),
        },
        ServerResponseCase {
            name: "HDR :lines range selector",
            input: b"GROUP alt.test\r\nHDR :lines 2-\r\n",
            expected: HDR_LINES_2_RESPONSE.as_bytes(),
        },
        ServerResponseCase {
            name: "XHDR :bytes numeric selector",
            input: b"GROUP alt.test\r\nXHDR :bytes 1\r\n",
            expected: XHDR_BYTES_1_RESPONSE.as_bytes(),
        },
        ServerResponseCase {
            name: "XHDR :lines message-id selector",
            input: b"XHDR :lines <one@example.com>\r\n",
            expected: XHDR_LINES_MESSAGE_ID_RESPONSE.as_bytes(),
        },
    ]);
}

#[test]
fn rfc3977_red_overview_and_header_numeric_selectors_filter_results() {
    assert_response_tails(&[
        ServerResponseCase {
            name: "OVER numeric selector 2",
            input: b"GROUP alt.test\r\nOVER 2\r\n",
            expected: OVER_2_RESPONSE.as_bytes(),
        },
        ServerResponseCase {
            name: "XOVER numeric selector 2",
            input: b"GROUP alt.test\r\nXOVER 2\r\n",
            expected: OVER_2_RESPONSE.as_bytes(),
        },
        ServerResponseCase {
            name: "HDR numeric selector 1",
            input: b"GROUP alt.test\r\nHDR Subject 1\r\n",
            expected: HDR_SUBJECT_1_RESPONSE.as_bytes(),
        },
        ServerResponseCase {
            name: "HDR numeric selector 2",
            input: b"GROUP alt.test\r\nHDR Subject 2\r\n",
            expected: HDR_SUBJECT_2_RESPONSE.as_bytes(),
        },
        ServerResponseCase {
            name: "XHDR numeric selector 1",
            input: b"GROUP alt.test\r\nXHDR Subject 1\r\n",
            expected: XHDR_SUBJECT_1_RESPONSE.as_bytes(),
        },
        ServerResponseCase {
            name: "XHDR numeric selector 2",
            input: b"GROUP alt.test\r\nXHDR Subject 2\r\n",
            expected: XHDR_SUBJECT_2_RESPONSE.as_bytes(),
        },
    ]);
}

#[test]
fn rfc3977_red_overview_and_header_range_selectors_filter_results() {
    assert_response_tails(&[
        ServerResponseCase {
            name: "OVER range selector 1-2 returns both article rows",
            input: b"GROUP alt.test\r\nOVER 1-2\r\n",
            expected: OVER_RANGE_RESPONSE.as_bytes(),
        },
        ServerResponseCase {
            name: "OVER open range selector 1- returns both article rows",
            input: b"GROUP alt.test\r\nOVER 1-\r\n",
            expected: OVER_RANGE_RESPONSE.as_bytes(),
        },
        ServerResponseCase {
            name: "XOVER range selector 1-2 returns both article rows",
            input: b"GROUP alt.test\r\nXOVER 1-2\r\n",
            expected: OVER_RANGE_RESPONSE.as_bytes(),
        },
        ServerResponseCase {
            name: "OVER range selector 2-",
            input: b"GROUP alt.test\r\nOVER 2-\r\n",
            expected: OVER_2_RESPONSE.as_bytes(),
        },
        ServerResponseCase {
            name: "XOVER range selector 2-",
            input: b"GROUP alt.test\r\nXOVER 2-\r\n",
            expected: OVER_2_RESPONSE.as_bytes(),
        },
        ServerResponseCase {
            name: "HDR Subject range selector 2-",
            input: b"GROUP alt.test\r\nHDR Subject 2-\r\n",
            expected: HDR_SUBJECT_2_RESPONSE.as_bytes(),
        },
        ServerResponseCase {
            name: "HDR Message-ID range selector 2-",
            input: b"GROUP alt.test\r\nHDR Message-ID 2-\r\n",
            expected: HDR_MESSAGE_ID_2_RESPONSE.as_bytes(),
        },
        ServerResponseCase {
            name: "XHDR Subject range selector 2-",
            input: b"GROUP alt.test\r\nXHDR Subject 2-\r\n",
            expected: XHDR_SUBJECT_2_RESPONSE.as_bytes(),
        },
        ServerResponseCase {
            name: "XHDR Message-ID range selector 2-",
            input: b"GROUP alt.test\r\nXHDR Message-ID 2-\r\n",
            expected: XHDR_MESSAGE_ID_2_RESPONSE.as_bytes(),
        },
        ServerResponseCase {
            name: "OVER empty range returns 423",
            input: b"GROUP alt.test\r\nOVER 4-5\r\n",
            expected: b"423 no articles in that range\r\n",
        },
        ServerResponseCase {
            name: "OVER reversed range returns 423",
            input: b"GROUP alt.test\r\nOVER 3-1\r\n",
            expected: b"423 no articles in that range\r\n",
        },
        ServerResponseCase {
            name: "XOVER empty range returns 423",
            input: b"GROUP alt.test\r\nXOVER 4-\r\n",
            expected: b"423 no articles in that range\r\n",
        },
        ServerResponseCase {
            name: "XOVER reversed range returns 423",
            input: b"GROUP alt.test\r\nXOVER 3-1\r\n",
            expected: b"423 no articles in that range\r\n",
        },
        ServerResponseCase {
            name: "HDR Subject empty range returns 423",
            input: b"GROUP alt.test\r\nHDR Subject 4-5\r\n",
            expected: b"423 no articles in that range\r\n",
        },
        ServerResponseCase {
            name: "HDR Subject reversed range returns 423",
            input: b"GROUP alt.test\r\nHDR Subject 3-1\r\n",
            expected: b"423 no articles in that range\r\n",
        },
        ServerResponseCase {
            name: "HDR metadata empty range returns 423",
            input: b"GROUP alt.test\r\nHDR :bytes 4-\r\n",
            expected: b"423 no articles in that range\r\n",
        },
        ServerResponseCase {
            name: "XHDR Subject empty range returns 423",
            input: b"GROUP alt.test\r\nXHDR Subject 4-5\r\n",
            expected: b"423 no articles in that range\r\n",
        },
        ServerResponseCase {
            name: "XHDR Subject reversed range returns 423",
            input: b"GROUP alt.test\r\nXHDR Subject 3-1\r\n",
            expected: b"423 no articles in that range\r\n",
        },
        ServerResponseCase {
            name: "XHDR metadata empty range returns 423",
            input: b"GROUP alt.test\r\nXHDR :lines 4-\r\n",
            expected: b"423 no articles in that range\r\n",
        },
    ]);
}

#[test]
fn rfc3977_red_overview_and_header_message_id_selectors_use_zero_article_number() {
    assert_response_tails(&[
        ServerResponseCase {
            name: "OVER message-id selector uses article number 0",
            input: b"OVER <one@example.com>\r\n",
            expected: OVER_MESSAGE_ID_RESPONSE.as_bytes(),
        },
        ServerResponseCase {
            name: "XOVER message-id selector uses article number 0",
            input: b"XOVER <one@example.com>\r\n",
            expected: OVER_MESSAGE_ID_RESPONSE.as_bytes(),
        },
        ServerResponseCase {
            name: "HDR Subject message-id selector uses article number 0",
            input: b"HDR Subject <one@example.com>\r\n",
            expected: HDR_SUBJECT_MESSAGE_ID_RESPONSE.as_bytes(),
        },
        ServerResponseCase {
            name: "HDR Message-ID message-id selector uses article number 0",
            input: b"HDR Message-ID <one@example.com>\r\n",
            expected: HDR_MESSAGE_ID_MESSAGE_ID_RESPONSE.as_bytes(),
        },
        ServerResponseCase {
            name: "XHDR Subject message-id selector uses article number 0",
            input: b"XHDR Subject <one@example.com>\r\n",
            expected: XHDR_SUBJECT_MESSAGE_ID_RESPONSE.as_bytes(),
        },
        ServerResponseCase {
            name: "XHDR Message-ID message-id selector uses article number 0",
            input: b"XHDR Message-ID <one@example.com>\r\n",
            expected: XHDR_MESSAGE_ID_MESSAGE_ID_RESPONSE.as_bytes(),
        },
    ]);
}

#[test]
fn rfc2980_red_xhdr_subject_returns_subject_values_not_message_ids() {
    let input = b"GROUP alt.test\r\nXHDR Subject 1\r\n";
    let (output, _) = run_session_with_input(test_config(), input);
    let text = String::from_utf8_lossy(without_greeting(&output));
    assert!(
        text.contains("\r\n221 ")
            && text.contains("1 example one\r\n")
            && !text.contains("<one@example"));
}

#[test]
fn rfc2980_red_xhdr_message_id_returns_valid_message_id_values() {
    let input = b"GROUP alt.test\r\nXHDR Message-ID 1\r\n";
    let (output, _) = run_session_with_input(test_config(), input);
    let text = String::from_utf8_lossy(without_greeting(&output));
    assert!(
        text.contains("\r\n221 ")
            && text.contains("1 <one@example.com>\r\n")
            && !text.contains("2 <two@example.com>\r\n"));
}

#[test]
fn rfc3977_red_list_overview_fmt_with_arguments_returns_501() {
    let input = b"LIST OVERVIEW.FMT extra\r\n";
    let (output, _) = run_session_with_input(test_config(), input);
    assert_single_response(input, b"501 command syntax error\r\n", &output);
}

#[test]
fn rfc3977_red_list_headers_invalid_argument_returns_501() {
    let input = b"LIST HEADERS Subject\r\n";
    let (output, _) = run_session_with_input(test_config(), input);
    assert_single_response(input, b"501 command syntax error\r\n", &output);
}

#[test]
fn rfc3977_red_list_headers_accepts_msgid_and_range_arguments() {
    assert_responses(&[
        ServerResponseCase {
            name: "LIST HEADERS MSGID accepted",
            input: b"LIST HEADERS MSGID\r\n",
            expected: LIST_HEADERS_RESPONSE.as_bytes(),
        },
        ServerResponseCase {
            name: "LIST HEADERS RANGE accepted",
            input: b"LIST HEADERS RANGE\r\n",
            expected: LIST_HEADERS_RESPONSE.as_bytes(),
        },
        ServerResponseCase {
            name: "LIST HEADERS lower-case MSGID accepted",
            input: b"LIST HEADERS msgid\r\n",
            expected: LIST_HEADERS_RESPONSE.as_bytes(),
        },
    ]);
}

#[test]
fn rfc3977_red_list_distrib_pats_response_and_syntax_matrix() {
    assert_responses(&[
        ServerResponseCase {
            name: "LIST DISTRIB.PATS returns priority wildmat distribution triples",
            input: b"LIST DISTRIB.PATS\r\n",
            expected: LIST_DISTRIB_PATS_RESPONSE.as_bytes(),
        },
        ServerResponseCase {
            name: "LIST DISTRIB.PATS rejects arguments",
            input: b"LIST DISTRIB.PATS world\r\n",
            expected: b"501 command syntax error\r\n",
        },
    ]);
}

#[test]
fn rfc3977_red_too_long_command_line_returns_501() {
    let mut input = b"DATE ".to_vec();
    input.extend(std::iter::repeat_n(b'x', MAX_COMMAND_LINE_BYTES + 1));
    input.extend_from_slice(b"\r\n");
    let (output, error) =
        run_session_with_input_allowing_server_error(test_config(), &input);
    assert!(
        error.is_none() && without_greeting(&output) == b"501 command line too long\r\n",
        "overlong command should produce a 501 response, got error {:?} and output {:?}",
        error,
        String::from_utf8_lossy(&output)
    );
}

#[test]
fn rfc3977_red_bare_lf_command_line_returns_501_and_recovers() {
    let input = b"DATE\nQUIT\r\n";
    let (output, error) =
        run_session_with_input_allowing_server_error(test_config(), input);
    assert!(
        error.is_none()
            && without_greeting(&output)
                == b"501 command syntax error\r\n205 closing connection\r\n",
        "bare-LF command line should be rejected before QUIT, got error {:?} and output {:?}",
        error,
        String::from_utf8_lossy(&output)
    );
}

#[test]
fn rfc3977_red_server_selector_and_state_response_matrix() {
    assert_responses(&[
        ServerResponseCase {
            name: "BODY invalid message-id",
            input: b"BODY <missing-at-sign>\r\n",
            expected: b"501 command syntax error\r\n",
        },
        ServerResponseCase {
            name: "HEAD zero selector",
            input: b"HEAD 0\r\n",
            expected: b"501 command syntax error\r\n",
        },
        ServerResponseCase {
            name: "STAT zero selector",
            input: b"STAT 0\r\n",
            expected: b"501 command syntax error\r\n",
        },
        ServerResponseCase {
            name: "XOVER current before GROUP",
            input: b"XOVER\r\n",
            expected: b"412 no newsgroup selected\r\n",
        },
        ServerResponseCase {
            name: "XHDR current before GROUP",
            input: b"XHDR Subject\r\n",
            expected: b"412 no newsgroup selected\r\n",
        },
        ServerResponseCase {
            name: "BODY extra argument",
            input: b"BODY 1 2\r\n",
            expected: b"501 command syntax error\r\n",
        },
        ServerResponseCase {
            name: "HEAD extra argument",
            input: b"HEAD 1 2\r\n",
            expected: b"501 command syntax error\r\n",
        },
        ServerResponseCase {
            name: "STAT extra argument",
            input: b"STAT 1 2\r\n",
            expected: b"501 command syntax error\r\n",
        },
    ]);

    assert_response_tails(&[
        ServerResponseCase {
            name: "OVER after GROUP uses first article",
            input: b"GROUP alt.test\r\nOVER\r\n",
            expected: OVER_RESPONSE.as_bytes(),
        },
        ServerResponseCase {
            name: "HDR after GROUP uses first article",
            input: b"GROUP alt.test\r\nHDR Subject\r\n",
            expected: HDR_SUBJECT_1_RESPONSE.as_bytes(),
        },
        ServerResponseCase {
            name: "XHDR after GROUP uses first article",
            input: b"GROUP alt.test\r\nXHDR Subject\r\n",
            expected: XHDR_SUBJECT_1_RESPONSE.as_bytes(),
        },
        ServerResponseCase {
            name: "OVER current article follows ARTICLE 2",
            input: b"GROUP alt.test\r\nARTICLE 2\r\nOVER\r\n",
            expected: OVER_2_RESPONSE.as_bytes(),
        },
        ServerResponseCase {
            name: "XOVER current article follows ARTICLE 2",
            input: b"GROUP alt.test\r\nARTICLE 2\r\nXOVER\r\n",
            expected: OVER_2_RESPONSE.as_bytes(),
        },
        ServerResponseCase {
            name: "HDR current article follows ARTICLE 2",
            input: b"GROUP alt.test\r\nARTICLE 2\r\nHDR Subject\r\n",
            expected: HDR_SUBJECT_2_RESPONSE.as_bytes(),
        },
        ServerResponseCase {
            name: "HDR metadata current article follows ARTICLE 2",
            input: b"GROUP alt.test\r\nARTICLE 2\r\nHDR :bytes\r\n",
            expected: HDR_BYTES_2_RESPONSE.as_bytes(),
        },
        ServerResponseCase {
            name: "XHDR current article follows ARTICLE 2",
            input: b"GROUP alt.test\r\nARTICLE 2\r\nXHDR Subject\r\n",
            expected: XHDR_SUBJECT_2_RESPONSE.as_bytes(),
        },
        ServerResponseCase {
            name: "XHDR metadata current article follows ARTICLE 2",
            input: b"GROUP alt.test\r\nARTICLE 2\r\nXHDR :bytes\r\n",
            expected: XHDR_BYTES_2_RESPONSE.as_bytes(),
        },
    ]);
}

#[test]
fn rfc3977_red_server_list_and_discovery_syntax_matrix() {
    assert_responses(&[
        ServerResponseCase {
            name: "LIST unknown keyword",
            input: b"LIST FROBNICATE\r\n",
            expected: b"501 command syntax error\r\n",
        },
        ServerResponseCase {
            name: "LIST ACTIVE extra argument",
            input: b"LIST ACTIVE comp.* extra\r\n",
            expected: b"501 command syntax error\r\n",
        },
        ServerResponseCase {
            name: "LIST ACTIVE.TIMES invalid wildmat",
            input: b"LIST ACTIVE.TIMES !\r\n",
            expected: b"501 command syntax error\r\n",
        },
        ServerResponseCase {
            name: "LIST NEWSGROUPS invalid wildmat",
            input: b"LIST NEWSGROUPS !\r\n",
            expected: b"501 command syntax error\r\n",
        },
        ServerResponseCase {
            name: "NEWGROUPS without arguments",
            input: b"NEWGROUPS\r\n",
            expected: b"501 command syntax error\r\n",
        },
        ServerResponseCase {
            name: "NEWGROUPS missing time",
            input: b"NEWGROUPS 20260101\r\n",
            expected: b"501 command syntax error\r\n",
        },
        ServerResponseCase {
            name: "NEWGROUPS invalid time",
            input: b"NEWGROUPS 20260101 246060 GMT\r\n",
            expected: b"501 command syntax error\r\n",
        },
        ServerResponseCase {
            name: "NEWGROUPS accepts leap second",
            input: b"NEWGROUPS 20260101 235960 GMT\r\n",
            expected: NEWGROUPS_RESPONSE.as_bytes(),
        },
        ServerResponseCase {
            name: "NEWNEWS invalid date",
            input: b"NEWNEWS comp.lang.* 20260230 000000 GMT\r\n",
            expected: b"501 command syntax error\r\n",
        },
        ServerResponseCase {
            name: "NEWNEWS invalid time",
            input: b"NEWNEWS comp.lang.* 20260101 246060 GMT\r\n",
            expected: b"501 command syntax error\r\n",
        },
        ServerResponseCase {
            name: "NEWNEWS accepts leap second",
            input: b"NEWNEWS comp.lang.* 20260101 235960 GMT\r\n",
            expected: NEWNEWS_EMPTY_RESPONSE.as_bytes(),
        },
        ServerResponseCase {
            name: "NEWNEWS invalid timezone",
            input: b"NEWNEWS comp.lang.* 20260101 000000 LOCAL\r\n",
            expected: b"501 command syntax error\r\n",
        },
        ServerResponseCase {
            name: "LAST with argument",
            input: b"LAST 1\r\n",
            expected: b"501 command syntax error\r\n",
        },
        ServerResponseCase {
            name: "NEXT with argument",
            input: b"NEXT 1\r\n",
            expected: b"501 command syntax error\r\n",
        },
        ServerResponseCase {
            name: "GROUP invalid name",
            input: b"GROUP alt.*\r\n",
            expected: b"501 command syntax error\r\n",
        },
        ServerResponseCase {
            name: "LISTGROUP invalid name",
            input: b"LISTGROUP alt.*\r\n",
            expected: b"501 command syntax error\r\n",
        },
    ]);
}

#[test]
fn rfc3977_red_server_post_auth_and_streaming_syntax_matrix() {
    assert_responses(&[
        ServerResponseCase {
            name: "POST with argument",
            input: b"POST extra\r\n",
            expected: b"501 command syntax error\r\n",
        },
        ServerResponseCase {
            name: "IHAVE without message-id",
            input: b"IHAVE\r\n",
            expected: b"501 command syntax error\r\n",
        },
        ServerResponseCase {
            name: "IHAVE invalid message-id",
            input: b"IHAVE not-a-message-id\r\n",
            expected: b"501 command syntax error\r\n",
        },
        ServerResponseCase {
            name: "CHECK without message-id",
            input: b"CHECK\r\n",
            expected: b"501 command syntax error\r\n",
        },
        ServerResponseCase {
            name: "TAKETHIS without message-id",
            input: b"TAKETHIS\r\n.\r\n",
            expected: b"501 command syntax error\r\n",
        },
        ServerResponseCase {
            name: "AUTHINFO USER extra argument",
            input: b"AUTHINFO USER bench extra\r\n",
            expected: b"501 command syntax error\r\n",
        },
        ServerResponseCase {
            name: "AUTHINFO PASS extra argument",
            input: b"AUTHINFO PASS bench extra\r\n",
            expected: b"501 command syntax error\r\n",
        },
        ServerResponseCase {
            name: "AUTHINFO unknown subcommand",
            input: b"AUTHINFO FROBNICATE bench\r\n",
            expected: b"501 command syntax error\r\n",
        },
    ]);
}

#[test]
fn rfc4642_red_starttls_with_buffered_plaintext_still_returns_502() {
    let input = b"STARTTLS\r\nQUIT\r\n";
    let (output, _) = run_session_with_input(test_config(), input);
    assert_eq!(
        without_greeting(&output),
        b"502 command unavailable\r\n205 closing connection\r\n");
}

#[test]
fn rfc3977_red_server_syntax_response_matrix() {
    assert_responses(&[
        ServerResponseCase {
            name: "LIST unknown keyword with trailing token",
            input: b"LIST FROBNICATE extra\r\n",
            expected: b"501 command syntax error\r\n",
        },
        ServerResponseCase {
            name: "GROUP non-UTF-8 argument",
            input: b"GROUP alt.\xff\r\n",
            expected: b"501 command syntax error\r\n",
        },
        ServerResponseCase {
            name: "HDR non-UTF-8 header name",
            input: b"HDR Subj\xffct 1\r\n",
            expected: b"501 command syntax error\r\n",
        },
        ServerResponseCase {
            name: "NEWNEWS non-UTF-8 wildmat",
            input: b"NEWNEWS alt.\xff 20260101 000000\r\n",
            expected: b"501 command syntax error\r\n",
        },
        ServerResponseCase {
            name: "GROUP excludes ! from newsgroup-name",
            input: b"GROUP alt!test\r\n",
            expected: b"501 command syntax error\r\n",
        },
        ServerResponseCase {
            name: "LIST ACTIVE excludes [ from wildmat",
            input: b"LIST ACTIVE alt[test\r\n",
            expected: b"501 command syntax error\r\n",
        },
        ServerResponseCase {
            name: "NEWNEWS excludes \\ from wildmat",
            input: b"NEWNEWS alt\\test 20260101 000000\r\n",
            expected: b"501 command syntax error\r\n",
        },
        ServerResponseCase {
            name: "LIST ACTIVE.TIMES extra argument",
            input: b"LIST ACTIVE.TIMES comp.* extra\r\n",
            expected: b"501 command syntax error\r\n",
        },
        ServerResponseCase {
            name: "LIST NEWSGROUPS extra argument",
            input: b"LIST NEWSGROUPS comp.* extra\r\n",
            expected: b"501 command syntax error\r\n",
        },
        ServerResponseCase {
            name: "NEWGROUPS extra argument",
            input: b"NEWGROUPS 20260101 000000 GMT extra\r\n",
            expected: b"501 command syntax error\r\n",
        },
        ServerResponseCase {
            name: "NEWNEWS extra argument",
            input: b"NEWNEWS alt.* 20260101 000000 GMT extra\r\n",
            expected: b"501 command syntax error\r\n",
        },
        ServerResponseCase {
            name: "OVER extra argument",
            input: b"OVER 1-2 extra\r\n",
            expected: b"501 command syntax error\r\n",
        },
        ServerResponseCase {
            name: "HDR extra argument",
            input: b"HDR Subject 1 extra\r\n",
            expected: b"501 command syntax error\r\n",
        },
        ServerResponseCase {
            name: "XOVER extra argument",
            input: b"XOVER 1-2 extra\r\n",
            expected: b"501 command syntax error\r\n",
        },
        ServerResponseCase {
            name: "XHDR extra argument",
            input: b"XHDR Subject 1 extra\r\n",
            expected: b"501 command syntax error\r\n",
        },
        ServerResponseCase {
            name: "CHECK extra argument",
            input: b"CHECK <check@test> extra\r\n",
            expected: b"501 command syntax error\r\n",
        },
        ServerResponseCase {
            name: "TAKETHIS extra argument",
            input: b"TAKETHIS <take@test> extra\r\nHeader: value\r\n\r\nbody\r\n.\r\n",
            expected: b"501 command syntax error\r\n",
        },
    ]);
}

#[test]
fn fixed_command_reader_handles_split_line_and_closed_sender() {
    let mut reader = Reader::new(&[b"ART".as_slice(), b"ICLE 1\r\nBODY 2\r\n".as_slice()], 32);
    let mut command_lines = CommandLineBatch::new();
    let mut command_batch = new_command_batch();
    assert!(read_command_batch(&mut reader, &mut command_lines, &mut command_batch, 4).unwrap());
    assert_eq!(kinds(&command_batch), vec![RequestKind::Article, RequestKind::Body]);
    assert!(!read_command_batch(&mut reader, &mut command_lines, &mut command_batch, 4).unwrap());
}

#[test]
fn serve_session_supports_head_and_stat_requests() {
    let config = test_config();
    let (output, stats) = run_session_with_input(
        config,
        b"HEAD <client-head@test>\r\nSTAT <client-stat@test>\r\n",
    );

    let head_id = MessageId::from_borrowed("<client-head@test>").unwrap();
    let stat_id = MessageId::from_borrowed("<client-stat@test>").unwrap();
    assert_eq!(
        output,
        [
            GREETING.as_bytes(),
            &build_message_id_head_response(&head_id),
            &build_message_id_stat_response(&stat_id),
        ]
        .concat()
    );

    let snapshot = stats.snapshot(0);
    assert_eq!(snapshot.commands, 2);
    assert_eq!(snapshot.article_requests, 2);
    assert_eq!(snapshot.body_requests, 0);
}

#[test]
fn serve_session_supports_list_subcommand_requests() {
    let config = test_config();
    let (output, stats) = run_session_with_input(
        config,
        b"LIST ACTIVE\r\nLIST ACTIVE.TIMES\r\nLIST ACTIVE.TIMES comp.lang.*\r\nLIST NEWSGROUPS\r\nLIST NEWSGROUPS comp.lang.*\r\nLIST OVERVIEW.FMT\r\nLIST HEADERS\r\nLIST DISTRIB.PATS\r\n",
    );

    assert_eq!(
        output,
        [
            GREETING.as_bytes(),
            LIST_RESPONSE.as_bytes(),
            LIST_ACTIVE_TIMES_RESPONSE.as_bytes(),
            LIST_ACTIVE_TIMES_COMP_RESPONSE.as_bytes(),
            LIST_NEWSGROUPS_RESPONSE.as_bytes(),
            LIST_NEWSGROUPS_COMP_RESPONSE.as_bytes(),
            LIST_OVERVIEW_FMT_RESPONSE.as_bytes(),
            LIST_HEADERS_RESPONSE.as_bytes(),
            LIST_DISTRIB_PATS_RESPONSE.as_bytes(),
        ]
        .concat()
    );

    let snapshot = stats.snapshot(0);
    assert_eq!(snapshot.commands, 8);
    assert_eq!(snapshot.article_requests, 0);
    assert_eq!(snapshot.body_requests, 0);
}

#[test]
fn reads_pipelined_commands_in_fifo_order() {
    let input: &[u8] = b"ARTICLE <a@test>\r\nBODY <b@test>\r\nDATE\r\nMODE READER\r\nQUIT\r\n";

    let mut reader = Reader::new(&[input], 1024);
    let mut command_lines = CommandLineBatch::new();
    let mut command_batch = new_command_batch();

    assert!(read_command_batch(&mut reader, &mut command_lines, &mut command_batch, 8).unwrap());
    assert_eq!(
        kinds(&command_batch),
        vec![
            RequestKind::Article,
            RequestKind::Body,
            RequestKind::Date,
            RequestKind::ModeReader,
            RequestKind::Quit
        ]
    );
}

#[test]
fn read_command_batch_preserves_full_length_message_id_without_allocating_per_command() {
    let long_message = format!("<{}@example.test>", "a".repeat(480));
    let wire = format!("ARTICLE {long_message}\r\n");
    assert!(wire.len() <= MAX_COMMAND_LINE_BYTES);

    let input: &[u8] = wire.as_bytes();

    let mut reader = Reader::new(&[input], 1024);
    let mut command_lines = CommandLineBatch::new();
    let mut command_batch = new_command_batch();

    assert!(read_command_batch(&mut reader, &mut command_lines, &mut command_batch, 8).unwrap());
    assert_eq!(
        command_message_id(&batch_commands(&command_batch)[0], Some(&command_lines))
            .unwrap()
            .as_str(),
        long_message
    );
}

#[test]
fn read_command_batch_returns_false_on_clean_eof() {
    let input: &[u8] = b"";
    let mut reader = Reader::new(&[input], 1024);
    let mut command_lines = CommandLineBatch::new();
    let mut command_batch = new_command_batch();

    assert!(!read_command_batch(&mut reader, &mut command_lines, &mut command_batch, 8).unwrap());
    assert!(batch_commands(&command_batch).is_empty());
}

#[test]
fn read_command_batch_stops_at_partial_buffered_command() {
    let input: &[u8] = b"ARTICLE 1\r\nBODY 2";

    let mut reader = Reader::new(&[input], 1024);
    let mut command_lines = CommandLineBatch::new();
    let mut command_batch = new_command_batch();

    assert!(read_command_batch(&mut reader, &mut command_lines, &mut command_batch, 8).unwrap());
    assert_eq!(kinds(&command_batch), vec![RequestKind::Article]);
}

#[test]
fn read_command_batch_respects_max_pipeline_depth() {
    let input: &[u8] = b"ARTICLE 1\r\nBODY 2\r\nQUIT\r\n";

    let mut reader = Reader::new(&[input], 1024);
    let mut command_lines = CommandLineBatch::new();
    let mut command_batch = new_command_batch();

    assert!(read_command_batch(&mut reader, &mut command_lines, &mut command_batch, 2).unwrap());
    assert_eq!(kinds(&command_batch), vec![RequestKind::Article, RequestKind::Body]);
}

#[test]
fn read_command_batch_clears_reused_batch_between_reads() {
    let input: &[u8] = b"ARTICLE 1\r\nBODY 2\r\nQUIT\r\n";

    let mut reader = Reader::new(&[input], 1024);
    let mut command_lines = CommandLineBatch::new();
    let mut command_batch = new_command_batch();

    assert!(read_command_batch(&mut reader, &mut command_lines, &mut command_batch, 2).unwrap());
    assert_eq!(kinds(&command_batch), vec![RequestKind::Article, RequestKind::Body]);

    assert!(read_command_batch(&mut reader, &mut command_lines, &mut command_batch, 2).unwrap());
    assert_eq!(kinds(&command_batch), vec![RequestKind::Quit]);
}

#[test]
fn read_command_batch_consumes_takethis_payload_as_one_command() {
    let input: &[u8] = b"TAKETHIS <take@test>\r\nHeader: value\r\n\r\nbody\r\n.\r\nQUIT\r\n";

    let mut reader = Reader::new(&[input], 1024);
    let mut command_lines = CommandLineBatch::new();
    let mut command_batch = new_command_batch();

    assert!(read_command_batch(&mut reader, &mut command_lines, &mut command_batch, 8).unwrap());
    assert_eq!(kinds(&command_batch), vec![RequestKind::TakeThis, RequestKind::Quit]);
}

#[test]
fn read_command_batch_accepts_long_takethis_body_lines() {
    let mut wire = b"TAKETHIS <take@test>\r\nHeader: value\r\n".to_vec();
    wire.extend(std::iter::repeat_n(b'x', MAX_COMMAND_LINE_BYTES + 128));
    wire.extend_from_slice(b"\r\n.\r\nQUIT\r\n");
    let input: &[u8] = &wire;

    let mut reader = Reader::new(&[input], 128);
    let mut command_lines = CommandLineBatch::new();
    let mut command_batch = new_command_batch();

    assert!(read_command_batch(&mut reader, &mut command_lines, &mut command_batch, 8).unwrap());
    assert_eq!(kinds(&command_batch), vec![RequestKind::TakeThis, RequestKind::Quit]);
}

#[test]
fn read_command_batch_rejects_lf_only_takethis_terminator() {
    let input: &[u8] = b"TAKETHIS <take@test>\r\nHeader: value\r\n\r\nbody\n.\nQUIT\r\n";

    let mut reader = Reader::new(&[input], 1024);
    let mut command_lines = CommandLineBatch::new();
    let mut command_batch = new_command_batch();

    let err = read_command_batch(&mut reader, &mut command_lines, &mut command_batch, 8).unwrap_err();

    assert_eq!(err, ReadError::MalformedBody);
    assert!(batch_commands(&command_batch).is_empty());
}

#[test]
fn serve_session_returns_pipelined_responses_in_order_and_counts_stats() {
    let (output, stats) = run_session_with_input(
        test_config(),
        b"GROUP alt.test\r\nBODY 2\r\nARTICLE 1\r\nCAPABILITIES\r\nDATE\r\nMODE READER\r\nHEAD 1\r\nQUIT\r\n",
    );

    let text = String::from_utf8_lossy(&output);
    let group = text.find("211 3 1 3 alt.test").unwrap();
    let body = text.find("222 2").unwrap();
    let article = text.find("220 1").unwrap();
    let caps = text.find("101 Capability").unwrap();
    let date = text.find("111 ").unwrap();
    let mode = text.find("201 posting not permitted").unwrap();
    let head = text.find("221 1 <article.1@nntpbench.local>").unwrap();
    let quit = text.find("205 closing").unwrap();
    assert!(group < body);
    assert!(body < article);
    assert!(article < caps);
    assert!(caps < date);
    assert!(date < mode);
    assert!(mode < head);
    assert!(head < quit);

    let snapshot = stats.snapshot(0);
    assert_eq!(snapshot.commands, 8);
    assert_eq!(snapshot.body_requests, 1);
    assert_eq!(snapshot.article_requests, 2);
    assert_eq!(snapshot.pipeline_batches, 1);
    assert_eq!(snapshot.bytes_sent, output.len() as u64);
}

#[test]
fn serve_session_reads_article_responses_from_article_dir() {
    let response =
        b"220 2 <article.2@test> article follows\r\nSubject: stored\r\n\r\nbody\r\n.\r\n";
    let message_response =
        b"220 1 <stored@ngPost> article follows\r\nSubject: message\r\n\r\nbody\r\n.\r\n";
    let message_id = MessageId::from_borrowed("<stored@ngPost>").unwrap();
    let store = vec![
        (article_id_tree_path(2), response.to_vec()),
        (message_id_tree_path(&message_id).unwrap(), message_response.to_vec()),
    ];

    let mut args = test_args();
    args.article_dir = Some("articles".to_string());
    let (output, stats) = run_session_with_store(
        Arc::new(ServerConfig::from_args(args)),
        &store,
        b"GROUP alt.test\r\nARTICLE 2\r\nARTICLE <stored@ngPost>\r\nARTICLE 3\r\nQUIT\r\n",
    );

    assert_eq!(
        output,
        [
            GREETING.as_bytes(),
            GROUP_RESPONSE.as_bytes(),
            response,
            message_response,
            b"423 no article with that number\r\n".as_slice(),
            QUIT_RESPONSE.as_bytes()
        ]
        .concat()
    );
    let snapshot = stats.snapshot(0);
    assert_eq!(snapshot.commands, 5);
    assert_eq!(snapshot.article_requests, 3);
    assert_eq!(snapshot.bytes_sent, output.len() as u64);
}

#[test]
fn serve_session_supports_backend_negotiation_commands() {
    let (output, stats) =
        run_session_with_input(test_config(), b"MODE READER\r\nDATE\r\nQUIT\r\n");

    let prefix = [GREETING.as_bytes(), MODE_READER_RESPONSE.as_bytes()].concat();
    assert!(output.starts_with(&prefix));
    let date_start = prefix.len();
    assert_date_response(&output[date_start..date_start + 20]);
    assert_eq!(
        &output[date_start + 20..],
        b"205 closing connection\r\n".as_slice()
    );
    assert_eq!(stats.snapshot(0).commands, 3);
}

#[test]
fn serve_session_supports_help_and_quit_commands() {
    let (output, stats) =
        run_session_with_input(test_config(), b"LIST\r\nHELP\r\nQUIT\r\n");

    assert_eq!(
        output,
        [GREETING.as_bytes(), LIST_RESPONSE.as_bytes(), HELP_RESPONSE.as_bytes(), QUIT_RESPONSE.as_bytes()].concat()
    );
    assert_eq!(stats.snapshot(0).commands, 3);
}

#[test]
fn serve_session_supports_overview_commands() {
    let (output, stats) = run_session_with_input(
        test_config(),
        b"GROUP alt.test\r\nOVER 1-10\r\nOVER <overview@test>\r\nXOVER 1-10\r\nXOVER <overview@test>\r\n",
    );

    assert_eq!(
        output,
        [
            GREETING.as_bytes(),
            GROUP_RESPONSE.as_bytes(),
            OVER_RANGE_RESPONSE.as_bytes(),
            OVER_MESSAGE_ID_RESPONSE.as_bytes(),
            XOVER_RESPONSE.as_bytes(),
            OVER_MESSAGE_ID_RESPONSE.as_bytes()
        ]
        .concat()
    );
    assert_eq!(stats.snapshot(0).commands, 5);
}

#[test]
fn serve_session_supports_group_navigation_commands() {
    let config = test_config();
    let article_response = build_selected_article_response(2, config.article_bytes);
    let (output, stats) = run_session_with_input(
        config,
        b"GROUP alt.test\r\nLISTGROUP\r\nLISTGROUP alt.test\r\nLISTGROUP 1-\r\nLISTGROUP 2-3\r\nLISTGROUP alt.test 1-10\r\nARTICLE 2\r\nLAST\r\nNEXT\r\n",
    );

    let mut expected = Vec::new();
    expected.extend_from_slice(GREETING.as_bytes());
    expected.extend_from_slice(GROUP_RESPONSE.as_bytes());
    expected.extend_from_slice(LISTGROUP_RESPONSE.as_bytes());
    expected.extend_from_slice(LISTGROUP_RESPONSE.as_bytes());
    expected.extend_from_slice(LISTGROUP_RESPONSE.as_bytes());
    expected.extend_from_slice(LISTGROUP_2_3_RESPONSE.as_bytes());
    expected.extend_from_slice(LISTGROUP_RESPONSE.as_bytes());
    expected.extend_from_slice(&article_response);
    expected.extend_from_slice(LAST_RESPONSE.as_bytes());
    expected.extend_from_slice(NEXT_RESPONSE.as_bytes());
    assert_eq!(output, expected);
    assert_eq!(stats.snapshot(0).commands, 9);
}

#[test]
fn serve_session_supports_discovery_commands() {
    let (output, stats) = run_session_with_input(
        test_config(),
        b"NEWGROUPS 20260101 000000 GMT\r\nNEWNEWS alt.* 20260101 000000\r\n",
    );

    assert_eq!(
        output,
        [GREETING.as_bytes(), NEWGROUPS_RESPONSE.as_bytes(), NEWNEWS_RESPONSE.as_bytes()].concat()
    );
    assert_eq!(stats.snapshot(0).commands, 2);
}

#[test]
fn serve_session_supports_remaining_rfc_commands() {
    let (output, stats) = run_session_with_input(
        test_config(),
        b"POST\r\nIHAVE <ihave@test>\r\nCHECK <check@test>\r\nTAKETHIS <take@test>\r\nHeader: value\r\n\r\nbody\r\n.\r\nAUTHINFO USER bench\r\nAUTHINFO PASS bench\r\nSTARTTLS\r\n",
    );

    assert_eq!(
        output,
        [
            GREETING.as_bytes(),
            b"440 posting not permitted\r\n".as_slice(),
            b"435 article not wanted\r\n",
            b"502 command unavailable\r\n",
            b"502 command unavailable\r\n",
            b"483 command unavailable until TLS has been negotiated\r\n",
            b"483 command unavailable until TLS has been negotiated\r\n",
            b"502 command unavailable\r\n",
        ]
        .concat()
    );
    assert_eq!(stats.snapshot(0).commands, 7);
}

#[test]
fn serve_session_handles_large_response_after_pending_small_response() {
    let mut args = test_args();
    args.body_bytes = 8192;
    args.article_bytes = 8192;
    args.flush = true;
    let (output, stats) = run_session_with_input(
        Arc::new(ServerConfig::from_args(args)),
        b"CAPABILITIES\r\nBODY <large-body@test>\r\n",
    );

    let text = String::from_utf8_lossy(&output);
    assert!(text.find("101 Capability").unwrap() < text.find("222 0").unwrap());
    assert!(output.ends_with(b"\r\n.\r\n"));
    let snapshot = stats.snapshot(0);
    assert_eq!(snapshot.commands, 2);
    assert_eq!(snapshot.body_requests, 1);
}

#[test]
fn serve_session_flushes_small_response_when_client_closes() {
    let (output, stats) = run_session_with_input(test_config(), b"CAPABILITIES\r\n");
    assert!(output.starts_with(GREETING.as_bytes()));
    assert!(output.ends_with(CAPABILITIES_RESPONSE.as_bytes()));
    assert_eq!(stats.snapshot(0).commands, 1);
}

#[test]
fn serve_session_flushes_on_quit_when_configured() {
    let mut args = test_args();
    args.flush = true;
    let (output, stats) =
        run_session_with_input(Arc::new(ServerConfig::from_args(args)), b"QUIT\r\n");
    assert_eq!(
        output,
        [GREETING.as_bytes(), b"205 closing connection\r\n".as_slice()].concat()
    );
    assert_eq!(stats.snapshot(0).commands, 1);
}

#[test]
fn serve_session_writes_large_response_with_no_pending_prefix() {
    let mut args = test_args();
    args.body_bytes = 8192;
    let (output, stats) = run_session_with_input(
        Arc::new(ServerConfig::from_args(args)),
        b"BODY <large-body@test>\r\n",
    );
    assert!(output.starts_with(GREETING.as_bytes()));
    assert!(output[GREETING.as_bytes().len()..].starts_with(b"222 0 <large-body@test>"));
    assert!(output.ends_with(b"\r\n.\r\n"));
    assert_eq!(stats.snapshot(0).body_requests, 1);
}

#[test]
fn serve_session_exits_after_greeting_when_client_closes() {
    let (output, stats) = run_session_with_input(test_config(), b"");
    assert_eq!(output, GREETING.as_bytes());
    let snapshot = stats.snapshot(0);
    assert_eq!(snapshot.commands, 0);
    assert_eq!(snapshot.bytes_sent, GREETING.as_bytes().len() as u64);
}

fn test_client_args() -> ClientArgs {
    ClientArgs {
        ports: Vec::new(),
        auth_user: None,
        auth_pass: None,
        article_ids: None,
        article_output_dir: None,
        article_verify_dir: None,
        requests: 0,
        transfer_bytes: 0,
        duration_secs: 0,
        connections: 1,
        client_offset: 0,
        total_clients: 0,
        pipeline_depth: 64,
        command_mix: ClientCommandMix::Alternate,
        start_id: 1,
        read_buffer_bytes: READER_CAPACITY,
        nodelay: true,
        socket_recv_buffer: 16 * 1024 * 1024,
        socket_send_buffer: 16 * 1024 * 1024,
        csv: false,
        stats_interval_secs: 0,
    }
}

/// The client's end of a connection. The peer is asked with what the client writes; what it hands
/// back has arrived before the client reads on.
struct ClientSide<'a> {
    peer: &'a mut dyn FnMut(&[u8]) -> Vec<u8>,
    input: ResponseInput,
}

impl<'a> ClientSide<'a> {
    fn connect(peer: &'a mut dyn FnMut(&[u8]) -> Vec<u8>) -> Self {
        let incoming = peer(b"");
        let mut client = ClientSide { peer, input: ResponseInput::new() };
        match detect_bounded_response_line_end(&incoming, MAX_INITIAL_RESPONSE_LINE_BYTES) {
            BoundedResponseLineStatus::CompleteAt(end) => client.input.push(&incoming[end..]),
            other => panic!("no greeting: {other:?}"),
        }
        client
    }

    fn write(&mut self, bytes: &[u8]) {
        let answer = (self.peer)(bytes);
        self.input.push(&answer);
    }

    fn read_response(&mut self, kind: RequestKind) -> (u16, u64) {
        match self.input.take_response(kind) {
            Taken::Response { status, bytes } => (status, bytes.len() as u64),
            other => panic!("no response: {other:?}"),
        }
    }

    fn send_request(&mut self, request: &Request) -> u16 {
        let mut wire = Vec::new();
        request.write_wire_to(&mut wire);
        self.write(&wire);
        self.read_response(request.kind()).0
    }

    fn authenticate(&mut self, user: Option<&str>, pass: Option<&str>) {
        let mut step = start_authentication(user.is_some());
        loop {
            step = match step {
                AuthStep::SendUser => {
                    let value = user.unwrap().as_bytes().to_vec();
                    let status = self.send_request(&Request::AuthInfoUser { value });
                    authentication_after_user(status, pass.is_some())
                }
                AuthStep::SendPass => {
                    let value = pass.unwrap().as_bytes().to_vec();
                    let status = self.send_request(&Request::AuthInfoPass { value });
                    authentication_after_pass(status)
                }
                AuthStep::Done => return,
                AuthStep::Rejected(reason) => panic!("rejected: {reason:?}"),
            };
        }
    }
}

/// Runs the session to its end and says whether it was told to stop.
fn run_client(
    config: &ClientConfig,
    session: &ClientSession,
    stats: &mut Stats,
    peer: &mut dyn FnMut(&[u8]) -> Vec<u8>,
) -> bool {
    stats.count_opened();
    let mut client = ClientSide::connect(peer);
    client.authenticate(config.auth_user.as_deref(), config.auth_pass.as_deref());

    let mut stop = false;
    let mut progress = PipelineProgress::new();
    let mut buffer = Vec::new();
    let segments = config.segments.as_ref();
    let filled = session.fill_pipeline(segments, &mut buffer, &progress, stats, stop).unwrap();
    if filled != 0 {
        client.write(&buffer);
    }
    progress.record_filled(filled, stats);
    while progress.in_flight > 0 {
        let kind = session.next_response_kind(&progress);
        let (_, bytes) = client.read_response(kind);
        progress.record_response(session, bytes, stats);
        stop = stop || stats.transfer_limit_reached(session.transfer_bytes);
        if session.wants_refill(&progress) {
            let filled =
                session.fill_pipeline(segments, &mut buffer, &progress, stats, stop).unwrap();
            if filled != 0 {
                client.write(&buffer);
            }
            progress.record_filled(filled, stats);
        }
    }
    stats.count_closed(false);
    stop
}

/// A peer that answers the writes of a client one after the other, each as expected.
fn scripted(script: &[(&'static [u8], &'static [u8])]) -> impl FnMut(&[u8]) -> Vec<u8> {
    let mut script = script.to_vec();
    move |written| {
        if written.is_empty() {
            return b"201 loopback ready\r\n".to_vec();
        }
        let (expected, answer) = script.remove(0);
        assert_eq!(
            String::from_utf8_lossy(written),
            String::from_utf8_lossy(expected),
            "unexpected write"
        );
        answer.to_vec()
    }
}

#[test]
fn client_session_writes_expected_pipeline_wire_to_loopback_server() {
    let mut pending = Vec::new();
    let mut peer = |written: &[u8]| {
        if written.is_empty() {
            return b"201 loopback ready\r\n".to_vec();
        }
        pending.extend_from_slice(written);
        let mut answer = Vec::new();
        while let Some(line_len) = find_crlf_line_end(&pending, 0) {
            let response: &[u8] = if pending[..line_len].starts_with(b"ARTICLE ") {
                b"220 1 <loopback-article@test> article follows\r\nbody\r\n.\r\n"
            } else {
                b"222 1 <loopback-body@test> body follows\r\nbody\r\n.\r\n"
            };
            answer.extend_from_slice(response);
            pending.drain(..line_len);
        }
        answer
    };

    let mut args = test_client_args();
    args.requests = 2;
    args.pipeline_depth = 2;
    args.command_mix = ClientCommandMix::Alternate;
    args.read_buffer_bytes = 64;
    let config = ClientConfig::from_args(args, None).unwrap();
    let session = ClientSession::new(&config, 0, 1, 2);
    let mut stats = Stats::new(0);

    let stop = run_client(&config, &session, &mut stats, &mut peer);

    let snapshot = stats.snapshot(0);
    assert_eq!(snapshot.accepted_connections, 1);
    assert_eq!(snapshot.active_connections, 0);
    assert_eq!(snapshot.commands, 2);
    assert_eq!(snapshot.article_requests, 1);
    assert_eq!(snapshot.body_requests, 1);
    assert_eq!(snapshot.pipeline_batches, 1);
    assert!(snapshot.bytes_sent > 0);
    assert!(!stop);
}

#[test]
fn client_session_runs_pipelined_requests_against_loopback_server() {
    let mut peer = scripted(&[(
        b"ARTICLE 1\r\nBODY 2\r\n",
        b"220 1 <bench.1@nntpbench.local> article follows\r\nSubject: Bench\r\n\r\none\r\n.\r\n\
        222 1 <bench.2@nntpbench.local> body follows\r\ntwo\r\n.\r\n",
    )]);

    let mut args = test_client_args();
    args.requests = 2;
    args.pipeline_depth = 2;
    args.command_mix = ClientCommandMix::Alternate;
    args.read_buffer_bytes = 64;
    let config = ClientConfig::from_args(args, None).unwrap();
    let session = ClientSession::new(&config, 0, 1, 2);
    let mut stats = Stats::new(0);

    let stop = run_client(&config, &session, &mut stats, &mut peer);

    let snapshot = stats.snapshot(0);
    assert_eq!(snapshot.accepted_connections, 1);
    assert_eq!(snapshot.active_connections, 0);
    assert_eq!(snapshot.commands, 2);
    assert_eq!(snapshot.article_requests, 1);
    assert_eq!(snapshot.body_requests, 1);
    assert_eq!(snapshot.pipeline_batches, 1);
    assert!(snapshot.bytes_sent > 0);
    assert!(!stop);
}

#[test]
fn client_session_sends_authinfo_before_workload_requests() {
    let mut peer = scripted(&[
        (b"AUTHINFO USER bench-user\r\n", b"381 authentication information required\r\n"),
        (b"AUTHINFO PASS bench-pass\r\n", b"281 authentication accepted\r\n"),
        (
            b"ARTICLE 1\r\nBODY 2\r\n",
            b"220 1 <bench.1@nntpbench.local> article follows\r\nSubject: Bench\r\n\r\none\r\n.\r\n\
            222 1 <bench.2@nntpbench.local> body follows\r\ntwo\r\n.\r\n",
        ),
    ]);

    let mut args = test_client_args();
    args.auth_user = Some("bench-user".to_string());
    args.auth_pass = Some("bench-pass".to_string());
    args.requests = 2;
    args.pipeline_depth = 2;
    args.command_mix = ClientCommandMix::Alternate;
    args.read_buffer_bytes = 64;
    let config = ClientConfig::from_args(args, None).unwrap();
    let session = ClientSession::new(&config, 0, 1, 2);
    let mut stats = Stats::new(0);

    run_client(&config, &session, &mut stats, &mut peer);

    let snapshot = stats.snapshot(0);
    assert_eq!(snapshot.commands, 2);
    assert_eq!(snapshot.article_requests, 1);
    assert_eq!(snapshot.body_requests, 1);
    assert_eq!(snapshot.pipeline_batches, 1);
}

#[test]
fn client_session_skips_authinfo_pass_after_user_success() {
    let mut peer = scripted(&[
        (b"AUTHINFO USER bench-user\r\n", b"281 authentication accepted\r\n"),
        (
            b"ARTICLE 1\r\n",
            b"220 1 <bench.1@nntpbench.local> article follows\r\nSubject: Bench\r\n\r\none\r\n.\r\n",
        ),
    ]);

    let mut args = test_client_args();
    args.auth_user = Some("bench-user".to_string());
    args.auth_pass = Some("bench-pass".to_string());
    args.requests = 1;
    args.pipeline_depth = 1;
    args.command_mix = ClientCommandMix::Article;
    let config = ClientConfig::from_args(args, None).unwrap();
    let session = ClientSession::new(&config, 0, 1, 1);

    run_client(&config, &session, &mut Stats::new(0), &mut peer);
}

#[test]
fn download_authentication_skips_authinfo_pass_after_user_success() {
    let mut peer = scripted(&[
        (b"AUTHINFO USER bench-user\r\n", b"281 authentication accepted\r\n"),
        (b"ARTICLE 1\r\n", b""),
    ]);
    let mut client = ClientSide::connect(&mut peer);
    client.authenticate(Some("bench-user"), Some("bench-pass"));
    client.write(b"ARTICLE 1\r\n");
}

#[test]
fn client_session_uses_segment_message_ids_on_wire() {
    let mut peer = scripted(&[(
        b"ARTICLE <segment-1@test>\r\nBODY <segment-2@test>\r\n",
        b"220 1 <segment-1@test> article follows\r\nSubject: Bench\r\n\r\none\r\n.\r\n\
        222 1 <segment-2@test> body follows\r\ntwo\r\n.\r\n",
    )]);

    let segments = parse_segments(b"1\tsegment-1@test\n2\tsegment-2@test\n").unwrap();
    let mut args = test_client_args();
    args.requests = 2;
    args.pipeline_depth = 2;
    args.command_mix = ClientCommandMix::Alternate;
    args.read_buffer_bytes = 64;
    let config = ClientConfig::from_args(args, Some(segments)).unwrap();
    let session = ClientSession::new(&config, 0, 1, 2);
    let mut stats = Stats::new(0);

    run_client(&config, &session, &mut stats, &mut peer);

    let snapshot = stats.snapshot(0);
    assert_eq!(snapshot.commands, 2);
    assert_eq!(snapshot.article_requests, 1);
    assert_eq!(snapshot.body_requests, 1);
    assert_eq!(snapshot.pipeline_batches, 1);
}

#[test]
fn client_session_zero_start_id_falls_back_per_request() {
    let mut peer = scripted(&[(
        b"BODY <bench.0@nntpbench.local>\r\nARTICLE 1\r\n",
        b"222 0 <bench.0@nntpbench.local> body follows\r\nzero\r\n.\r\n\
        220 1 <bench.1@nntpbench.local> article follows\r\nSubject: Bench\r\n\r\none\r\n.\r\n",
    )]);

    let mut args = test_client_args();
    args.requests = 2;
    args.pipeline_depth = 2;
    args.command_mix = ClientCommandMix::Alternate;
    args.start_id = 0;
    args.read_buffer_bytes = 64;
    let config = ClientConfig::from_args(args, None).unwrap();
    let session = ClientSession::new(&config, 0, 0, 2);
    let mut stats = Stats::new(0);

    run_client(&config, &session, &mut stats, &mut peer);

    let snapshot = stats.snapshot(0);
    assert_eq!(snapshot.commands, 2);
    assert_eq!(snapshot.article_requests, 1);
    assert_eq!(snapshot.body_requests, 1);
    assert_eq!(snapshot.pipeline_batches, 1);
}

#[test]
fn client_session_refills_pipeline_before_batch_is_drained() {
    let mut peer = scripted(&[
        (
            b"ARTICLE 1\r\nBODY 2\r\n",
            b"220 1 <pipeline-1@test> article follows\r\nbody\r\n.\r\n",
        ),
        (
            b"ARTICLE 3\r\n",
            b"222 1 <pipeline-2@test> body follows\r\nbody\r\n.\r\n\
            220 1 <pipeline-3@test> article follows\r\nbody\r\n.\r\n",
        ),
    ]);

    let mut args = test_client_args();
    args.requests = 3;
    args.pipeline_depth = 2;
    args.command_mix = ClientCommandMix::Alternate;
    args.read_buffer_bytes = 64;
    let config = ClientConfig::from_args(args, None).unwrap();
    let session = ClientSession::new(&config, 0, 1, 3);
    let mut stats = Stats::new(0);

    run_client(&config, &session, &mut stats, &mut peer);

    let snapshot = stats.snapshot(0);
    assert_eq!(snapshot.commands, 3);
    assert_eq!(snapshot.article_requests, 2);
    assert_eq!(snapshot.body_requests, 1);
}

#[test]
fn client_session_sets_stop_after_transfer_limit() {
    let mut peer = scripted(&[(
        b"BODY 1\r\n",
        b"222 1 <transfer@test> body follows\r\nresponse payload\r\n.\r\n",
    )]);

    let mut args = test_client_args();
    args.requests = 0;
    args.transfer_bytes = 1;
    args.pipeline_depth = 1;
    args.command_mix = ClientCommandMix::Body;
    args.read_buffer_bytes = 64;
    let config = ClientConfig::from_args(args, None).unwrap();
    let session = ClientSession::new(&config, 0, 1, 0);
    let mut stats = Stats::new(0);

    let stop = run_client(&config, &session, &mut stats, &mut peer);

    assert!(stop);
    assert_eq!(stats.snapshot(0).commands, 1);
}

struct RoundTrip {
    body_bytes: usize,
    article_bytes: usize,
    max_pipeline_depth: usize,
    requests: u64,
    transfer_bytes: u64,
    pipeline_depth: usize,
    mix: ClientCommandMix,
    start_id: u64,
    read_buffer_bytes: usize,
}

/// A client against a server that has no group selected: requests by number are refused there,
/// each with an answer of its own.
fn run_direct_client_server_case(case: &RoundTrip) -> (Snapshot, Snapshot) {
    let mut server_args = test_args();
    server_args.body_bytes = case.body_bytes;
    server_args.article_bytes = case.article_bytes;
    server_args.max_pipeline_depth = case.max_pipeline_depth;
    let mut server = ServerSide::new(Arc::new(ServerConfig::from_args(server_args)));

    let mut client_args = test_client_args();
    client_args.requests = case.requests;
    client_args.transfer_bytes = case.transfer_bytes;
    client_args.pipeline_depth = case.pipeline_depth;
    client_args.command_mix = case.mix;
    client_args.start_id = case.start_id;
    client_args.read_buffer_bytes = case.read_buffer_bytes;
    client_args.socket_recv_buffer = 0;
    client_args.socket_send_buffer = 0;
    let config = ClientConfig::from_args(client_args, None).unwrap();
    let session = ClientSession::new(&config, 0, case.start_id, case.requests);
    let mut client_stats = Stats::new(0);

    let mut peer = |written: &[u8]| {
        let mut output = Vec::new();
        if written.is_empty() {
            server.greet(&mut output);
        } else {
            server.receive(&Store::new(), written, &mut output).unwrap();
        }
        output
    };
    run_client(&config, &session, &mut client_stats, &mut peer);

    let mut server_stats = Stats::new(0);
    server_stats.add_session(&server.stats);
    (client_stats.snapshot(0), server_stats.snapshot(0))
}

fn expected_client_command_counts(
    start_id: u64,
    requests: u64,
    mix: ClientCommandMix,
) -> (u64, u64) {
    let mut articles = 0;
    let mut bodies = 0;
    for offset in 0..requests {
        match client_command_kind(start_id.wrapping_add(offset), mix) {
            ClientCommandMix::Article => articles += 1,
            ClientCommandMix::Body => bodies += 1,
            ClientCommandMix::Alternate => unreachable!(),
        }
    }
    (articles, bodies)
}

const MIXES: [ClientCommandMix; 3] =
    [ClientCommandMix::Article, ClientCommandMix::Body, ClientCommandMix::Alternate];

#[test]
fn direct_client_server_request_limited_roundtrips_match_generated_e2e_shapes() {
    for (index, requests) in (1..=16).enumerate() {
        let case = RoundTrip {
            body_bytes: 128 + index * 264,
            article_bytes: 256 + index * 529,
            max_pipeline_depth: 1 + index % 8,
            requests,
            transfer_bytes: 0,
            pipeline_depth: 1 + (index * 3) % 8,
            mix: MIXES[index % 3],
            start_id: (index % 5) as u64,
            read_buffer_bytes: 64 + index * 12,
        };
        let (client, server) = run_direct_client_server_case(&case);

        let (expected_articles, expected_bodies) =
            expected_client_command_counts(case.start_id, requests, case.mix);
        assert_eq!(client.accepted_connections, 1);
        assert_eq!(client.active_connections, 0);
        assert_eq!(client.commands, requests);
        assert_eq!(client.article_requests, expected_articles);
        assert_eq!(client.body_requests, expected_bodies);
        assert_eq!(server.commands, requests);
        assert_eq!(server.article_requests, expected_articles);
        assert_eq!(server.body_requests, expected_bodies);
        assert_eq!(server.errors, 0);
        assert!(client.bytes_sent > 0);
        assert!(server.bytes_sent >= client.bytes_sent);
        if requests > 1 && case.pipeline_depth > 1 {
            assert!(client.pipeline_batches > 0);
        }
    }
}

#[test]
fn direct_client_server_transfer_limited_roundtrips_cross_generated_byte_targets() {
    for (index, transfer_bytes) in
        [1, 2, 63, 64, 500, 1024, 2000, 4096, 7777, 10_000, 15_000, 16_384].into_iter().enumerate()
    {
        let case = RoundTrip {
            body_bytes: 128 + index * 360,
            article_bytes: 256 + index * 721,
            max_pipeline_depth: 1 + index % 8,
            requests: 0,
            transfer_bytes,
            pipeline_depth: 1 + index % 6,
            mix: MIXES[index % 3],
            start_id: (index % 5) as u64,
            read_buffer_bytes: 64 + index * 16,
        };
        let (client, server) = run_direct_client_server_case(&case);

        assert_eq!(client.accepted_connections, 1);
        assert_eq!(client.active_connections, 0);
        assert!(client.commands >= 1);
        assert!(client.bytes_sent >= transfer_bytes);
        assert_eq!(server.commands, client.commands);
        assert_eq!(server.article_requests, client.article_requests);
        assert_eq!(server.body_requests, client.body_requests);
        assert_eq!(server.errors, 0);
        assert!(server.bytes_sent >= client.bytes_sent);
    }
}

fn greeting_status(greeting: &[u8]) -> BoundedResponseLineStatus {
    detect_bounded_response_line_end(greeting, MAX_INITIAL_RESPONSE_LINE_BYTES)
}

#[test]
fn read_greeting_reports_eof_and_overlong_greeting() {
    assert_eq!(greeting_status(b""), BoundedResponseLineStatus::NeedMore);
    let greeting = vec![b'x'; MAX_INITIAL_RESPONSE_LINE_BYTES + 1];
    assert_eq!(greeting_status(&greeting), BoundedResponseLineStatus::TooLong);
}

#[test]
fn read_greeting_accepts_exact_rfc_initial_line_limit() {
    let mut greeting = Vec::from(b"201 ".as_slice());
    greeting.resize(MAX_INITIAL_RESPONSE_LINE_BYTES - 2, b'x');
    greeting.extend_from_slice(b"\r\n");
    assert_eq!(
        greeting_status(&greeting),
        BoundedResponseLineStatus::CompleteAt(MAX_INITIAL_RESPONSE_LINE_BYTES)
    );
}

#[test]
fn read_greeting_rejects_malformed_crlf_recovery() {
    for greeting in [
        b"201 nntpbench mock server ready\n".as_slice(),
        b"201 nntpbench mock server ready\r later\r\n".as_slice(),
        b"201 nntpbench mock server ready\r\r\n".as_slice(),
    ] {
        assert_eq!(greeting_status(greeting), BoundedResponseLineStatus::Invalid, "{greeting:?}");
    }
}
