//! What the server answers, as the client that asked reads it.
use nntpbench::batch::{new_command_batch, stage_command};
use nntpbench::commands::CommandLineBatch;
use nntpbench::date::normalized_nntp_date_key;
use nntpbench::groups::SessionState;
use nntpbench::process_request_to_buffer;
use nntpbench::response::{
    response_frame_end, response_status, FrameStatus, ResponseInput, Taken,
};
use nntpbench::session::{handle_command, BatchOutcome, CommandAction};
use nntpbench::store::{store_path, ArticleStoreKey, NameTooLong};
use nntpbench::{
    MessageId, RequestKind, RequestLine, ServerArgs, ServerConfig, SessionStats, Stats,
};

fn config() -> ServerConfig {
    ServerConfig::from_args(ServerArgs {
        body_bytes: 1024,
        article_bytes: 2048,
        article_dir: None,
        max_connections: 16,
        max_pipeline_depth: 8,
        nodelay: true,
        socket_recv_buffer: 0,
        socket_send_buffer: 0,
        stats_interval_secs: 0,
        flush: false,
        pending_write_bytes: 4096,
    })
}

/// The kind of a command and its answer.
fn ask(line: &str, config: &ServerConfig, state: &mut SessionState) -> (RequestKind, Vec<u8>) {
    let mut lines = CommandLineBatch::new();
    let batch = new_command_batch();
    let command = stage_command(line.as_bytes(), &mut lines, &batch);
    let mut stats = SessionStats::new();
    match handle_command(&command, Some(&lines), config, &mut stats, state, 1_780_000_000) {
        CommandAction::Send { reply, .. } => (command.kind, reply.as_bytes().to_vec()),
        CommandAction::Lookup { .. } => panic!("there is no store"),
    }
}

const COMMANDS: [&str; 52] = [
    "ARTICLE\r\n",
    "LAST\r\n",
    "HDR Subject\r\n",
    "LISTGROUP\r\n",
    "GROUP nowhere.test\r\n",
    "GROUP comp.lang.rust\r\n",
    "GROUP alt.test\r\n",
    "LISTGROUP\r\n",
    "LISTGROUP alt.test 2-3\r\n",
    "LISTGROUP comp.lang.rust 5-\r\n",
    "GROUP alt.test\r\n",
    "LAST\r\n",
    "NEXT\r\n",
    "NEXT\r\n",
    "NEXT\r\n",
    "LAST\r\n",
    "ARTICLE 1\r\n",
    "ARTICLE 2\r\n",
    "ARTICLE 4\r\n",
    "ARTICLE <one@example.com>\r\n",
    "ARTICLE <missing@example.com>\r\n",
    "HEAD\r\n",
    "HEAD 1\r\n",
    "STAT 1\r\n",
    "STAT 3\r\n",
    "BODY 1\r\n",
    "BODY <one@example.com>\r\n",
    "OVER\r\n",
    "OVER 1-2\r\n",
    "XOVER 2\r\n",
    "HDR :bytes 1\r\n",
    "HDR X-Other 1\r\n",
    "XHDR Message-ID <one@example.com>\r\n",
    "LIST\r\n",
    "LIST ACTIVE alt.*\r\n",
    "LIST ACTIVE.TIMES\r\n",
    "LIST NEWSGROUPS none.*\r\n",
    "LIST OVERVIEW.FMT\r\n",
    "LIST HEADERS\r\n",
    "LIST DISTRIB.PATS\r\n",
    "NEWGROUPS 20260101 000000 GMT\r\n",
    "NEWNEWS alt.* 20990101 000000\r\n",
    "DATE\r\n",
    "HELP\r\n",
    "CAPABILITIES\r\n",
    "MODE READER\r\n",
    "POST\r\n",
    "IHAVE <one@example.com>\r\n",
    "AUTHINFO USER someone\r\n",
    "STARTTLS\r\n",
    "NONSENSE\r\n",
    "QUIT\r\n",
];

#[test]
fn every_answer_of_a_session_is_one_response() {
    let config = config();
    let mut state = SessionState::new();
    for line in COMMANDS {
        let (kind, answer) = ask(line, &config, &mut state);
        assert_eq!(
            response_frame_end(kind, &answer),
            FrameStatus::CompleteAt(answer.len()),
            "{line}"
        );
    }
}

#[test]
fn pipelined_answers_are_read_one_by_one() {
    let config = config();
    let mut state = SessionState::new();
    let mut kinds = Vec::new();
    let mut answers = Vec::new();
    let mut stream = Vec::new();
    for line in COMMANDS {
        let (kind, answer) = ask(line, &config, &mut state);
        stream.extend_from_slice(&answer);
        kinds.push(kind);
        answers.push(answer);
    }
    let mut rest = stream.as_slice();
    for (kind, answer) in kinds.into_iter().zip(answers) {
        assert_eq!(response_frame_end(kind, rest), FrameStatus::CompleteAt(answer.len()));
        rest = &rest[answer.len()..];
    }
    assert!(rest.is_empty());
}

#[test]
fn answers_in_small_pieces_are_taken_whole() {
    let config = config();
    let mut state = SessionState::new();
    for size in [1, 7, 4096] {
        let mut input = ResponseInput::new();
        for line in COMMANDS {
            let (kind, answer) = ask(line, &config, &mut state);
            for piece in answer.chunks(size) {
                assert!(matches!(input.take_response(kind), Taken::NeedMore), "{line}");
                input.push(piece);
            }
            let Taken::Response { status, bytes } = input.take_response(kind) else {
                panic!("no response to {line}");
            };
            assert_eq!(bytes, answer);
            assert_eq!(Some(status), response_status(&answer));
        }
    }
}

#[test]
fn what_follows_a_response_is_kept() {
    let mut input = ResponseInput::new();
    input.push(b"223 1 <a@b> article\r\n222 1 <a@b> body\r\n..x\r\n.\r\n223 ");
    let Taken::Response { status, bytes } = input.take_response(RequestKind::Stat) else {
        panic!("no first response");
    };
    assert_eq!((status, bytes.as_slice()), (223, &b"223 1 <a@b> article\r\n"[..]));
    let Taken::Response { status, bytes } = input.take_response(RequestKind::Body) else {
        panic!("no second response");
    };
    assert_eq!((status, bytes.as_slice()), (222, &b"222 1 <a@b> body\r\n..x\r\n.\r\n"[..]));
    assert!(matches!(input.take_response(RequestKind::Stat), Taken::NeedMore));
    input.push(b"2\n");
    assert!(matches!(input.take_response(RequestKind::Stat), Taken::Invalid));
    let mut long = ResponseInput::new();
    long.push(&[b'2'; 600]);
    assert!(matches!(long.take_response(RequestKind::Stat), Taken::TooLong));
}

#[test]
fn every_answer_without_a_session_is_one_response() {
    let config = config();
    for line in COMMANDS {
        let request = RequestLine::parse(line.as_bytes());
        let kind = request.kind();
        let mut stats = Stats::new(0);
        let mut answer = Vec::new();
        process_request_to_buffer(request, &config, &mut stats, &mut answer, 1_780_000_000, None);
        assert_eq!(
            response_frame_end(kind, &answer),
            FrameStatus::CompleteAt(answer.len()),
            "{line}"
        );
    }
}

#[test]
fn refused_commands_alone_have_an_error_status() {
    let config = config();
    let mut state = SessionState::new();
    let mut statuses = Vec::new();
    for line in COMMANDS {
        let before = state;
        let (_, answer) = ask(line, &config, &mut state);
        let status = response_status(&answer).unwrap();
        if status >= 400 {
            assert_eq!(state, before, "{line}");
        }
        statuses.push(status);
    }
    assert_eq!(&statuses[..7], &[412, 412, 412, 412, 411, 211, 211]);
    assert_eq!(&statuses[7..16], &[211, 211, 211, 211, 422, 223, 223, 421, 223]);
    assert_eq!(&statuses[16..27], &[220, 220, 423, 220, 430, 221, 221, 223, 223, 222, 222]);
    assert_eq!(&statuses[27..33], &[224, 224, 224, 225, 503, 221]);
    assert_eq!(&statuses[33..42], &[215, 215, 215, 215, 215, 215, 215, 231, 230]);
    assert_eq!(&statuses[42..], &[111, 100, 101, 201, 440, 435, 483, 502, 500, 205]);
}

#[test]
fn first_article_is_answered_like_the_second() {
    let config = config();
    let mut state = SessionState::new();
    ask("GROUP alt.test\r\n", &config, &mut state);
    for verb in ["ARTICLE", "HEAD", "STAT", "BODY"] {
        let (_, first) = ask(&format!("{verb} 1\r\n"), &config, &mut state);
        let (_, second) = ask(&format!("{verb} 2\r\n"), &config, &mut state);
        let renamed = String::from_utf8(first)
            .unwrap()
            .replace(" 1 <article.1@", " 2 <article.2@")
            .replace("Message-ID: <article.1@", "Message-ID: <article.2@");
        assert_eq!(renamed.as_bytes(), second, "{verb}");
    }
}

#[test]
fn status_line_with_a_long_message_id_is_too_long_for_a_client() {
    let config = config();
    let mut state = SessionState::new();
    let longest = format!("STAT <{}@b>\r\n", "a".repeat(482));
    let (kind, answer) = ask(&longest, &config, &mut state);
    assert_eq!(kind, RequestKind::Stat);
    assert_eq!(answer.len(), 512);
    assert_eq!(response_frame_end(kind, &answer), FrameStatus::CompleteAt(512));

    let longer = format!("STAT <{}@b>\r\n", "a".repeat(483));
    let (kind, answer) = ask(&longer, &config, &mut state);
    assert_eq!(kind, RequestKind::Stat);
    assert_eq!(response_frame_end(kind, &answer), FrameStatus::TooLong);
}

#[test]
fn input_behind_a_spoiled_line_does_not_mend_it() {
    assert_eq!(response_frame_end(RequestKind::Stat, b"223 1\n"), FrameStatus::Invalid);
    assert_eq!(response_frame_end(RequestKind::Stat, b"223 1\n2\r\n"), FrameStatus::Invalid);
}

#[test]
fn two_digit_year_is_the_latest_one_not_in_the_future() {
    assert_eq!(normalized_nntp_date_key(b"260515", 2026), Some(20260515));
    assert_eq!(normalized_nntp_date_key(b"270515", 2026), Some(19270515));
    assert_eq!(normalized_nntp_date_key(b"990515", 2099), Some(20990515));
    assert_eq!(normalized_nntp_date_key(b"000515", 2100), Some(21000515));
}

#[test]
fn only_a_closing_outcome_closes() {
    assert!(BatchOutcome::Close.should_close());
    assert!(!BatchOutcome::Continue.should_close());
}

#[test]
fn store_path_follows_the_key() {
    let by_number = store_path(ArticleStoreKey::Number(12345)).unwrap();
    let id = MessageId::from_borrowed("<a@b>").unwrap();
    let by_id = store_path(ArticleStoreKey::MessageId(&id)).unwrap();
    assert_ne!(by_number, by_id);
    assert_eq!(by_number, nntpbench::store::article_id_tree_path(12345));
    assert_eq!(by_id, nntpbench::store::message_id_tree_path(&id).unwrap());

    let long = format!("<{}@b>", "a".repeat(600));
    let id = MessageId::from_borrowed(&long).unwrap();
    assert!(matches!(store_path(ArticleStoreKey::MessageId(&id)), Err(NameTooLong)));
}
