//! Which articles selectors and ranges pick.
use nntpbench::batch::{new_command_batch, push_command, stage_command};
use nntpbench::commands::{command_args, parse_command_line, CommandLineBatch};
use nntpbench::groups::{listgroup_response_for_args, range_selects_articles, SessionState};
use nntpbench::overview::{
    hdr_response_for_args, over_response_for_args, overview_selector_error,
    xhdr_response_for_args, xover_response_for_args,
};
use nntpbench::responses::{
    GROUP_RESPONSE, HDR_BYTES_1_RESPONSE, HDR_EMPTY_RESPONSE, HDR_LINES_2_RESPONSE,
    HDR_MESSAGE_ID_RESPONSE, HDR_RESPONSE, HDR_SUBJECT_1_RESPONSE, HDR_SUBJECT_2_RESPONSE,
    LISTGROUP_2_3_RESPONSE, LISTGROUP_COMP_EMPTY_RESPONSE, LISTGROUP_COMP_RESPONSE,
    LISTGROUP_EMPTY_RESPONSE, LISTGROUP_RESPONSE, NO_ARTICLES_IN_RANGE_RESPONSE,
    NO_ARTICLE_MESSAGE_ID_RESPONSE, NO_SUCH_GROUP_RESPONSE, OVER_2_RESPONSE, OVER_EMPTY_RESPONSE,
    OVER_MESSAGE_ID_RESPONSE, OVER_RANGE_RESPONSE, OVER_RESPONSE, XHDR_EMPTY_RESPONSE,
    XHDR_LINES_2_RESPONSE, XHDR_RESPONSE, XHDR_SUBJECT_1_RESPONSE, XOVER_RESPONSE,
};
use nntpbench::session::{handle_command, CommandAction};
use nntpbench::{RequestKind, ServerArgs, ServerConfig, SessionStats};

fn config() -> ServerConfig {
    ServerConfig::from_args(ServerArgs {
        body_bytes: 64,
        article_bytes: 64,
        article_dir: None,
        max_connections: 1,
        max_pipeline_depth: 1,
        nodelay: true,
        socket_recv_buffer: 0,
        socket_send_buffer: 0,
        stats_interval_secs: 0,
        flush: false,
        pending_write_bytes: 1,
    })
}

/// The answer to the last of some commands, each of them kept in a row of its own.
fn last_answer(commands: &[&str]) -> String {
    let config = config();
    let mut state = SessionState::new();
    let mut stats = SessionStats::new();
    let mut lines = CommandLineBatch::new();
    let mut batch = new_command_batch();
    let mut answer = String::new();
    for line in commands {
        let command = stage_command(line.as_bytes(), &mut lines, &batch);
        push_command(&mut batch, command, false);
        match handle_command(&command, Some(&lines), &config, &mut stats, &mut state, 0) {
            CommandAction::Send { reply, .. } => {
                answer = String::from_utf8(reply.as_bytes().to_vec()).unwrap();
            }
            CommandAction::Lookup { .. } => panic!("there is no store"),
        }
    }
    answer
}

#[test]
fn listgroup_lists_exactly_the_range() {
    for (args, numbers) in [
        ("alt.test", "1\r\n2\r\n3\r\n"),
        ("alt.test 1", "1\r\n"),
        ("alt.test 2", "2\r\n"),
        ("alt.test 3", "3\r\n"),
        ("alt.test 1-1", "1\r\n"),
        ("alt.test 1-2", "1\r\n2\r\n"),
        ("alt.test 1-3", "1\r\n2\r\n3\r\n"),
        ("alt.test 1-9", "1\r\n2\r\n3\r\n"),
        ("alt.test 2-2", "2\r\n"),
        ("alt.test 2-", "2\r\n3\r\n"),
        ("alt.test 3-3", "3\r\n"),
        ("alt.test 3-", "3\r\n"),
        ("alt.test 4", ""),
        ("alt.test 4-", ""),
        ("alt.test 3-2", ""),
        ("2-3", "2\r\n3\r\n"),
        ("3", "3\r\n"),
    ] {
        let expected = format!("{GROUP_RESPONSE}{numbers}.\r\n");
        assert_eq!(listgroup_response_for_args(args.as_bytes(), None), expected, "{args}");
    }
    assert_eq!(listgroup_response_for_args(b"", None), LISTGROUP_RESPONSE);
    assert_eq!(listgroup_response_for_args(b"alt.test 2-3", None), LISTGROUP_2_3_RESPONSE);
    assert_eq!(listgroup_response_for_args(b"alt.test 5-6", None), LISTGROUP_EMPTY_RESPONSE);
    assert_eq!(
        listgroup_response_for_args(b"comp.lang.rust 1-2", None),
        LISTGROUP_COMP_RESPONSE
    );
    assert_eq!(
        listgroup_response_for_args(b"comp.lang.rust 2-", None),
        LISTGROUP_COMP_EMPTY_RESPONSE
    );
}

#[test]
fn group_name_with_a_hyphen_is_no_range() {
    assert_eq!(listgroup_response_for_args(b"no-such.group", None), NO_SUCH_GROUP_RESPONSE);
    assert_eq!(
        last_answer(&["GROUP alt.test\r\n", "LISTGROUP comp.lang.c-plus\r\n"]),
        NO_SUCH_GROUP_RESPONSE
    );
}

#[test]
fn ranges_select_articles_that_lie_in_them() {
    assert!(range_selects_articles(b"2-3", 3));
    assert!(range_selects_articles(b"0-1", 1));
    assert!(!range_selects_articles(b"0-0", 3));
    assert!(!range_selects_articles(b"4-", 3));
    assert!(!range_selects_articles(b"3-2", 3));
    assert!(!range_selects_articles(b"x", 3));
}

#[test]
fn overview_lists_exactly_the_rows_of_the_range() {
    for (args, expected) in [
        ("1", OVER_RESPONSE),
        ("1-1", OVER_RESPONSE),
        ("2", OVER_2_RESPONSE),
        ("2-", OVER_2_RESPONSE),
        ("2-3", OVER_2_RESPONSE),
        ("1-2", OVER_RANGE_RESPONSE),
        ("1-3", OVER_RANGE_RESPONSE),
        ("1-", OVER_RANGE_RESPONSE),
        ("3", OVER_EMPTY_RESPONSE),
        ("3-", OVER_EMPTY_RESPONSE),
        ("<one-two@example.com>", OVER_MESSAGE_ID_RESPONSE),
    ] {
        assert_eq!(over_response_for_args(args.as_bytes()), expected, "{args}");
        assert_eq!(xover_response_for_args(args.as_bytes()), expected, "{args}");
    }
    assert_eq!(xover_response_for_args(b"1-2"), XOVER_RESPONSE);
}

#[test]
fn headers_list_exactly_the_rows_of_the_range() {
    assert_eq!(hdr_response_for_args(b"Subject 1-1"), HDR_SUBJECT_1_RESPONSE);
    assert_eq!(hdr_response_for_args(b"Subject 1-1"), "225 headers follow\r\n1 example one\r\n.\r\n");
    assert_eq!(hdr_response_for_args(b"Subject 2-3"), HDR_SUBJECT_2_RESPONSE);
    assert_eq!(hdr_response_for_args(b"Subject 1-2"), HDR_RESPONSE);
    assert_eq!(hdr_response_for_args(b"Message-ID 1-"), HDR_MESSAGE_ID_RESPONSE);
    assert_eq!(hdr_response_for_args(b":bytes 1-1"), HDR_BYTES_1_RESPONSE);
    assert_eq!(hdr_response_for_args(b":lines 2-2"), HDR_LINES_2_RESPONSE);
    assert_eq!(hdr_response_for_args(b"Subject 3"), HDR_EMPTY_RESPONSE);
    assert_eq!(xhdr_response_for_args(b"Subject 1-1"), XHDR_SUBJECT_1_RESPONSE);
    assert_eq!(xhdr_response_for_args(b":lines 2-"), XHDR_LINES_2_RESPONSE);
    assert_eq!(xhdr_response_for_args(b"Subject 1-3"), XHDR_RESPONSE);
    assert_eq!(xhdr_response_for_args(b"Subject 3-"), XHDR_EMPTY_RESPONSE);
}

#[test]
fn message_id_with_a_hyphen_is_no_range() {
    let line = b"OVER <by-id@nntpbench.local>\r\n";
    let command = parse_command_line(line, 0);
    let mut lines = CommandLineBatch::new();
    lines.copy_line(0, line);
    let args = command_args(&command, Some(&lines)).unwrap();
    let state = SessionState::new();
    let named = command.message_id.is_some();
    assert_eq!(
        overview_selector_error(command.kind, args, command.article_id, named, &state),
        None
    );
    assert_eq!(last_answer(&["OVER <by-id@nntpbench.local>\r\n"]), OVER_MESSAGE_ID_RESPONSE);
    assert_eq!(
        last_answer(&["HDR Subject <by-id@nntpbench.local>\r\n"]),
        "225 headers follow\r\n0 example one\r\n.\r\n"
    );
    assert_eq!(
        last_answer(&["OVER <is-missing@nntpbench.local>\r\n"]),
        NO_ARTICLE_MESSAGE_ID_RESPONSE
    );
    assert_eq!(
        last_answer(&["GROUP alt.test\r\n", "OVER 4-5\r\n"]),
        NO_ARTICLES_IN_RANGE_RESPONSE
    );
}

#[test]
fn rows_stay_within_the_selected_group() {
    assert_eq!(last_answer(&["GROUP comp.lang.rust\r\n", "OVER 1-2\r\n"]), OVER_RESPONSE);
    assert_eq!(
        last_answer(&["GROUP comp.lang.rust\r\n", "HDR Subject 1-\r\n"]),
        HDR_SUBJECT_1_RESPONSE
    );
}

#[test]
fn current_article_without_a_row_has_none() {
    let to_third = ["GROUP alt.test\r\n", "NEXT\r\n", "NEXT\r\n"];
    let with = |line: &'static str| [to_third.as_slice(), &[line]].concat();
    assert_eq!(last_answer(&with("OVER\r\n")), OVER_EMPTY_RESPONSE);
    assert_eq!(last_answer(&with("XOVER\r\n")), OVER_EMPTY_RESPONSE);
    assert_eq!(last_answer(&with("HDR Subject\r\n")), HDR_EMPTY_RESPONSE);
    assert_eq!(last_answer(&["GROUP alt.test\r\n", "HDR subject\r\n"]), HDR_SUBJECT_1_RESPONSE);
}

#[test]
fn row_keeps_the_rest_of_a_longer_line() {
    let mut lines = CommandLineBatch::new();
    lines.copy_line(0, b"GROUP comp.lang.rust\r\n");
    lines.copy_line(0, b"GROUP alt.test\r\n");
    assert_eq!(lines.line_slice(0, 0, 16), b"GROUP alt.test\r\n");
    assert_eq!(lines.line_slice(0, 16, 6), b"rust\r\n");
    assert_eq!(lines.line_slice(0, 22, 2), [0; 2]);
    let command = parse_command_line(b"GROUP alt.test\r\n", 0);
    assert_eq!(command_args(&command, Some(&lines)), Some(b"alt.test\r\nrust".as_slice()));
    lines.copy_line(1, b"GROUP alt.test\r\n");
    let command = parse_command_line(b"GROUP alt.test\r\n", 1);
    assert_eq!(command_args(&command, Some(&lines)), Some(b"alt.test".as_slice()));
    assert_eq!(
        last_answer(&["GROUP comp.lang.rust\r\n", "GROUP alt.test\r\n"]),
        GROUP_RESPONSE
    );
}

#[test]
fn named_article_stays_named_in_a_used_row() {
    let mut lines = CommandLineBatch::new();
    lines.copy_line(0, b"GROUP comp.lang.rust\r\n");
    lines.copy_line(0, b"STAT 2\r\n");
    let command = parse_command_line(b"STAT 2\r\n", 0);
    assert_eq!(command.article_id, Some(2));
    assert_eq!(
        command_args(&command, Some(&lines)),
        Some(b"2\r\nmp.lang.rust".as_slice())
    );
}

#[test]
fn blanks_around_arguments_make_no_difference() {
    for line in ["GROUP\talt.test\r\n", "GROUP  alt.test\r\n", "GROUP alt.test \r\n"] {
        assert_eq!(last_answer(&[line]), GROUP_RESPONSE, "{line}");
    }
    assert_eq!(last_answer(&["GROUP alt.test\r\n", "OVER 1 \r\n"]), OVER_RESPONSE);
    assert_eq!(
        last_answer(&["GROUP alt.test\r\n", "HDR\tSubject  1-1\r\n"]),
        HDR_SUBJECT_1_RESPONSE
    );
    assert_eq!(last_answer(&["LISTGROUP alt.test\t2-3\r\n"]), LISTGROUP_2_3_RESPONSE);
    let answer = last_answer(&["GROUP alt.test\r\n", "STAT\t5\r\n"]);
    assert_eq!(answer, "423 no article with that number\r\n");
    assert_eq!(parse_command_line(b"STAT\t5\r\n", 0).kind, RequestKind::Stat);
}
