//! The small parts: waiting answers, dates, texts, patterns and paths.
use nntpbench::bytes::{
    bytes_equal, contains_byte, contains_subslice, decimal_bytes, equal_ignoring_case,
    field_first, field_second, has_prefix, has_suffix, index_from, only_digits, parse_number,
};
use nntpbench::commands::{
    command_args, is_known_command_line, parse_command_line, CommandLineBatch, ParsedMessageId,
};
use nntpbench::date::{
    civil_from_unix_days, date_response_for_unix_seconds, normalized_nntp_date_key, utc_year,
};
use nntpbench::groups::{
    fixture_group_from_name, listgroup_range_bounds, range_selects_articles, FixtureGroup,
};
use nntpbench::listing::{list_active_response, newgroups_response, newnews_response};
use nntpbench::overview::{hdr_field_is_supported, over_response_for_args};
use nntpbench::pending::{PendingWrite, WritePlan};
use nntpbench::process_stats::{process_cpu_ticks, process_rss_kib, ticks_since};
use nntpbench::responses::{
    DATE_RESPONSE, LIST_ACTIVE_ALT_RESPONSE, LIST_ACTIVE_COMP_RESPONSE, LIST_EMPTY_RESPONSE,
    LIST_RESPONSE, NEWGROUPS_EMPTY_RESPONSE, NEWGROUPS_RESPONSE, NEWNEWS_EMPTY_RESPONSE,
    NEWNEWS_RESPONSE, OVER_2_RESPONSE,
};
use nntpbench::store::{article_id_tree_path, hex_lower, message_id_tree_path, NameTooLong};
use nntpbench::text::{characters, parse_article_id_arg};
use nntpbench::transfer::{scan_body_chunk, BodyScan, TakeThisBodyState};
use nntpbench::wildmat::{wildmat_matches, wildmat_pattern_matches};
use nntpbench::{MessageId, RequestKind};

const PENDING_BYTES: usize = 800 * 1024;

/// What was written, and in how many writes.
#[derive(Default)]
struct Written {
    bytes: Vec<u8>,
    writes: usize,
    joint_writes: usize,
}

impl Written {
    fn perform(&mut self, plan: WritePlan, response: &[u8]) {
        match plan {
            WritePlan::Nothing => {}
            WritePlan::Waiting(waiting) => {
                self.bytes.extend_from_slice(&waiting);
                self.writes += 1;
            }
            WritePlan::WaitingAndResponse(waiting) => {
                self.bytes.extend_from_slice(&waiting);
                self.bytes.extend_from_slice(response);
                self.writes += 1;
                self.joint_writes += 1;
            }
            WritePlan::Response => {
                self.bytes.extend_from_slice(response);
                self.writes += 1;
            }
        }
    }
}

#[test]
fn pending_write_flushes_when_full_and_writes_oversized_directly() {
    let mut pending = PendingWrite::new(PENDING_BYTES);
    let first = vec![b'a'; PENDING_BYTES - 16];
    let second = vec![b'b'; 32];
    let mut written = Written::default();
    let plan = pending.push(&first);
    written.perform(plan, &first);
    assert_eq!(pending.waiting.len(), first.len());
    let plan = pending.push(&second);
    written.perform(plan, &second);
    assert_eq!(pending.waiting.len(), second.len());

    let huge = vec![b'c'; PENDING_BYTES + 1];
    let plan = pending.push(&huge);
    written.perform(plan, &huge);
    assert_eq!(pending.waiting.len(), 0);
    assert_eq!(written.bytes, [first, second, huge].concat());
}

#[test]
fn pending_write_handles_pending_writer() {
    let mut pending = PendingWrite::new(PENDING_BYTES);
    let mut written = Written::default();
    let plan = pending.push(b"CAPABILITIES\r\n");
    written.perform(plan, b"CAPABILITIES\r\n");
    let plan = pending.flush();
    written.perform(plan, b"");

    assert_eq!(pending.waiting.len(), 0);
    assert_eq!(written.bytes.len(), b"CAPABILITIES\r\n".len());
}

#[test]
fn pending_write_vectors_pending_prefix_with_large_response() {
    let mut pending = PendingWrite::new(PENDING_BYTES);
    let mut written = Written::default();
    let large = b"220 large response\r\nbody\r\n.\r\n";

    let plan = pending.push(DATE_RESPONSE.as_bytes());
    written.perform(plan, DATE_RESPONSE.as_bytes());
    let plan = pending.write_with_response(large);
    written.perform(plan, large);

    assert_eq!(pending.waiting.len(), 0);
    assert_eq!(written.joint_writes, 1);
    assert_eq!(written.writes, 1);
    assert_eq!(written.bytes, [DATE_RESPONSE.as_bytes(), large].concat());
}

#[test]
fn answers_of_any_size_stay_in_order() {
    let mut pending = PendingWrite::new(5000);
    let mut written = Written::default();
    let mut all = Vec::new();
    for (index, size) in [10, 4096, 4000, 5000, 1, 9000, 2, 0, 4097].into_iter().enumerate() {
        let response = vec![index as u8; size];
        all.extend_from_slice(&response);
        let plan = pending.write_response(&response);
        written.perform(plan, &response);
        assert!(pending.waiting.len() <= 5000);
    }
    let plan = pending.flush();
    written.perform(plan, b"");
    assert_eq!(written.bytes, all);
}

#[test]
fn dates_are_those_of_the_calendar() {
    let date = civil_from_unix_days(0);
    assert_eq!((date.year, date.month, date.day), (1970, 1, 1));
    let date = civil_from_unix_days(11_016);
    assert_eq!((date.year, date.month, date.day), (2000, 2, 29));
    let date = civil_from_unix_days(20_089);
    assert_eq!((date.year, date.month, date.day), (2025, 1, 1));
    assert_eq!(date_response_for_unix_seconds(0), b"111 19700101000000\r\n");
    assert_eq!(date_response_for_unix_seconds(1_735_689_599), b"111 20241231235959\r\n");
    assert_eq!(utc_year(1_735_689_599), 2024);
    assert_eq!(utc_year(1_735_689_600), 2025);
}

#[test]
fn date_keys_order_dates() {
    assert_eq!(normalized_nntp_date_key(b"20260102", 2026), Some(20_260_102));
    assert_eq!(normalized_nntp_date_key(b"000101", 2026), Some(20_000_101));
    assert_eq!(normalized_nntp_date_key(b"2026", 2026), None);
    assert_eq!(normalized_nntp_date_key(b"2026010x", 2026), None);
}

#[test]
fn bodies_end_at_their_dot_line_however_they_arrive() {
    let body = b"Header: value\r\n\r\n..dots\r\n.\r\nQUIT\r\n";
    let end = body.len() - b"QUIT\r\n".len();
    assert_eq!(scan_body_chunk(TakeThisBodyState::LineStart, body), BodyScan::Complete(end));
    for cut in 1..end {
        match scan_body_chunk(TakeThisBodyState::LineStart, &body[..cut]) {
            BodyScan::More(state) => {
                assert_eq!(scan_body_chunk(state, &body[cut..]), BodyScan::Complete(end - cut));
            }
            other => panic!("{other:?}"),
        }
    }
    assert_eq!(
        scan_body_chunk(TakeThisBodyState::LineStart, b"ab\ncd"),
        BodyScan::Malformed(3)
    );
    assert_eq!(
        scan_body_chunk(TakeThisBodyState::LineStart, b".\rx"),
        BodyScan::Malformed(3)
    );
}

#[test]
fn byte_searches_find_the_first_match() {
    assert_eq!(index_from(b"a,b,c", b',', 2), 3);
    assert_eq!(index_from(b"a,b", b';', 0), 3);
    assert!(contains_byte(b"abc", b'c'));
    assert!(!contains_byte(b"abc", b'd'));
    assert!(contains_subslice(b"one two", b"e t"));
    assert!(!contains_subslice(b"one two", b"et"));
    assert!(has_prefix(b"abc", b"ab") && !has_prefix(b"a", b"ab"));
    assert!(has_suffix(b"abc", b"bc") && !has_suffix(b"c", b"bc"));
    assert!(bytes_equal(b"ab", b"ab") && !bytes_equal(b"ab", b"aB"));
    assert!(equal_ignoring_case(b"Subject", b"sUBJECT"));
    assert!(!equal_ignoring_case(b"Subject", b"Subjects"));
    assert_eq!(field_first(b"one two three"), b"one");
    assert_eq!(field_second(b"one two three"), Some(b"two".as_slice()));
    assert_eq!(field_second(b"one"), None);
}

#[test]
fn numbers_are_read_and_written_in_decimal() {
    assert_eq!(parse_number(b"18446744073709551615"), Some(u64::MAX));
    assert_eq!(parse_number(b"18446744073709551616"), None);
    assert_eq!(parse_number(b"+7"), Some(7));
    assert_eq!(parse_number(b"007"), Some(7));
    assert_eq!(parse_number(b""), None);
    assert_eq!(parse_number(b"+"), None);
    assert_eq!(parse_number(b"-7"), None);
    assert_eq!(decimal_bytes(0), b"0");
    assert_eq!(decimal_bytes(u64::MAX), b"18446744073709551615");
    for value in [1, 9, 10, 99, 100, 12_345_678_901] {
        assert_eq!(parse_number(&decimal_bytes(value)), Some(value));
    }
    assert!(only_digits(b"0123") && !only_digits(b"01a"));
}

#[test]
fn article_numbers_in_arguments_are_trimmed() {
    assert_eq!(parse_article_id_arg(b"42"), Some(42));
    assert_eq!(parse_article_id_arg(b" 42\t"), Some(42));
    assert_eq!(parse_article_id_arg("\u{a0}42\u{3000}".as_bytes()), Some(42));
    assert_eq!(parse_article_id_arg(b"4 2"), None);
    assert_eq!(parse_article_id_arg(b"\xff42"), None);
    assert_eq!(parse_article_id_arg(b""), None);
    assert_eq!(characters("aé€"), vec!['a', 'é', '€']);
}

#[test]
fn wildmats_match_by_their_last_pattern() {
    assert!(wildmat_pattern_matches("comp.*", "comp.lang.rust"));
    assert!(wildmat_pattern_matches("alt.?est", "alt.test"));
    assert!(wildmat_pattern_matches("a?c", "aéc"));
    assert!(!wildmat_pattern_matches("alt.?", "alt.test"));
    assert!(wildmat_matches(b"*,!alt.*", b"comp.lang.rust"));
    assert!(!wildmat_matches(b"*,!alt.*", b"alt.test"));
    assert!(wildmat_matches(b"!alt.*,alt.test", b"alt.test"));
    assert!(!wildmat_matches(b"comp.*", b"alt.test"));
    assert!(!wildmat_matches(b"alt.\xff", b"alt.test"));
}

#[test]
fn listings_keep_to_the_wanted_groups_and_dates() {
    assert_eq!(list_active_response(b""), LIST_RESPONSE);
    assert_eq!(list_active_response(b"comp.*"), LIST_ACTIVE_COMP_RESPONSE);
    assert_eq!(list_active_response(b"alt.*"), LIST_ACTIVE_ALT_RESPONSE);
    assert_eq!(list_active_response(b"misc.*"), LIST_EMPTY_RESPONSE);
    assert_eq!(newgroups_response(b"20260101 000000 GMT", 2026), NEWGROUPS_RESPONSE);
    assert_eq!(newgroups_response(b"99991231 000000 GMT", 2026), NEWGROUPS_EMPTY_RESPONSE);
    assert_eq!(newnews_response(b"alt.* 20260101 000000", 2026), NEWNEWS_RESPONSE);
    assert_eq!(newnews_response(b"comp.* 20260101 000000", 2026), NEWNEWS_EMPTY_RESPONSE);
}

#[test]
fn groups_and_ranges_select_their_articles() {
    assert_eq!(fixture_group_from_name(b"alt.test"), Some(FixtureGroup::AltTest));
    assert_eq!(fixture_group_from_name(b"comp.lang.rust"), Some(FixtureGroup::CompLangRust));
    assert_eq!(fixture_group_from_name(b"misc.test"), None);
    assert_eq!(FixtureGroup::AltTest.article_count(), 3);
    assert_eq!(FixtureGroup::CompLangRust.article_count(), 1);
    assert_eq!(listgroup_range_bounds(b"2-3"), Some((2, Some(3))));
    assert_eq!(listgroup_range_bounds(b"2-"), Some((2, None)));
    assert_eq!(listgroup_range_bounds(b"2"), Some((2, Some(2))));
    assert!(range_selects_articles(b"2-9", 3));
    assert!(!range_selects_articles(b"4-9", 3));
    assert!(!range_selects_articles(b"3-2", 3));
    assert_eq!(over_response_for_args(b"2"), OVER_2_RESPONSE);
    assert!(hdr_field_is_supported(b":BYTES"));
    assert!(!hdr_field_is_supported(b"Xref"));
}

#[test]
fn command_lines_are_parsed_and_kept() {
    let line = b"ARTICLE <a@b>\r\n";
    let command = parse_command_line(line, 3);
    assert_eq!(command.kind, RequestKind::Article);
    assert_eq!(command.line_slot, 3);
    assert_eq!(command.article_id, None);
    assert_eq!(command.message_id, Some(ParsedMessageId { start: 8, len: 5 }));
    assert!(!command.syntax_error && !command.line_too_long && !command.has_transfer_body);

    let mut lines = CommandLineBatch::new();
    lines.copy_line(3, line);
    assert_eq!(lines.line_slice(3, 8, 5), b"<a@b>");
    assert_eq!(command_args(&command, Some(&lines)), Some(b"<a@b>".as_slice()));
    assert_eq!(command_args(&command, None), None);

    let wrong = parse_command_line(b"DATE now\r\n", 0);
    assert_eq!(wrong.kind, RequestKind::Unknown);
    assert!(wrong.syntax_error);
    let unknown = parse_command_line(b"FROB\r\n", 0);
    assert!(!unknown.syntax_error);
    assert!(is_known_command_line(b"xhdr Subject\r\n"));
    assert!(!is_known_command_line(b"FROB\r\n"));
}

#[test]
fn stored_articles_have_paths_of_their_own() {
    assert_eq!(article_id_tree_path(2), vec!["000", "000", "2"]);
    assert_eq!(article_id_tree_path(12_345_678), vec!["012", "345", "12345678"]);
    assert_eq!(
        article_id_tree_path(u64::MAX),
        vec!["18446744073709", "551", "18446744073709551615"]
    );
    let id = MessageId::from_borrowed("<a@b>").unwrap();
    assert_eq!(message_id_tree_path(&id).unwrap(), vec!["msgid", "3c", "3c6140623e"]);
    assert_eq!(hex_lower(b"\x00\xff"), b"00ff");

    let longest = MessageId::from_shared(format!("<{}@b>", "a".repeat(508))).unwrap();
    assert_eq!(message_id_tree_path(&longest).unwrap()[2].len(), 1024);
    let longer = MessageId::from_shared(format!("<{}@b>", "a".repeat(509))).unwrap();
    assert_eq!(message_id_tree_path(&longer).unwrap_err(), NameTooLong);
}

#[test]
fn process_files_give_ticks_and_memory() {
    let stat = b"7 (a name) with) R 1 2 3 4 5 6 7 8 9 10 11 30 12 0 0\n";
    assert_eq!(process_cpu_ticks(stat), Some(11 + 30));
    assert_eq!(process_cpu_ticks(b"no name"), None);
    assert_eq!(ticks_since(Some(10), Some(25)), 15);
    assert_eq!(ticks_since(None, Some(25)), 0);
    assert_eq!(ticks_since(Some(30), Some(25)), 0);
    assert_eq!(process_rss_kib(b"Name:\tx\nVmRSS:\t  100 kB\n"), 100);
    assert_eq!(process_rss_kib(b"VmHWM:\t 250 kB\nVmRSS:\t 100 kB\n"), 250);
    assert_eq!(process_rss_kib(b"Name:\tx\n"), 0);
}

#[test]
fn later_seconds_have_later_date_answers() {
    let moments = [0, 59, 60, 3_599, 3_600, 86_399, 86_400, 1_780_000_000, 253_402_300_799];
    for pair in moments.windows(2) {
        let first = date_response_for_unix_seconds(pair[0]);
        let second = date_response_for_unix_seconds(pair[1]);
        assert!(first.as_slice() < second.as_slice(), "{pair:?}");
    }
    let last = date_response_for_unix_seconds(253_402_300_799);
    assert_eq!(last.as_slice(), b"111 99991231235959\r\n");
}

#[test]
fn bodies_end_by_their_lines() {
    let scan = |body: &[u8]| scan_body_chunk(TakeThisBodyState::LineStart, body);
    assert_eq!(scan(b".\r\nmore"), BodyScan::Complete(3));
    assert_eq!(scan(b"\r\n.\r\n"), BodyScan::Complete(5));
    assert_eq!(scan(b"a\r\n..\r\n.\r\n"), BodyScan::Complete(10));
    assert!(matches!(scan(b"a\nb"), BodyScan::Malformed(_)));
    assert!(matches!(scan(b"a\r\n.\rb"), BodyScan::Malformed(_)));
    assert!(matches!(scan(b"a\r\n.\n"), BodyScan::Malformed(_)));
    assert!(matches!(scan(b"a\r\nopen"), BodyScan::More(_)));
    assert!(matches!(scan(b"a\r\n.\r"), BodyScan::More(_)));
    assert!(matches!(scan(b""), BodyScan::More(_)));
    let body = b"one\r\n.two\r\n\r\n.\r\n";
    for first in 0..body.len() {
        for second in first..body.len() {
            let mut state = TakeThisBodyState::LineStart;
            for read in [&body[..first], &body[first..second]] {
                match scan_body_chunk(state, read) {
                    BodyScan::More(next) => state = next,
                    other => panic!("{other:?}"),
                }
            }
            let rest = &body[second..];
            assert_eq!(scan_body_chunk(state, rest), BodyScan::Complete(rest.len()));
        }
    }
}
