//! Answers to `LIST`, `NEWGROUPS` and `NEWNEWS`.
use crate::bytes;
use crate::bytes::{field_first, field_second, matches_word};
use crate::date;
use crate::date::{normalized_nntp_date_key, FAR_FUTURE_DATE_KEY};
use crate::request_line;
use crate::request_line::{find_blank, find_word, RequestKind};
use crate::responses::{
    LIST_ACTIVE_ALT_RESPONSE, LIST_ACTIVE_COMP_RESPONSE, LIST_ACTIVE_TIMES_ALT_RESPONSE,
    LIST_ACTIVE_TIMES_COMP_RESPONSE, LIST_ACTIVE_TIMES_RESPONSE, LIST_EMPTY_RESPONSE,
    LIST_INFO_EMPTY_RESPONSE, LIST_NEWSGROUPS_ALT_RESPONSE, LIST_NEWSGROUPS_COMP_RESPONSE,
    LIST_NEWSGROUPS_RESPONSE, LIST_RESPONSE, NEWGROUPS_EMPTY_RESPONSE, NEWGROUPS_RESPONSE,
    NEWNEWS_EMPTY_RESPONSE, NEWNEWS_RESPONSE,
};
use crate::wildmat;
use crate::wildmat::wildmat_matches;
use vstd::prelude::*;
use vstd::string::StringSliceAdditionalSpecFns;

verus! {

/// The names of the two groups that the server has.
pub const COMP_GROUP: &'static str = "comp.lang.rust";

pub const ALT_GROUP: &'static str = "alt.test";

/// A wildmat selects a group; none selects every group.
pub open spec fn selects(patterns: Seq<u8>, group: &str) -> bool {
    patterns.len() == 0 || wildmat::wildmat_covers(patterns, group.spec_bytes())
}

/// One of four texts, by which of the two groups a wildmat selects.
pub open spec fn by_groups(
    patterns: Seq<u8>,
    both: &'static str,
    comp: &'static str,
    alt: &'static str,
    neither: &'static str,
) -> &'static str {
    if selects(patterns, COMP_GROUP) {
        if selects(patterns, ALT_GROUP) {
            both
        } else {
            comp
        }
    } else if selects(patterns, ALT_GROUP) {
        alt
    } else {
        neither
    }
}

fn choose_by_groups(
    patterns: &[u8],
    both: &'static str,
    comp: &'static str,
    alt: &'static str,
    neither: &'static str,
) -> (text: &'static str)
    ensures
        text == by_groups(patterns@, both, comp, alt, neither),
{
    let matches_comp: bool = patterns.len() == 0 || wildmat_matches(
        patterns,
        COMP_GROUP.as_bytes(),
    );
    let matches_alt: bool = patterns.len() == 0 || wildmat_matches(patterns, ALT_GROUP.as_bytes());
    if matches_comp {
        if matches_alt {
            both
        } else {
            comp
        }
    } else if matches_alt {
        alt
    } else {
        neither
    }
}

pub open spec fn list_active_text(patterns: Seq<u8>) -> &'static str {
    by_groups(
        patterns,
        LIST_RESPONSE,
        LIST_ACTIVE_COMP_RESPONSE,
        LIST_ACTIVE_ALT_RESPONSE,
        LIST_EMPTY_RESPONSE,
    )
}

pub open spec fn list_active_times_text(patterns: Seq<u8>) -> &'static str {
    by_groups(
        patterns,
        LIST_ACTIVE_TIMES_RESPONSE,
        LIST_ACTIVE_TIMES_COMP_RESPONSE,
        LIST_ACTIVE_TIMES_ALT_RESPONSE,
        LIST_INFO_EMPTY_RESPONSE,
    )
}

pub open spec fn list_newsgroups_text(patterns: Seq<u8>) -> &'static str {
    by_groups(
        patterns,
        LIST_NEWSGROUPS_RESPONSE,
        LIST_NEWSGROUPS_COMP_RESPONSE,
        LIST_NEWSGROUPS_ALT_RESPONSE,
        LIST_INFO_EMPTY_RESPONSE,
    )
}

pub fn list_active_response(args: &[u8]) -> (text: &'static str)
    ensures
        text == list_active_text(args@),
{
    choose_by_groups(
        args,
        LIST_RESPONSE,
        LIST_ACTIVE_COMP_RESPONSE,
        LIST_ACTIVE_ALT_RESPONSE,
        LIST_EMPTY_RESPONSE,
    )
}

pub fn list_active_times_response(args: &[u8]) -> (text: &'static str)
    ensures
        text == list_active_times_text(args@),
{
    choose_by_groups(
        args,
        LIST_ACTIVE_TIMES_RESPONSE,
        LIST_ACTIVE_TIMES_COMP_RESPONSE,
        LIST_ACTIVE_TIMES_ALT_RESPONSE,
        LIST_INFO_EMPTY_RESPONSE,
    )
}

pub fn list_newsgroups_response(args: &[u8]) -> (text: &'static str)
    ensures
        text == list_newsgroups_text(args@),
{
    choose_by_groups(
        args,
        LIST_NEWSGROUPS_RESPONSE,
        LIST_NEWSGROUPS_COMP_RESPONSE,
        LIST_NEWSGROUPS_ALT_RESPONSE,
        LIST_INFO_EMPTY_RESPONSE,
    )
}

/// The arguments of `LIST` behind a keyword; the arguments themselves where they do not start with
/// it.
pub open spec fn behind_keyword(args: Seq<u8>, keyword: &str) -> Seq<u8> {
    let end = request_line::blank_from(args, 0);
    if bytes::is_word(args.subrange(0, end), keyword) {
        args.subrange(request_line::word_from(args, end), args.len() as int)
    } else {
        args
    }
}

/// The wildmat among the arguments of a `LIST` command.
pub open spec fn list_wildmat(kind: RequestKind, args: Seq<u8>) -> Seq<u8> {
    match kind {
        RequestKind::ListActive => behind_keyword(args, "ACTIVE"),
        RequestKind::ListActiveTimes => behind_keyword(args, "ACTIVE.TIMES"),
        RequestKind::ListNewsgroups => behind_keyword(args, "NEWSGROUPS"),
        _ => args,
    }
}

fn strip_list_variant_args<'a>(args: &'a [u8], keyword: &str) -> (rest: &'a [u8])
    ensures
        rest@ == behind_keyword(args@, keyword),
{
    let end: usize = find_blank(args, 0);
    if matches_word(&args[0..end], keyword) {
        let start: usize = find_word(args, end);
        &args[start..args.len()]
    } else {
        args
    }
}

pub fn list_variant_wildmat_args(kind: RequestKind, args: &[u8]) -> (rest: &[u8])
    ensures
        rest@ == list_wildmat(kind, args@),
{
    match kind {
        RequestKind::ListActive => strip_list_variant_args(args, "ACTIVE"),
        RequestKind::ListActiveTimes => strip_list_variant_args(args, "ACTIVE.TIMES"),
        RequestKind::ListNewsgroups => strip_list_variant_args(args, "NEWSGROUPS"),
        _ => args,
    }
}

/// The date is the last of the calendar or beyond it.
pub open spec fn is_far_future(key: Option<u32>) -> bool {
    match key {
        Some(date) => date >= FAR_FUTURE_DATE_KEY,
        None => false,
    }
}

/// The answer to `NEWGROUPS`: both groups, unless the date is in the far future.
pub open spec fn newgroups_text(args: Seq<u8>, year: int) -> &'static str {
    if is_far_future(date::date_key(bytes::first_field(args), year)) {
        NEWGROUPS_EMPTY_RESPONSE
    } else {
        NEWGROUPS_RESPONSE
    }
}

/// The number of the date among the arguments of `NEWNEWS`.
pub open spec fn newnews_key(args: Seq<u8>, year: int) -> Option<u32> {
    match bytes::second_field(args) {
        Some(field) => date::date_key(field, year),
        None => None,
    }
}

/// The answer to `NEWNEWS`: the articles of `alt.test`, where the wildmat selects that group and
/// the date is not in the far future.
pub open spec fn newnews_text(args: Seq<u8>, year: int) -> &'static str {
    if is_far_future(newnews_key(args, year)) {
        NEWNEWS_EMPTY_RESPONSE
    } else if selects(bytes::first_field(args), ALT_GROUP) {
        NEWNEWS_RESPONSE
    } else {
        NEWNEWS_EMPTY_RESPONSE
    }
}

pub fn newgroups_date_key(args: &[u8], current_year: u16) -> (key: Option<u32>)
    ensures
        key == date::date_key(bytes::first_field(args@), current_year as int),
{
    normalized_nntp_date_key(field_first(args), current_year)
}

pub fn newnews_date_key(args: &[u8], current_year: u16) -> (key: Option<u32>)
    ensures
        key == newnews_key(args@, current_year as int),
{
    match field_second(args) {
        Some(field) => normalized_nntp_date_key(field, current_year),
        None => None,
    }
}

fn far_future(key: Option<u32>) -> (far: bool)
    ensures
        far == is_far_future(key),
{
    match key {
        Some(date) => date >= FAR_FUTURE_DATE_KEY,
        None => false,
    }
}

pub fn newgroups_response(args: &[u8], current_year: u16) -> (text: &'static str)
    ensures
        text == newgroups_text(args@, current_year as int),
{
    if far_future(newgroups_date_key(args, current_year)) {
        NEWGROUPS_EMPTY_RESPONSE
    } else {
        NEWGROUPS_RESPONSE
    }
}

pub fn newnews_response(args: &[u8], current_year: u16) -> (text: &'static str)
    ensures
        text == newnews_text(args@, current_year as int),
{
    if far_future(newnews_date_key(args, current_year)) {
        return NEWNEWS_EMPTY_RESPONSE;
    }
    let wildmat: &[u8] = field_first(args);
    if wildmat.len() == 0 || wildmat_matches(wildmat, ALT_GROUP.as_bytes()) {
        NEWNEWS_RESPONSE
    } else {
        NEWNEWS_EMPTY_RESPONSE
    }
}

/// The wildmat selects the group, or there is no wildmat.
pub open spec fn is_wanted(patterns: Seq<u8>, group: &str) -> bool {
    patterns.len() > 0 ==> wildmat::wildmat_covers(patterns, group.spec_bytes())
}

/// The row of a group where the group is wanted, and nothing where it is not.
pub open spec fn row_for(patterns: Seq<u8>, group: &str, row: &str) -> Seq<u8> {
    if is_wanted(patterns, group) {
        row.spec_bytes()
    } else {
        Seq::empty()
    }
}

/// `LIST ACTIVE` answers with the row of each group that the wildmat selects, and with no other row;
/// without a wildmat it answers with the rows of all groups.
#[verifier::rlimit(30)]
pub proof fn law_list_active_lists_the_selected_groups(patterns: Seq<u8>)
    ensures
        list_active_text(patterns).spec_bytes() == "215 list of newsgroups follows\r\n".spec_bytes()
            + row_for(patterns, "comp.lang.rust", "comp.lang.rust 0000000001 0000000001 y\r\n")
            + row_for(patterns, "alt.test", "alt.test 0000000003 0000000001 y\r\n")
            + ".\r\n".spec_bytes(),
{
    let head = "215 list of newsgroups follows\r\n".spec_bytes();
    let comp = "comp.lang.rust 0000000001 0000000001 y\r\n".spec_bytes();
    let alt = "alt.test 0000000003 0000000001 y\r\n".spec_bytes();
    let dot = ".\r\n".spec_bytes();
    reveal_strlit("215 list of newsgroups follows\r\n");
    reveal_strlit("comp.lang.rust 0000000001 0000000001 y\r\n");
    reveal_strlit("alt.test 0000000003 0000000001 y\r\n");
    reveal_strlit(".\r\n");
    assert("215 list of newsgroups follows\r\n".is_ascii());
    assert("comp.lang.rust 0000000001 0000000001 y\r\n".is_ascii());
    assert("alt.test 0000000003 0000000001 y\r\n".is_ascii());
    assert(".\r\n".is_ascii());
    let none = Seq::<u8>::empty();
    assert(LIST_RESPONSE.spec_bytes() =~= head + comp + alt + dot) by {
        reveal_strlit("215 list of newsgroups follows\r\ncomp.lang.rust 0000000001 0000000001 y\r\nalt.test 0000000003 0000000001 y\r\n.\r\n");
        assert(LIST_RESPONSE.is_ascii());
    }
    assert(LIST_ACTIVE_COMP_RESPONSE.spec_bytes() =~= head + comp + none + dot) by {
        reveal_strlit("215 list of newsgroups follows\r\ncomp.lang.rust 0000000001 0000000001 y\r\n.\r\n");
        assert(LIST_ACTIVE_COMP_RESPONSE.is_ascii());
    }
    assert(LIST_ACTIVE_ALT_RESPONSE.spec_bytes() =~= head + none + alt + dot) by {
        reveal_strlit("215 list of newsgroups follows\r\nalt.test 0000000003 0000000001 y\r\n.\r\n");
        assert(LIST_ACTIVE_ALT_RESPONSE.is_ascii());
    }
    assert(LIST_EMPTY_RESPONSE.spec_bytes() =~= head + none + none + dot) by {
        reveal_strlit("215 list of newsgroups follows\r\n.\r\n");
        assert(LIST_EMPTY_RESPONSE.is_ascii());
    }
}

/// `LIST ACTIVE.TIMES` answers with the row of each group that the wildmat selects, and with no other row;
/// without a wildmat it answers with the rows of all groups.
#[verifier::rlimit(30)]
pub proof fn law_list_active_times_lists_the_selected_groups(patterns: Seq<u8>)
    ensures
        list_active_times_text(patterns).spec_bytes() == "215 information follows\r\n".spec_bytes()
            + row_for(patterns, "comp.lang.rust", "comp.lang.rust 1715904000 admin@nntpbench.local\r\n")
            + row_for(patterns, "alt.test", "alt.test 1715907600 admin@nntpbench.local\r\n")
            + ".\r\n".spec_bytes(),
{
    let head = "215 information follows\r\n".spec_bytes();
    let comp = "comp.lang.rust 1715904000 admin@nntpbench.local\r\n".spec_bytes();
    let alt = "alt.test 1715907600 admin@nntpbench.local\r\n".spec_bytes();
    let dot = ".\r\n".spec_bytes();
    reveal_strlit("215 information follows\r\n");
    reveal_strlit("comp.lang.rust 1715904000 admin@nntpbench.local\r\n");
    reveal_strlit("alt.test 1715907600 admin@nntpbench.local\r\n");
    reveal_strlit(".\r\n");
    assert("215 information follows\r\n".is_ascii());
    assert("comp.lang.rust 1715904000 admin@nntpbench.local\r\n".is_ascii());
    assert("alt.test 1715907600 admin@nntpbench.local\r\n".is_ascii());
    assert(".\r\n".is_ascii());
    let none = Seq::<u8>::empty();
    assert(LIST_ACTIVE_TIMES_RESPONSE.spec_bytes() =~= head + comp + alt + dot) by {
        reveal_strlit("215 information follows\r\ncomp.lang.rust 1715904000 admin@nntpbench.local\r\nalt.test 1715907600 admin@nntpbench.local\r\n.\r\n");
        assert(LIST_ACTIVE_TIMES_RESPONSE.is_ascii());
    }
    assert(LIST_ACTIVE_TIMES_COMP_RESPONSE.spec_bytes() =~= head + comp + none + dot) by {
        reveal_strlit("215 information follows\r\ncomp.lang.rust 1715904000 admin@nntpbench.local\r\n.\r\n");
        assert(LIST_ACTIVE_TIMES_COMP_RESPONSE.is_ascii());
    }
    assert(LIST_ACTIVE_TIMES_ALT_RESPONSE.spec_bytes() =~= head + none + alt + dot) by {
        reveal_strlit("215 information follows\r\nalt.test 1715907600 admin@nntpbench.local\r\n.\r\n");
        assert(LIST_ACTIVE_TIMES_ALT_RESPONSE.is_ascii());
    }
    assert(LIST_INFO_EMPTY_RESPONSE.spec_bytes() =~= head + none + none + dot) by {
        reveal_strlit("215 information follows\r\n.\r\n");
        assert(LIST_INFO_EMPTY_RESPONSE.is_ascii());
    }
}

/// `LIST NEWSGROUPS` answers with the row of each group that the wildmat selects, and with no other row;
/// without a wildmat it answers with the rows of all groups.
#[verifier::rlimit(30)]
pub proof fn law_list_newsgroups_lists_the_selected_groups(patterns: Seq<u8>)
    ensures
        list_newsgroups_text(patterns).spec_bytes() == "215 information follows\r\n".spec_bytes()
            + row_for(patterns, "comp.lang.rust", "comp.lang.rust The Rust programming language\r\n")
            + row_for(patterns, "alt.test", "alt.test Synthetic benchmark group\r\n")
            + ".\r\n".spec_bytes(),
{
    let head = "215 information follows\r\n".spec_bytes();
    let comp = "comp.lang.rust The Rust programming language\r\n".spec_bytes();
    let alt = "alt.test Synthetic benchmark group\r\n".spec_bytes();
    let dot = ".\r\n".spec_bytes();
    reveal_strlit("215 information follows\r\n");
    reveal_strlit("comp.lang.rust The Rust programming language\r\n");
    reveal_strlit("alt.test Synthetic benchmark group\r\n");
    reveal_strlit(".\r\n");
    assert("215 information follows\r\n".is_ascii());
    assert("comp.lang.rust The Rust programming language\r\n".is_ascii());
    assert("alt.test Synthetic benchmark group\r\n".is_ascii());
    assert(".\r\n".is_ascii());
    let none = Seq::<u8>::empty();
    assert(LIST_NEWSGROUPS_RESPONSE.spec_bytes() =~= head + comp + alt + dot) by {
        reveal_strlit("215 information follows\r\ncomp.lang.rust The Rust programming language\r\nalt.test Synthetic benchmark group\r\n.\r\n");
        assert(LIST_NEWSGROUPS_RESPONSE.is_ascii());
    }
    assert(LIST_NEWSGROUPS_COMP_RESPONSE.spec_bytes() =~= head + comp + none + dot) by {
        reveal_strlit("215 information follows\r\ncomp.lang.rust The Rust programming language\r\n.\r\n");
        assert(LIST_NEWSGROUPS_COMP_RESPONSE.is_ascii());
    }
    assert(LIST_NEWSGROUPS_ALT_RESPONSE.spec_bytes() =~= head + none + alt + dot) by {
        reveal_strlit("215 information follows\r\nalt.test Synthetic benchmark group\r\n.\r\n");
        assert(LIST_NEWSGROUPS_ALT_RESPONSE.is_ascii());
    }
    assert(LIST_INFO_EMPTY_RESPONSE.spec_bytes() =~= head + none + none + dot) by {
        reveal_strlit("215 information follows\r\n.\r\n");
        assert(LIST_INFO_EMPTY_RESPONSE.is_ascii());
    }
}

/// `NEWGROUPS` answers with the rows of `LIST ACTIVE`, from the last day of the calendar on with
/// none. The date is the first of its words.
#[verifier::rlimit(30)]
pub proof fn law_newgroups_goes_by_the_date(date: Seq<u8>, rest: Seq<u8>, year: int)
    requires
        forall|i: int|
            0 <= i < date.len() ==> #[trigger] date[i] != bytes::SPACE && date[i] != bytes::TAB,
    ensures
        newgroups_text(date + seq![bytes::SPACE] + rest, year).spec_bytes()
            == "231 list of new newsgroups follows\r\n".spec_bytes() + (if date::date_key(
            date,
            year,
        ) matches Some(key) && key >= 99_991_231 {
            Seq::empty()
        } else {
            "comp.lang.rust 0000000001 0000000001 y\r\nalt.test 0000000003 0000000001 y\r\n".spec_bytes()
        }) + ".\r\n".spec_bytes(),
{
    lemma_first_word(date, rest);
    reveal_strlit("231 list of new newsgroups follows\r\n");
    reveal_strlit("comp.lang.rust 0000000001 0000000001 y\r\nalt.test 0000000003 0000000001 y\r\n");
    reveal_strlit(".\r\n");
    reveal_strlit("231 list of new newsgroups follows\r\ncomp.lang.rust 0000000001 0000000001 y\r\nalt.test 0000000003 0000000001 y\r\n.\r\n");
    reveal_strlit("231 list of new newsgroups follows\r\n.\r\n");
    assert("231 list of new newsgroups follows\r\n".is_ascii());
    assert("comp.lang.rust 0000000001 0000000001 y\r\nalt.test 0000000003 0000000001 y\r\n".is_ascii());
    assert(".\r\n".is_ascii());
    assert(NEWGROUPS_RESPONSE.is_ascii() && NEWGROUPS_EMPTY_RESPONSE.is_ascii());
    let head = "231 list of new newsgroups follows\r\n".spec_bytes();
    let dot = ".\r\n".spec_bytes();
    assert(NEWGROUPS_RESPONSE.spec_bytes() =~= head
        + "comp.lang.rust 0000000001 0000000001 y\r\nalt.test 0000000003 0000000001 y\r\n".spec_bytes() + dot);
    assert(NEWGROUPS_EMPTY_RESPONSE.spec_bytes() =~= head + Seq::<u8>::empty() + dot);
}

/// A word with a blank behind it is the first field.
proof fn lemma_first_word(word: Seq<u8>, rest: Seq<u8>)
    requires
        forall|i: int|
            0 <= i < word.len() ==> #[trigger] word[i] != bytes::SPACE && word[i] != bytes::TAB,
    ensures
        bytes::first_field(word + seq![bytes::SPACE] + rest) == word,
        request_line::blank_from(word + seq![bytes::SPACE] + rest, 0) == word.len(),
{
    let text = word + seq![bytes::SPACE] + rest;
    let at = word.len() as int;
    assert forall|j: int| 0 <= j < at implies !request_line::is_blank(#[trigger] text[j]) by {
        assert(text[j] == word[j]);
    }
    assert(text[at] == bytes::SPACE);
    request_line::lemma_blank_from_is(text, 0, at);
    assert(text.subrange(0, at) =~= word);
}

/// `NEWNEWS` answers with the articles of `alt.test` where its first word selects that group, from
/// the last day of the calendar on with none. The date is the second of its words.
pub proof fn law_newnews_goes_by_the_wildmat_and_the_date(
    patterns: Seq<u8>,
    date: Seq<u8>,
    year: int,
)
    requires
        date.len() > 0,
        forall|i: int|
            0 <= i < patterns.len() ==> #[trigger] patterns[i] != bytes::SPACE && patterns[i]
                != bytes::TAB,
        forall|i: int|
            0 <= i < date.len() ==> #[trigger] date[i] != bytes::SPACE && date[i] != bytes::TAB,
    ensures
        newnews_text(patterns + seq![bytes::SPACE] + date, year).spec_bytes()
            == "230 list of new articles follows\r\n".spec_bytes() + (if is_wanted(
            patterns,
            "alt.test",
        ) && !(date::date_key(date, year) matches Some(key) && key >= 99_991_231) {
            "<one@alt.test>\r\n<two@alt.test>\r\n".spec_bytes()
        } else {
            Seq::empty()
        }) + ".\r\n".spec_bytes(),
{
    bytes::law_fields_of_two_words(patterns, bytes::SPACE, date);
    reveal_strlit("230 list of new articles follows\r\n");
    reveal_strlit("<one@alt.test>\r\n<two@alt.test>\r\n");
    reveal_strlit(".\r\n");
    reveal_strlit("230 list of new articles follows\r\n<one@alt.test>\r\n<two@alt.test>\r\n.\r\n");
    reveal_strlit("230 list of new articles follows\r\n.\r\n");
    assert("230 list of new articles follows\r\n".is_ascii());
    assert("<one@alt.test>\r\n<two@alt.test>\r\n".is_ascii());
    assert(".\r\n".is_ascii());
    assert(NEWNEWS_RESPONSE.is_ascii() && NEWNEWS_EMPTY_RESPONSE.is_ascii());
    let head = "230 list of new articles follows\r\n".spec_bytes();
    let dot = ".\r\n".spec_bytes();
    assert(NEWNEWS_RESPONSE.spec_bytes() =~= head
        + "<one@alt.test>\r\n<two@alt.test>\r\n".spec_bytes() + dot);
    assert(NEWNEWS_EMPTY_RESPONSE.spec_bytes() =~= head + Seq::<u8>::empty() + dot);
}

/// The wildmat of a `LIST` command is what stands behind its keyword, in whichever case that is
/// written; behind nothing but the keyword there is none.
pub proof fn law_wildmat_stands_behind_the_keyword(
    kind: RequestKind,
    keyword: Seq<u8>,
    patterns: Seq<u8>,
)
    requires
        kind == RequestKind::ListActive ==> bytes::same_letters(keyword, "ACTIVE".spec_bytes()),
        kind == RequestKind::ListActiveTimes ==> bytes::same_letters(
            keyword,
            "ACTIVE.TIMES".spec_bytes(),
        ),
        kind == RequestKind::ListNewsgroups ==> bytes::same_letters(
            keyword,
            "NEWSGROUPS".spec_bytes(),
        ),
        kind == RequestKind::ListActive || kind == RequestKind::ListActiveTimes || kind
            == RequestKind::ListNewsgroups,
        patterns.len() > 0,
        patterns[0] != bytes::SPACE && patterns[0] != bytes::TAB,
    ensures
        list_wildmat(kind, keyword + seq![bytes::SPACE] + patterns) == patterns,
        list_wildmat(kind, keyword) == Seq::<u8>::empty(),
{
    reveal_strlit("ACTIVE");
    reveal_strlit("ACTIVE.TIMES");
    reveal_strlit("NEWSGROUPS");
    assert("ACTIVE".is_ascii() && "ACTIVE.TIMES".is_ascii() && "NEWSGROUPS".is_ascii());
    let word = match kind {
        RequestKind::ListActive => "ACTIVE".spec_bytes(),
        RequestKind::ListActiveTimes => "ACTIVE.TIMES".spec_bytes(),
        _ => "NEWSGROUPS".spec_bytes(),
    };
    assert forall|i: int| 0 <= i < keyword.len() implies #[trigger] keyword[i] != bytes::SPACE
        && keyword[i] != bytes::TAB by {
        assert(bytes::lower(keyword[i]) == bytes::lower(word[i]));
    }
    let args = keyword + seq![bytes::SPACE] + patterns;
    let end = keyword.len() as int;
    lemma_first_word(keyword, patterns);
    request_line::lemma_word_from(args, end);
    let start = request_line::word_from(args, end);
    assert(args[end + 1] == patterns[0]);
    if start > end + 1 {
        assert(request_line::is_blank(args[end + 1]));
    }
    assert(args[end] == bytes::SPACE);
    assert(start == end + 1);
    assert(args.subrange(start, args.len() as int) =~= patterns);
    request_line::lemma_blank_from_is(keyword, 0, end);
    assert(keyword.subrange(0, end) =~= keyword);
    request_line::lemma_word_from(keyword, end);
    assert(keyword.subrange(end, end) =~= Seq::<u8>::empty());
}

} // verus!
