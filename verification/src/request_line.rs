//! Command lines: which command a line asks for, and with which arguments.
use crate::bytes;
use crate::bytes::{matches_word, SPACE, TAB};
use crate::message_id::MessageId;
use crate::terminator;
use crate::terminator::{strip_complete_crlf_line, strip_line_end};
use crate::values;
use crate::values::{
    check_article_number, check_article_range, check_article_selector, check_auth_value,
    check_group_name, check_header_name, check_keyword, check_looks_like_range, check_message_id,
    check_nntp_date, check_nntp_time, check_sasl_mechanism, check_sasl_response, check_wildmat,
};
use vstd::prelude::*;
use vstd::string::StringSliceAdditionalSpecFns;

verus! {

/// The commands of the protocol. A line that is none of them, or one with wrong arguments, is
/// `Unknown`.
#[derive(Debug, Clone, Copy, PartialEq, Eq, Structural)]
pub enum RequestKind {
    Article,
    Head,
    Stat,
    Body,
    List,
    ListActive,
    ListActiveTimes,
    ListNewsgroups,
    ListOverviewFmt,
    ListHeaders,
    ListDistribPats,
    Group,
    ListGroup,
    Last,
    Next,
    NewGroups,
    NewNews,
    Post,
    Ihave,
    Check,
    TakeThis,
    AuthInfoUser,
    AuthInfoPass,
    AuthInfo,
    StartTls,
    Over,
    Xover,
    Hdr,
    Xhdr,
    Capabilities,
    Help,
    Date,
    ModeReader,
    Quit,
    Unknown,
}

pub open spec fn is_blank(byte: u8) -> bool {
    byte == SPACE || byte == TAB
}

/// The index of the first blank at or after `from`, or the length.
pub open spec fn blank_from(text: Seq<u8>, from: int) -> int
    decreases text.len() - from,
{
    if from < 0 || from >= text.len() {
        text.len() as int
    } else if is_blank(text[from]) {
        from
    } else {
        blank_from(text, from + 1)
    }
}

/// The index of the first byte at or after `from` that is no blank, or the length.
pub open spec fn word_from(text: Seq<u8>, from: int) -> int
    decreases text.len() - from,
{
    if from < 0 || from >= text.len() {
        text.len() as int
    } else if is_blank(text[from]) {
        word_from(text, from + 1)
    } else {
        from
    }
}

pub proof fn lemma_blank_from(text: Seq<u8>, from: int)
    requires
        0 <= from <= text.len(),
    ensures
        from <= blank_from(text, from) <= text.len(),
        forall|j: int| from <= j < blank_from(text, from) ==> !is_blank(#[trigger] text[j]),
        blank_from(text, from) < text.len() ==> is_blank(text[blank_from(text, from)]),
    decreases text.len() - from,
{
    if from < text.len() && !is_blank(text[from]) {
        lemma_blank_from(text, from + 1);
    }
}

/// The first blank is the only index with the properties of `lemma_blank_from`.
pub proof fn lemma_blank_from_is(text: Seq<u8>, from: int, at: int)
    requires
        0 <= from <= at <= text.len(),
        forall|j: int| from <= j < at ==> !is_blank(#[trigger] text[j]),
        at < text.len() ==> is_blank(text[at]),
    ensures
        blank_from(text, from) == at,
{
    lemma_blank_from(text, from);
    let found = blank_from(text, from);
    if found < at {
        assert(!is_blank(text[found]));
    } else if at < found {
        assert(!is_blank(text[at]));
    }
}

pub proof fn lemma_word_from(text: Seq<u8>, from: int)
    requires
        0 <= from <= text.len(),
    ensures
        from <= word_from(text, from) <= text.len(),
        forall|j: int| from <= j < word_from(text, from) ==> is_blank(#[trigger] text[j]),
        word_from(text, from) < text.len() ==> !is_blank(text[word_from(text, from)]),
        word_from(text, from) < text.len() ==> word_from(text, from) < blank_from(
            text,
            word_from(text, from),
        ),
    decreases text.len() - from,
{
    if from < text.len() {
        if is_blank(text[from]) {
            lemma_word_from(text, from + 1);
        } else {
            lemma_blank_from(text, from + 1);
        }
    }
}

/// The words of `text` from `from` on: the runs without blanks.
pub open spec fn words(text: Seq<u8>, from: int) -> Seq<Seq<u8>>
    decreases text.len() - from,
{
    let start = word_from(text, from);
    let end = blank_from(text, start);
    if from < 0 || start >= text.len() || !(from <= start < end <= text.len()) {
        Seq::empty()
    } else {
        seq![text.subrange(start, end)] + words(text, end)
    }
}

/// The end of `text` without the blanks there, but not before `from`.
pub open spec fn trimmed_len(text: Seq<u8>, from: int, end: int) -> int
    decreases end - from,
{
    if end > from && 0 < end <= text.len() && is_blank(text[end - 1]) {
        trimmed_len(text, from, end - 1)
    } else {
        end
    }
}

/// The first word of a command line, where one stands at its very start.
pub open spec fn request_verb(line: Seq<u8>) -> Seq<u8> {
    let body = terminator::line_body(line);
    body.subrange(0, blank_from(body, 0))
}

/// The words of a command line after its verb.
pub open spec fn request_words(line: Seq<u8>) -> Seq<Seq<u8>> {
    let body = terminator::line_body(line);
    words(body, blank_from(body, 0))
}

/// Where the arguments of a command line start.
pub open spec fn args_start(line: Seq<u8>) -> int {
    let body = terminator::line_body(line);
    word_from(body, blank_from(body, 0))
}

/// What stands after the verb of a command line, without the blanks around it.
pub open spec fn request_args(line: Seq<u8>) -> Seq<u8> {
    let body = terminator::line_body(line);
    body.subrange(args_start(line), trimmed_len(body, args_start(line), body.len() as int))
}

/// Only blanks are taken off an end.
pub proof fn lemma_trimmed_len(text: Seq<u8>, from: int, end: int)
    requires
        0 <= from <= end <= text.len(),
    ensures
        from <= trimmed_len(text, from, end) <= end,
        forall|j: int| trimmed_len(text, from, end) <= j < end ==> is_blank(#[trigger] text[j]),
    decreases end - from,
{
    if end > from && is_blank(text[end - 1]) {
        lemma_trimmed_len(text, from, end - 1);
    }
}

proof fn lemma_trimmed_len_is(text: Seq<u8>, from: int, end: int, at: int)
    requires
        0 <= from < at <= end <= text.len(),
        !is_blank(text[at - 1]),
        forall|j: int| at <= j < end ==> is_blank(#[trigger] text[j]),
    ensures
        trimmed_len(text, from, end) == at,
    decreases end - at,
{
    if at < end {
        assert(is_blank(text[end - 1]));
        lemma_trimmed_len_is(text, from, end - 1, at);
    }
}

/// A line with arguments that start no line end has some when it is longer, too.
pub proof fn lemma_args_of_longer_line(line: Seq<u8>, longer: Seq<u8>)
    requires
        line.len() <= longer.len(),
        longer.subrange(0, line.len() as int) == line,
        request_args(line).len() > 0,
        request_args(line)[0] != bytes::CR,
        request_args(line)[0] != bytes::LF,
    ensures
        request_args(longer).len() > 0,
{
    let body = terminator::line_body(line);
    let more = terminator::line_body(longer);
    let verb_end = blank_from(body, 0);
    let start = args_start(line);
    lemma_blank_from(body, 0);
    lemma_word_from(body, verb_end);
    lemma_trimmed_len(body, start, body.len() as int);
    assert forall|j: int| 0 <= j < line.len() implies longer[j] == line[j] by {
        assert(longer.subrange(0, line.len() as int)[j] == longer[j]);
    }
    assert(request_args(line)[0] == longer[start]);
    assert(start < more.len());
    assert forall|j: int| 0 <= j <= start implies more[j] == body[j] by {}
    lemma_blank_from(more, 0);
    assert(blank_from(more, 0) == verb_end) by {
        let found = blank_from(more, 0);
        if found < verb_end {
            assert(is_blank(more[found]));
        } else if verb_end < found {
            assert(is_blank(body[verb_end]));
            assert(!is_blank(more[verb_end]));
        }
    }
    lemma_word_from(more, verb_end);
    assert(word_from(more, verb_end) == start) by {
        let found = word_from(more, verb_end);
        if found < start {
            assert(!is_blank(more[found]));
        } else if start < found {
            assert(is_blank(more[start]));
        }
    }
    lemma_trimmed_len(more, start, more.len() as int);
    if trimmed_len(more, start, more.len() as int) == start {
        assert(is_blank(more[start]));
    }
}

/// The arguments of a line are its only word behind the verb, where there is one at most.
pub proof fn lemma_args_of_one_word(line: Seq<u8>)
    requires
        request_words(line).len() <= 1,
    ensures
        request_args(line) == (if request_words(line).len() == 0 {
            Seq::empty()
        } else {
            request_words(line)[0]
        }),
{
    let body = terminator::line_body(line);
    let verb_end = blank_from(body, 0);
    let start = args_start(line);
    lemma_blank_from(body, 0);
    lemma_word_from(body, verb_end);
    if start < body.len() {
        let end = blank_from(body, start);
        lemma_blank_from(body, start);
        lemma_word_from(body, end);
        assert(words(body, end).len() == 0) by {
            assert(words(body, verb_end) =~= seq![body.subrange(start, end)] + words(body, end));
        }
        if word_from(body, end) < body.len() {
            lemma_blank_from(body, word_from(body, end));
            assert(words(body, end) == seq![
                body.subrange(word_from(body, end), blank_from(body, word_from(body, end))),
            ] + words(body, blank_from(body, word_from(body, end))));
        }
        lemma_trimmed_len_is(body, start, body.len() as int, end);
        assert(request_words(line)[0] =~= body.subrange(start, end));
    } else {
        assert(request_args(line) =~= Seq::<u8>::empty());
    }
}

pub open spec fn kind_if(valid: bool, kind: RequestKind) -> RequestKind {
    if valid {
        kind
    } else {
        RequestKind::Unknown
    }
}

/// No argument, or an article number or a message-id.
pub open spec fn is_article_args(args: Seq<Seq<u8>>) -> bool {
    args.len() == 0 || (args.len() == 1 && (values::is_article_number(args[0])
        || values::is_message_id(args[0])))
}

pub open spec fn is_message_id_args(args: Seq<Seq<u8>>) -> bool {
    args.len() == 1 && values::is_message_id(args[0])
}

pub open spec fn is_wildmat_args(args: Seq<Seq<u8>>) -> bool {
    args.len() == 1 || (args.len() == 2 && values::is_wildmat(args[1]))
}

/// `LIST` with its keyword.
pub open spec fn list_kind(args: Seq<Seq<u8>>) -> RequestKind {
    if args.len() == 0 {
        RequestKind::List
    } else if bytes::is_word(args[0], "ACTIVE") {
        kind_if(is_wildmat_args(args), RequestKind::ListActive)
    } else if bytes::is_word(args[0], "ACTIVE.TIMES") {
        kind_if(is_wildmat_args(args), RequestKind::ListActiveTimes)
    } else if bytes::is_word(args[0], "NEWSGROUPS") {
        kind_if(is_wildmat_args(args), RequestKind::ListNewsgroups)
    } else if bytes::is_word(args[0], "OVERVIEW.FMT") {
        kind_if(args.len() == 1, RequestKind::ListOverviewFmt)
    } else if bytes::is_word(args[0], "HEADERS") {
        kind_if(
            args.len() == 1 || (args.len() == 2 && (bytes::is_word(args[1], "MSGID")
                || bytes::is_word(args[1], "RANGE"))),
            RequestKind::ListHeaders,
        )
    } else if bytes::is_word(args[0], "DISTRIB.PATS") {
        kind_if(args.len() == 1, RequestKind::ListDistribPats)
    } else {
        RequestKind::Unknown
    }
}

/// `LISTGROUP`: nothing, a range, a group, or a group and a range.
pub open spec fn is_listgroup_args(args: Seq<Seq<u8>>) -> bool {
    ||| args.len() == 0
    ||| args.len() == 1 && values::looks_like_range(args[0]) && values::is_article_range(args[0])
    ||| args.len() == 1 && !values::looks_like_range(args[0]) && values::is_group_name(args[0])
    ||| args.len() == 2 && !values::looks_like_range(args[0]) && values::is_group_name(args[0])
        && values::is_article_range(args[1])
}

/// A date and a time from `at` on, and `GMT` after them or not.
pub open spec fn is_moment_args(args: Seq<Seq<u8>>, at: int) -> bool {
    (args.len() == at + 2 || (args.len() == at + 3 && bytes::is_word(args[at + 2], "GMT")))
        && values::is_nntp_date(args[at]) && values::is_nntp_time(args[at + 1])
}

/// `AUTHINFO` with its keyword.
pub open spec fn authinfo_kind(args: Seq<Seq<u8>>) -> RequestKind {
    if args.len() == 0 {
        RequestKind::Unknown
    } else if bytes::is_word(args[0], "USER") {
        kind_if(args.len() == 2 && values::is_auth_value(args[1]), RequestKind::AuthInfoUser)
    } else if bytes::is_word(args[0], "PASS") {
        kind_if(args.len() == 2 && values::is_auth_value(args[1]), RequestKind::AuthInfoPass)
    } else if bytes::is_word(args[0], "SASL") {
        kind_if(
            (args.len() == 2 || (args.len() == 3 && values::is_sasl_response(args[2])))
                && values::is_sasl_mechanism(args[1]),
            RequestKind::AuthInfo,
        )
    } else {
        RequestKind::Unknown
    }
}

pub open spec fn is_selector_args(args: Seq<Seq<u8>>) -> bool {
    args.len() == 0 || (args.len() == 1 && values::is_article_selector(args[0]))
}

pub open spec fn is_header_args(args: Seq<Seq<u8>>) -> bool {
    (args.len() == 1 || (args.len() == 2 && values::is_article_selector(args[1])))
        && values::is_header_name(args[0])
}

/// The command that a verb and its arguments ask for.
pub open spec fn kind_for(verb: Seq<u8>, args: Seq<Seq<u8>>) -> RequestKind {
    if bytes::is_word(verb, "ARTICLE") {
        kind_if(is_article_args(args), RequestKind::Article)
    } else if bytes::is_word(verb, "BODY") {
        kind_if(is_article_args(args), RequestKind::Body)
    } else if bytes::is_word(verb, "HEAD") {
        kind_if(is_article_args(args), RequestKind::Head)
    } else if bytes::is_word(verb, "STAT") {
        kind_if(is_article_args(args), RequestKind::Stat)
    } else if bytes::is_word(verb, "LIST") {
        list_kind(args)
    } else if bytes::is_word(verb, "GROUP") {
        kind_if(args.len() == 1 && values::is_group_name(args[0]), RequestKind::Group)
    } else if bytes::is_word(verb, "LISTGROUP") {
        kind_if(is_listgroup_args(args), RequestKind::ListGroup)
    } else if bytes::is_word(verb, "LAST") {
        kind_if(args.len() == 0, RequestKind::Last)
    } else if bytes::is_word(verb, "NEXT") {
        kind_if(args.len() == 0, RequestKind::Next)
    } else if bytes::is_word(verb, "NEWGROUPS") {
        kind_if(is_moment_args(args, 0), RequestKind::NewGroups)
    } else if bytes::is_word(verb, "NEWNEWS") {
        kind_if(is_moment_args(args, 1) && values::is_wildmat(args[0]), RequestKind::NewNews)
    } else if bytes::is_word(verb, "POST") {
        kind_if(args.len() == 0, RequestKind::Post)
    } else if bytes::is_word(verb, "IHAVE") {
        kind_if(is_message_id_args(args), RequestKind::Ihave)
    } else if bytes::is_word(verb, "CHECK") {
        kind_if(is_message_id_args(args), RequestKind::Check)
    } else if bytes::is_word(verb, "TAKETHIS") {
        kind_if(is_message_id_args(args), RequestKind::TakeThis)
    } else if bytes::is_word(verb, "AUTHINFO") {
        authinfo_kind(args)
    } else if bytes::is_word(verb, "STARTTLS") {
        kind_if(args.len() == 0, RequestKind::StartTls)
    } else if bytes::is_word(verb, "OVER") {
        kind_if(is_selector_args(args), RequestKind::Over)
    } else if bytes::is_word(verb, "XOVER") {
        kind_if(is_selector_args(args), RequestKind::Xover)
    } else if bytes::is_word(verb, "HDR") {
        kind_if(is_header_args(args), RequestKind::Hdr)
    } else if bytes::is_word(verb, "XHDR") {
        kind_if(is_header_args(args), RequestKind::Xhdr)
    } else if bytes::is_word(verb, "CAPABILITIES") {
        kind_if(
            args.len() == 0 || (args.len() == 1 && values::is_keyword(args[0])),
            RequestKind::Capabilities,
        )
    } else if bytes::is_word(verb, "HELP") {
        kind_if(args.len() == 0, RequestKind::Help)
    } else if bytes::is_word(verb, "DATE") {
        kind_if(args.len() == 0, RequestKind::Date)
    } else if bytes::is_word(verb, "MODE") {
        kind_if(args.len() == 1 && bytes::is_word(args[0], "READER"), RequestKind::ModeReader)
    } else if bytes::is_word(verb, "QUIT") {
        kind_if(args.len() == 0, RequestKind::Quit)
    } else {
        RequestKind::Unknown
    }
}

/// The command that a line asks for. Only a line with a line end asks for one.
pub open spec fn request_kind(line: Seq<u8>) -> RequestKind {
    if terminator::without_line_end(line) is None {
        RequestKind::Unknown
    } else {
        kind_for(request_verb(line), request_words(line))
    }
}

/// The commands whose only argument may be a message-id.
pub open spec fn takes_message_id(kind: RequestKind) -> bool {
    kind == RequestKind::Article || kind == RequestKind::Body || kind == RequestKind::Head || kind
        == RequestKind::Stat || kind == RequestKind::Ihave || kind == RequestKind::Check || kind
        == RequestKind::TakeThis || kind == RequestKind::Over || kind == RequestKind::Xover
}

/// The message-id that a line names.
pub open spec fn request_message_id(line: Seq<u8>) -> Option<Seq<u8>> {
    if takes_message_id(request_kind(line)) && is_message_id_args(request_words(line)) {
        Some(request_words(line)[0])
    } else {
        None
    }
}

/// The views of a list of slices.
pub open spec fn views(list: Seq<&[u8]>) -> Seq<Seq<u8>> {
    Seq::new(list.len(), |i: int| list[i]@)
}

pub(crate) fn find_blank(text: &[u8], from: usize) -> (index: usize)
    requires
        from <= text@.len(),
    ensures
        index == blank_from(text@, from as int),
        from <= index <= text@.len(),
{
    let mut index: usize = from;
    while index < text.len() && text[index] != SPACE && text[index] != TAB
        invariant
            from <= index <= text@.len(),
            blank_from(text@, from as int) == blank_from(text@, index as int),
        decreases text@.len() - index,
    {
        index = index + 1;
    }
    index
}

pub(crate) fn find_word(text: &[u8], from: usize) -> (index: usize)
    requires
        from <= text@.len(),
    ensures
        index == word_from(text@, from as int),
        from <= index <= text@.len(),
{
    let mut index: usize = from;
    while index < text.len() && (text[index] == SPACE || text[index] == TAB)
        invariant
            from <= index <= text@.len(),
            word_from(text@, from as int) == word_from(text@, index as int),
        decreases text@.len() - index,
    {
        index = index + 1;
    }
    index
}

fn split_words<'a>(text: &'a [u8], from: usize) -> (list: Vec<&'a [u8]>)
    requires
        from <= text@.len(),
    ensures
        views(list@) == words(text@, from as int),
{
    let mut list: Vec<&'a [u8]> = Vec::new();
    let mut at: usize = from;
    assert(views(list@) + words(text@, from as int) =~= words(text@, from as int));
    loop
        invariant
            from <= at <= text@.len(),
            words(text@, from as int) == views(list@) + words(text@, at as int),
        decreases text@.len() - at,
    {
        proof {
            lemma_word_from(text@, at as int);
            lemma_blank_from(text@, word_from(text@, at as int));
        }
        let start: usize = find_word(text, at);
        if start == text.len() {
            assert(views(list@) + words(text@, at as int) =~= views(list@));
            return list;
        }
        let end: usize = find_blank(text, start);
        let ghost before = list@;
        let ghost word = text@.subrange(start as int, end as int);
        list.push(&text[start..end]);
        assert(views(list@) =~= views(before).push(word));
        assert(views(before) + (seq![word] + words(text@, end as int)) =~= views(list@) + words(
            text@,
            end as int,
        ));
        at = end;
    }
}

fn list_kind_of(args: &Vec<&[u8]>) -> (kind: RequestKind)
    ensures
        kind == list_kind(views(args@)),
{
    if args.len() == 0 {
        return RequestKind::List;
    }
    let wildmat: bool = args.len() == 1 || (args.len() == 2 && check_wildmat(args[1]));
    let valid: bool;
    let kind: RequestKind;
    if matches_word(args[0], "ACTIVE") {
        valid = wildmat;
        kind = RequestKind::ListActive;
    } else if matches_word(args[0], "ACTIVE.TIMES") {
        valid = wildmat;
        kind = RequestKind::ListActiveTimes;
    } else if matches_word(args[0], "NEWSGROUPS") {
        valid = wildmat;
        kind = RequestKind::ListNewsgroups;
    } else if matches_word(args[0], "OVERVIEW.FMT") {
        valid = args.len() == 1;
        kind = RequestKind::ListOverviewFmt;
    } else if matches_word(args[0], "HEADERS") {
        valid = args.len() == 1 || (args.len() == 2 && (matches_word(args[1], "MSGID")
            || matches_word(args[1], "RANGE")));
        kind = RequestKind::ListHeaders;
    } else if matches_word(args[0], "DISTRIB.PATS") {
        valid = args.len() == 1;
        kind = RequestKind::ListDistribPats;
    } else {
        valid = false;
        kind = RequestKind::Unknown;
    }
    if valid {
        kind
    } else {
        RequestKind::Unknown
    }
}

fn check_article_args(args: &Vec<&[u8]>) -> (valid: bool)
    ensures
        valid == is_article_args(views(args@)),
{
    args.len() == 0 || (args.len() == 1 && (check_article_number(args[0]) || check_message_id(
        args[0],
    )))
}

fn check_message_id_args(args: &Vec<&[u8]>) -> (valid: bool)
    ensures
        valid == is_message_id_args(views(args@)),
{
    args.len() == 1 && check_message_id(args[0])
}

fn check_listgroup_args(args: &Vec<&[u8]>) -> (valid: bool)
    ensures
        valid == is_listgroup_args(views(args@)),
{
    if args.len() == 0 {
        true
    } else if args.len() == 1 {
        if check_looks_like_range(args[0]) {
            check_article_range(args[0])
        } else {
            check_group_name(args[0])
        }
    } else {
        args.len() == 2 && !check_looks_like_range(args[0]) && check_group_name(args[0])
            && check_article_range(args[1])
    }
}

fn check_moment_args(args: &Vec<&[u8]>, at: usize) -> (valid: bool)
    requires
        at <= 1,
    ensures
        valid == is_moment_args(views(args@), at as int),
{
    (args.len() == at + 2 || (args.len() == at + 3 && matches_word(args[at + 2], "GMT")))
        && check_nntp_date(args[at]) && check_nntp_time(args[at + 1])
}

fn authinfo_kind_of(args: &Vec<&[u8]>) -> (kind: RequestKind)
    ensures
        kind == authinfo_kind(views(args@)),
{
    if args.len() == 0 {
        return RequestKind::Unknown;
    }
    if matches_word(args[0], "USER") {
        if args.len() == 2 && check_auth_value(args[1]) {
            RequestKind::AuthInfoUser
        } else {
            RequestKind::Unknown
        }
    } else if matches_word(args[0], "PASS") {
        if args.len() == 2 && check_auth_value(args[1]) {
            RequestKind::AuthInfoPass
        } else {
            RequestKind::Unknown
        }
    } else if matches_word(args[0], "SASL") {
        if (args.len() == 2 || (args.len() == 3 && check_sasl_response(args[2])))
            && check_sasl_mechanism(args[1]) {
            RequestKind::AuthInfo
        } else {
            RequestKind::Unknown
        }
    } else {
        RequestKind::Unknown
    }
}

fn check_selector_args(args: &Vec<&[u8]>) -> (valid: bool)
    ensures
        valid == is_selector_args(views(args@)),
{
    args.len() == 0 || (args.len() == 1 && check_article_selector(args[0]))
}

fn check_header_args(args: &Vec<&[u8]>) -> (valid: bool)
    ensures
        valid == is_header_args(views(args@)),
{
    (args.len() == 1 || (args.len() == 2 && check_article_selector(args[1])))
        && check_header_name(args[0])
}

fn checked(valid: bool, kind: RequestKind) -> (result: RequestKind)
    ensures
        result == kind_if(valid, kind),
{
    if valid {
        kind
    } else {
        RequestKind::Unknown
    }
}

fn kind_of(verb: &[u8], args: &Vec<&[u8]>) -> (kind: RequestKind)
    ensures
        kind == kind_for(verb@, views(args@)),
{
    let none: bool = args.len() == 0;
    if matches_word(verb, "ARTICLE") {
        checked(check_article_args(args), RequestKind::Article)
    } else if matches_word(verb, "BODY") {
        checked(check_article_args(args), RequestKind::Body)
    } else if matches_word(verb, "HEAD") {
        checked(check_article_args(args), RequestKind::Head)
    } else if matches_word(verb, "STAT") {
        checked(check_article_args(args), RequestKind::Stat)
    } else if matches_word(verb, "LIST") {
        list_kind_of(args)
    } else if matches_word(verb, "GROUP") {
        checked(args.len() == 1 && check_group_name(args[0]), RequestKind::Group)
    } else if matches_word(verb, "LISTGROUP") {
        checked(check_listgroup_args(args), RequestKind::ListGroup)
    } else if matches_word(verb, "LAST") {
        checked(none, RequestKind::Last)
    } else if matches_word(verb, "NEXT") {
        checked(none, RequestKind::Next)
    } else if matches_word(verb, "NEWGROUPS") {
        checked(check_moment_args(args, 0), RequestKind::NewGroups)
    } else if matches_word(verb, "NEWNEWS") {
        checked(check_moment_args(args, 1) && check_wildmat(args[0]), RequestKind::NewNews)
    } else if matches_word(verb, "POST") {
        checked(none, RequestKind::Post)
    } else if matches_word(verb, "IHAVE") {
        checked(check_message_id_args(args), RequestKind::Ihave)
    } else if matches_word(verb, "CHECK") {
        checked(check_message_id_args(args), RequestKind::Check)
    } else if matches_word(verb, "TAKETHIS") {
        checked(check_message_id_args(args), RequestKind::TakeThis)
    } else if matches_word(verb, "AUTHINFO") {
        authinfo_kind_of(args)
    } else if matches_word(verb, "STARTTLS") {
        checked(none, RequestKind::StartTls)
    } else if matches_word(verb, "OVER") {
        checked(check_selector_args(args), RequestKind::Over)
    } else if matches_word(verb, "XOVER") {
        checked(check_selector_args(args), RequestKind::Xover)
    } else if matches_word(verb, "HDR") {
        checked(check_header_args(args), RequestKind::Hdr)
    } else if matches_word(verb, "XHDR") {
        checked(check_header_args(args), RequestKind::Xhdr)
    } else if matches_word(verb, "CAPABILITIES") {
        checked(none || (args.len() == 1 && check_keyword(args[0])), RequestKind::Capabilities)
    } else if matches_word(verb, "HELP") {
        checked(none, RequestKind::Help)
    } else if matches_word(verb, "DATE") {
        checked(none, RequestKind::Date)
    } else if matches_word(verb, "MODE") {
        checked(args.len() == 1 && matches_word(args[0], "READER"), RequestKind::ModeReader)
    } else if matches_word(verb, "QUIT") {
        checked(none, RequestKind::Quit)
    } else {
        RequestKind::Unknown
    }
}

/// A command line with what it asks for.
#[derive(Debug, Clone, Copy)]
pub struct RequestLine<'a> {
    line: &'a [u8],
    kind: RequestKind,
    verb: &'a [u8],
    args: &'a [u8],
    /// The start and the length of the message-id in the line.
    message_id: Option<(usize, usize)>,
}

impl<'a> RequestLine<'a> {
    pub closed spec fn spec_line(&self) -> Seq<u8> {
        self.line@
    }

    /// What the fields hold is what the line says.
    #[verifier::type_invariant]
    spec fn wf(&self) -> bool {
        &&& self.kind == request_kind(self.line@)
        &&& self.verb@ == request_verb(self.line@)
        &&& self.args@ == request_args(self.line@)
        &&& match self.message_id {
            Some(range) => range.0 == args_start(self.line@) && range.0 + range.1
                <= self.line@.len() && request_message_id(self.line@) == Some(
                self.line@.subrange(range.0 as int, range.0 + range.1),
            ),
            None => request_message_id(self.line@) is None,
        }
    }

    /// Reads a command line.
    pub fn parse(line: &'a [u8]) -> (request: RequestLine<'a>)
        ensures
            request.spec_line() == line@,
    {
        let body: &'a [u8] = strip_line_end(line);
        let verb_end: usize = find_blank(body, 0);
        let verb: &'a [u8] = &body[0..verb_end];
        let list: Vec<&'a [u8]> = split_words(body, verb_end);
        let kind: RequestKind = if strip_complete_crlf_line(line).is_none() {
            RequestKind::Unknown
        } else {
            kind_of(verb, &list)
        };
        let start: usize = find_word(body, verb_end);
        let mut end: usize = body.len();
        while end > start && (body[end - 1] == SPACE || body[end - 1] == TAB)
            invariant
                start <= end <= body@.len(),
                trimmed_len(body@, start as int, body@.len() as int) == trimmed_len(
                    body@,
                    start as int,
                    end as int,
                ),
            decreases end,
        {
            end = end - 1;
        }
        let args: &'a [u8] = &body[start..end];
        let takes: bool = kind == RequestKind::Article || kind == RequestKind::Body || kind
            == RequestKind::Head || kind == RequestKind::Stat || kind == RequestKind::Ihave || kind
            == RequestKind::Check || kind == RequestKind::TakeThis || kind == RequestKind::Over
            || kind == RequestKind::Xover;
        let message_id: Option<(usize, usize)> = if takes && check_message_id_args(&list) {
            proof {
                lemma_word_from(body@, verb_end as int);
                lemma_blank_from(body@, start as int);
                assert(body@ =~= line@.subrange(0, body@.len() as int));
                assert(words(body@, verb_end as int)[0] == list@[0]@);
                assert(line@.subrange(start as int, start + list@[0]@.len()) =~= body@.subrange(
                    start as int,
                    blank_from(body@, start as int),
                ));
            }
            Some((start, list[0].len()))
        } else {
            None
        };
        RequestLine { line, kind, verb, args, message_id }
    }

    pub fn kind(&self) -> (kind: RequestKind)
        ensures
            kind == request_kind(self.spec_line()),
    {
        proof {
            use_type_invariant(self);
        }
        self.kind
    }

    pub fn verb(&self) -> (verb: &'a [u8])
        ensures
            verb@ == request_verb(self.spec_line()),
    {
        proof {
            use_type_invariant(self);
        }
        self.verb
    }

    /// What stands after the verb, without the blanks around it.
    pub fn args(&self) -> (args: &'a [u8])
        ensures
            args@ == request_args(self.spec_line()),
    {
        proof {
            use_type_invariant(self);
        }
        self.args
    }

    /// The start and the length of the message-id in the line.
    pub fn message_id_range(&self) -> (range: Option<(usize, usize)>)
        ensures
            match range {
                Some(place) => place.0 == args_start(self.spec_line()) && place.0 + place.1
                    <= self.spec_line().len() && request_message_id(self.spec_line()) == Some(
                    self.spec_line().subrange(place.0 as int, place.0 + place.1),
                ),
                None => request_message_id(self.spec_line()) is None,
            },
    {
        proof {
            use_type_invariant(self);
        }
        self.message_id
    }

    pub fn message_id(&self) -> (id: Option<MessageId>)
        ensures
            match id {
                Some(message_id) => request_message_id(self.spec_line()) == Some(message_id@),
                None => request_message_id(self.spec_line()) is None,
            },
    {
        proof {
            use_type_invariant(self);
        }
        match self.message_id {
            Some(range) => {
                assert(self.line.len() == self.line@.len());
                MessageId::from_bytes(&self.line[range.0..range.0 + range.1])
            },
            None => None,
        }
    }
}

proof fn lemma_word_from_is(text: Seq<u8>, from: int, at: int)
    requires
        0 <= from <= at <= text.len(),
        forall|j: int| from <= j < at ==> is_blank(#[trigger] text[j]),
        at < text.len() ==> !is_blank(text[at]),
    ensures
        word_from(text, from) == at,
{
    lemma_word_from(text, from);
    let found = word_from(text, from);
    if found < at {
        assert(is_blank(text[found]));
    } else if at < found {
        assert(is_blank(text[at]));
    }
}

/// What stands before a text does not change its words.
proof fn lemma_words_shift(prefix: Seq<u8>, text: Seq<u8>, from: int)
    requires
        0 <= from <= text.len(),
    ensures
        words(prefix + text, prefix.len() + from) == words(text, from),
    decreases text.len() - from,
{
    let whole = prefix + text;
    let shift = prefix.len() as int;
    assert forall|j: int| 0 <= j < text.len() implies whole[shift + j] == #[trigger] text[j] by {}
    lemma_word_from(text, from);
    let start = word_from(text, from);
    assert forall|j: int| shift + from <= j < shift + start implies is_blank(#[trigger] whole[j]) by {
        assert(whole[j] == text[j - shift]);
    }
    if start < text.len() {
        assert(whole[shift + start] == text[start]);
    }
    lemma_word_from_is(whole, shift + from, shift + start);
    if start < text.len() {
        lemma_blank_from(text, start);
        let end = blank_from(text, start);
        assert forall|j: int| shift + start <= j < shift + end implies !is_blank(
            #[trigger] whole[j],
        ) by {
            assert(whole[j] == text[j - shift]);
        }
        if end < text.len() {
            assert(whole[shift + end] == text[end]);
        }
        lemma_blank_from_is(whole, shift + start, shift + end);
        lemma_words_shift(prefix, text, end);
        assert(whole.subrange(shift + start, shift + end) =~= text.subrange(start, end));
    }
}

proof fn lemma_words_join(first: Seq<u8>, blank: u8, second: Seq<u8>, from: int)
    requires
        is_blank(blank),
        0 <= from <= first.len(),
    ensures
        words(first + seq![blank] + second, from) == words(first, from) + words(second, 0),
    decreases first.len() - from,
{
    let whole = first + seq![blank] + second;
    let at = first.len() as int;
    assert(whole[at] == blank);
    lemma_word_from(first, from);
    let start = word_from(first, from);
    assert forall|j: int| 0 <= j < at implies whole[j] == #[trigger] first[j] by {}
    assert forall|j: int| from <= j < start implies is_blank(#[trigger] whole[j]) by {
        assert(whole[j] == first[j]);
    }
    if start < at {
        lemma_word_from_is(whole, from, start);
        lemma_blank_from(first, start);
        let end = blank_from(first, start);
        assert forall|j: int| start <= j < end implies !is_blank(#[trigger] whole[j]) by {
            assert(whole[j] == first[j]);
        }
        lemma_blank_from_is(whole, start, end);
        assert(whole.subrange(start, end) =~= first.subrange(start, end));
        lemma_words_join(first, blank, second, end);
        let word = seq![first.subrange(start, end)];
        assert(word + (words(first, end) + words(second, 0)) =~= (word + words(first, end))
            + words(second, 0));
    } else {
        let prefix = first + seq![blank];
        lemma_words_shift(prefix, second, 0);
        lemma_word_from(whole, at + 1);
        let next = word_from(whole, at + 1);
        lemma_word_from_is(whole, from, next);
        assert(words(whole, from) == words(whole, at + 1));
        assert(words(first, from) =~= Seq::<Seq<u8>>::empty());
        assert(words(first, from) + words(second, 0) =~= words(second, 0));
    }
}

/// A blank parts the words before it from those behind it.
pub proof fn law_blank_parts_words(first: Seq<u8>, blank: u8, second: Seq<u8>)
    requires
        blank == 32 || blank == 9,
    ensures
        words(first + seq![blank] + second, 0) == words(first, 0) + words(second, 0),
{
    lemma_words_join(first, blank, second, 0);
}

/// A text without blanks is one word, unless it is empty.
pub proof fn law_text_without_blanks_is_one_word(text: Seq<u8>)
    requires
        forall|i: int| 0 <= i < text.len() ==> #[trigger] text[i] != 32 && text[i] != 9,
    ensures
        words(text, 0) == (if text.len() == 0 {
            Seq::empty()
        } else {
            seq![text]
        }),
{
    if text.len() > 0 {
        lemma_word_from_is(text, 0, 0);
        lemma_blank_from_is(text, 0, text.len() as int);
        assert(text.subrange(0, text.len() as int) =~= text);
        assert(words(text, text.len() as int) =~= Seq::<Seq<u8>>::empty());
        assert(seq![text] + Seq::<Seq<u8>>::empty() =~= seq![text]);
    }
}

/// The verb of a command line is what stands before its first blank, and its arguments are what
/// stands behind the blanks there, without those at its end.
pub proof fn law_line_parts(verb: Seq<u8>, gap: Seq<u8>, args: Seq<u8>, tail: Seq<u8>)
    requires
        forall|i: int| 0 <= i < verb.len() ==> #[trigger] verb[i] != 32 && verb[i] != 9,
        gap.len() > 0,
        forall|i: int| 0 <= i < gap.len() ==> #[trigger] gap[i] == 32 || gap[i] == 9,
        forall|i: int| 0 <= i < tail.len() ==> #[trigger] tail[i] == 32 || tail[i] == 9,
        args.len() > 0,
        args[0] != 32 && args[0] != 9,
        args.last() != 32 && args.last() != 9,
    ensures
        request_verb(verb + gap + args + tail + seq![13u8, 10u8]) == verb,
        request_args(verb + gap + args + tail + seq![13u8, 10u8]) == args,
        request_words(verb + gap + args + tail + seq![13u8, 10u8]) == words(args, 0),
{
    let body = verb + gap + args + tail;
    let line = body + seq![13u8, 10u8];
    assert(terminator::line_body(line) =~= body);
    let verb_end = verb.len() as int;
    let start = verb_end + gap.len();
    let end = start + args.len();
    assert forall|j: int| 0 <= j < verb_end implies !is_blank(#[trigger] body[j]) by {
        assert(body[j] == verb[j]);
    }
    assert(body[verb_end] == gap[0]);
    lemma_blank_from_is(body, 0, verb_end);
    assert forall|j: int| verb_end <= j < start implies is_blank(#[trigger] body[j]) by {
        assert(body[j] == gap[j - verb_end]);
    }
    assert(body[start] == args[0]);
    lemma_word_from_is(body, verb_end, start);
    assert(body[end - 1] == args.last());
    assert forall|j: int| end <= j < body.len() implies is_blank(#[trigger] body[j]) by {
        assert(body[j] == tail[j - end]);
    }
    lemma_trimmed_len_is(body, start, body.len() as int, end);
    assert(body.subrange(0, verb_end) =~= verb);
    assert(body.subrange(start, end) =~= args);
    let prefix = verb + gap;
    lemma_words_from_word(body, verb_end, start);
    lemma_words_shift(prefix, args + tail, 0);
    assert(prefix + (args + tail) =~= body);
    lemma_words_before_blanks(args, tail);
}

/// Blanks before a word do not change the words.
proof fn lemma_words_from_word(text: Seq<u8>, from: int, start: int)
    requires
        0 <= from <= start <= text.len(),
        word_from(text, from) == start,
    ensures
        words(text, from) == words(text, start),
{
    lemma_word_from(text, from);
    if start < text.len() {
        lemma_word_from_is(text, start, start);
    }
}

/// Blanks behind a text do not change its words.
proof fn lemma_words_before_blanks(text: Seq<u8>, tail: Seq<u8>)
    requires
        forall|i: int| 0 <= i < tail.len() ==> #[trigger] tail[i] == 32 || tail[i] == 9,
    ensures
        words(text + tail, 0) == words(text, 0),
    decreases tail.len(),
{
    if tail.len() == 0 {
        assert(text + tail =~= text);
    } else {
        let rest = tail.drop_first();
        assert(text + tail =~= text + seq![tail[0]] + rest);
        lemma_words_join(text, tail[0], rest, 0);
        lemma_words_before_blanks(Seq::empty(), rest);
        assert(Seq::<u8>::empty() + rest =~= rest);
        assert(words(Seq::<u8>::empty(), 0) =~= Seq::<Seq<u8>>::empty());
        assert(words(text, 0) + Seq::<Seq<u8>>::empty() =~= words(text, 0));
    }
}

/// The case of letters in a verb makes no difference.
#[verifier::spinoff_prover]
pub proof fn law_verbs_ignore_case(verb: Seq<u8>, other: Seq<u8>, args: Seq<Seq<u8>>)
    requires
        bytes::same_letters(verb, other),
    ensures
        kind_for(verb, args) == kind_for(other, args),
{
    assert forall|word: &str| #[trigger] bytes::is_word(verb, word) == bytes::is_word(other, word) by {
        if bytes::is_word(verb, word) {
            assert forall|i: int| 0 <= i < other.len() implies bytes::lower(other[i])
                == bytes::lower(word.spec_bytes()[i]) by {
                assert(bytes::lower(verb[i]) == bytes::lower(other[i]));
            }
        }
        if bytes::is_word(other, word) {
            assert forall|i: int| 0 <= i < verb.len() implies bytes::lower(verb[i])
                == bytes::lower(word.spec_bytes()[i]) by {
                assert(bytes::lower(verb[i]) == bytes::lower(other[i]));
            }
        }
    }
}

/// A line asks for a command only where it ends in a line end.
pub proof fn law_only_whole_lines_are_commands(line: Seq<u8>)
    requires
        line.len() < 2 || line[line.len() - 2] != 13 || line.last() != 10,
    ensures
        request_kind(line) == RequestKind::Unknown,
        request_message_id(line) is None,
{
}

} // verus!
