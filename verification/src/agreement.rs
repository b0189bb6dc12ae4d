//! Servers read requests as clients mean them.
use crate::batch;
use crate::bytes;
use crate::bytes::{CR, DOT, LF, SPACE};
use crate::commands;
use crate::request;
use crate::request::{ArticleRef, Request};
use crate::request_line;
use crate::request_line::RequestKind;
use crate::responses::CRLF;
use crate::terminator;
use crate::terminator::ResponseLineStatus;
use crate::values;
use vstd::prelude::*;
use vstd::string::StringSliceAdditionalSpecFns;

verus! {

/// A nonempty word without blanks and control characters.
pub open spec fn is_plain(word: Seq<u8>) -> bool {
    word.len() > 0 && forall|i: int| 0 <= i < word.len() ==> #[trigger] word[i] > 0x20
}

/// What tells the verbs apart.
proof fn lemma_verbs()
    ensures
        "ARTICLE".spec_bytes().len() == 7,
        "ARTICLE".spec_bytes()[0] == 65,
        "BODY".spec_bytes().len() == 4,
        "BODY".spec_bytes()[0] == 66,
        "HEAD".spec_bytes().len() == 4,
        "HEAD".spec_bytes()[0] == 72,
        "STAT".spec_bytes().len() == 4,
        "STAT".spec_bytes()[0] == 83,
        "LIST".spec_bytes().len() == 4,
        "LIST".spec_bytes()[0] == 76,
        "GROUP".spec_bytes().len() == 5,
        "GROUP".spec_bytes()[0] == 71,
        "LISTGROUP".spec_bytes().len() == 9,
        "LISTGROUP".spec_bytes()[0] == 76,
        "LAST".spec_bytes().len() == 4,
        "LAST".spec_bytes()[0] == 76,
        "NEXT".spec_bytes().len() == 4,
        "NEXT".spec_bytes()[0] == 78,
        "NEWGROUPS".spec_bytes().len() == 9,
        "NEWGROUPS".spec_bytes()[0] == 78,
        "NEWNEWS".spec_bytes().len() == 7,
        "NEWNEWS".spec_bytes()[0] == 78,
        "POST".spec_bytes().len() == 4,
        "POST".spec_bytes()[0] == 80,
        "IHAVE".spec_bytes().len() == 5,
        "IHAVE".spec_bytes()[0] == 73,
        "CHECK".spec_bytes().len() == 5,
        "CHECK".spec_bytes()[0] == 67,
        "TAKETHIS".spec_bytes().len() == 8,
        "TAKETHIS".spec_bytes()[0] == 84,
        "AUTHINFO".spec_bytes().len() == 8,
        "AUTHINFO".spec_bytes()[0] == 65,
        "STARTTLS".spec_bytes().len() == 8,
        "STARTTLS".spec_bytes()[0] == 83,
        "OVER".spec_bytes().len() == 4,
        "OVER".spec_bytes()[0] == 79,
        "XOVER".spec_bytes().len() == 5,
        "XOVER".spec_bytes()[0] == 88,
        "HDR".spec_bytes().len() == 3,
        "HDR".spec_bytes()[0] == 72,
        "XHDR".spec_bytes().len() == 4,
        "XHDR".spec_bytes()[0] == 88,
        "CAPABILITIES".spec_bytes().len() == 12,
        "CAPABILITIES".spec_bytes()[0] == 67,
        "HELP".spec_bytes().len() == 4,
        "HELP".spec_bytes()[0] == 72,
        "DATE".spec_bytes().len() == 4,
        "DATE".spec_bytes()[0] == 68,
        "MODE".spec_bytes().len() == 4,
        "MODE".spec_bytes()[0] == 77,
        "QUIT".spec_bytes().len() == 4,
        "QUIT".spec_bytes()[0] == 81,
        "HEAD".spec_bytes()[2] == 65,
        "HELP".spec_bytes()[2] == 76,
        "LIST".spec_bytes()[1] == 73,
        "LAST".spec_bytes()[1] == 65,
        is_plain("ARTICLE".spec_bytes()),
        is_plain("BODY".spec_bytes()),
        is_plain("HEAD".spec_bytes()),
        is_plain("STAT".spec_bytes()),
        is_plain("LIST".spec_bytes()),
        is_plain("GROUP".spec_bytes()),
        is_plain("LISTGROUP".spec_bytes()),
        is_plain("LAST".spec_bytes()),
        is_plain("NEXT".spec_bytes()),
        is_plain("NEWGROUPS".spec_bytes()),
        is_plain("NEWNEWS".spec_bytes()),
        is_plain("POST".spec_bytes()),
        is_plain("IHAVE".spec_bytes()),
        is_plain("CHECK".spec_bytes()),
        is_plain("TAKETHIS".spec_bytes()),
        is_plain("AUTHINFO".spec_bytes()),
        is_plain("STARTTLS".spec_bytes()),
        is_plain("OVER".spec_bytes()),
        is_plain("XOVER".spec_bytes()),
        is_plain("HDR".spec_bytes()),
        is_plain("XHDR".spec_bytes()),
        is_plain("CAPABILITIES".spec_bytes()),
        is_plain("HELP".spec_bytes()),
        is_plain("DATE".spec_bytes()),
        is_plain("MODE".spec_bytes()),
        is_plain("QUIT".spec_bytes()),
{
    reveal_strlit("ARTICLE");
    assert("ARTICLE".is_ascii());
    reveal_strlit("BODY");
    assert("BODY".is_ascii());
    reveal_strlit("HEAD");
    assert("HEAD".is_ascii());
    reveal_strlit("STAT");
    assert("STAT".is_ascii());
    reveal_strlit("LIST");
    assert("LIST".is_ascii());
    reveal_strlit("GROUP");
    assert("GROUP".is_ascii());
    reveal_strlit("LISTGROUP");
    assert("LISTGROUP".is_ascii());
    reveal_strlit("LAST");
    assert("LAST".is_ascii());
    reveal_strlit("NEXT");
    assert("NEXT".is_ascii());
    reveal_strlit("NEWGROUPS");
    assert("NEWGROUPS".is_ascii());
    reveal_strlit("NEWNEWS");
    assert("NEWNEWS".is_ascii());
    reveal_strlit("POST");
    assert("POST".is_ascii());
    reveal_strlit("IHAVE");
    assert("IHAVE".is_ascii());
    reveal_strlit("CHECK");
    assert("CHECK".is_ascii());
    reveal_strlit("TAKETHIS");
    assert("TAKETHIS".is_ascii());
    reveal_strlit("AUTHINFO");
    assert("AUTHINFO".is_ascii());
    reveal_strlit("STARTTLS");
    assert("STARTTLS".is_ascii());
    reveal_strlit("OVER");
    assert("OVER".is_ascii());
    reveal_strlit("XOVER");
    assert("XOVER".is_ascii());
    reveal_strlit("HDR");
    assert("HDR".is_ascii());
    reveal_strlit("XHDR");
    assert("XHDR".is_ascii());
    reveal_strlit("CAPABILITIES");
    assert("CAPABILITIES".is_ascii());
    reveal_strlit("HELP");
    assert("HELP".is_ascii());
    reveal_strlit("DATE");
    assert("DATE".is_ascii());
    reveal_strlit("MODE");
    assert("MODE".is_ascii());
    reveal_strlit("QUIT");
    assert("QUIT".is_ascii());
}

/// What tells the keywords apart.
proof fn lemma_keywords()
    ensures
        "ACTIVE".spec_bytes().len() == 6,
        "ACTIVE".spec_bytes()[0] == 65,
        "ACTIVE.TIMES".spec_bytes().len() == 12,
        "ACTIVE.TIMES".spec_bytes()[0] == 65,
        "NEWSGROUPS".spec_bytes().len() == 10,
        "NEWSGROUPS".spec_bytes()[0] == 78,
        "OVERVIEW.FMT".spec_bytes().len() == 12,
        "OVERVIEW.FMT".spec_bytes()[0] == 79,
        "HEADERS".spec_bytes().len() == 7,
        "HEADERS".spec_bytes()[0] == 72,
        "DISTRIB.PATS".spec_bytes().len() == 12,
        "DISTRIB.PATS".spec_bytes()[0] == 68,
        "USER".spec_bytes().len() == 4,
        "USER".spec_bytes()[0] == 85,
        "PASS".spec_bytes().len() == 4,
        "PASS".spec_bytes()[0] == 80,
        "SASL".spec_bytes().len() == 4,
        "SASL".spec_bytes()[0] == 83,
        "READER".spec_bytes().len() == 6,
        "READER".spec_bytes()[0] == 82,
        "GMT".spec_bytes().len() == 3,
        "GMT".spec_bytes()[0] == 71,
        is_plain("ACTIVE".spec_bytes()),
        is_plain("ACTIVE.TIMES".spec_bytes()),
        is_plain("NEWSGROUPS".spec_bytes()),
        is_plain("OVERVIEW.FMT".spec_bytes()),
        is_plain("HEADERS".spec_bytes()),
        is_plain("DISTRIB.PATS".spec_bytes()),
        is_plain("USER".spec_bytes()),
        is_plain("PASS".spec_bytes()),
        is_plain("SASL".spec_bytes()),
        is_plain("READER".spec_bytes()),
        is_plain("GMT".spec_bytes()),
{
    reveal_strlit("ACTIVE");
    assert("ACTIVE".is_ascii());
    reveal_strlit("ACTIVE.TIMES");
    assert("ACTIVE.TIMES".is_ascii());
    reveal_strlit("NEWSGROUPS");
    assert("NEWSGROUPS".is_ascii());
    reveal_strlit("OVERVIEW.FMT");
    assert("OVERVIEW.FMT".is_ascii());
    reveal_strlit("HEADERS");
    assert("HEADERS".is_ascii());
    reveal_strlit("DISTRIB.PATS");
    assert("DISTRIB.PATS".is_ascii());
    reveal_strlit("USER");
    assert("USER".is_ascii());
    reveal_strlit("PASS");
    assert("PASS".is_ascii());
    reveal_strlit("SASL");
    assert("SASL".is_ascii());
    reveal_strlit("READER");
    assert("READER".is_ascii());
    reveal_strlit("GMT");
    assert("GMT".is_ascii());
}

proof fn lemma_blank_from_is(text: Seq<u8>, from: int, at: int)
    requires
        0 <= from <= at <= text.len(),
        forall|j: int| from <= j < at ==> !request_line::is_blank(#[trigger] text[j]),
        at < text.len() ==> request_line::is_blank(text[at]),
    ensures
        request_line::blank_from(text, from) == at,
{
    request_line::lemma_blank_from(text, from);
    let found = request_line::blank_from(text, from);
    if found < at {
        assert(!request_line::is_blank(text[found]));
    }
    if at < found {
        assert(!request_line::is_blank(text[at]));
    }
}

/// Words with a space before each are read as these words.
proof fn lemma_words_of_spaced(prefix: Seq<u8>, args: Seq<Seq<u8>>)
    requires
        forall|i: int| 0 <= i < args.len() ==> is_plain(#[trigger] args[i]),
    ensures
        request_line::words(prefix + request::spaced(args), prefix.len() as int) == args,
    decreases args.len(),
{
    let text = prefix + request::spaced(args);
    let from = prefix.len() as int;
    if args.len() == 0 {
        assert(request_line::words(text, from) =~= args);
    } else {
        let word = args[0];
        let rest = args.drop_first();
        let end = from + 1 + word.len();
        let longer = prefix + seq![SPACE] + word;
        assert(is_plain(word));
        assert(longer + request::spaced(rest) =~= text);
        assert(text[from] == SPACE);
        assert forall|j: int| from < j < end implies !request_line::is_blank(#[trigger] text[j]) by {
            assert(text[j] == word[j - from - 1]);
        }
        assert(request_line::word_from(text, from) == from + 1) by {
            assert(request_line::word_from(text, from) == request_line::word_from(text, from + 1));
            assert(!request_line::is_blank(text[from + 1]));
        }
        if rest.len() > 0 {
            assert(request::spaced(rest)[0] == SPACE);
            assert(text[end] == request::spaced(rest)[0]);
        } else {
            assert(request::spaced(rest) =~= Seq::<u8>::empty());
        }
        lemma_blank_from_is(text, from + 1, end);
        assert forall|i: int| 0 <= i < rest.len() implies is_plain(#[trigger] rest[i]) by {
            assert(rest[i] == args[i + 1]);
        }
        lemma_words_of_spaced(longer, rest);
        assert(text.subrange(from + 1, end) =~= word);
        assert(seq![word] + rest =~= args);
    }
}

/// Spaced words hold neither blanks but their spaces nor line ends.
proof fn lemma_spaced_bytes(args: Seq<Seq<u8>>)
    requires
        forall|i: int| 0 <= i < args.len() ==> is_plain(#[trigger] args[i]),
    ensures
        forall|j: int| 0 <= j < request::spaced(args).len() ==> #[trigger] request::spaced(args)[j]
            >= 0x20,
    decreases args.len(),
{
    if args.len() > 0 {
        let rest = args.drop_first();
        assert forall|i: int| 0 <= i < rest.len() implies is_plain(#[trigger] rest[i]) by {
            assert(rest[i] == args[i + 1]);
        }
        lemma_spaced_bytes(rest);
        let text = request::spaced(args);
        assert(is_plain(args[0]));
        assert forall|j: int| 0 <= j < text.len() implies #[trigger] text[j] >= 0x20 by {
            if 0 < j <= args[0].len() {
                assert(text[j] == args[0][j - 1]);
            } else if j > args[0].len() {
                assert(text[j] == request::spaced(rest)[j - 1 - args[0].len()]);
            }
        }
    }
}

/// The words of a line that starts with a verb.
proof fn lemma_line_words(verb: Seq<u8>, args: Seq<Seq<u8>>)
    requires
        is_plain(verb),
        forall|i: int| 0 <= i < args.len() ==> is_plain(#[trigger] args[i]),
    ensures
        ({
            let line = verb + request::spaced(args) + CRLF.spec_bytes();
            &&& terminator::without_line_end(line) == Some(verb + request::spaced(args))
            &&& request_line::request_verb(line) == verb
            &&& request_line::request_words(line) == args
            &&& forall|j: int| 0 <= j < line.len() - 2 ==> #[trigger] line[j] >= 0x20
            &&& terminator::crlf_at(line, line.len() - 2)
        }),
{
    let body = verb + request::spaced(args);
    let line = body + CRLF.spec_bytes();
    terminator::lemma_dot_terminator();
    assert(line.subrange(0, line.len() - 2) =~= body);
    assert(terminator::crlf_at(line, line.len() - 2));
    if args.len() > 0 {
        assert(request::spaced(args)[0] == SPACE);
        assert(body[verb.len() as int] == SPACE);
    } else {
        assert(body =~= verb);
    }
    assert forall|j: int| 0 <= j < verb.len() implies !request_line::is_blank(#[trigger] body[j]) by {
        assert(body[j] == verb[j]);
    }
    lemma_blank_from_is(body, 0, verb.len() as int);
    assert(body.subrange(0, verb.len() as int) =~= verb);
    lemma_words_of_spaced(verb, args);
    lemma_spaced_bytes(args);
    assert forall|j: int| 0 <= j < line.len() - 2 implies #[trigger] line[j] >= 0x20 by {
        if j < verb.len() {
            assert(line[j] == verb[j]);
        } else {
            assert(line[j] == request::spaced(args)[j - verb.len()]);
        }
    }
}

/// Digits are plain, and so is a range of article numbers.
proof fn lemma_range_is_plain(text: Seq<u8>)
    requires
        values::is_article_range(text),
    ensures
        is_plain(text),
{
    let dash = bytes::find_byte(text, bytes::DASH, 0);
    bytes::lemma_find_byte(text, bytes::DASH, 0);
    assert forall|i: int| 0 <= i < text.len() implies #[trigger] text[i] > 0x20 by {
        if dash >= text.len() {
            assert(bytes::is_digit(text[i]));
        } else if i < dash {
            assert(bytes::is_digit(text.subrange(0, dash)[i]));
        } else if i > dash {
            assert(bytes::is_digit(text.subrange(dash + 1, text.len() as int)[i - dash - 1]));
        }
    }
    if dash < text.len() {
        assert(text.subrange(0, dash).len() > 0);
    }
}

proof fn lemma_message_id_is_plain(id: Seq<u8>)
    requires
        values::is_message_id(id),
    ensures
        is_plain(id),
{
    assert forall|i: int| 0 <= i < id.len() implies #[trigger] id[i] > 0x20 by {
        if 0 < i < id.len() - 1 {
            assert(values::is_graphic(id.subrange(1, id.len() - 1)[i - 1]));
        }
    }
}

proof fn lemma_selector_is_plain(text: Seq<u8>)
    requires
        values::is_article_selector(text),
    ensures
        is_plain(text),
{
    if values::is_article_range(text) {
        lemma_range_is_plain(text);
    } else {
        lemma_message_id_is_plain(text);
    }
}

proof fn lemma_wildmat_is_plain(text: Seq<u8>)
    requires
        values::is_wildmat(text),
    ensures
        is_plain(text),
{
    assert forall|i: int| 0 <= i < text.len() implies #[trigger] text[i] > 0x20 by {
        assert(values::is_pattern_byte(text[i]) || text[i] == bytes::COMMA || text[i]
            == bytes::BANG);
    }
}

proof fn lemma_digits_are_plain(text: Seq<u8>)
    requires
        text.len() > 0,
        bytes::all_digits(text),
    ensures
        is_plain(text),
{
    assert forall|i: int| 0 <= i < text.len() implies #[trigger] text[i] > 0x20 by {
        assert(bytes::is_digit(text[i]));
    }
}

/// The way an article is picked is what `ARTICLE` takes.
proof fn lemma_ref_args(article_ref: ArticleRef)
    requires
        request::is_valid_ref(article_ref),
    ensures
        request_line::is_article_args(request::ref_args(article_ref)),
        forall|i: int|
            0 <= i < request::ref_args(article_ref).len() ==> is_plain(
                #[trigger] request::ref_args(article_ref)[i],
            ),
{
    match article_ref {
        ArticleRef::Current => {},
        ArticleRef::Number(number) => {
            bytes::lemma_decimal(number as nat);
            lemma_digits_are_plain(bytes::decimal(number as nat));
        },
        ArticleRef::MessageId(id) => {
            lemma_message_id_is_plain(id@);
        },
    }
}

/// Every argument of a valid request is a plain word.
proof fn lemma_args_are_plain(sent: Request)
    requires
        request::is_valid(sent),
    ensures
        forall|i: int|
            0 <= i < request::args_of(sent).len() ==> is_plain(
                #[trigger] request::args_of(sent)[i],
            ),
{
    lemma_keywords();
    match sent {
        Request::Article { article_ref }
        | Request::Body { article_ref }
        | Request::Head { article_ref }
        | Request::Stat { article_ref } => {
            lemma_ref_args(article_ref);
        },
        Request::ListActive { wildmat }
        | Request::ListActiveTimes { wildmat }
        | Request::ListNewsgroups { wildmat } => {
            if wildmat is Some {
                lemma_wildmat_is_plain(wildmat->0@);
            }
        },
        Request::Group { name } => {
            assert forall|i: int| 0 <= i < name@.len() implies #[trigger] name@[i] > 0x20 by {
                assert(values::is_group_byte(name@[i]));
            }
        },
        Request::ListGroup { group, range } => {
            if group is Some {
                assert forall|i: int| 0 <= i < group->0@.len() implies #[trigger] group->0@[i]
                    > 0x20 by {
                    assert(values::is_group_byte(group->0@[i]));
                }
            }
            if range is Some {
                lemma_range_is_plain(range->0@);
            }
        },
        Request::NewGroups { date, time, .. } => {
            lemma_digits_are_plain(date@);
            lemma_digits_are_plain(time@);
        },
        Request::NewNews { wildmat, date, time, .. } => {
            lemma_wildmat_is_plain(wildmat@);
            lemma_digits_are_plain(date@);
            lemma_digits_are_plain(time@);
        },
        Request::Ihave { message_id } | Request::Check { message_id } | Request::TakeThis {
            message_id,
            ..
        } => {
            lemma_message_id_is_plain(message_id@);
        },
        Request::AuthInfoUser { value } | Request::AuthInfoPass { value } => {
            assert forall|i: int| 0 <= i < value@.len() implies #[trigger] value@[i] > 0x20 by {
                assert(value@[i] >= 0x21);
            }
        },
        Request::Over { selector } | Request::Xover { selector } => {
            lemma_selector_is_plain(selector@);
        },
        Request::Hdr { header, selector } | Request::Xhdr { header, selector } => {
            assert forall|i: int| 0 <= i < header@.len() implies #[trigger] header@[i] > 0x20 by {
                assert(values::is_graphic(header@[i]));
            }
            lemma_selector_is_plain(selector@);
        },
        _ => {},
    }
}

proof fn lemma_article(args: Seq<Seq<u8>>)
    ensures
        request_line::kind_for("ARTICLE".spec_bytes(), args) == request_line::kind_if(request_line::is_article_args(args), RequestKind::Article),
{
    lemma_verbs();
}

proof fn lemma_body(args: Seq<Seq<u8>>)
    ensures
        request_line::kind_for("BODY".spec_bytes(), args) == request_line::kind_if(request_line::is_article_args(args), RequestKind::Body),
{
    lemma_verbs();
}

proof fn lemma_head(args: Seq<Seq<u8>>)
    ensures
        request_line::kind_for("HEAD".spec_bytes(), args) == request_line::kind_if(request_line::is_article_args(args), RequestKind::Head),
{
    lemma_verbs();
}

proof fn lemma_stat(args: Seq<Seq<u8>>)
    ensures
        request_line::kind_for("STAT".spec_bytes(), args) == request_line::kind_if(request_line::is_article_args(args), RequestKind::Stat),
{
    lemma_verbs();
}

proof fn lemma_list(args: Seq<Seq<u8>>)
    ensures
        request_line::kind_for("LIST".spec_bytes(), args) == request_line::list_kind(args),
{
    lemma_verbs();
}

proof fn lemma_group(args: Seq<Seq<u8>>)
    ensures
        request_line::kind_for("GROUP".spec_bytes(), args) == request_line::kind_if(args.len() == 1 && values::is_group_name(args[0]), RequestKind::Group),
{
    lemma_verbs();
}

proof fn lemma_listgroup(args: Seq<Seq<u8>>)
    ensures
        request_line::kind_for("LISTGROUP".spec_bytes(), args) == request_line::kind_if(request_line::is_listgroup_args(args), RequestKind::ListGroup),
{
    lemma_verbs();
}

proof fn lemma_last(args: Seq<Seq<u8>>)
    ensures
        request_line::kind_for("LAST".spec_bytes(), args) == request_line::kind_if(args.len() == 0, RequestKind::Last),
{
    lemma_verbs();
}

proof fn lemma_next(args: Seq<Seq<u8>>)
    ensures
        request_line::kind_for("NEXT".spec_bytes(), args) == request_line::kind_if(args.len() == 0, RequestKind::Next),
{
    lemma_verbs();
}

proof fn lemma_newgroups(args: Seq<Seq<u8>>)
    ensures
        request_line::kind_for("NEWGROUPS".spec_bytes(), args) == request_line::kind_if(request_line::is_moment_args(args, 0), RequestKind::NewGroups),
{
    lemma_verbs();
}

proof fn lemma_newnews(args: Seq<Seq<u8>>)
    ensures
        request_line::kind_for("NEWNEWS".spec_bytes(), args) == request_line::kind_if(request_line::is_moment_args(args, 1) && values::is_wildmat(args[0]), RequestKind::NewNews),
{
    lemma_verbs();
}

proof fn lemma_post(args: Seq<Seq<u8>>)
    ensures
        request_line::kind_for("POST".spec_bytes(), args) == request_line::kind_if(args.len() == 0, RequestKind::Post),
{
    lemma_verbs();
}

proof fn lemma_ihave(args: Seq<Seq<u8>>)
    ensures
        request_line::kind_for("IHAVE".spec_bytes(), args) == request_line::kind_if(request_line::is_message_id_args(args), RequestKind::Ihave),
{
    lemma_verbs();
}

proof fn lemma_check(args: Seq<Seq<u8>>)
    ensures
        request_line::kind_for("CHECK".spec_bytes(), args) == request_line::kind_if(request_line::is_message_id_args(args), RequestKind::Check),
{
    lemma_verbs();
}

proof fn lemma_takethis(args: Seq<Seq<u8>>)
    ensures
        request_line::kind_for("TAKETHIS".spec_bytes(), args) == request_line::kind_if(request_line::is_message_id_args(args), RequestKind::TakeThis),
{
    lemma_verbs();
}

proof fn lemma_authinfo(args: Seq<Seq<u8>>)
    ensures
        request_line::kind_for("AUTHINFO".spec_bytes(), args) == request_line::authinfo_kind(args),
{
    lemma_verbs();
}

proof fn lemma_starttls(args: Seq<Seq<u8>>)
    ensures
        request_line::kind_for("STARTTLS".spec_bytes(), args) == request_line::kind_if(args.len() == 0, RequestKind::StartTls),
{
    lemma_verbs();
}

proof fn lemma_over(args: Seq<Seq<u8>>)
    ensures
        request_line::kind_for("OVER".spec_bytes(), args) == request_line::kind_if(request_line::is_selector_args(args), RequestKind::Over),
{
    lemma_verbs();
}

proof fn lemma_xover(args: Seq<Seq<u8>>)
    ensures
        request_line::kind_for("XOVER".spec_bytes(), args) == request_line::kind_if(request_line::is_selector_args(args), RequestKind::Xover),
{
    lemma_verbs();
}

proof fn lemma_hdr(args: Seq<Seq<u8>>)
    ensures
        request_line::kind_for("HDR".spec_bytes(), args) == request_line::kind_if(request_line::is_header_args(args), RequestKind::Hdr),
{
    lemma_verbs();
}

proof fn lemma_xhdr(args: Seq<Seq<u8>>)
    ensures
        request_line::kind_for("XHDR".spec_bytes(), args) == request_line::kind_if(request_line::is_header_args(args), RequestKind::Xhdr),
{
    lemma_verbs();
}

proof fn lemma_capabilities(args: Seq<Seq<u8>>)
    ensures
        request_line::kind_for("CAPABILITIES".spec_bytes(), args) == request_line::kind_if(args.len() == 0 || (args.len() == 1 && values::is_keyword(args[0])), RequestKind::Capabilities),
{
    lemma_verbs();
}

proof fn lemma_help(args: Seq<Seq<u8>>)
    ensures
        request_line::kind_for("HELP".spec_bytes(), args) == request_line::kind_if(args.len() == 0, RequestKind::Help),
{
    lemma_verbs();
}

proof fn lemma_date(args: Seq<Seq<u8>>)
    ensures
        request_line::kind_for("DATE".spec_bytes(), args) == request_line::kind_if(args.len() == 0, RequestKind::Date),
{
    lemma_verbs();
}

proof fn lemma_mode(args: Seq<Seq<u8>>)
    ensures
        request_line::kind_for("MODE".spec_bytes(), args) == request_line::kind_if(args.len() == 1 && bytes::is_word(args[0], "READER"), RequestKind::ModeReader),
{
    lemma_verbs();
}

proof fn lemma_quit(args: Seq<Seq<u8>>)
    ensures
        request_line::kind_for("QUIT".spec_bytes(), args) == request_line::kind_if(args.len() == 0, RequestKind::Quit),
{
    lemma_verbs();
}

/// A verb with the arguments of a request asks for the command that the request is.
proof fn lemma_kind(sent: Request)
    requires
        request::is_valid(sent),
        sent matches Request::ListGroup { group: Some(name), .. } ==> !values::looks_like_range(
            name@,
        ),
    ensures
        request_line::kind_for(request::verb_of(sent).spec_bytes(), request::args_of(sent))
            == request::kind_of(sent),
{
    let args = request::args_of(sent);
    match sent {
        Request::Article { article_ref } => {
            lemma_article(args);
            lemma_ref_args(article_ref);
        },
        Request::Body { article_ref } => {
            lemma_body(args);
            lemma_ref_args(article_ref);
        },
        Request::Head { article_ref } => {
            lemma_head(args);
            lemma_ref_args(article_ref);
        },
        Request::Stat { article_ref } => {
            lemma_stat(args);
            lemma_ref_args(article_ref);
        },
        Request::List
        | Request::ListActive { .. }
        | Request::ListActiveTimes { .. }
        | Request::ListNewsgroups { .. }
        | Request::ListOverviewFmt
        | Request::ListHeaders
        | Request::ListDistribPats => {
            lemma_list(args);
            lemma_keywords();
        },
        Request::Group { .. } => lemma_group(args),
        Request::ListGroup { group, range } => {
            lemma_listgroup(args);
            if group is None && range is Some {
                lemma_range_looks_like_one(range->0@);
            }
        },
        Request::Last => lemma_last(args),
        Request::Next => lemma_next(args),
        Request::NewGroups { .. } => lemma_newgroups(args),
        Request::NewNews { .. } => lemma_newnews(args),
        Request::Post => lemma_post(args),
        Request::Ihave { .. } => lemma_ihave(args),
        Request::Check { .. } => lemma_check(args),
        Request::TakeThis { .. } => lemma_takethis(args),
        Request::AuthInfoUser { .. } | Request::AuthInfoPass { .. } => {
            lemma_authinfo(args);
            lemma_keywords();
        },
        Request::StartTls => lemma_starttls(args),
        Request::Over { .. } => lemma_over(args),
        Request::Xover { .. } => lemma_xover(args),
        Request::Hdr { .. } => lemma_hdr(args),
        Request::Xhdr { .. } => lemma_xhdr(args),
        Request::Help => lemma_help(args),
        Request::Capabilities => lemma_capabilities(args),
        Request::Date => lemma_date(args),
        Request::ModeReader => lemma_mode(args),
        Request::Quit => lemma_quit(args),
    }
}

/// A range is made of digits and dashes.
proof fn lemma_range_looks_like_one(text: Seq<u8>)
    requires
        values::is_article_range(text),
    ensures
        values::looks_like_range(text),
{
    let dash = bytes::find_byte(text, bytes::DASH, 0);
    bytes::lemma_find_byte(text, bytes::DASH, 0);
    assert forall|i: int| 0 <= i < text.len() implies bytes::is_digit(#[trigger] text[i]) || text[i]
        == bytes::DASH by {
        if dash >= text.len() {
            assert(bytes::is_digit(text[i]));
        } else if i < dash {
            assert(bytes::is_digit(text.subrange(0, dash)[i]));
        } else if i > dash {
            assert(bytes::is_digit(text.subrange(dash + 1, text.len() as int)[i - dash - 1]));
        }
    }
}

proof fn lemma_verb_is_plain(sent: Request)
    ensures
        is_plain(request::verb_of(sent).spec_bytes()),
{
    lemma_verbs();
}

/// The line of a valid request is read as the command that the request is, with its words. A
/// group name of digits and dashes is left out: `LISTGROUP` takes it for a range.
pub proof fn law_request_reads_back(sent: Request)
    requires
        request::is_valid(sent),
        sent matches Request::ListGroup { group: Some(name), .. } ==> !values::looks_like_range(
            name@,
        ),
    ensures
        request_line::request_kind(request::line_of(sent)) == request::kind_of(sent),
        request_line::request_verb(request::line_of(sent)) == request::verb_of(sent).spec_bytes(),
        request_line::request_words(request::line_of(sent)) == request::args_of(sent),
{
    lemma_kind(sent);
    lemma_verb_is_plain(sent);
    lemma_args_are_plain(sent);
    lemma_line_words(request::verb_of(sent).spec_bytes(), request::args_of(sent));
}

/// A request that picks its article by a message-id is read with that message-id.
pub proof fn law_message_id_reads_back(sent: Request, article_ref: ArticleRef)
    requires
        request::is_valid(sent),
        sent == (Request::Article { article_ref }) || sent == (Request::Body { article_ref })
            || sent == (Request::Head { article_ref }) || sent == (Request::Stat { article_ref }),
        article_ref is MessageId,
    ensures
        request_line::request_message_id(request::line_of(sent)) == Some(
            article_ref->MessageId_0@,
        ),
{
    law_request_reads_back(sent);
}

/// A text ends as its dot-stuffed form does.
proof fn lemma_stuffed_end(article: Seq<u8>)
    requires
        article.len() > 0,
    ensures
        request::stuffed(article).len() >= article.len(),
        request::stuffed(article).last() == article.last(),
        terminator::crlf_at(request::stuffed(article), request::stuffed(article).len() - 2)
            == terminator::crlf_at(article, article.len() - 2),
    decreases article.len(),
{
    let shorter = article.drop_last();
    if shorter.len() > 0 {
        lemma_stuffed_end(shorter);
        assert(shorter.last() == article[article.len() - 2]);
    } else {
        assert(request::stuffed(shorter) =~= Seq::<u8>::empty());
    }
}

/// In a dot-stuffed text a line that starts with a dot goes on with another.
proof fn lemma_stuffed_lines(article: Seq<u8>)
    ensures
        forall|i: int|
            0 <= i < request::stuffed(article).len() && #[trigger] request::stuffed(article)[i]
                == DOT && terminator::line_starts_at(request::stuffed(article), 0, i) ==> i + 1
                < request::stuffed(article).len() && request::stuffed(article)[i + 1] == DOT,
    decreases article.len(),
{
    if article.len() > 0 {
        let shorter = article.drop_last();
        let before = request::stuffed(shorter);
        let text = request::stuffed(article);
        lemma_stuffed_lines(shorter);
        if shorter.len() > 0 {
            lemma_stuffed_end(shorter);
        } else {
            assert(before =~= Seq::<u8>::empty());
        }
        assert forall|i: int|
            0 <= i < text.len() && #[trigger] text[i] == DOT && terminator::line_starts_at(
                text,
                0,
                i,
            ) implies i + 1 < text.len() && text[i + 1] == DOT by {
            if i < before.len() {
                assert(text[i] == before[i]);
                if i >= 2 {
                    assert(text[i - 2] == before[i - 2] && text[i - 1] == before[i - 1]);
                }
                assert(terminator::line_starts_at(before, 0, i));
                assert(before[i + 1] == DOT);
            } else if i == before.len() {
                assert(article.last() == DOT);
                if i >= 2 {
                    assert(text[i - 2] == before[i - 2] && text[i - 1] == before[i - 1]);
                    assert(terminator::crlf_at(before, before.len() - 2));
                }
                if shorter.len() > 0 {
                    assert(terminator::crlf_at(shorter, shorter.len() - 2));
                    assert(article[article.len() - 3] == shorter[shorter.len() - 2]);
                    assert(article[article.len() - 2] == shorter[shorter.len() - 1]);
                }
                assert(terminator::line_starts_at(article, 0, article.len() - 1));
            } else {
                assert(text[i - 1] == DOT);
            }
        }
    }
}

/// The article behind `TAKETHIS` ends exactly where its block is found to end, whatever lines it
/// holds.
pub proof fn law_stuffed_block_ends_once(article: Seq<u8>)
    ensures
        terminator::block_end(terminator::terminated(request::stuffed(article)), 0) == Some(
            terminator::terminated(request::stuffed(article)).len() as int,
        ),
{
    let text = request::stuffed(article);
    let lines = terminator::whole_lines(text);
    let block = terminator::terminated(text);
    let len = block.len() as int;
    terminator::lemma_dot_terminator();
    lemma_stuffed_lines(article);
    assert(block =~= lines + seq![DOT, CR, LF]);
    assert(lines.len() >= 2 && terminator::crlf_at(lines, lines.len() - 2)) by {
        if bytes::ends_with(text, CRLF.spec_bytes()) {
            assert(text.subrange(text.len() - 2, text.len() as int)[0] == CR);
            assert(text.subrange(text.len() - 2, text.len() as int)[1] == LF);
        } else {
            assert(lines =~= text + seq![CR, LF]);
        }
    }
    assert(block[len - 5] == CR && block[len - 4] == LF);
    assert(terminator::dot_line_ends_at(block, 0, len));
    assert forall|e: int| 0 <= e < len implies !terminator::dot_line_ends_at(block, 0, e) by {
        if terminator::dot_line_ends_at(block, 0, e) {
            assert(block[e - 3] == DOT && block[e - 2] == CR);
            assert(e - 3 < text.len()) by {
                if e - 3 >= text.len() {
                    assert(e - 3 < lines.len());
                    assert(lines[e - 3] == CR || lines[e - 3] == LF);
                }
            }
            assert(text[e - 3] == block[e - 3]);
            if e - 3 >= 2 {
                assert(text[e - 5] == block[e - 5] && text[e - 4] == block[e - 4]);
            }
            assert(terminator::line_starts_at(text, 0, e - 3));
            assert(text[e - 2] == DOT);
            assert(block[e - 2] == text[e - 2]);
        }
    }
    terminator::lemma_block_end_is(block, 0, len);
}

/// A text without the first dot of each line that starts with one.
pub open spec fn unstuffed(text: Seq<u8>) -> Seq<u8>
    decreases text.len(),
{
    if text.len() == 0 {
        Seq::empty()
    } else if text.last() == DOT && terminator::line_starts_at(text, 0, text.len() - 1) {
        unstuffed(text.drop_last())
    } else {
        unstuffed(text.drop_last()).push(text.last())
    }
}

/// Taking the dots off again gives the article back.
pub proof fn law_unstuffing_undoes_stuffing(article: Seq<u8>)
    ensures
        unstuffed(request::stuffed(article)) == article,
    decreases article.len(),
{
    if article.len() > 0 {
        let shorter = article.drop_last();
        let before = request::stuffed(shorter);
        let text = request::stuffed(article);
        law_unstuffing_undoes_stuffing(shorter);
        if shorter.len() > 0 {
            lemma_stuffed_end(shorter);
            assert(terminator::crlf_at(article, article.len() - 3) == terminator::crlf_at(
                shorter,
                shorter.len() - 2,
            )) by {
                if shorter.len() >= 2 {
                    assert(article[article.len() - 3] == shorter[shorter.len() - 2]);
                    assert(article[article.len() - 2] == shorter[shorter.len() - 1]);
                }
            }
        } else {
            assert(before =~= Seq::<u8>::empty());
        }
        let once = before.push(article.last());
        assert(once.drop_last() =~= before);
        assert(terminator::line_starts_at(once, 0, before.len() as int)
            == terminator::line_starts_at(article, 0, article.len() - 1)) by {
            if before.len() >= 2 {
                assert(once[before.len() - 2] == before[before.len() - 2]);
                assert(once[before.len() - 1] == before[before.len() - 1]);
            }
        }
        if article.last() == DOT && terminator::line_starts_at(article, 0, article.len() - 1) {
            assert(text.drop_last() =~= once);
            assert(text[text.len() - 2] == DOT);
            assert(!terminator::line_starts_at(text, 0, text.len() - 1));
            assert(unstuffed(once) == unstuffed(before));
            assert(unstuffed(text) == unstuffed(once).push(DOT));
        } else {
            assert(text =~= once);
            assert(unstuffed(once) == unstuffed(before).push(article.last()));
        }
        assert(shorter.push(article.last()) =~= article);
    } else {
        assert(unstuffed(request::stuffed(article)) =~= article);
    }
}

/// A block that follows some text ends where it does alone.
proof fn lemma_block_behind(prefix: Seq<u8>, block: Seq<u8>)
    requires
        terminator::block_end(block, 0) == Some(block.len() as int),
    ensures
        terminator::block_end(prefix + block, prefix.len() as int) == Some(
            (prefix + block).len() as int,
        ),
{
    let both = prefix + block;
    let start = prefix.len() as int;
    terminator::lemma_block_end(block, 0, 0);
    assert forall|e: int| start <= e <= both.len() implies terminator::dot_line_ends_at(
        both,
        start,
        e,
    ) == terminator::dot_line_ends_at(block, 0, e - start) by {
        assert forall|j: int| start <= j < both.len() implies both[j] == block[j - start] by {}
    }
    terminator::lemma_block_end_is(both, start, start + block.len());
}

/// The line of a valid request ends at its line end, whatever follows.
proof fn lemma_line_behind_verb(sent: Request, tail: Seq<u8>)
    requires
        request::is_valid(sent),
    ensures
        ({
            let line = request::line_of(sent);
            &&& terminator::line_status(line + tail, 0) == ResponseLineStatus::CompleteAt(
                line.len() as usize,
            )
            &&& (line + tail).subrange(0, line.len() as int) == line
        }),
{
    let line = request::line_of(sent);
    let text = line + tail;
    lemma_verb_is_plain(sent);
    lemma_args_are_plain(sent);
    lemma_line_words(request::verb_of(sent).spec_bytes(), request::args_of(sent));
    assert(text.subrange(0, line.len() as int) =~= line);
    assert forall|j: int| 0 <= j < line.len() - 2 implies #[trigger] text[j] >= 0x20 by {
        assert(text[j] == line[j]);
    }
    assert(text[line.len() - 2] == line[line.len() - 2]);
    assert(text[line.len() - 1] == line[line.len() - 1]);
    terminator::lemma_line_status_is(text, 0, line.len() - 2);
}

/// Where the request that a line starts ends.
proof fn lemma_next_request(line: Seq<u8>, tail: Seq<u8>, kind: RequestKind)
    requires
        terminator::line_status(line + tail, 0) == ResponseLineStatus::CompleteAt(
            line.len() as usize,
        ),
        (line + tail).subrange(0, line.len() as int) == line,
        request_line::request_kind(line) == kind,
        line.len() <= usize::MAX,
    ensures
        kind != RequestKind::TakeThis ==> batch::next_request(line + tail, 0) == Some(
            (line.len() as int, line.len() as int),
        ),
        kind == RequestKind::TakeThis && terminator::block_end(line + tail, line.len() as int)
            is Some ==> batch::next_request(line + tail, 0) == Some(
            (line.len() as int, terminator::block_end(line + tail, line.len() as int)->0),
        ),
{
}

/// The bytes of a valid request are one request to the reader of batches: its line, and nothing
/// of what is sent after it.
pub proof fn law_wire_is_one_request(sent: Request)
    requires
        request::is_valid(sent),
        sent matches Request::ListGroup { group: Some(name), .. } ==> !values::looks_like_range(
            name@,
        ),
        request::wire_of(sent).len() <= usize::MAX,
    ensures
        batch::next_request(request::wire_of(sent), 0) == Some(
            (request::line_of(sent).len() as int, request::wire_of(sent).len() as int),
        ),
{
    let line = request::line_of(sent);
    law_request_reads_back(sent);
    match sent {
        Request::TakeThis { article, .. } => {
            let block = terminator::terminated(request::stuffed(article@));
            lemma_line_behind_verb(sent, block);
            law_stuffed_block_ends_once(article@);
            lemma_block_behind(line, block);
            lemma_next_request(line, block, RequestKind::TakeThis);
        },
        _ => {
            lemma_line_behind_verb(sent, Seq::empty());
            assert(line + Seq::<u8>::empty() =~= line);
            lemma_next_request(line, Seq::empty(), request::kind_of(sent));
        },
    }
}

/// The bytes of some requests, one behind the other.
pub open spec fn wires(sent: Seq<Request>) -> Seq<u8>
    decreases sent.len(),
{
    if sent.len() == 0 {
        Seq::empty()
    } else {
        request::wire_of(sent[0]) + wires(sent.drop_first())
    }
}

/// The lines of some requests.
pub open spec fn lines_of(sent: Seq<Request>) -> Seq<Seq<u8>> {
    Seq::new(sent.len(), |i: int| request::line_of(sent[i]))
}

/// Valid requests that are sent one behind the other are read as these requests, in their order, up
/// to the last byte.
pub proof fn law_pipelined_requests_read_back(sent: Seq<Request>)
    requires
        forall|i: int| 0 <= i < sent.len() ==> request::is_valid(#[trigger] sent[i]),
        forall|i: int|
            0 <= i < sent.len() ==> (#[trigger] sent[i] matches Request::ListGroup {
                group: Some(name),
                ..
            } ==> !values::looks_like_range(name@)),
        wires(sent).len() <= usize::MAX,
    ensures
        batch::batch_lines(wires(sent), 0, sent.len()) == lines_of(sent),
        batch::batch_end(wires(sent), 0, sent.len()) == wires(sent).len(),
    decreases sent.len(),
{
    if sent.len() == 0 {
        assert(lines_of(sent) =~= Seq::<Seq<u8>>::empty());
    } else {
        let rest = sent.drop_first();
        let wire = request::wire_of(sent[0]);
        let line = request::line_of(sent[0]);
        let input = wires(sent);
        assert forall|i: int| 0 <= i < rest.len() implies request::is_valid(#[trigger] rest[i]) by {
            assert(rest[i] == sent[i + 1]);
        }
        assert forall|i: int| 0 <= i < rest.len() implies (#[trigger] rest[i] matches Request::ListGroup {
            group: Some(name),
            ..
        } ==> !values::looks_like_range(name@)) by {
            assert(rest[i] == sent[i + 1]);
        }
        law_wire_is_one_request(sent[0]);
        law_pipelined_requests_read_back(rest);
        batch::lemma_next_request_grows(wire, wires(rest), 0);
        batch::law_requests_do_not_depend_on_what_came_before(wire, wires(rest), 0, rest.len());
        assert(wire.subrange(0, line.len() as int) =~= line) by {
            assert(line.len() <= wire.len());
        }
        assert(input.subrange(0, line.len() as int) =~= line);
        assert(seq![line] + lines_of(rest) =~= lines_of(sent));
    }
}

/// Each verb with the arguments that the protocol has for it is its command, and with others it is
/// none.
#[verifier::spinoff_prover]
pub proof fn law_commands_take_their_arguments(args: Seq<Seq<u8>>)
    ensures
        ({
            let none = args.len() == 0;
            let retrieves = none || (args.len() == 1 && (values::is_article_number(args[0])
                || values::is_message_id(args[0])));
            let message_id = args.len() == 1 && values::is_message_id(args[0]);
            let selector = none || (args.len() == 1 && (values::is_article_range(args[0])
                || values::is_message_id(args[0])));
            &&& takes("ARTICLE", args, RequestKind::Article, retrieves)
            &&& takes("HEAD", args, RequestKind::Head, retrieves)
            &&& takes("BODY", args, RequestKind::Body, retrieves)
            &&& takes("STAT", args, RequestKind::Stat, retrieves)
            &&& takes("LAST", args, RequestKind::Last, none)
            &&& takes("NEXT", args, RequestKind::Next, none)
            &&& takes("POST", args, RequestKind::Post, none)
            &&& takes("STARTTLS", args, RequestKind::StartTls, none)
            &&& takes("HELP", args, RequestKind::Help, none)
            &&& takes("DATE", args, RequestKind::Date, none)
            &&& takes("QUIT", args, RequestKind::Quit, none)
            &&& takes("IHAVE", args, RequestKind::Ihave, message_id)
            &&& takes("CHECK", args, RequestKind::Check, message_id)
            &&& takes("TAKETHIS", args, RequestKind::TakeThis, message_id)
            &&& takes("OVER", args, RequestKind::Over, selector)
            &&& takes("XOVER", args, RequestKind::Xover, selector)
            &&& takes(
                "GROUP",
                args,
                RequestKind::Group,
                args.len() == 1 && values::is_group_name(args[0]),
            )
        }),
{
    lemma_article(args);
    lemma_head(args);
    lemma_body(args);
    lemma_stat(args);
    lemma_last(args);
    lemma_next(args);
    lemma_post(args);
    lemma_starttls(args);
    lemma_help(args);
    lemma_date(args);
    lemma_quit(args);
    lemma_ihave(args);
    lemma_check(args);
    lemma_takethis(args);
    lemma_over(args);
    lemma_xover(args);
    lemma_group(args);
}

/// The verb with these arguments is this command where they are right, and none where they are not.
pub open spec fn takes(verb: &str, args: Seq<Seq<u8>>, kind: RequestKind, right: bool) -> bool {
    request_line::kind_for(verb.spec_bytes(), args) == (if right {
        kind
    } else {
        RequestKind::Unknown
    })
}

/// `HDR` and `XHDR` take a header and a selector or none, `LISTGROUP` a group and a range, each of
/// which may be left out, `NEWGROUPS` a date and a time, and `NEWNEWS` a wildmat before these.
#[verifier::spinoff_prover]
pub proof fn law_queries_take_their_arguments(args: Seq<Seq<u8>>)
    ensures
        ({
            let header = (args.len() == 1 || (args.len() == 2 && (values::is_article_range(args[1])
                || values::is_message_id(args[1])))) && values::is_header_name(args[0]);
            let group = args.len() > 0 && !values::looks_like_range(args[0])
                && values::is_group_name(args[0]);
            &&& takes("HDR", args, RequestKind::Hdr, header)
            &&& takes("XHDR", args, RequestKind::Xhdr, header)
            &&& takes(
                "LISTGROUP",
                args,
                RequestKind::ListGroup,
                args.len() == 0 || (args.len() == 1 && (group || (values::looks_like_range(args[0])
                    && values::is_article_range(args[0])))) || (args.len() == 2 && group
                    && values::is_article_range(args[1])),
            )
            &&& takes(
                "NEWGROUPS",
                args,
                RequestKind::NewGroups,
                (args.len() == 2 || (args.len() == 3 && bytes::same_letters(
                    args[2],
                    "GMT".spec_bytes(),
                ))) && values::is_nntp_date(args[0]) && values::is_nntp_time(args[1]),
            )
            &&& takes(
                "NEWNEWS",
                args,
                RequestKind::NewNews,
                (args.len() == 3 || (args.len() == 4 && bytes::same_letters(
                    args[3],
                    "GMT".spec_bytes(),
                ))) && values::is_wildmat(args[0]) && values::is_nntp_date(args[1])
                    && values::is_nntp_time(args[2]),
            )
        }),
{
    lemma_hdr(args);
    lemma_xhdr(args);
    lemma_listgroup(args);
    lemma_newgroups(args);
    lemma_newnews(args);
}

/// `LIST` takes a keyword, and behind some keywords a wildmat. It may stand alone.
#[verifier::spinoff_prover]
pub proof fn law_list_takes_a_keyword(keyword: Seq<u8>, wildmat: Seq<u8>)
    ensures
        ({
            let alone = seq![keyword];
            let both = seq![keyword, wildmat];
            let right = values::is_wildmat(wildmat);
            &&& takes("LIST", Seq::empty(), RequestKind::List, true)
            &&& bytes::same_letters(keyword, "ACTIVE".spec_bytes()) ==> takes(
                "LIST",
                alone,
                RequestKind::ListActive,
                true,
            ) && takes("LIST", both, RequestKind::ListActive, right)
            &&& bytes::same_letters(keyword, "ACTIVE.TIMES".spec_bytes()) ==> takes(
                "LIST",
                alone,
                RequestKind::ListActiveTimes,
                true,
            ) && takes("LIST", both, RequestKind::ListActiveTimes, right)
            &&& bytes::same_letters(keyword, "NEWSGROUPS".spec_bytes()) ==> takes(
                "LIST",
                alone,
                RequestKind::ListNewsgroups,
                true,
            ) && takes("LIST", both, RequestKind::ListNewsgroups, right)
        }),
{
    let none = Seq::<Seq<u8>>::empty();
    let alone = seq![keyword];
    let both = seq![keyword, wildmat];
    lemma_list(none);
    lemma_list(alone);
    lemma_list(both);
    assert(alone[0] == keyword && both[0] == keyword && both[1] == wildmat);
    lemma_keywords();
}

/// `AUTHINFO` takes a keyword and a value.
#[verifier::spinoff_prover]
pub proof fn law_authinfo_takes_a_keyword_and_a_value(keyword: Seq<u8>, value: Seq<u8>)
    ensures
        ({
            let alone = seq![keyword];
            let both = seq![keyword, value];
            let right = values::is_auth_value(value);
            &&& bytes::same_letters(keyword, "USER".spec_bytes()) ==> takes(
                "AUTHINFO",
                both,
                RequestKind::AuthInfoUser,
                right,
            ) && takes("AUTHINFO", alone, RequestKind::AuthInfoUser, false)
            &&& bytes::same_letters(keyword, "PASS".spec_bytes()) ==> takes(
                "AUTHINFO",
                both,
                RequestKind::AuthInfoPass,
                right,
            ) && takes("AUTHINFO", alone, RequestKind::AuthInfoPass, false)
        }),
{
    let alone = seq![keyword];
    let both = seq![keyword, value];
    lemma_authinfo(alone);
    lemma_authinfo(both);
    assert(alone[0] == keyword && both[0] == keyword && both[1] == value);
    lemma_keywords();
    if bytes::same_letters(keyword, "PASS".spec_bytes()) {
        assert(bytes::lower(keyword[0]) == bytes::lower("PASS".spec_bytes()[0]));
        assert(bytes::same_letters(keyword, "USER".spec_bytes()) ==> bytes::lower(keyword[0])
            == bytes::lower("USER".spec_bytes()[0]));
    }
}

/// `MODE` takes only its one keyword, and `CAPABILITIES` any keyword or none.
#[verifier::spinoff_prover]
pub proof fn law_mode_and_capabilities_take_keywords(keyword: Seq<u8>)
    ensures
        takes(
            "MODE",
            seq![keyword],
            RequestKind::ModeReader,
            bytes::same_letters(keyword, "READER".spec_bytes()),
        ),
        takes(
            "CAPABILITIES",
            seq![keyword],
            RequestKind::Capabilities,
            values::is_keyword(keyword),
        ),
        takes("CAPABILITIES", Seq::empty(), RequestKind::Capabilities, true),
{
    let none = Seq::<Seq<u8>>::empty();
    let alone = seq![keyword];
    lemma_mode(alone);
    lemma_capabilities(alone);
    lemma_capabilities(none);
    assert(alone[0] == keyword);
}

/// The other keywords of `LIST` take no wildmat: `HEADERS` takes one of its own two words, and the
/// others stand alone. Any other keyword is unknown, and so is a third word.
#[verifier::spinoff_prover]
pub proof fn law_list_takes_no_other_words(args: Seq<Seq<u8>>)
    requires
        args.len() > 0,
    ensures
        ({
            let first = args[0];
            let headers = args.len() == 1 || (args.len() == 2 && (bytes::same_letters(
                args[1],
                "MSGID".spec_bytes(),
            ) || bytes::same_letters(args[1], "RANGE".spec_bytes())));
            &&& bytes::same_letters(first, "OVERVIEW.FMT".spec_bytes()) ==> takes(
                "LIST",
                args,
                RequestKind::ListOverviewFmt,
                args.len() == 1,
            )
            &&& bytes::same_letters(first, "DISTRIB.PATS".spec_bytes()) ==> takes(
                "LIST",
                args,
                RequestKind::ListDistribPats,
                args.len() == 1,
            )
            &&& bytes::same_letters(first, "HEADERS".spec_bytes()) ==> takes(
                "LIST",
                args,
                RequestKind::ListHeaders,
                headers,
            )
            &&& args.len() > 2 ==> takes("LIST", args, RequestKind::List, false)
            &&& first.len() != 6 && first.len() != 7 && first.len() != 10 && first.len() != 12
                ==> takes("LIST", args, RequestKind::List, false)
        }),
{
    lemma_list(args);
    lemma_keywords();
    let first = args[0];
    if bytes::same_letters(first, "OVERVIEW.FMT".spec_bytes()) {
        assert(bytes::lower(first[0]) == 111);
    }
    if bytes::same_letters(first, "DISTRIB.PATS".spec_bytes()) {
        assert(bytes::lower(first[0]) == 100);
    }
    if bytes::same_letters(first, "ACTIVE.TIMES".spec_bytes()) {
        assert(bytes::lower(first[0]) == 97);
    }
}

/// `AUTHINFO SASL` takes the name of a mechanism, and behind it a response. No other keyword than
/// `USER`, `PASS` and `SASL` is known, and none stands alone.
#[verifier::spinoff_prover]
pub proof fn law_authinfo_takes_a_mechanism(args: Seq<Seq<u8>>)
    ensures
        args.len() < 2 || args.len() > 3 ==> takes("AUTHINFO", args, RequestKind::AuthInfo, false),
        args.len() > 0 && bytes::same_letters(args[0], "SASL".spec_bytes()) ==> takes(
            "AUTHINFO",
            args,
            RequestKind::AuthInfo,
            (args.len() == 2 || (args.len() == 3 && values::is_sasl_response(args[2])))
                && values::is_sasl_mechanism(args[1]),
        ),
        args.len() > 0 && args[0].len() != 4 ==> takes("AUTHINFO", args, RequestKind::AuthInfo, false),
{
    lemma_authinfo(args);
    lemma_keywords();
    if args.len() > 0 && bytes::same_letters(args[0], "SASL".spec_bytes()) {
        assert(bytes::lower(args[0][0]) == 115);
        if bytes::same_letters(args[0], "USER".spec_bytes()) {
            assert(bytes::lower(args[0][0]) == 117);
        }
        if bytes::same_letters(args[0], "PASS".spec_bytes()) {
            assert(bytes::lower(args[0][0]) == 112);
        }
    }
}

/// The message-id of a line is its one argument, for the commands about an article or an overview of
/// one. The queries of a header give none, and neither does another argument.
pub proof fn law_message_id_of_a_line(line: Seq<u8>)
    ensures
        request_line::request_message_id(line) matches Some(id) ==> {
            &&& values::is_message_id(id)
            &&& request_line::request_words(line) == seq![id]
        },
        request_line::request_kind(line) == RequestKind::Hdr || request_line::request_kind(line)
            == RequestKind::Xhdr || request_line::request_kind(line) == RequestKind::Unknown
            ==> request_line::request_message_id(line) is None,
        request_line::request_kind(line) == RequestKind::Ihave || request_line::request_kind(line)
            == RequestKind::Check || request_line::request_kind(line) == RequestKind::TakeThis
            ==> request_line::request_message_id(line) is Some,
        forall|id: Seq<u8>|
            #[trigger] values::is_message_id(id) && request_line::request_words(line) == seq![id] && (
            request_line::request_kind(line) == RequestKind::Article || request_line::request_kind(
                line,
            ) == RequestKind::Body || request_line::request_kind(line) == RequestKind::Head
                || request_line::request_kind(line) == RequestKind::Stat
                || request_line::request_kind(line) == RequestKind::Over
                || request_line::request_kind(line) == RequestKind::Xover)
                ==> request_line::request_message_id(line) == Some(id),
{
    let words = request_line::request_words(line);
    if let Some(id) = request_line::request_message_id(line) {
        assert(words =~= seq![id]);
    }
}

/// A verb is known exactly where some words behind it make a command.
pub proof fn law_known_verbs_start_commands(
    verb: Seq<u8>,
    name: Seq<u8>,
    id: Seq<u8>,
    wildmat: Seq<u8>,
    date: Seq<u8>,
    time: Seq<u8>,
)
    requires
        values::is_group_name(name) && values::is_header_name(name) && values::is_auth_value(name),
        values::is_message_id(id),
        values::is_wildmat(wildmat),
        values::is_nntp_date(date) && values::is_nntp_time(time),
    ensures
        commands::is_known_verb(verb) <==> {
            ||| request_line::kind_for(verb, Seq::empty()) != RequestKind::Unknown
            ||| request_line::kind_for(verb, seq![name]) != RequestKind::Unknown
            ||| request_line::kind_for(verb, seq![id]) != RequestKind::Unknown
            ||| request_line::kind_for(verb, seq!["READER".spec_bytes()]) != RequestKind::Unknown
            ||| request_line::kind_for(verb, seq!["USER".spec_bytes(), name])
                != RequestKind::Unknown
            ||| request_line::kind_for(verb, seq![date, time]) != RequestKind::Unknown
            ||| request_line::kind_for(verb, seq![wildmat, date, time]) != RequestKind::Unknown
        },
{
    let none = Seq::<Seq<u8>>::empty();
    let words = seq![name];
    let ids = seq![id];
    let reader = seq!["READER".spec_bytes()];
    let user = seq!["USER".spec_bytes(), name];
    let moment = seq![date, time];
    let news = seq![wildmat, date, time];
    lemma_unknown_verb(verb, none);
    lemma_unknown_verb(verb, words);
    lemma_unknown_verb(verb, ids);
    lemma_unknown_verb(verb, reader);
    lemma_unknown_verb(verb, user);
    lemma_unknown_verb(verb, moment);
    lemma_unknown_verb(verb, news);
    if commands::is_known_verb(verb) {
        lemma_plain_verbs(verb);
        lemma_argument_verbs(verb, name, id);
        lemma_keyword_verbs(verb, name);
        lemma_moment_verbs(verb, wildmat, date, time);
    }
}

proof fn lemma_unknown_verb(verb: Seq<u8>, args: Seq<Seq<u8>>)
    ensures
        request_line::kind_for(verb, args) != RequestKind::Unknown ==> commands::is_known_verb(verb),
{
    if request_line::kind_for(verb, args) != RequestKind::Unknown {
        commands::law_commands_have_known_verbs(verb, args);
    }
}

#[verifier::spinoff_prover]
proof fn lemma_plain_verbs(verb: Seq<u8>)
    ensures
        bytes::is_word(verb, "ARTICLE") ==> request_line::kind_for(verb, Seq::empty()) != RequestKind::Unknown,
        bytes::is_word(verb, "BODY") ==> request_line::kind_for(verb, Seq::empty()) != RequestKind::Unknown,
        bytes::is_word(verb, "HEAD") ==> request_line::kind_for(verb, Seq::empty()) != RequestKind::Unknown,
        bytes::is_word(verb, "STAT") ==> request_line::kind_for(verb, Seq::empty()) != RequestKind::Unknown,
        bytes::is_word(verb, "LAST") ==> request_line::kind_for(verb, Seq::empty()) != RequestKind::Unknown,
        bytes::is_word(verb, "NEXT") ==> request_line::kind_for(verb, Seq::empty()) != RequestKind::Unknown,
        bytes::is_word(verb, "POST") ==> request_line::kind_for(verb, Seq::empty()) != RequestKind::Unknown,
        bytes::is_word(verb, "STARTTLS") ==> request_line::kind_for(verb, Seq::empty()) != RequestKind::Unknown,
        bytes::is_word(verb, "HELP") ==> request_line::kind_for(verb, Seq::empty()) != RequestKind::Unknown,
        bytes::is_word(verb, "DATE") ==> request_line::kind_for(verb, Seq::empty()) != RequestKind::Unknown,
        bytes::is_word(verb, "QUIT") ==> request_line::kind_for(verb, Seq::empty()) != RequestKind::Unknown,
        bytes::is_word(verb, "OVER") ==> request_line::kind_for(verb, Seq::empty()) != RequestKind::Unknown,
        bytes::is_word(verb, "XOVER") ==> request_line::kind_for(verb, Seq::empty()) != RequestKind::Unknown,
        bytes::is_word(verb, "LIST") ==> request_line::kind_for(verb, Seq::empty()) != RequestKind::Unknown,
        bytes::is_word(verb, "LISTGROUP") ==> request_line::kind_for(verb, Seq::empty()) != RequestKind::Unknown,
        bytes::is_word(verb, "CAPABILITIES") ==> request_line::kind_for(verb, Seq::empty()) != RequestKind::Unknown,
{
    let none = Seq::<Seq<u8>>::empty();
    law_commands_take_their_arguments(none);
    law_queries_take_their_arguments(none);
    law_mode_and_capabilities_take_keywords(Seq::empty());
    law_list_takes_a_keyword(Seq::empty(), Seq::empty());
    if bytes::is_word(verb, "ARTICLE") {
        request_line::law_verbs_ignore_case(verb, "ARTICLE".spec_bytes(), none);
    }
    if bytes::is_word(verb, "BODY") {
        request_line::law_verbs_ignore_case(verb, "BODY".spec_bytes(), none);
    }
    if bytes::is_word(verb, "HEAD") {
        request_line::law_verbs_ignore_case(verb, "HEAD".spec_bytes(), none);
    }
    if bytes::is_word(verb, "STAT") {
        request_line::law_verbs_ignore_case(verb, "STAT".spec_bytes(), none);
    }
    if bytes::is_word(verb, "LAST") {
        request_line::law_verbs_ignore_case(verb, "LAST".spec_bytes(), none);
    }
    if bytes::is_word(verb, "NEXT") {
        request_line::law_verbs_ignore_case(verb, "NEXT".spec_bytes(), none);
    }
    if bytes::is_word(verb, "POST") {
        request_line::law_verbs_ignore_case(verb, "POST".spec_bytes(), none);
    }
    if bytes::is_word(verb, "STARTTLS") {
        request_line::law_verbs_ignore_case(verb, "STARTTLS".spec_bytes(), none);
    }
    if bytes::is_word(verb, "HELP") {
        request_line::law_verbs_ignore_case(verb, "HELP".spec_bytes(), none);
    }
    if bytes::is_word(verb, "DATE") {
        request_line::law_verbs_ignore_case(verb, "DATE".spec_bytes(), none);
    }
    if bytes::is_word(verb, "QUIT") {
        request_line::law_verbs_ignore_case(verb, "QUIT".spec_bytes(), none);
    }
    if bytes::is_word(verb, "OVER") {
        request_line::law_verbs_ignore_case(verb, "OVER".spec_bytes(), none);
    }
    if bytes::is_word(verb, "XOVER") {
        request_line::law_verbs_ignore_case(verb, "XOVER".spec_bytes(), none);
    }
    if bytes::is_word(verb, "LIST") {
        request_line::law_verbs_ignore_case(verb, "LIST".spec_bytes(), none);
    }
    if bytes::is_word(verb, "LISTGROUP") {
        request_line::law_verbs_ignore_case(verb, "LISTGROUP".spec_bytes(), none);
    }
    if bytes::is_word(verb, "CAPABILITIES") {
        request_line::law_verbs_ignore_case(verb, "CAPABILITIES".spec_bytes(), none);
    }
}

#[verifier::spinoff_prover]
proof fn lemma_argument_verbs(verb: Seq<u8>, name: Seq<u8>, id: Seq<u8>)
    requires
        values::is_group_name(name) && values::is_header_name(name),
        values::is_message_id(id),
    ensures
        bytes::is_word(verb, "GROUP") ==> request_line::kind_for(verb, seq![name]) != RequestKind::Unknown,
        bytes::is_word(verb, "HDR") ==> request_line::kind_for(verb, seq![name]) != RequestKind::Unknown,
        bytes::is_word(verb, "XHDR") ==> request_line::kind_for(verb, seq![name]) != RequestKind::Unknown,
        bytes::is_word(verb, "IHAVE") ==> request_line::kind_for(verb, seq![id]) != RequestKind::Unknown,
        bytes::is_word(verb, "CHECK") ==> request_line::kind_for(verb, seq![id]) != RequestKind::Unknown,
        bytes::is_word(verb, "TAKETHIS") ==> request_line::kind_for(verb, seq![id]) != RequestKind::Unknown,
{
    let words = seq![name];
    let ids = seq![id];
    law_commands_take_their_arguments(words);
    law_commands_take_their_arguments(ids);
    law_queries_take_their_arguments(words);
    assert(words[0] == name && ids[0] == id);
    if bytes::is_word(verb, "GROUP") {
        request_line::law_verbs_ignore_case(verb, "GROUP".spec_bytes(), words);
    }
    if bytes::is_word(verb, "HDR") {
        request_line::law_verbs_ignore_case(verb, "HDR".spec_bytes(), words);
    }
    if bytes::is_word(verb, "XHDR") {
        request_line::law_verbs_ignore_case(verb, "XHDR".spec_bytes(), words);
    }
    if bytes::is_word(verb, "IHAVE") {
        request_line::law_verbs_ignore_case(verb, "IHAVE".spec_bytes(), ids);
    }
    if bytes::is_word(verb, "CHECK") {
        request_line::law_verbs_ignore_case(verb, "CHECK".spec_bytes(), ids);
    }
    if bytes::is_word(verb, "TAKETHIS") {
        request_line::law_verbs_ignore_case(verb, "TAKETHIS".spec_bytes(), ids);
    }
}

#[verifier::spinoff_prover]
proof fn lemma_keyword_verbs(verb: Seq<u8>, name: Seq<u8>)
    requires
        values::is_auth_value(name),
    ensures
        bytes::is_word(verb, "MODE") ==> request_line::kind_for(verb, seq!["READER".spec_bytes()]) != RequestKind::Unknown,
        bytes::is_word(verb, "AUTHINFO") ==> request_line::kind_for(verb, seq!["USER".spec_bytes(), name]) != RequestKind::Unknown,
{
    let reader = seq!["READER".spec_bytes()];
    let user = seq!["USER".spec_bytes(), name];
    law_mode_and_capabilities_take_keywords("READER".spec_bytes());
    law_authinfo_takes_a_keyword_and_a_value("USER".spec_bytes(), name);
    assert(bytes::same_letters("READER".spec_bytes(), "READER".spec_bytes()));
    assert(bytes::same_letters("USER".spec_bytes(), "USER".spec_bytes()));
    if bytes::is_word(verb, "MODE") {
        request_line::law_verbs_ignore_case(verb, "MODE".spec_bytes(), reader);
    }
    if bytes::is_word(verb, "AUTHINFO") {
        request_line::law_verbs_ignore_case(verb, "AUTHINFO".spec_bytes(), user);
    }
}

#[verifier::spinoff_prover]
proof fn lemma_moment_verbs(verb: Seq<u8>, wildmat: Seq<u8>, date: Seq<u8>, time: Seq<u8>)
    requires
        values::is_wildmat(wildmat),
        values::is_nntp_date(date) && values::is_nntp_time(time),
    ensures
        bytes::is_word(verb, "NEWGROUPS") ==> request_line::kind_for(verb, seq![date, time]) != RequestKind::Unknown,
        bytes::is_word(verb, "NEWNEWS") ==> request_line::kind_for(verb, seq![wildmat, date, time]) != RequestKind::Unknown,
{
    let moment = seq![date, time];
    let news = seq![wildmat, date, time];
    law_queries_take_their_arguments(moment);
    law_queries_take_their_arguments(news);
    assert(moment[0] == date && moment[1] == time);
    assert(news[0] == wildmat && news[1] == date && news[2] == time);
    if bytes::is_word(verb, "NEWGROUPS") {
        request_line::law_verbs_ignore_case(verb, "NEWGROUPS".spec_bytes(), moment);
    }
    if bytes::is_word(verb, "NEWNEWS") {
        request_line::law_verbs_ignore_case(verb, "NEWNEWS".spec_bytes(), news);
    }
}

} // verus!
