//! Requests as a client sends them.
use crate::bytes;
use crate::bytes::{decimal_bytes, parse_number, CR, DOT, LF, SPACE};
use crate::message_id;
use crate::message_id::{InvalidMessageId, MessageId};
use crate::request_line::RequestKind;
use crate::responses::CRLF;
use crate::terminator;
use crate::terminator::append_dot_terminator;
use crate::values;
use crate::values::{check_article_number, MAX_ARTICLE_NUMBER};
use vstd::prelude::*;
use vstd::string::StringSliceAdditionalSpecFns;

verus! {

/// A text picks no article.
#[derive(Debug, Clone, Copy, PartialEq, Eq, Structural)]
pub struct InvalidArticleRef;

/// How a request picks its article.
#[derive(Debug, PartialEq, Eq)]
pub enum ArticleRef {
    Current,
    Number(u64),
    MessageId(MessageId),
}

/// The arguments that pick the article.
pub open spec fn ref_args(article_ref: ArticleRef) -> Seq<Seq<u8>> {
    match article_ref {
        ArticleRef::Current => Seq::empty(),
        ArticleRef::Number(number) => seq![bytes::decimal(number as nat)],
        ArticleRef::MessageId(id) => seq![id@],
    }
}

pub open spec fn is_valid_ref(article_ref: ArticleRef) -> bool {
    match article_ref {
        ArticleRef::Current => true,
        ArticleRef::Number(number) => 1 <= number <= MAX_ARTICLE_NUMBER,
        ArticleRef::MessageId(id) => values::is_message_id(id@),
    }
}

impl ArticleRef {
    /// By a message-id, with its angle brackets or without them.
    pub fn from_message_id(value: &str) -> (article_ref: Result<ArticleRef, InvalidMessageId>)
        ensures
            match article_ref {
                Ok(found) => is_valid_ref(found) && found is MessageId && found->MessageId_0@
                    == message_id::bracketed(value.spec_bytes()),
                Err(_) => !values::is_message_id(message_id::bracketed(value.spec_bytes())),
            },
    {
        match MessageId::from_str_or_wrap(value) {
            Ok(id) => Ok(ArticleRef::MessageId(id)),
            Err(_) => Err(InvalidMessageId),
        }
    }

    /// By an article number or a message-id in angle brackets.
    pub fn from_selector(value: &str) -> (article_ref: Result<ArticleRef, InvalidArticleRef>)
        ensures
            match article_ref {
                Ok(found) => is_valid_ref(found) && match found {
                    ArticleRef::Current => false,
                    ArticleRef::Number(number) => values::is_article_number(value.spec_bytes())
                        && number == bytes::decimal_value(value.spec_bytes()),
                    ArticleRef::MessageId(id) => id@ == value.spec_bytes(),
                },
                Err(_) => !values::is_article_number(value.spec_bytes()) && !values::is_message_id(
                    value.spec_bytes(),
                ),
            },
    {
        let text: &[u8] = value.as_bytes();
        if check_article_number(text) {
            proof {
                assert(bytes::is_digit(text@[0]));
                assert(bytes::unsigned_digits(text@) == text@);
                bytes::lemma_decimal_nonnegative(text@);
                bytes::law_decimal_of_number(text@);
            }
            if let Some(number) = parse_number(text) {
                return Ok(ArticleRef::Number(number));
            }
        }
        match MessageId::from_bytes(text) {
            Some(id) => Ok(ArticleRef::MessageId(id)),
            None => Err(InvalidArticleRef),
        }
    }

    /// By an article number.
    pub fn from_number(number: u64) -> (article_ref: Result<ArticleRef, InvalidArticleRef>)
        ensures
            match article_ref {
                Ok(found) => is_valid_ref(found) && found == ArticleRef::Number(number),
                Err(_) => number == 0 || number > MAX_ARTICLE_NUMBER,
            },
    {
        if 1 <= number && number <= MAX_ARTICLE_NUMBER {
            Ok(ArticleRef::Number(number))
        } else {
            Err(InvalidArticleRef)
        }
    }

    /// The message-id that it picks by.
    pub fn message_id(&self) -> (id: Option<&MessageId>)
        ensures
            match self {
                ArticleRef::MessageId(held) => id == Some(held),
                _ => id is None,
            },
    {
        match self {
            ArticleRef::MessageId(held) => Some(held),
            _ => None,
        }
    }
}

/// A request with its arguments.
#[allow(inconsistent_fields)]
#[derive(Debug, PartialEq, Eq)]
pub enum Request {
    Article { article_ref: ArticleRef },
    Body { article_ref: ArticleRef },
    Head { article_ref: ArticleRef },
    Stat { article_ref: ArticleRef },
    List,
    ListActive { wildmat: Option<Vec<u8>> },
    ListActiveTimes { wildmat: Option<Vec<u8>> },
    ListNewsgroups { wildmat: Option<Vec<u8>> },
    ListOverviewFmt,
    ListHeaders,
    ListDistribPats,
    Group { name: Vec<u8> },
    ListGroup { group: Option<Vec<u8>>, range: Option<Vec<u8>> },
    Last,
    Next,
    NewGroups { date: Vec<u8>, time: Vec<u8>, gmt: bool },
    NewNews { wildmat: Vec<u8>, date: Vec<u8>, time: Vec<u8>, gmt: bool },
    Post,
    Ihave { message_id: MessageId },
    Check { message_id: MessageId },
    TakeThis { message_id: MessageId, article: Vec<u8> },
    AuthInfoUser { value: Vec<u8> },
    AuthInfoPass { value: Vec<u8> },
    StartTls,
    Over { selector: Vec<u8> },
    Xover { selector: Vec<u8> },
    Hdr { header: Vec<u8>, selector: Vec<u8> },
    Xhdr { header: Vec<u8>, selector: Vec<u8> },
    Help,
    Capabilities,
    Date,
    ModeReader,
    Quit,
}

pub open spec fn optional(value: Option<Vec<u8>>) -> Seq<Seq<u8>> {
    match value {
        Some(text) => seq![text@],
        None => Seq::empty(),
    }
}

/// The command that a request is.
pub open spec fn kind_of(request: Request) -> RequestKind {
    match request {
        Request::Article { .. } => RequestKind::Article,
        Request::Body { .. } => RequestKind::Body,
        Request::Head { .. } => RequestKind::Head,
        Request::Stat { .. } => RequestKind::Stat,
        Request::List => RequestKind::List,
        Request::ListActive { .. } => RequestKind::ListActive,
        Request::ListActiveTimes { .. } => RequestKind::ListActiveTimes,
        Request::ListNewsgroups { .. } => RequestKind::ListNewsgroups,
        Request::ListOverviewFmt => RequestKind::ListOverviewFmt,
        Request::ListHeaders => RequestKind::ListHeaders,
        Request::ListDistribPats => RequestKind::ListDistribPats,
        Request::Group { .. } => RequestKind::Group,
        Request::ListGroup { .. } => RequestKind::ListGroup,
        Request::Last => RequestKind::Last,
        Request::Next => RequestKind::Next,
        Request::NewGroups { .. } => RequestKind::NewGroups,
        Request::NewNews { .. } => RequestKind::NewNews,
        Request::Post => RequestKind::Post,
        Request::Ihave { .. } => RequestKind::Ihave,
        Request::Check { .. } => RequestKind::Check,
        Request::TakeThis { .. } => RequestKind::TakeThis,
        Request::AuthInfoUser { .. } => RequestKind::AuthInfoUser,
        Request::AuthInfoPass { .. } => RequestKind::AuthInfoPass,
        Request::StartTls => RequestKind::StartTls,
        Request::Over { .. } => RequestKind::Over,
        Request::Xover { .. } => RequestKind::Xover,
        Request::Hdr { .. } => RequestKind::Hdr,
        Request::Xhdr { .. } => RequestKind::Xhdr,
        Request::Help => RequestKind::Help,
        Request::Capabilities => RequestKind::Capabilities,
        Request::Date => RequestKind::Date,
        Request::ModeReader => RequestKind::ModeReader,
        Request::Quit => RequestKind::Quit,
    }
}

/// The first word of a request.
pub open spec fn verb_of(request: Request) -> &'static str {
    match request {
        Request::Article { .. } => "ARTICLE",
        Request::Body { .. } => "BODY",
        Request::Head { .. } => "HEAD",
        Request::Stat { .. } => "STAT",
        Request::List
        | Request::ListActive { .. }
        | Request::ListActiveTimes { .. }
        | Request::ListNewsgroups { .. }
        | Request::ListOverviewFmt
        | Request::ListHeaders
        | Request::ListDistribPats => "LIST",
        Request::Group { .. } => "GROUP",
        Request::ListGroup { .. } => "LISTGROUP",
        Request::Last => "LAST",
        Request::Next => "NEXT",
        Request::NewGroups { .. } => "NEWGROUPS",
        Request::NewNews { .. } => "NEWNEWS",
        Request::Post => "POST",
        Request::Ihave { .. } => "IHAVE",
        Request::Check { .. } => "CHECK",
        Request::TakeThis { .. } => "TAKETHIS",
        Request::AuthInfoUser { .. } | Request::AuthInfoPass { .. } => "AUTHINFO",
        Request::StartTls => "STARTTLS",
        Request::Over { .. } => "OVER",
        Request::Xover { .. } => "XOVER",
        Request::Hdr { .. } => "HDR",
        Request::Xhdr { .. } => "XHDR",
        Request::Help => "HELP",
        Request::Capabilities => "CAPABILITIES",
        Request::Date => "DATE",
        Request::ModeReader => "MODE",
        Request::Quit => "QUIT",
    }
}

/// A date and a time, and `GMT` after them where it is wanted.
pub open spec fn moment_args(date: Seq<u8>, time: Seq<u8>, gmt: bool) -> Seq<Seq<u8>> {
    if gmt {
        seq![date, time, "GMT".spec_bytes()]
    } else {
        seq![date, time]
    }
}

/// The words of a request after the first.
pub open spec fn args_of(request: Request) -> Seq<Seq<u8>> {
    match request {
        Request::Article { article_ref }
        | Request::Body { article_ref }
        | Request::Head { article_ref }
        | Request::Stat { article_ref } => ref_args(article_ref),
        Request::ListActive { wildmat } => seq!["ACTIVE".spec_bytes()] + optional(wildmat),
        Request::ListActiveTimes { wildmat } => seq!["ACTIVE.TIMES".spec_bytes()] + optional(
            wildmat,
        ),
        Request::ListNewsgroups { wildmat } => seq!["NEWSGROUPS".spec_bytes()] + optional(wildmat),
        Request::ListOverviewFmt => seq!["OVERVIEW.FMT".spec_bytes()],
        Request::ListHeaders => seq!["HEADERS".spec_bytes()],
        Request::ListDistribPats => seq!["DISTRIB.PATS".spec_bytes()],
        Request::Group { name } => seq![name@],
        Request::ListGroup { group, range } => optional(group) + optional(range),
        Request::NewGroups { date, time, gmt } => moment_args(date@, time@, gmt),
        Request::NewNews { wildmat, date, time, gmt } => seq![wildmat@] + moment_args(
            date@,
            time@,
            gmt,
        ),
        Request::Ihave { message_id } | Request::Check { message_id } | Request::TakeThis {
            message_id,
            ..
        } => seq![message_id@],
        Request::AuthInfoUser { value } => seq!["USER".spec_bytes(), value@],
        Request::AuthInfoPass { value } => seq!["PASS".spec_bytes(), value@],
        Request::Over { selector } | Request::Xover { selector } => seq![selector@],
        Request::Hdr { header, selector } | Request::Xhdr { header, selector } => seq![
            header@,
            selector@,
        ],
        Request::ModeReader => seq!["READER".spec_bytes()],
        _ => Seq::empty(),
    }
}

/// The arguments of the request are what the protocol allows.
pub open spec fn is_valid(request: Request) -> bool {
    match request {
        Request::Article { article_ref }
        | Request::Body { article_ref }
        | Request::Head { article_ref }
        | Request::Stat { article_ref } => is_valid_ref(article_ref),
        Request::ListActive { wildmat }
        | Request::ListActiveTimes { wildmat }
        | Request::ListNewsgroups { wildmat } => wildmat is None || values::is_wildmat(
            wildmat->0@,
        ),
        Request::Group { name } => values::is_group_name(name@),
        Request::ListGroup { group, range } => (group is None || values::is_group_name(group->0@))
            && (range is None || values::is_article_range(range->0@)),
        Request::NewGroups { date, time, .. } => values::is_nntp_date(date@)
            && values::is_nntp_time(time@),
        Request::NewNews { wildmat, date, time, .. } => values::is_wildmat(wildmat@)
            && values::is_nntp_date(date@) && values::is_nntp_time(time@),
        Request::Ihave { message_id } | Request::Check { message_id } | Request::TakeThis {
            message_id,
            ..
        } => values::is_message_id(message_id@),
        Request::AuthInfoUser { value } | Request::AuthInfoPass { value } => values::is_auth_value(
            value@,
        ),
        Request::Over { selector } | Request::Xover { selector } => values::is_article_selector(
            selector@,
        ),
        Request::Hdr { header, selector } | Request::Xhdr { header, selector } =>
        values::is_header_name(header@) && values::is_article_selector(selector@),
        _ => true,
    }
}

/// Each argument with a space before it.
pub open spec fn spaced(args: Seq<Seq<u8>>) -> Seq<u8>
    decreases args.len(),
{
    if args.len() == 0 {
        Seq::empty()
    } else {
        seq![SPACE] + args[0] + spaced(args.drop_first())
    }
}

/// The command line of a request.
pub open spec fn line_of(request: Request) -> Seq<u8> {
    verb_of(request).spec_bytes() + spaced(args_of(request)) + CRLF.spec_bytes()
}

/// A text with a second dot before each line that starts with one.
pub open spec fn stuffed(article: Seq<u8>) -> Seq<u8>
    decreases article.len(),
{
    if article.len() == 0 {
        Seq::empty()
    } else if article.last() == DOT && terminator::line_starts_at(
        article,
        0,
        article.len() - 1,
    ) {
        stuffed(article.drop_last()) + seq![DOT, DOT]
    } else {
        stuffed(article.drop_last()).push(article.last())
    }
}

/// The bytes of a request: its line, and the article of `TAKETHIS` behind it.
pub open spec fn wire_of(request: Request) -> Seq<u8> {
    match request {
        Request::TakeThis { article, .. } => line_of(request) + terminator::terminated(
            stuffed(article@),
        ),
        _ => line_of(request),
    }
}

/// One argument more.
proof fn lemma_spaced_push(args: Seq<Seq<u8>>, arg: Seq<u8>)
    ensures
        spaced(args.push(arg)) == spaced(args) + seq![SPACE] + arg,
    decreases args.len(),
{
    if args.len() == 0 {
        assert(args.push(arg).drop_first() =~= Seq::<Seq<u8>>::empty());
        assert(args.push(arg)[0] == arg);
        assert(spaced(args.push(arg).drop_first()) =~= Seq::<u8>::empty());
        assert(spaced(args.push(arg)) =~= seq![SPACE] + arg);
        assert(spaced(args) + seq![SPACE] + arg =~= seq![SPACE] + arg);
    } else {
        lemma_spaced_push(args.drop_first(), arg);
        assert(args.push(arg).drop_first() =~= args.drop_first().push(arg));
        assert(args.push(arg)[0] == args[0]);
        assert(spaced(args.push(arg)) =~= spaced(args) + seq![SPACE] + arg);
    }
}

/// Appends one more argument behind those that follow `start`.
fn append_arg(
    buffer: &mut Vec<u8>,
    arg: &[u8],
    Ghost(start): Ghost<Seq<u8>>,
    Ghost(args): Ghost<Seq<Seq<u8>>>,
)
    requires
        old(buffer)@ == start + spaced(args),
    ensures
        final(buffer)@ == start + spaced(args.push(arg@)),
{
    buffer.push(SPACE);
    buffer.extend_from_slice(arg);
    proof {
        lemma_spaced_push(args, arg@);
        assert(buffer@ =~= start + (spaced(args) + seq![SPACE] + arg@));
    }
}

fn append_ref(buffer: &mut Vec<u8>, article_ref: &ArticleRef, Ghost(start): Ghost<Seq<u8>>)
    requires
        old(buffer)@ == start + spaced(Seq::empty()),
    ensures
        final(buffer)@ == start + spaced(ref_args(*article_ref)),
{
    match article_ref {
        ArticleRef::Current => {},
        ArticleRef::Number(number) => {
            let digits: Vec<u8> = decimal_bytes(*number);
            append_arg(buffer, digits.as_slice(), Ghost(start), Ghost(Seq::empty()));
            assert(Seq::empty().push(digits@) =~= ref_args(*article_ref));
        },
        ArticleRef::MessageId(id) => {
            append_arg(buffer, id.as_bytes(), Ghost(start), Ghost(Seq::empty()));
            assert(Seq::empty().push(id@) =~= ref_args(*article_ref));
        },
    }
}

fn append_optional(
    buffer: &mut Vec<u8>,
    value: &Option<Vec<u8>>,
    Ghost(start): Ghost<Seq<u8>>,
    Ghost(args): Ghost<Seq<Seq<u8>>>,
)
    requires
        old(buffer)@ == start + spaced(args),
    ensures
        final(buffer)@ == start + spaced(args + optional(*value)),
{
    match value {
        Some(text) => {
            append_arg(buffer, text.as_slice(), Ghost(start), Ghost(args));
            assert(args.push(text@) =~= args + optional(*value));
        },
        None => {
            assert(args + optional(*value) =~= args);
        },
    }
}

fn append_moment(
    buffer: &mut Vec<u8>,
    date: &[u8],
    time: &[u8],
    gmt: bool,
    Ghost(start): Ghost<Seq<u8>>,
    Ghost(args): Ghost<Seq<Seq<u8>>>,
)
    requires
        old(buffer)@ == start + spaced(args),
    ensures
        final(buffer)@ == start + spaced(args + moment_args(date@, time@, gmt)),
{
    append_arg(buffer, date, Ghost(start), Ghost(args));
    append_arg(buffer, time, Ghost(start), Ghost(args.push(date@)));
    if gmt {
        append_arg(
            buffer,
            "GMT".as_bytes(),
            Ghost(start),
            Ghost(args.push(date@).push(time@)),
        );
        assert(args.push(date@).push(time@).push("GMT".spec_bytes()) =~= args + moment_args(
            date@,
            time@,
            gmt,
        ));
    } else {
        assert(args.push(date@).push(time@) =~= args + moment_args(date@, time@, gmt));
    }
}

fn append_keyword(buffer: &mut Vec<u8>, keyword: &str, Ghost(start): Ghost<Seq<u8>>)
    requires
        old(buffer)@ == start + spaced(Seq::empty()),
    ensures
        final(buffer)@ == start + spaced(seq![keyword.spec_bytes()]),
{
    append_arg(buffer, keyword.as_bytes(), Ghost(start), Ghost(Seq::empty()));
    assert(Seq::empty().push(keyword.spec_bytes()) =~= seq![keyword.spec_bytes()]);
}

fn append_listing(
    buffer: &mut Vec<u8>,
    keyword: &str,
    wildmat: &Option<Vec<u8>>,
    Ghost(start): Ghost<Seq<u8>>,
)
    requires
        old(buffer)@ == start + spaced(Seq::empty()),
    ensures
        final(buffer)@ == start + spaced(seq![keyword.spec_bytes()] + optional(*wildmat)),
{
    let ghost first = seq![keyword.spec_bytes()];
    append_keyword(buffer, keyword, Ghost(start));
    append_optional(buffer, wildmat, Ghost(start), Ghost(first));
}

fn append_pair(buffer: &mut Vec<u8>, first: &[u8], second: &[u8], Ghost(start): Ghost<Seq<u8>>)
    requires
        old(buffer)@ == start + spaced(Seq::empty()),
    ensures
        final(buffer)@ == start + spaced(seq![first@, second@]),
{
    append_arg(buffer, first, Ghost(start), Ghost(Seq::empty()));
    append_arg(buffer, second, Ghost(start), Ghost(Seq::empty().push(first@)));
    assert(Seq::empty().push(first@).push(second@) =~= seq![first@, second@]);
}

fn append_single(buffer: &mut Vec<u8>, arg: &[u8], Ghost(start): Ghost<Seq<u8>>)
    requires
        old(buffer)@ == start + spaced(Seq::empty()),
    ensures
        final(buffer)@ == start + spaced(seq![arg@]),
{
    append_arg(buffer, arg, Ghost(start), Ghost(Seq::empty()));
    assert(Seq::empty().push(arg@) =~= seq![arg@]);
}

/// Appends a text with a second dot before each line that starts with one.
fn append_stuffed(buffer: &mut Vec<u8>, article: &[u8])
    ensures
        final(buffer)@ == old(buffer)@ + stuffed(article@),
{
    let ghost before = buffer@;
    let mut i: usize = 0;
    assert(article@.subrange(0, 0) =~= Seq::<u8>::empty());
    assert(buffer@ =~= before + stuffed(article@.subrange(0, 0)));
    while i < article.len()
        invariant
            i <= article@.len(),
            buffer@ == before + stuffed(article@.subrange(0, i as int)),
        decreases article@.len() - i,
    {
        let ghost done = article@.subrange(0, i as int);
        let ghost more = article@.subrange(0, i + 1);
        assert(more.drop_last() =~= done);
        assert(more.last() == article@[i as int]);
        if article[i] == DOT && (i == 0 || (i >= 2 && article[i - 2] == CR && article[i - 1]
            == LF)) {
            buffer.push(DOT);
            buffer.push(DOT);
            assert(terminator::line_starts_at(more, 0, i as int));
            assert(buffer@ =~= before + stuffed(more));
        } else {
            buffer.push(article[i]);
            assert(!(more.last() == DOT && terminator::line_starts_at(more, 0, i as int)));
            assert(buffer@ =~= before + stuffed(more));
        }
        i = i + 1;
    }
    assert(article@.subrange(0, article@.len() as int) =~= article@);
}

impl Request {
    pub fn kind(&self) -> (kind: RequestKind)
        ensures
            kind == kind_of(*self),
    {
        match self {
            Request::Article { .. } => RequestKind::Article,
            Request::Body { .. } => RequestKind::Body,
            Request::Head { .. } => RequestKind::Head,
            Request::Stat { .. } => RequestKind::Stat,
            Request::List => RequestKind::List,
            Request::ListActive { .. } => RequestKind::ListActive,
            Request::ListActiveTimes { .. } => RequestKind::ListActiveTimes,
            Request::ListNewsgroups { .. } => RequestKind::ListNewsgroups,
            Request::ListOverviewFmt => RequestKind::ListOverviewFmt,
            Request::ListHeaders => RequestKind::ListHeaders,
            Request::ListDistribPats => RequestKind::ListDistribPats,
            Request::Group { .. } => RequestKind::Group,
            Request::ListGroup { .. } => RequestKind::ListGroup,
            Request::Last => RequestKind::Last,
            Request::Next => RequestKind::Next,
            Request::NewGroups { .. } => RequestKind::NewGroups,
            Request::NewNews { .. } => RequestKind::NewNews,
            Request::Post => RequestKind::Post,
            Request::Ihave { .. } => RequestKind::Ihave,
            Request::Check { .. } => RequestKind::Check,
            Request::TakeThis { .. } => RequestKind::TakeThis,
            Request::AuthInfoUser { .. } => RequestKind::AuthInfoUser,
            Request::AuthInfoPass { .. } => RequestKind::AuthInfoPass,
            Request::StartTls => RequestKind::StartTls,
            Request::Over { .. } => RequestKind::Over,
            Request::Xover { .. } => RequestKind::Xover,
            Request::Hdr { .. } => RequestKind::Hdr,
            Request::Xhdr { .. } => RequestKind::Xhdr,
            Request::Help => RequestKind::Help,
            Request::Capabilities => RequestKind::Capabilities,
            Request::Date => RequestKind::Date,
            Request::ModeReader => RequestKind::ModeReader,
            Request::Quit => RequestKind::Quit,
        }
    }

    /// How it picks its article, where it retrieves one.
    pub fn article_ref(&self) -> (picked: Option<&ArticleRef>)
        ensures
            match self {
                Request::Article { article_ref } => picked == Some(article_ref),
                Request::Body { article_ref } => picked == Some(article_ref),
                Request::Head { article_ref } => picked == Some(article_ref),
                Request::Stat { article_ref } => picked == Some(article_ref),
                _ => picked is None,
            },
    {
        match self {
            Request::Article { article_ref } => Some(article_ref),
            Request::Body { article_ref } => Some(article_ref),
            Request::Head { article_ref } => Some(article_ref),
            Request::Stat { article_ref } => Some(article_ref),
            _ => None,
        }
    }

    /// The message-id among its arguments.
    pub fn message_id(&self) -> (id: Option<&MessageId>)
        ensures
            match self {
                Request::Article { article_ref: ArticleRef::MessageId(held) } => id == Some(held),
                Request::Body { article_ref: ArticleRef::MessageId(held) } => id == Some(held),
                Request::Head { article_ref: ArticleRef::MessageId(held) } => id == Some(held),
                Request::Stat { article_ref: ArticleRef::MessageId(held) } => id == Some(held),
                Request::Ihave { message_id } => id == Some(message_id),
                Request::Check { message_id } => id == Some(message_id),
                Request::TakeThis { message_id, .. } => id == Some(message_id),
                _ => id is None,
            },
    {
        match self {
            Request::Ihave { message_id } => Some(message_id),
            Request::Check { message_id } => Some(message_id),
            Request::TakeThis { message_id, .. } => Some(message_id),
            _ => match self.article_ref() {
                Some(article_ref) => article_ref.message_id(),
                None => None,
            },
        }
    }

    fn verb(&self) -> (verb: &'static str)
        ensures
            verb == verb_of(*self),
    {
        match self {
            Request::Article { .. } => "ARTICLE",
            Request::Body { .. } => "BODY",
            Request::Head { .. } => "HEAD",
            Request::Stat { .. } => "STAT",
            Request::List
            | Request::ListActive { .. }
            | Request::ListActiveTimes { .. }
            | Request::ListNewsgroups { .. }
            | Request::ListOverviewFmt
            | Request::ListHeaders
            | Request::ListDistribPats => "LIST",
            Request::Group { .. } => "GROUP",
            Request::ListGroup { .. } => "LISTGROUP",
            Request::Last => "LAST",
            Request::Next => "NEXT",
            Request::NewGroups { .. } => "NEWGROUPS",
            Request::NewNews { .. } => "NEWNEWS",
            Request::Post => "POST",
            Request::Ihave { .. } => "IHAVE",
            Request::Check { .. } => "CHECK",
            Request::TakeThis { .. } => "TAKETHIS",
            Request::AuthInfoUser { .. } | Request::AuthInfoPass { .. } => "AUTHINFO",
            Request::StartTls => "STARTTLS",
            Request::Over { .. } => "OVER",
            Request::Xover { .. } => "XOVER",
            Request::Hdr { .. } => "HDR",
            Request::Xhdr { .. } => "XHDR",
            Request::Help => "HELP",
            Request::Capabilities => "CAPABILITIES",
            Request::Date => "DATE",
            Request::ModeReader => "MODE",
            Request::Quit => "QUIT",
        }
    }

    fn append_args(&self, buffer: &mut Vec<u8>, Ghost(start): Ghost<Seq<u8>>)
        requires
            old(buffer)@ == start + spaced(Seq::empty()),
        ensures
            final(buffer)@ == start + spaced(args_of(*self)),
    {
        match self {
            Request::Article { article_ref }
            | Request::Body { article_ref }
            | Request::Head { article_ref }
            | Request::Stat { article_ref } => append_ref(buffer, article_ref, Ghost(start)),
            Request::ListActive { wildmat } => append_listing(
                buffer,
                "ACTIVE",
                wildmat,
                Ghost(start),
            ),
            Request::ListActiveTimes { wildmat } => append_listing(
                buffer,
                "ACTIVE.TIMES",
                wildmat,
                Ghost(start),
            ),
            Request::ListNewsgroups { wildmat } => append_listing(
                buffer,
                "NEWSGROUPS",
                wildmat,
                Ghost(start),
            ),
            Request::ListOverviewFmt => append_keyword(buffer, "OVERVIEW.FMT", Ghost(start)),
            Request::ListHeaders => append_keyword(buffer, "HEADERS", Ghost(start)),
            Request::ListDistribPats => append_keyword(buffer, "DISTRIB.PATS", Ghost(start)),
            Request::Group { name } => append_single(buffer, name.as_slice(), Ghost(start)),
            Request::ListGroup { group, range } => {
                append_optional(buffer, group, Ghost(start), Ghost(Seq::empty()));
                assert(Seq::empty() + optional(*group) =~= optional(*group));
                append_optional(buffer, range, Ghost(start), Ghost(optional(*group)));
            },
            Request::NewGroups { date, time, gmt } => {
                append_moment(
                    buffer,
                    date.as_slice(),
                    time.as_slice(),
                    *gmt,
                    Ghost(start),
                    Ghost(Seq::empty()),
                );
                assert(Seq::empty() + moment_args(date@, time@, *gmt) =~= args_of(*self));
            },
            Request::NewNews { wildmat, date, time, gmt } => {
                let ghost first = seq![wildmat@];
                append_single(buffer, wildmat.as_slice(), Ghost(start));
                append_moment(
                    buffer,
                    date.as_slice(),
                    time.as_slice(),
                    *gmt,
                    Ghost(start),
                    Ghost(first),
                );
            },
            Request::Ihave { message_id } | Request::Check { message_id } | Request::TakeThis {
                message_id,
                ..
            } => append_single(buffer, message_id.as_bytes(), Ghost(start)),
            Request::AuthInfoUser { value } => append_pair(
                buffer,
                "USER".as_bytes(),
                value.as_slice(),
                Ghost(start),
            ),
            Request::AuthInfoPass { value } => append_pair(
                buffer,
                "PASS".as_bytes(),
                value.as_slice(),
                Ghost(start),
            ),
            Request::Over { selector } | Request::Xover { selector } => append_single(
                buffer,
                selector.as_slice(),
                Ghost(start),
            ),
            Request::Hdr { header, selector } | Request::Xhdr { header, selector } => append_pair(
                buffer,
                header.as_slice(),
                selector.as_slice(),
                Ghost(start),
            ),
            Request::ModeReader => append_keyword(buffer, "READER", Ghost(start)),
            _ => {},
        }
    }

    /// Appends the bytes of the request.
    pub fn write_wire_to(&self, buffer: &mut Vec<u8>)
        ensures
            final(buffer)@ == old(buffer)@ + wire_of(*self),
    {
        let ghost before = buffer@;
        let ghost start = before + verb_of(*self).spec_bytes();
        buffer.extend_from_slice(self.verb().as_bytes());
        assert(buffer@ =~= start + spaced(Seq::empty()));
        self.append_args(buffer, Ghost(start));
        buffer.extend_from_slice(CRLF.as_bytes());
        assert(buffer@ =~= before + line_of(*self));
        if let Request::TakeThis { article, .. } = self {
            let mut block: Vec<u8> = Vec::new();
            append_stuffed(&mut block, article.as_slice());
            assert(block@ =~= stuffed(article@));
            append_dot_terminator(&mut block);
            buffer.extend_from_slice(block.as_slice());
            assert(buffer@ =~= before + wire_of(*self));
        }
    }
}

/// A line: its words with a space between them, and the line end.
pub open spec fn says(line: Seq<u8>, words: Seq<Seq<u8>>) -> bool
    decreases words.len(),
{
    if words.len() == 0 {
        false
    } else if words.len() == 1 {
        line == words[0] + "\r\n".spec_bytes()
    } else {
        line.len() > words[0].len() && line.take(words[0].len() as int) == words[0]
            && line[words[0].len() as int] == 32 && says(
            line.skip((words[0].len() + 1) as int),
            words.drop_first(),
        )
    }
}

/// A verb and the arguments with a space before each say these words.
proof fn lemma_says(verb: Seq<u8>, args: Seq<Seq<u8>>)
    ensures
        says(verb + spaced(args) + CRLF.spec_bytes(), seq![verb] + args),
    decreases args.len(),
{
    let line = verb + spaced(args) + CRLF.spec_bytes();
    let words = seq![verb] + args;
    if args.len() > 0 {
        let rest = args.drop_first();
        lemma_says(args[0], rest);
        assert(words.drop_first() =~= seq![args[0]] + rest);
        assert(line.take(verb.len() as int) =~= verb);
        assert(spaced(args) == seq![SPACE] + args[0] + spaced(rest));
        assert(line[verb.len() as int] == 32);
        assert(line.skip((verb.len() + 1) as int) =~= args[0] + spaced(rest) + CRLF.spec_bytes());
    } else {
        assert(line =~= verb + CRLF.spec_bytes());
        assert(words.len() == 1);
    }
}

/// A request for an article says the verb and the number or the message-id, or the verb alone for
/// the current article.
pub proof fn law_retrieving_lines(number: u64, id: MessageId)
    ensures
        says(
            line_of(Request::Article { article_ref: ArticleRef::Number(number) }),
            seq!["ARTICLE".spec_bytes(), bytes::decimal(number as nat)],
        ),
        says(
            line_of(Request::Body { article_ref: ArticleRef::Number(number) }),
            seq!["BODY".spec_bytes(), bytes::decimal(number as nat)],
        ),
        says(
            line_of(Request::Head { article_ref: ArticleRef::Number(number) }),
            seq!["HEAD".spec_bytes(), bytes::decimal(number as nat)],
        ),
        says(
            line_of(Request::Stat { article_ref: ArticleRef::Number(number) }),
            seq!["STAT".spec_bytes(), bytes::decimal(number as nat)],
        ),
        says(
            line_of(Request::Article { article_ref: ArticleRef::MessageId(id) }),
            seq!["ARTICLE".spec_bytes(), id@],
        ),
        says(
            line_of(Request::Body { article_ref: ArticleRef::MessageId(id) }),
            seq!["BODY".spec_bytes(), id@],
        ),
        says(
            line_of(Request::Head { article_ref: ArticleRef::MessageId(id) }),
            seq!["HEAD".spec_bytes(), id@],
        ),
        says(
            line_of(Request::Stat { article_ref: ArticleRef::MessageId(id) }),
            seq!["STAT".spec_bytes(), id@],
        ),
        says(
            line_of(Request::Article { article_ref: ArticleRef::Current }),
            seq!["ARTICLE".spec_bytes()],
        ),
        says(line_of(Request::Body { article_ref: ArticleRef::Current }), seq!["BODY".spec_bytes()]),
        says(line_of(Request::Head { article_ref: ArticleRef::Current }), seq!["HEAD".spec_bytes()]),
        says(line_of(Request::Stat { article_ref: ArticleRef::Current }), seq!["STAT".spec_bytes()]),
{
    let digits = bytes::decimal(number as nat);
    let none = Seq::<Seq<u8>>::empty();
    lemma_line_says("ARTICLE", seq![digits], seq!["ARTICLE".spec_bytes(), digits]);
    lemma_line_says("BODY", seq![digits], seq!["BODY".spec_bytes(), digits]);
    lemma_line_says("HEAD", seq![digits], seq!["HEAD".spec_bytes(), digits]);
    lemma_line_says("STAT", seq![digits], seq!["STAT".spec_bytes(), digits]);
    lemma_line_says("ARTICLE", seq![id@], seq!["ARTICLE".spec_bytes(), id@]);
    lemma_line_says("BODY", seq![id@], seq!["BODY".spec_bytes(), id@]);
    lemma_line_says("HEAD", seq![id@], seq!["HEAD".spec_bytes(), id@]);
    lemma_line_says("STAT", seq![id@], seq!["STAT".spec_bytes(), id@]);
    lemma_line_says("ARTICLE", none, seq!["ARTICLE".spec_bytes()]);
    lemma_line_says("BODY", none, seq!["BODY".spec_bytes()]);
    lemma_line_says("HEAD", none, seq!["HEAD".spec_bytes()]);
    lemma_line_says("STAT", none, seq!["STAT".spec_bytes()]);
}

proof fn lemma_line_says(verb: &str, args: Seq<Seq<u8>>, words: Seq<Seq<u8>>)
    requires
        words =~= seq![verb.spec_bytes()] + args,
    ensures
        says(verb.spec_bytes() + spaced(args) + CRLF.spec_bytes(), words),
{
    lemma_says(verb.spec_bytes(), args);
}

/// A listing says its keyword, and the wildmat where one is given.
pub proof fn law_listing_lines(wildmat: Vec<u8>)
    ensures
        says(
            line_of(Request::ListActive { wildmat: Some(wildmat) }),
            seq!["LIST".spec_bytes(), "ACTIVE".spec_bytes(), wildmat@],
        ),
        says(
            line_of(Request::ListActiveTimes { wildmat: Some(wildmat) }),
            seq!["LIST".spec_bytes(), "ACTIVE.TIMES".spec_bytes(), wildmat@],
        ),
        says(
            line_of(Request::ListNewsgroups { wildmat: Some(wildmat) }),
            seq!["LIST".spec_bytes(), "NEWSGROUPS".spec_bytes(), wildmat@],
        ),
        says(
            line_of(Request::ListActive { wildmat: None }),
            seq!["LIST".spec_bytes(), "ACTIVE".spec_bytes()],
        ),
        says(
            line_of(Request::ListActiveTimes { wildmat: None }),
            seq!["LIST".spec_bytes(), "ACTIVE.TIMES".spec_bytes()],
        ),
        says(
            line_of(Request::ListNewsgroups { wildmat: None }),
            seq!["LIST".spec_bytes(), "NEWSGROUPS".spec_bytes()],
        ),
{
    lemma_listing_says("ACTIVE", wildmat);
    lemma_listing_says("ACTIVE.TIMES", wildmat);
    lemma_listing_says("NEWSGROUPS", wildmat);
}

proof fn lemma_listing_says(keyword: &str, wildmat: Vec<u8>)
    ensures
        says(
            "LIST".spec_bytes() + spaced(seq![keyword.spec_bytes()] + optional(Some(wildmat)))
                + CRLF.spec_bytes(),
            seq!["LIST".spec_bytes(), keyword.spec_bytes(), wildmat@],
        ),
        says(
            "LIST".spec_bytes() + spaced(seq![keyword.spec_bytes()] + optional(None))
                + CRLF.spec_bytes(),
            seq!["LIST".spec_bytes(), keyword.spec_bytes()],
        ),
{
    lemma_line_says(
        "LIST",
        seq![keyword.spec_bytes()] + optional(Some(wildmat)),
        seq!["LIST".spec_bytes(), keyword.spec_bytes(), wildmat@],
    );
    lemma_line_says(
        "LIST",
        seq![keyword.spec_bytes()] + optional(None),
        seq!["LIST".spec_bytes(), keyword.spec_bytes()],
    );
}

/// A request about a group says its name, and the range where one is given.
pub proof fn law_group_lines(name: Vec<u8>, range: Vec<u8>)
    ensures
        says(line_of(Request::Group { name }), seq!["GROUP".spec_bytes(), name@]),
        says(
            line_of(Request::ListGroup { group: Some(name), range: Some(range) }),
            seq!["LISTGROUP".spec_bytes(), name@, range@],
        ),
        says(
            line_of(Request::ListGroup { group: Some(name), range: None }),
            seq!["LISTGROUP".spec_bytes(), name@],
        ),
        says(
            line_of(Request::ListGroup { group: None, range: Some(range) }),
            seq!["LISTGROUP".spec_bytes(), range@],
        ),
        says(
            line_of(Request::ListGroup { group: None, range: None }),
            seq!["LISTGROUP".spec_bytes()],
        ),
{
    lemma_line_says("GROUP", seq![name@], seq!["GROUP".spec_bytes(), name@]);
    lemma_line_says(
        "LISTGROUP",
        optional(Some(name)) + optional(Some(range)),
        seq!["LISTGROUP".spec_bytes(), name@, range@],
    );
    lemma_line_says(
        "LISTGROUP",
        optional(Some(name)) + optional(None),
        seq!["LISTGROUP".spec_bytes(), name@],
    );
    lemma_line_says(
        "LISTGROUP",
        optional(None) + optional(Some(range)),
        seq!["LISTGROUP".spec_bytes(), range@],
    );
    lemma_line_says("LISTGROUP", optional(None) + optional(None), seq!["LISTGROUP".spec_bytes()]);
}

/// A request for what is new says the date before the time, and that they are in GMT where they are.
pub proof fn law_moment_lines(wildmat: Vec<u8>, date: Vec<u8>, time: Vec<u8>)
    ensures
        says(
            line_of(Request::NewGroups { date, time, gmt: true }),
            seq!["NEWGROUPS".spec_bytes(), date@, time@, "GMT".spec_bytes()],
        ),
        says(
            line_of(Request::NewGroups { date, time, gmt: false }),
            seq!["NEWGROUPS".spec_bytes(), date@, time@],
        ),
        says(
            line_of(Request::NewNews { wildmat, date, time, gmt: true }),
            seq!["NEWNEWS".spec_bytes(), wildmat@, date@, time@, "GMT".spec_bytes()],
        ),
        says(
            line_of(Request::NewNews { wildmat, date, time, gmt: false }),
            seq!["NEWNEWS".spec_bytes(), wildmat@, date@, time@],
        ),
{
    let gmt = moment_args(date@, time@, true);
    let local = moment_args(date@, time@, false);
    lemma_line_says(
        "NEWGROUPS",
        gmt,
        seq!["NEWGROUPS".spec_bytes(), date@, time@, "GMT".spec_bytes()],
    );
    lemma_line_says("NEWGROUPS", local, seq!["NEWGROUPS".spec_bytes(), date@, time@]);
    lemma_line_says(
        "NEWNEWS",
        seq![wildmat@] + gmt,
        seq!["NEWNEWS".spec_bytes(), wildmat@, date@, time@, "GMT".spec_bytes()],
    );
    lemma_line_says(
        "NEWNEWS",
        seq![wildmat@] + local,
        seq!["NEWNEWS".spec_bytes(), wildmat@, date@, time@],
    );
}

/// An offer of an article says its message-id, and a transfer sends the article behind the line.
pub proof fn law_offering_lines(message_id: MessageId, article: Vec<u8>)
    ensures
        says(line_of(Request::Ihave { message_id }), seq!["IHAVE".spec_bytes(), message_id@]),
        says(line_of(Request::Check { message_id }), seq!["CHECK".spec_bytes(), message_id@]),
        says(
            line_of(Request::TakeThis { message_id, article }),
            seq!["TAKETHIS".spec_bytes(), message_id@],
        ),
        wire_of(Request::TakeThis { message_id, article }) == line_of(
            Request::TakeThis { message_id, article },
        ) + terminator::terminated(stuffed(article@)),
        wire_of(Request::Ihave { message_id }) == line_of(Request::Ihave { message_id }),
{
    lemma_line_says("IHAVE", seq![message_id@], seq!["IHAVE".spec_bytes(), message_id@]);
    lemma_line_says("CHECK", seq![message_id@], seq!["CHECK".spec_bytes(), message_id@]);
    lemma_line_says("TAKETHIS", seq![message_id@], seq!["TAKETHIS".spec_bytes(), message_id@]);
}

/// A query says its selector, behind the name of the header where it asks for one. Authentication
/// says what kind of value it sends, and the value.
pub proof fn law_query_lines(header: Vec<u8>, selector: Vec<u8>, value: Vec<u8>)
    ensures
        says(line_of(Request::Over { selector }), seq!["OVER".spec_bytes(), selector@]),
        says(line_of(Request::Xover { selector }), seq!["XOVER".spec_bytes(), selector@]),
        says(
            line_of(Request::Hdr { header, selector }),
            seq!["HDR".spec_bytes(), header@, selector@],
        ),
        says(
            line_of(Request::Xhdr { header, selector }),
            seq!["XHDR".spec_bytes(), header@, selector@],
        ),
        says(
            line_of(Request::AuthInfoUser { value }),
            seq!["AUTHINFO".spec_bytes(), "USER".spec_bytes(), value@],
        ),
        says(
            line_of(Request::AuthInfoPass { value }),
            seq!["AUTHINFO".spec_bytes(), "PASS".spec_bytes(), value@],
        ),
{
    lemma_line_says("OVER", seq![selector@], seq!["OVER".spec_bytes(), selector@]);
    lemma_line_says("XOVER", seq![selector@], seq!["XOVER".spec_bytes(), selector@]);
    lemma_line_says(
        "HDR",
        seq![header@, selector@],
        seq!["HDR".spec_bytes(), header@, selector@],
    );
    lemma_line_says(
        "XHDR",
        seq![header@, selector@],
        seq!["XHDR".spec_bytes(), header@, selector@],
    );
    lemma_line_says(
        "AUTHINFO",
        seq!["USER".spec_bytes(), value@],
        seq!["AUTHINFO".spec_bytes(), "USER".spec_bytes(), value@],
    );
    lemma_line_says(
        "AUTHINFO",
        seq!["PASS".spec_bytes(), value@],
        seq!["AUTHINFO".spec_bytes(), "PASS".spec_bytes(), value@],
    );
}

/// The lines of an article are sent one by one: a line that starts with a dot has one more before
/// it, and any other line stays as it is.
pub proof fn law_stuffing_goes_line_by_line(line: Seq<u8>, rest: Seq<u8>)
    requires
        forall|i: int| 0 <= i < line.len() ==> #[trigger] line[i] != 13 && line[i] != 10,
    ensures
        stuffed(Seq::empty()) == Seq::<u8>::empty(),
        stuffed(line) == (if line.len() > 0 && line[0] == 46 {
            seq![46u8] + line
        } else {
            line
        }),
        stuffed(line + seq![13u8, 10u8] + rest) == stuffed(line) + seq![13u8, 10u8] + stuffed(rest),
{
    lemma_stuffed_line(line);
    let first = line + seq![13u8];
    let whole = line + seq![13u8, 10u8];
    assert(first.last() == 13 && first.drop_last() =~= line);
    assert(whole.last() == 10 && whole.drop_last() =~= first);
    assert(stuffed(first) == stuffed(line).push(13));
    assert(stuffed(whole) == stuffed(first).push(10));
    assert(stuffed(whole) =~= stuffed(line) + seq![13u8, 10u8]);
    lemma_stuffed_join(whole, rest);
}

proof fn lemma_stuffed_line(line: Seq<u8>)
    requires
        forall|i: int| 0 <= i < line.len() ==> #[trigger] line[i] != 13 && line[i] != 10,
    ensures
        stuffed(line) == (if line.len() > 0 && line[0] == 46 {
            seq![46u8] + line
        } else {
            line
        }),
    decreases line.len(),
{
    if line.len() > 0 {
        let start = line.drop_last();
        lemma_stuffed_line(start);
        if line.len() == 1 {
            assert(start =~= Seq::<u8>::empty());
            assert(stuffed(line) =~= (if line[0] == 46 {
                seq![46u8] + line
            } else {
                line
            }));
        } else {
            if line.len() >= 3 {
                assert(line[line.len() - 3] != 13);
            }
            assert(!terminator::line_starts_at(line, 0, line.len() - 1));
            assert(start[0] == line[0]);
            assert(stuffed(line) =~= (if line[0] == 46 {
                seq![46u8] + line
            } else {
                line
            }));
        }
    }
}

proof fn lemma_stuffed_join(lines: Seq<u8>, rest: Seq<u8>)
    requires
        terminator::crlf_at(lines, lines.len() - 2),
    ensures
        stuffed(lines + rest) == stuffed(lines) + stuffed(rest),
    decreases rest.len(),
{
    let whole = lines + rest;
    if rest.len() == 0 {
        assert(whole =~= lines);
        assert(stuffed(lines) + stuffed(rest) =~= stuffed(lines));
    } else {
        let start = rest.drop_last();
        lemma_stuffed_join(lines, start);
        assert(whole.drop_last() =~= lines + start);
        assert(whole.last() == rest.last());
        let at = rest.len() - 1;
        let from = lines.len() + at;
        assert(terminator::line_starts_at(whole, 0, from) == terminator::line_starts_at(rest, 0, at))
            by {
            if at == 0 {
                assert(whole[from - 2] == lines[lines.len() - 2]);
                assert(whole[from - 1] == lines[lines.len() - 1]);
            } else if at == 1 {
                assert(whole[from - 2] == lines[lines.len() - 1]);
            } else {
                assert(whole[from - 2] == rest[at - 2]);
                assert(whole[from - 1] == rest[at - 1]);
            }
        }
        assert(stuffed(whole) =~= stuffed(lines) + stuffed(rest));
    }
}

} // verus!
