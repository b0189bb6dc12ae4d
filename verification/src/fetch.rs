//! The one request that the command line asks for.
use crate::bytes;
use crate::message_id;
use crate::message_id::MessageId;
use crate::request;
use crate::request::{ArticleRef, Request};
use crate::request_line::RequestKind;
use crate::terminator::TERMINATOR_TAIL_SIZE;
use crate::values;
use crate::values::{
    check_article_range, check_article_selector, check_auth_value, check_group_name,
    check_header_name, check_nntp_date, check_nntp_time, check_wildmat,
};
use vstd::prelude::*;
use vstd::string::StringSliceAdditionalSpecFns;
use vstd::utf8;

verus! {

/// Why a request cannot be made.
#[derive(Debug, Clone, Copy, PartialEq, Eq, Structural)]
pub enum ClientError {
    MissingMessageId,
    InvalidMessageId,
    MissingArticleSelector,
    InvalidArticleSelector,
    MissingHeaderName,
    InvalidHeaderName,
    MissingGroupName,
    InvalidGroupName,
    InvalidListGroupRange,
    MissingDate,
    InvalidDate,
    MissingTime,
    InvalidTime,
    MissingWildmat,
    InvalidWildmat,
    MissingArticleBody,
    MissingAuthInfoValue,
    InvalidAuthInfoValue,
}

#[derive(Debug, Clone, Copy, PartialEq, Eq, Structural)]
pub enum FetchRequestKind {
    Article,
    Body,
    Head,
    Stat,
    ListActive,
    ListActiveTimes,
    ListNewsgroups,
    ListOverviewFmt,
    ListHeaders,
    ListDistribPats,
    Group,
    Listgroup,
    Last,
    Next,
    Newgroups,
    Newnews,
    Post,
    Ihave,
    Check,
    Takethis,
    AuthinfoUser,
    AuthinfoPass,
    Starttls,
    Over,
    Xover,
    Hdr,
    Xhdr,
    List,
    Help,
    Capabilities,
    Date,
    ModeReader,
    Quit,
}

/// What the command line says of the request.
#[derive(Debug)]
pub struct FetchArgs {
    pub request: FetchRequestKind,
    pub message_id: Option<String>,
    pub article_body: Option<String>,
    pub auth_value: Option<String>,
    pub header: Option<String>,
    pub group: Option<String>,
    pub wildmat: Option<String>,
    pub date: Option<String>,
    pub time: Option<String>,
    pub gmt: bool,
    pub selector: Option<String>,
    pub read_buffer_bytes: usize,
    pub pipeline_depth: usize,
}

/// The sizes that a connection works with.
#[derive(Debug, Clone, Copy, PartialEq, Eq, Structural)]
pub struct ClientOptions {
    pub read_buffer_bytes: usize,
    pub pipeline_depth: usize,
}

/// The sizes for a request, within their bounds.
pub fn fetch_options(args: &FetchArgs) -> (options: ClientOptions)
    ensures
        options.read_buffer_bytes == (if args.read_buffer_bytes < TERMINATOR_TAIL_SIZE {
            TERMINATOR_TAIL_SIZE
        } else {
            args.read_buffer_bytes
        }),
        options.pipeline_depth == (if args.pipeline_depth < 1 {
            1
        } else if args.pipeline_depth > 4096 {
            4096
        } else {
            args.pipeline_depth as int
        }),
{
    ClientOptions {
        read_buffer_bytes: if args.read_buffer_bytes < TERMINATOR_TAIL_SIZE {
            TERMINATOR_TAIL_SIZE
        } else {
            args.read_buffer_bytes
        },
        pipeline_depth: if args.pipeline_depth < 1 {
            1
        } else if args.pipeline_depth > 4096 {
            4096
        } else {
            args.pipeline_depth
        },
    }
}

/// The bytes of an argument.
pub open spec fn given(value: Option<String>) -> Option<Seq<u8>> {
    match value {
        Some(text) => Some(utf8::encode_utf8(text@)),
        None => None,
    }
}

fn copied(value: &String) -> (copy: Vec<u8>)
    ensures
        copy@ == utf8::encode_utf8(value@),
{
    let mut copy: Vec<u8> = Vec::new();
    copy.extend_from_slice(value.as_str().as_bytes());
    assert(copy@ =~= utf8::encode_utf8(value@));
    copy
}

/// The command that the request is.
pub open spec fn fetched_kind(kind: FetchRequestKind) -> RequestKind {
    match kind {
        FetchRequestKind::Article => RequestKind::Article,
        FetchRequestKind::Body => RequestKind::Body,
        FetchRequestKind::Head => RequestKind::Head,
        FetchRequestKind::Stat => RequestKind::Stat,
        FetchRequestKind::ListActive => RequestKind::ListActive,
        FetchRequestKind::ListActiveTimes => RequestKind::ListActiveTimes,
        FetchRequestKind::ListNewsgroups => RequestKind::ListNewsgroups,
        FetchRequestKind::ListOverviewFmt => RequestKind::ListOverviewFmt,
        FetchRequestKind::ListHeaders => RequestKind::ListHeaders,
        FetchRequestKind::ListDistribPats => RequestKind::ListDistribPats,
        FetchRequestKind::Group => RequestKind::Group,
        FetchRequestKind::Listgroup => RequestKind::ListGroup,
        FetchRequestKind::Last => RequestKind::Last,
        FetchRequestKind::Next => RequestKind::Next,
        FetchRequestKind::Newgroups => RequestKind::NewGroups,
        FetchRequestKind::Newnews => RequestKind::NewNews,
        FetchRequestKind::Post => RequestKind::Post,
        FetchRequestKind::Ihave => RequestKind::Ihave,
        FetchRequestKind::Check => RequestKind::Check,
        FetchRequestKind::Takethis => RequestKind::TakeThis,
        FetchRequestKind::AuthinfoUser => RequestKind::AuthInfoUser,
        FetchRequestKind::AuthinfoPass => RequestKind::AuthInfoPass,
        FetchRequestKind::Starttls => RequestKind::StartTls,
        FetchRequestKind::Over => RequestKind::Over,
        FetchRequestKind::Xover => RequestKind::Xover,
        FetchRequestKind::Hdr => RequestKind::Hdr,
        FetchRequestKind::Xhdr => RequestKind::Xhdr,
        FetchRequestKind::List => RequestKind::List,
        FetchRequestKind::Help => RequestKind::Help,
        FetchRequestKind::Capabilities => RequestKind::Capabilities,
        FetchRequestKind::Date => RequestKind::Date,
        FetchRequestKind::ModeReader => RequestKind::ModeReader,
        FetchRequestKind::Quit => RequestKind::Quit,
    }
}

/// The words of a request, or why there is none.
pub type Words = Result<Seq<Seq<u8>>, ClientError>;

/// The article that a request picks: by message-id, else by selector, else the current one.
pub open spec fn article_words(args: FetchArgs) -> Words {
    match (given(args.message_id), given(args.selector)) {
        (Some(id), _) => if values::is_message_id(message_id::bracketed(id)) {
            Ok(seq![message_id::bracketed(id)])
        } else {
            Err(ClientError::InvalidMessageId)
        },
        (None, Some(selector)) => if values::is_article_number(selector) || values::is_message_id(
            selector,
        ) {
            Ok(seq![selector])
        } else {
            Err(ClientError::InvalidArticleSelector)
        },
        (None, None) => Ok(Seq::empty()),
    }
}

pub open spec fn message_id_words(args: FetchArgs) -> Words {
    match given(args.message_id) {
        Some(id) => if values::is_message_id(message_id::bracketed(id)) {
            Ok(seq![message_id::bracketed(id)])
        } else {
            Err(ClientError::InvalidMessageId)
        },
        None => Err(ClientError::MissingMessageId),
    }
}

/// A keyword of `LIST`, and a wildmat where there is one.
pub open spec fn listing_words(args: FetchArgs, keyword: &str) -> Words {
    match given(args.wildmat) {
        Some(wildmat) => if values::is_wildmat(wildmat) {
            Ok(seq![keyword.spec_bytes()] + seq![wildmat])
        } else {
            Err(ClientError::InvalidWildmat)
        },
        None => Ok(seq![keyword.spec_bytes()] + Seq::<Seq<u8>>::empty()),
    }
}

pub open spec fn group_words(args: FetchArgs) -> Words {
    match given(args.group) {
        Some(group) => if values::is_group_name(group) {
            Ok(seq![group])
        } else {
            Err(ClientError::InvalidGroupName)
        },
        None => Err(ClientError::MissingGroupName),
    }
}

pub open spec fn listgroup_words(args: FetchArgs) -> Words {
    let group = given(args.group);
    let range = given(args.selector);
    if group is Some && !values::is_group_name(group->0) {
        Err(ClientError::InvalidGroupName)
    } else if range is Some && !values::is_article_range(range->0) {
        Err(ClientError::InvalidListGroupRange)
    } else {
        let first = if group is Some {
            seq![group->0]
        } else {
            Seq::empty()
        };
        let second = if range is Some {
            seq![range->0]
        } else {
            Seq::empty()
        };
        Ok(first + second)
    }
}

/// A date and a time, of which the date is looked at first.
pub open spec fn moment_error(args: FetchArgs) -> Option<ClientError> {
    match (given(args.date), given(args.time)) {
        (None, _) => Some(ClientError::MissingDate),
        (_, None) => Some(ClientError::MissingTime),
        (Some(date), Some(time)) => if !values::is_nntp_date(date) {
            Some(ClientError::InvalidDate)
        } else if !values::is_nntp_time(time) {
            Some(ClientError::InvalidTime)
        } else {
            None
        },
    }
}

pub open spec fn newgroups_words(args: FetchArgs) -> Words {
    match moment_error(args) {
        Some(error) => Err(error),
        None => Ok(request::moment_args(given(args.date)->0, given(args.time)->0, args.gmt)),
    }
}

pub open spec fn newnews_words(args: FetchArgs) -> Words {
    match given(args.wildmat) {
        None => Err(ClientError::MissingWildmat),
        Some(wildmat) => match moment_error(args) {
            Some(ClientError::MissingDate) => Err(ClientError::MissingDate),
            Some(ClientError::MissingTime) => Err(ClientError::MissingTime),
            moment => if !values::is_wildmat(wildmat) {
                Err(ClientError::InvalidWildmat)
            } else if moment is Some {
                Err(moment->0)
            } else {
                Ok(
                    seq![wildmat] + request::moment_args(
                        given(args.date)->0,
                        given(args.time)->0,
                        args.gmt,
                    ),
                )
            },
        },
    }
}

pub open spec fn takethis_words(args: FetchArgs) -> Words {
    if args.message_id is None {
        Err(ClientError::MissingMessageId)
    } else if args.article_body is None {
        Err(ClientError::MissingArticleBody)
    } else {
        message_id_words(args)
    }
}

pub open spec fn authinfo_words(args: FetchArgs, keyword: &str) -> Words {
    match given(args.auth_value) {
        Some(value) => if values::is_auth_value(value) {
            Ok(seq![keyword.spec_bytes(), value])
        } else {
            Err(ClientError::InvalidAuthInfoValue)
        },
        None => Err(ClientError::MissingAuthInfoValue),
    }
}

pub open spec fn selector_words(args: FetchArgs) -> Words {
    match given(args.selector) {
        Some(selector) => if values::is_article_selector(selector) {
            Ok(seq![selector])
        } else {
            Err(ClientError::InvalidArticleSelector)
        },
        None => Err(ClientError::MissingArticleSelector),
    }
}

pub open spec fn header_words(args: FetchArgs) -> Words {
    match (given(args.header), given(args.selector)) {
        (None, _) => Err(ClientError::MissingHeaderName),
        (_, None) => Err(ClientError::MissingArticleSelector),
        (Some(header), Some(selector)) => if !values::is_header_name(header) {
            Err(ClientError::InvalidHeaderName)
        } else if !values::is_article_selector(selector) {
            Err(ClientError::InvalidArticleSelector)
        } else {
            Ok(seq![header, selector])
        },
    }
}

/// The words of the request after its verb, or why there is no request.
pub open spec fn fetched_words(args: FetchArgs) -> Words {
    match args.request {
        FetchRequestKind::Article
        | FetchRequestKind::Body
        | FetchRequestKind::Head
        | FetchRequestKind::Stat => article_words(args),
        FetchRequestKind::ListActive => listing_words(args, "ACTIVE"),
        FetchRequestKind::ListActiveTimes => listing_words(args, "ACTIVE.TIMES"),
        FetchRequestKind::ListNewsgroups => listing_words(args, "NEWSGROUPS"),
        FetchRequestKind::ListOverviewFmt => Ok(seq!["OVERVIEW.FMT".spec_bytes()]),
        FetchRequestKind::ListHeaders => Ok(seq!["HEADERS".spec_bytes()]),
        FetchRequestKind::ListDistribPats => Ok(seq!["DISTRIB.PATS".spec_bytes()]),
        FetchRequestKind::Group => group_words(args),
        FetchRequestKind::Listgroup => listgroup_words(args),
        FetchRequestKind::Newgroups => newgroups_words(args),
        FetchRequestKind::Newnews => newnews_words(args),
        FetchRequestKind::Ihave | FetchRequestKind::Check => message_id_words(args),
        FetchRequestKind::Takethis => takethis_words(args),
        FetchRequestKind::AuthinfoUser => authinfo_words(args, "USER"),
        FetchRequestKind::AuthinfoPass => authinfo_words(args, "PASS"),
        FetchRequestKind::Over | FetchRequestKind::Xover => selector_words(args),
        FetchRequestKind::Hdr | FetchRequestKind::Xhdr => header_words(args),
        FetchRequestKind::ModeReader => Ok(seq!["READER".spec_bytes()]),
        _ => Ok(Seq::empty()),
    }
}

/// The request says what the arguments ask for.
pub open spec fn is_fetched(sent: Request, args: FetchArgs) -> bool {
    &&& request::is_valid(sent)
    &&& request::kind_of(sent) == fetched_kind(args.request)
    &&& fetched_words(args) == Ok::<Seq<Seq<u8>>, ClientError>(request::args_of(sent))
    &&& sent matches Request::TakeThis { article, .. } ==> Some(article@) == given(
        args.article_body,
    )
}

fn fetch_article_ref(args: &FetchArgs) -> (article_ref: Result<ArticleRef, ClientError>)
    ensures
        match article_ref {
            Ok(found) => request::is_valid_ref(found) && article_words(*args) == Ok::<
                Seq<Seq<u8>>,
                ClientError,
            >(request::ref_args(found)),
            Err(error) => article_words(*args) == Err::<Seq<Seq<u8>>, ClientError>(error),
        },
{
    if let Some(id) = &args.message_id {
        return match ArticleRef::from_message_id(id.as_str()) {
            Ok(article_ref) => Ok(article_ref),
            Err(_) => Err(ClientError::InvalidMessageId),
        };
    }
    if let Some(selector) = &args.selector {
        return match ArticleRef::from_selector(selector.as_str()) {
            Ok(article_ref) => {
                proof {
                    if article_ref is Number {
                        bytes::law_decimal_of_number(utf8::encode_utf8(selector@));
                    }
                }
                Ok(article_ref)
            },
            Err(_) => Err(ClientError::InvalidArticleSelector),
        };
    }
    Ok(ArticleRef::Current)
}

fn fetch_message_id(args: &FetchArgs) -> (id: Result<MessageId, ClientError>)
    ensures
        match id {
            Ok(found) => values::is_message_id(found@) && message_id_words(*args) == Ok::<
                Seq<Seq<u8>>,
                ClientError,
            >(seq![found@]),
            Err(error) => message_id_words(*args) == Err::<Seq<Seq<u8>>, ClientError>(error),
        },
{
    match &args.message_id {
        Some(text) => match MessageId::from_str_or_wrap(text.as_str()) {
            Ok(id) => Ok(id),
            Err(_) => Err(ClientError::InvalidMessageId),
        },
        None => Err(ClientError::MissingMessageId),
    }
}

fn fetch_wildmat(args: &FetchArgs) -> (wildmat: Result<Option<Vec<u8>>, ClientError>)
    ensures
        match wildmat {
            Ok(Some(text)) => values::is_wildmat(text@) && given(args.wildmat) == Some(text@),
            Ok(None) => args.wildmat is None,
            Err(error) => error == ClientError::InvalidWildmat && args.wildmat is Some
                && !values::is_wildmat(given(args.wildmat)->0),
        },
{
    match &args.wildmat {
        Some(text) => if check_wildmat(text.as_str().as_bytes()) {
            Ok(Some(copied(text)))
        } else {
            Err(ClientError::InvalidWildmat)
        },
        None => Ok(None),
    }
}

fn fetch_group_request(args: &FetchArgs) -> (sent: Result<Request, ClientError>)
    ensures
        match sent {
            Ok(Request::Group { name }) => values::is_group_name(name@) && group_words(*args)
                == Ok::<Seq<Seq<u8>>, ClientError>(seq![name@]),
            Ok(_) => false,
            Err(error) => group_words(*args) == Err::<Seq<Seq<u8>>, ClientError>(error),
        },
{
    match &args.group {
        Some(group) => if check_group_name(group.as_str().as_bytes()) {
            Ok(Request::Group { name: copied(group) })
        } else {
            Err(ClientError::InvalidGroupName)
        },
        None => Err(ClientError::MissingGroupName),
    }
}

fn fetch_listgroup_request(args: &FetchArgs) -> (sent: Result<Request, ClientError>)
    ensures
        match sent {
            Ok(request) => request is ListGroup && request::is_valid(request) && listgroup_words(
                *args,
            ) == Ok::<Seq<Seq<u8>>, ClientError>(request::args_of(request)),
            Err(error) => listgroup_words(*args) == Err::<Seq<Seq<u8>>, ClientError>(error),
        },
{
    let mut group: Option<Vec<u8>> = None;
    let mut range: Option<Vec<u8>> = None;
    if let Some(text) = &args.group {
        if !check_group_name(text.as_str().as_bytes()) {
            return Err(ClientError::InvalidGroupName);
        }
        group = Some(copied(text));
    }
    if let Some(text) = &args.selector {
        if !check_article_range(text.as_str().as_bytes()) {
            return Err(ClientError::InvalidListGroupRange);
        }
        range = Some(copied(text));
    }
    let sent: Request = Request::ListGroup { group, range };
    assert(listgroup_words(*args)->Ok_0 =~= request::args_of(sent));
    Ok(sent)
}

fn fetch_newgroups_request(args: &FetchArgs) -> (sent: Result<Request, ClientError>)
    ensures
        match sent {
            Ok(request) => request is NewGroups && request::is_valid(request) && newgroups_words(
                *args,
            ) == Ok::<Seq<Seq<u8>>, ClientError>(request::args_of(request)),
            Err(error) => newgroups_words(*args) == Err::<Seq<Seq<u8>>, ClientError>(error),
        },
{
    match (&args.date, &args.time) {
        (None, _) => Err(ClientError::MissingDate),
        (_, None) => Err(ClientError::MissingTime),
        (Some(date), Some(time)) => if !check_nntp_date(date.as_str().as_bytes()) {
            Err(ClientError::InvalidDate)
        } else if !check_nntp_time(time.as_str().as_bytes()) {
            Err(ClientError::InvalidTime)
        } else {
            Ok(Request::NewGroups { date: copied(date), time: copied(time), gmt: args.gmt })
        },
    }
}

fn fetch_newnews_request(args: &FetchArgs) -> (sent: Result<Request, ClientError>)
    ensures
        match sent {
            Ok(request) => request is NewNews && request::is_valid(request) && newnews_words(*args)
                == Ok::<Seq<Seq<u8>>, ClientError>(request::args_of(request)),
            Err(error) => newnews_words(*args) == Err::<Seq<Seq<u8>>, ClientError>(error),
        },
{
    match (&args.wildmat, &args.date, &args.time) {
        (None, _, _) => Err(ClientError::MissingWildmat),
        (_, None, _) => Err(ClientError::MissingDate),
        (_, _, None) => Err(ClientError::MissingTime),
        (Some(wildmat), Some(date), Some(time)) => if !check_wildmat(wildmat.as_str().as_bytes()) {
            Err(ClientError::InvalidWildmat)
        } else if !check_nntp_date(date.as_str().as_bytes()) {
            Err(ClientError::InvalidDate)
        } else if !check_nntp_time(time.as_str().as_bytes()) {
            Err(ClientError::InvalidTime)
        } else {
            Ok(
                Request::NewNews {
                    wildmat: copied(wildmat),
                    date: copied(date),
                    time: copied(time),
                    gmt: args.gmt,
                },
            )
        },
    }
}

fn fetch_auth_value(args: &FetchArgs) -> (value: Result<Vec<u8>, ClientError>)
    ensures
        match value {
            Ok(text) => values::is_auth_value(text@) && given(args.auth_value) == Some(text@),
            Err(error) => error == (if args.auth_value is None {
                ClientError::MissingAuthInfoValue
            } else {
                ClientError::InvalidAuthInfoValue
            }) && (args.auth_value is None || !values::is_auth_value(given(args.auth_value)->0)),
        },
{
    match &args.auth_value {
        Some(text) => if check_auth_value(text.as_str().as_bytes()) {
            Ok(copied(text))
        } else {
            Err(ClientError::InvalidAuthInfoValue)
        },
        None => Err(ClientError::MissingAuthInfoValue),
    }
}

fn fetch_selector(args: &FetchArgs) -> (selector: Result<Vec<u8>, ClientError>)
    ensures
        match selector {
            Ok(text) => values::is_article_selector(text@) && given(args.selector) == Some(text@),
            Err(error) => error == (if args.selector is None {
                ClientError::MissingArticleSelector
            } else {
                ClientError::InvalidArticleSelector
            }) && (args.selector is None || !values::is_article_selector(given(args.selector)->0)),
        },
{
    match &args.selector {
        Some(text) => if check_article_selector(text.as_str().as_bytes()) {
            Ok(copied(text))
        } else {
            Err(ClientError::InvalidArticleSelector)
        },
        None => Err(ClientError::MissingArticleSelector),
    }
}

fn fetch_header_query(args: &FetchArgs) -> (query: Result<(Vec<u8>, Vec<u8>), ClientError>)
    ensures
        match query {
            Ok((header, selector)) => values::is_header_name(header@)
                && values::is_article_selector(selector@) && header_words(*args) == Ok::<
                Seq<Seq<u8>>,
                ClientError,
            >(seq![header@, selector@]),
            Err(error) => header_words(*args) == Err::<Seq<Seq<u8>>, ClientError>(error),
        },
{
    match (&args.header, &args.selector) {
        (None, _) => Err(ClientError::MissingHeaderName),
        (_, None) => Err(ClientError::MissingArticleSelector),
        (Some(header), Some(selector)) => if !check_header_name(header.as_str().as_bytes()) {
            Err(ClientError::InvalidHeaderName)
        } else if !check_article_selector(selector.as_str().as_bytes()) {
            Err(ClientError::InvalidArticleSelector)
        } else {
            Ok((copied(header), copied(selector)))
        },
    }
}

fn fetch_takethis_request(args: &FetchArgs) -> (sent: Result<Request, ClientError>)
    ensures
        match sent {
            Ok(Request::TakeThis { message_id, article }) => values::is_message_id(message_id@)
                && takethis_words(*args) == Ok::<Seq<Seq<u8>>, ClientError>(seq![message_id@])
                && given(args.article_body) == Some(article@),
            Ok(_) => false,
            Err(error) => takethis_words(*args) == Err::<Seq<Seq<u8>>, ClientError>(error),
        },
{
    if args.message_id.is_none() {
        return Err(ClientError::MissingMessageId);
    }
    match &args.article_body {
        Some(article) => match fetch_message_id(args) {
            Ok(message_id) => Ok(Request::TakeThis { message_id, article: copied(article) }),
            Err(error) => Err(error),
        },
        None => Err(ClientError::MissingArticleBody),
    }
}

fn fetch_article_request(args: &FetchArgs, kind: FetchRequestKind) -> (sent: Result<
    Request,
    ClientError,
>)
    requires
        kind == args.request,
        kind == FetchRequestKind::Article || kind == FetchRequestKind::Body || kind
            == FetchRequestKind::Head || kind == FetchRequestKind::Stat,
    ensures
        match sent {
            Ok(request) => is_fetched(request, *args),
            Err(error) => fetched_words(*args) == Err::<Seq<Seq<u8>>, ClientError>(error),
        },
{
    match fetch_article_ref(args) {
        Ok(article_ref) => Ok(
            match kind {
                FetchRequestKind::Article => Request::Article { article_ref },
                FetchRequestKind::Body => Request::Body { article_ref },
                FetchRequestKind::Head => Request::Head { article_ref },
                _ => Request::Stat { article_ref },
            },
        ),
        Err(error) => Err(error),
    }
}

fn fetch_listing_request(args: &FetchArgs, kind: FetchRequestKind) -> (sent: Result<
    Request,
    ClientError,
>)
    requires
        kind == args.request,
        kind == FetchRequestKind::ListActive || kind == FetchRequestKind::ListActiveTimes || kind
            == FetchRequestKind::ListNewsgroups,
    ensures
        match sent {
            Ok(request) => is_fetched(request, *args),
            Err(error) => fetched_words(*args) == Err::<Seq<Seq<u8>>, ClientError>(error),
        },
{
    match fetch_wildmat(args) {
        Ok(wildmat) => Ok(
            match kind {
                FetchRequestKind::ListActive => Request::ListActive { wildmat },
                FetchRequestKind::ListActiveTimes => Request::ListActiveTimes { wildmat },
                _ => Request::ListNewsgroups { wildmat },
            },
        ),
        Err(error) => Err(error),
    }
}

/// The request that the arguments ask for.
pub fn fetch_request(args: &FetchArgs) -> (sent: Result<Request, ClientError>)
    ensures
        match sent {
            Ok(request) => is_fetched(request, *args),
            Err(error) => fetched_words(*args) == Err::<Seq<Seq<u8>>, ClientError>(error),
        },
{
    let kind: FetchRequestKind = args.request;
    match kind {
        FetchRequestKind::Article
        | FetchRequestKind::Body
        | FetchRequestKind::Head
        | FetchRequestKind::Stat => fetch_article_request(args, kind),
        FetchRequestKind::ListActive
        | FetchRequestKind::ListActiveTimes
        | FetchRequestKind::ListNewsgroups => fetch_listing_request(args, kind),
        FetchRequestKind::ListOverviewFmt => Ok(Request::ListOverviewFmt),
        FetchRequestKind::ListHeaders => Ok(Request::ListHeaders),
        FetchRequestKind::ListDistribPats => Ok(Request::ListDistribPats),
        FetchRequestKind::Group => fetch_group_request(args),
        FetchRequestKind::Listgroup => fetch_listgroup_request(args),
        FetchRequestKind::Last => Ok(Request::Last),
        FetchRequestKind::Next => Ok(Request::Next),
        FetchRequestKind::Newgroups => fetch_newgroups_request(args),
        FetchRequestKind::Newnews => fetch_newnews_request(args),
        FetchRequestKind::Post => Ok(Request::Post),
        FetchRequestKind::Ihave => match fetch_message_id(args) {
            Ok(message_id) => Ok(Request::Ihave { message_id }),
            Err(error) => Err(error),
        },
        FetchRequestKind::Check => match fetch_message_id(args) {
            Ok(message_id) => Ok(Request::Check { message_id }),
            Err(error) => Err(error),
        },
        FetchRequestKind::Takethis => fetch_takethis_request(args),
        FetchRequestKind::AuthinfoUser => match fetch_auth_value(args) {
            Ok(value) => Ok(Request::AuthInfoUser { value }),
            Err(error) => Err(error),
        },
        FetchRequestKind::AuthinfoPass => match fetch_auth_value(args) {
            Ok(value) => Ok(Request::AuthInfoPass { value }),
            Err(error) => Err(error),
        },
        FetchRequestKind::Starttls => Ok(Request::StartTls),
        FetchRequestKind::Over => match fetch_selector(args) {
            Ok(selector) => Ok(Request::Over { selector }),
            Err(error) => Err(error),
        },
        FetchRequestKind::Xover => match fetch_selector(args) {
            Ok(selector) => Ok(Request::Xover { selector }),
            Err(error) => Err(error),
        },
        FetchRequestKind::Hdr => match fetch_header_query(args) {
            Ok((header, selector)) => Ok(Request::Hdr { header, selector }),
            Err(error) => Err(error),
        },
        FetchRequestKind::Xhdr => match fetch_header_query(args) {
            Ok((header, selector)) => Ok(Request::Xhdr { header, selector }),
            Err(error) => Err(error),
        },
        FetchRequestKind::List => Ok(Request::List),
        FetchRequestKind::Help => Ok(Request::Help),
        FetchRequestKind::Capabilities => Ok(Request::Capabilities),
        FetchRequestKind::Date => Ok(Request::Date),
        FetchRequestKind::ModeReader => Ok(Request::ModeReader),
        FetchRequestKind::Quit => Ok(Request::Quit),
    }
}

/// The verb that a request of each kind is sent with.
pub open spec fn verb_for(kind: FetchRequestKind) -> &'static str {
    match kind {
        FetchRequestKind::Article => "ARTICLE",
        FetchRequestKind::Body => "BODY",
        FetchRequestKind::Head => "HEAD",
        FetchRequestKind::Stat => "STAT",
        FetchRequestKind::Group => "GROUP",
        FetchRequestKind::Listgroup => "LISTGROUP",
        FetchRequestKind::Last => "LAST",
        FetchRequestKind::Next => "NEXT",
        FetchRequestKind::Newgroups => "NEWGROUPS",
        FetchRequestKind::Newnews => "NEWNEWS",
        FetchRequestKind::Post => "POST",
        FetchRequestKind::Ihave => "IHAVE",
        FetchRequestKind::Check => "CHECK",
        FetchRequestKind::Takethis => "TAKETHIS",
        FetchRequestKind::Starttls => "STARTTLS",
        FetchRequestKind::Over => "OVER",
        FetchRequestKind::Xover => "XOVER",
        FetchRequestKind::Hdr => "HDR",
        FetchRequestKind::Xhdr => "XHDR",
        FetchRequestKind::Help => "HELP",
        FetchRequestKind::Capabilities => "CAPABILITIES",
        FetchRequestKind::Date => "DATE",
        FetchRequestKind::ModeReader => "MODE",
        FetchRequestKind::Quit => "QUIT",
        FetchRequestKind::AuthinfoUser | FetchRequestKind::AuthinfoPass => "AUTHINFO",
        _ => "LIST",
    }
}

/// The request that the arguments ask for goes out as one line: its verb, and then its words with a
/// space before each.
pub proof fn law_fetched_request_is_its_line(args: FetchArgs, sent: Request)
    requires
        is_fetched(sent, args),
    ensures
        fetched_words(args) is Ok,
        request::line_of(sent) == verb_for(args.request).spec_bytes() + request::spaced(
            fetched_words(args)->Ok_0,
        ) + "\r\n".spec_bytes(),
{
}

/// An article is asked for by the message-id that is given, with its angle brackets or without them;
/// else by the selector; else it is the current one.
pub proof fn law_fetch_picks_the_article_that_is_given(args: FetchArgs)
    requires
        args.request == FetchRequestKind::Article || args.request == FetchRequestKind::Body
            || args.request == FetchRequestKind::Head || args.request == FetchRequestKind::Stat,
    ensures
        args.message_id is Some ==> fetched_words(args) == (if values::is_message_id(
            message_id::bracketed(utf8::encode_utf8(args.message_id->0@)),
        ) {
            Ok(seq![message_id::bracketed(utf8::encode_utf8(args.message_id->0@))])
        } else {
            Err(ClientError::InvalidMessageId)
        }),
        args.message_id is None && args.selector is Some ==> fetched_words(args) == (
        if values::is_article_number(utf8::encode_utf8(args.selector->0@)) || values::is_message_id(
            utf8::encode_utf8(args.selector->0@),
        ) {
            Ok(seq![utf8::encode_utf8(args.selector->0@)])
        } else {
            Err(ClientError::InvalidArticleSelector)
        }),
        args.message_id is None && args.selector is None ==> fetched_words(args) == Ok::<
            Seq<Seq<u8>>,
            ClientError,
        >(Seq::empty()),
{
}

/// The article that `TAKETHIS`, `IHAVE` and `CHECK` name is the message-id that is given; `TAKETHIS`
/// needs the article, too.
pub proof fn law_fetch_offers_the_article_that_is_given(args: FetchArgs)
    requires
        args.request == FetchRequestKind::Takethis || args.request == FetchRequestKind::Ihave
            || args.request == FetchRequestKind::Check,
    ensures
        args.message_id is None ==> fetched_words(args) == Err::<Seq<Seq<u8>>, ClientError>(
            ClientError::MissingMessageId,
        ),
        args.message_id is Some && args.request == FetchRequestKind::Takethis && args.article_body
            is None ==> fetched_words(args) == Err::<Seq<Seq<u8>>, ClientError>(
            ClientError::MissingArticleBody,
        ),
        args.message_id is Some && (args.request != FetchRequestKind::Takethis || args.article_body
            is Some) ==> fetched_words(args) == (if values::is_message_id(
            message_id::bracketed(utf8::encode_utf8(args.message_id->0@)),
        ) {
            Ok(seq![message_id::bracketed(utf8::encode_utf8(args.message_id->0@))])
        } else {
            Err(ClientError::InvalidMessageId)
        }),
{
}

/// A request about groups passes on the group, the range and the wildmat that are given, where the
/// protocol allows them.
pub proof fn law_fetch_passes_groups_on(args: FetchArgs)
    ensures
        args.request == FetchRequestKind::Group ==> fetched_words(args) == (if args.group is None {
            Err(ClientError::MissingGroupName)
        } else if values::is_group_name(utf8::encode_utf8(args.group->0@)) {
            Ok(seq![utf8::encode_utf8(args.group->0@)])
        } else {
            Err(ClientError::InvalidGroupName)
        }),
        args.request == FetchRequestKind::Listgroup && fetched_words(args) is Ok
            ==> fetched_words(args)->Ok_0.len() == (if args.group is Some {
            1int
        } else {
            0int
        }) + (if args.selector is Some {
            1int
        } else {
            0int
        }),
        args.request == FetchRequestKind::Listgroup && args.group is Some && args.selector is Some
            && values::is_group_name(utf8::encode_utf8(args.group->0@)) && values::is_article_range(
            utf8::encode_utf8(args.selector->0@),
        ) ==> fetched_words(args) == Ok::<Seq<Seq<u8>>, ClientError>(
            seq![utf8::encode_utf8(args.group->0@), utf8::encode_utf8(args.selector->0@)],
        ),
        args.request == FetchRequestKind::ListActive && args.wildmat is Some && values::is_wildmat(
            utf8::encode_utf8(args.wildmat->0@),
        ) ==> fetched_words(args) == Ok::<Seq<Seq<u8>>, ClientError>(
            seq!["ACTIVE".spec_bytes(), utf8::encode_utf8(args.wildmat->0@)],
        ),
        args.request == FetchRequestKind::ListActiveTimes && args.wildmat is Some
            && values::is_wildmat(utf8::encode_utf8(args.wildmat->0@)) ==> fetched_words(args)
            == Ok::<Seq<Seq<u8>>, ClientError>(
            seq!["ACTIVE.TIMES".spec_bytes(), utf8::encode_utf8(args.wildmat->0@)],
        ),
        args.request == FetchRequestKind::ListNewsgroups && args.wildmat is Some
            && values::is_wildmat(utf8::encode_utf8(args.wildmat->0@)) ==> fetched_words(args)
            == Ok::<Seq<Seq<u8>>, ClientError>(
            seq!["NEWSGROUPS".spec_bytes(), utf8::encode_utf8(args.wildmat->0@)],
        ),
{
    if args.group is Some && args.selector is Some {
        let group = utf8::encode_utf8(args.group->0@);
        let range = utf8::encode_utf8(args.selector->0@);
        assert(seq![group] + seq![range] =~= seq![group, range]);
    }
    if args.wildmat is Some {
        let wildmat = utf8::encode_utf8(args.wildmat->0@);
        assert(seq!["ACTIVE".spec_bytes()] + seq![wildmat] =~= seq!["ACTIVE".spec_bytes(), wildmat]);
        assert(seq!["ACTIVE.TIMES".spec_bytes()] + seq![wildmat]
            =~= seq!["ACTIVE.TIMES".spec_bytes(), wildmat]);
        assert(seq!["NEWSGROUPS".spec_bytes()] + seq![wildmat]
            =~= seq!["NEWSGROUPS".spec_bytes(), wildmat]);
    }
}

/// A request for news passes on the wildmat, the date and the time that are given, and says that
/// they are Greenwich time where it is told so. It is refused for lack of one of them, and where one
/// of them is wrong.
pub proof fn law_fetch_passes_moments_on(args: FetchArgs)
    requires
        args.request == FetchRequestKind::Newgroups || args.request == FetchRequestKind::Newnews,
    ensures
        fetched_words(args) is Ok <==> {
            &&& args.date matches Some(date) && values::is_nntp_date(utf8::encode_utf8(date@))
            &&& args.time matches Some(time) && values::is_nntp_time(utf8::encode_utf8(time@))
            &&& args.request == FetchRequestKind::Newnews ==> (args.wildmat matches Some(wildmat)
                && values::is_wildmat(utf8::encode_utf8(wildmat@)))
        },
        fetched_words(args) is Ok ==> {
            let words = fetched_words(args)->Ok_0;
            let at = if args.request == FetchRequestKind::Newnews {
                1int
            } else {
                0int
            };
            &&& words.len() == at + 2 + (if args.gmt {
                1int
            } else {
                0int
            })
            &&& at == 1 ==> words[0] == utf8::encode_utf8(args.wildmat->0@)
            &&& words[at] == utf8::encode_utf8(args.date->0@)
            &&& words[at + 1] == utf8::encode_utf8(args.time->0@)
            &&& args.gmt ==> words[at + 2] == "GMT".spec_bytes()
        },
        args.date is None && (args.request == FetchRequestKind::Newgroups || args.wildmat is Some)
            ==> fetched_words(args) == Err::<Seq<Seq<u8>>, ClientError>(ClientError::MissingDate),
        args.request == FetchRequestKind::Newnews && args.wildmat is None ==> fetched_words(args)
            == Err::<Seq<Seq<u8>>, ClientError>(ClientError::MissingWildmat),
{
}

/// A look at articles passes on the selector that is given, and a header query the header before it;
/// authentication passes on the user or the password.
pub proof fn law_fetch_passes_selectors_and_values_on(args: FetchArgs)
    ensures
        args.request == FetchRequestKind::Over || args.request == FetchRequestKind::Xover
            ==> fetched_words(args) == (if args.selector is None {
            Err(ClientError::MissingArticleSelector)
        } else if values::is_article_selector(utf8::encode_utf8(args.selector->0@)) {
            Ok(seq![utf8::encode_utf8(args.selector->0@)])
        } else {
            Err(ClientError::InvalidArticleSelector)
        }),
        (args.request == FetchRequestKind::Hdr || args.request == FetchRequestKind::Xhdr)
            && args.header is Some && args.selector is Some && values::is_header_name(
            utf8::encode_utf8(args.header->0@),
        ) && values::is_article_selector(utf8::encode_utf8(args.selector->0@)) ==> fetched_words(args)
            == Ok::<Seq<Seq<u8>>, ClientError>(
            seq![utf8::encode_utf8(args.header->0@), utf8::encode_utf8(args.selector->0@)],
        ),
        args.request == FetchRequestKind::AuthinfoUser || args.request
            == FetchRequestKind::AuthinfoPass ==> fetched_words(args) == (if args.auth_value is None {
            Err(ClientError::MissingAuthInfoValue)
        } else if values::is_auth_value(utf8::encode_utf8(args.auth_value->0@)) {
            Ok(
                seq![
                    (if args.request == FetchRequestKind::AuthinfoUser {
                        "USER"
                    } else {
                        "PASS"
                    }).spec_bytes(),
                    utf8::encode_utf8(args.auth_value->0@),
                ],
            )
        } else {
            Err(ClientError::InvalidAuthInfoValue)
        }),
{
}

} // verus!
