//! What a session answers to its commands, and what it remembers between them.
use crate::bytes;
use crate::commands;
use crate::commands::{
    command_args, command_message_id, is_known_request_syntax_error, CommandLineBatch, ParsedCommand,
};
use crate::date;
use crate::date::{date_response_for_unix_seconds, utc_year};
use crate::generate;
use crate::generate::{
    build_message_id_article_response, build_message_id_body_response,
    build_message_id_head_response, build_message_id_stat_response,
    build_selected_article_response, build_selected_body_response, build_selected_head_response,
    build_selected_stat_response,
};
use crate::groups;
use crate::groups::{
    fixture_group_from_name, group_response_for_args, group_response_for_group,
    last_response_for_article, listgroup_response_for_args, listgroup_selected_group,
    listgroup_state_error, next_response_for_article, FixtureGroup, SessionState,
};
use crate::listing;
use crate::listing::{
    list_active_response, list_active_times_response, list_newsgroups_response,
    list_variant_wildmat_args, newgroups_response, newnews_response,
};
use crate::message_id::MessageId;
use crate::overview;
use crate::overview::{
    article_selector_error, current_header_args, current_overview_args, hdr_response_for_args,
    hdr_response_within, over_response_for_args, over_response_within, overview_selector_error,
    xhdr_response_for_args, xhdr_response_within, xover_response_for_args, xover_response_within,
};
use crate::request_line;
use crate::request_line::{RequestKind, RequestLine};
use crate::responses::{
    ARTICLE_NOT_WANTED_RESPONSE, CAPABILITIES_RESPONSE, COMMAND_UNAVAILABLE_RESPONSE,
    HEAD_RESPONSE, HELP_RESPONSE, LAST_RESPONSE, LINE_TOO_LONG_RESPONSE,
    LIST_DISTRIB_PATS_RESPONSE, LIST_HEADERS_RESPONSE, LIST_OVERVIEW_FMT_RESPONSE, LIST_RESPONSE,
    MODE_READER_RESPONSE, NEWGROUPS_RESPONSE, NEXT_RESPONSE, NO_ARTICLE_MESSAGE_ID_RESPONSE,
    NO_ARTICLE_NUMBER_RESPONSE, NO_CURRENT_ARTICLE_RESPONSE, NO_GROUP_SELECTED_RESPONSE,
    NO_NEXT_ARTICLE_RESPONSE, NO_PREVIOUS_ARTICLE_RESPONSE, NO_SUCH_GROUP_RESPONSE,
    POSTING_NOT_PERMITTED_RESPONSE, QUIT_RESPONSE, STAT_RESPONSE, SYNTAX_ERROR_RESPONSE,
    TLS_REQUIRED_RESPONSE, UNKNOWN_COMMAND_RESPONSE,
};
use crate::server_config::{ServerConfig, SessionStats, Stats, MAX_SERVER_PIPELINE_DEPTH};
use crate::terminator;
use crate::text;
use crate::text::parse_article_id_arg;
use crate::values;
use vstd::prelude::*;
use vstd::string::StringSliceAdditionalSpecFns;

verus! {

/// What decides the answer to a command: its own content and the text of its line.
pub ghost struct CommandFacts {
    pub kind: RequestKind,
    pub args: Seq<u8>,
    pub article_id: Option<u64>,
    pub names_message_id: bool,
    pub message_id: Option<Seq<u8>>,
    pub syntax_error: bool,
    pub line_too_long: bool,
}

pub open spec fn facts_of(command: ParsedCommand, lines: Option<&CommandLineBatch>) -> CommandFacts {
    CommandFacts {
        kind: command.kind,
        args: commands::args_or_empty(commands::args_of(command, lines)),
        article_id: command.article_id,
        names_message_id: command.message_id is Some,
        message_id: commands::message_id_of(command, lines),
        syntax_error: command.syntax_error,
        line_too_long: command.line_too_long,
    }
}

/// `ARTICLE`, `HEAD`, `STAT` and `BODY`.
pub open spec fn retrieves(kind: RequestKind) -> bool {
    kind == RequestKind::Article || kind == RequestKind::Head || kind == RequestKind::Stat || kind
        == RequestKind::Body
}

/// `OVER`, `XOVER`, `HDR` and `XHDR`.
pub open spec fn looks_over(kind: RequestKind) -> bool {
    kind == RequestKind::Over || kind == RequestKind::Xover || kind == RequestKind::Hdr || kind
        == RequestKind::Xhdr
}

/// Why `LAST` does not move, if it does not.
pub open spec fn last_error(state: SessionState) -> Option<&'static str> {
    if overview::current_error(state) is Some {
        overview::current_error(state)
    } else if state.current_article->0 <= 1 {
        Some(NO_PREVIOUS_ARTICLE_RESPONSE)
    } else {
        None
    }
}

/// Why `NEXT` does not move, if it does not.
pub open spec fn next_error(state: SessionState) -> Option<&'static str> {
    if overview::current_error(state) is Some {
        overview::current_error(state)
    } else if state.current_article->0 >= groups::articles_in_reach(state) {
        Some(NO_NEXT_ARTICLE_RESPONSE)
    } else {
        None
    }
}

/// What a line that is no command is told.
pub open spec fn unknown_text(syntax_error: bool, line_too_long: bool) -> &'static str {
    if !syntax_error {
        UNKNOWN_COMMAND_RESPONSE
    } else if line_too_long {
        LINE_TOO_LONG_RESPONSE
    } else {
        SYNTAX_ERROR_RESPONSE
    }
}

/// What a command is refused with, if it is refused.
pub open spec fn refusal(facts: CommandFacts, state: SessionState) -> Option<&'static str> {
    match facts.kind {
        RequestKind::Article | RequestKind::Head | RequestKind::Stat | RequestKind::Body =>
        overview::article_error(
            facts.args,
            facts.article_id,
            facts.names_message_id,
            state,
            true,
        ),
        RequestKind::Over | RequestKind::Xover | RequestKind::Hdr | RequestKind::Xhdr =>
        overview::overview_error(
            facts.kind,
            facts.args,
            facts.article_id,
            facts.names_message_id,
            state,
        ),
        RequestKind::Group => if groups::group_named(facts.args) is None {
            Some(NO_SUCH_GROUP_RESPONSE)
        } else {
            None
        },
        RequestKind::ListGroup => groups::listgroup_error(facts.args, state.group_selected),
        RequestKind::Last => last_error(state),
        RequestKind::Next => next_error(state),
        RequestKind::Post => Some(POSTING_NOT_PERMITTED_RESPONSE),
        RequestKind::Ihave => Some(ARTICLE_NOT_WANTED_RESPONSE),
        RequestKind::Check
        | RequestKind::TakeThis
        | RequestKind::AuthInfo
        | RequestKind::StartTls => Some(COMMAND_UNAVAILABLE_RESPONSE),
        RequestKind::AuthInfoUser | RequestKind::AuthInfoPass => Some(TLS_REQUIRED_RESPONSE),
        RequestKind::Unknown => Some(unknown_text(facts.syntax_error, facts.line_too_long)),
        _ => None,
    }
}

/// The article that a command without a message-id retrieves: the one it names, else the current
/// one, else the first.
pub open spec fn chosen_article(article_id: Option<u64>, state: SessionState) -> u64 {
    match article_id {
        Some(id) => id,
        None => match state.current_article {
            Some(id) => id,
            None => 1,
        },
    }
}

/// What is sent for an article that is picked by its message-id.
pub open spec fn message_id_text(kind: RequestKind, id: Seq<u8>, config: ServerConfig) -> Seq<u8> {
    match kind {
        RequestKind::Article => generate::article_text(0, id, config.article_bytes as int),
        RequestKind::Head => generate::head_text(0, id),
        RequestKind::Stat => generate::stat_text(0, id),
        _ => generate::body_text(0, id, config.body_bytes as int),
    }
}

/// What is sent for an article that is picked by its number.
pub open spec fn numbered_text(kind: RequestKind, article_id: u64, config: ServerConfig) -> Seq<
    u8,
> {
    let number = article_id as nat;
    let id = generate::article_message_id(number);
    if article_id == 1 {
        match kind {
            RequestKind::Article => config.article_text(),
            RequestKind::Head => HEAD_RESPONSE.spec_bytes(),
            RequestKind::Stat => STAT_RESPONSE.spec_bytes(),
            _ => config.body_text(),
        }
    } else {
        match kind {
            RequestKind::Article => generate::article_text(
                number,
                id,
                config.article_bytes as int,
            ),
            RequestKind::Head => generate::head_text(number, id),
            RequestKind::Stat => generate::stat_text(number, id),
            _ => generate::body_text(number, id, config.body_bytes as int),
        }
    }
}

/// What `ARTICLE`, `HEAD`, `STAT` or `BODY` sends when it is not refused.
pub open spec fn retrieved_text(
    facts: CommandFacts,
    config: ServerConfig,
    state: SessionState,
) -> Seq<u8> {
    match facts.message_id {
        Some(id) => message_id_text(facts.kind, id, config),
        None => numbered_text(facts.kind, chosen_article(facts.article_id, state), config),
    }
}

/// The group that `LISTGROUP` lists and selects.
pub open spec fn listgroup_target(args: Seq<u8>, state: SessionState) -> FixtureGroup {
    match groups::listed_group(args, state.selected_group) {
        Some(group) => group,
        None => FixtureGroup::AltTest,
    }
}

/// The answer to `OVER`, `XOVER`, `HDR` and `XHDR`, among the articles in reach.
pub open spec fn overview_text(kind: RequestKind, args: Seq<u8>, state: SessionState) -> &'static str {
    let count = groups::articles_in_reach(state);
    match kind {
        RequestKind::Over => overview::over_text(
            overview::overview_args(args, state.current_article),
            count,
        ),
        RequestKind::Xover => overview::xover_text(
            overview::overview_args(args, state.current_article),
            count,
        ),
        RequestKind::Hdr => overview::hdr_text(
            overview::header_args(args, state.current_article),
            count,
        ),
        _ => overview::xhdr_text(overview::header_args(args, state.current_article), count),
    }
}

/// The answer to the commands that are told from one of the fixed texts.
pub open spec fn fixed_text(facts: CommandFacts, state: SessionState, now: u64) -> &'static str {
    let args = facts.args;
    match facts.kind {
        RequestKind::List => LIST_RESPONSE,
        RequestKind::ListActive => listing::list_active_text(
            listing::list_wildmat(facts.kind, args),
        ),
        RequestKind::ListActiveTimes => listing::list_active_times_text(
            listing::list_wildmat(facts.kind, args),
        ),
        RequestKind::ListNewsgroups => listing::list_newsgroups_text(
            listing::list_wildmat(facts.kind, args),
        ),
        RequestKind::ListOverviewFmt => LIST_OVERVIEW_FMT_RESPONSE,
        RequestKind::ListHeaders => LIST_HEADERS_RESPONSE,
        RequestKind::ListDistribPats => LIST_DISTRIB_PATS_RESPONSE,
        RequestKind::Group => groups::group_text_for(args),
        RequestKind::ListGroup => groups::listgroup_text(
            args,
            Some(listgroup_target(args, state)),
        ),
        RequestKind::Last => groups::last_text((state.current_article->0 - 1) as u64),
        RequestKind::Next => groups::next_text((state.current_article->0 + 1) as u64),
        RequestKind::NewGroups => listing::newgroups_text(args, date::year_of(now as int)),
        RequestKind::NewNews => listing::newnews_text(args, date::year_of(now as int)),
        RequestKind::Over | RequestKind::Xover | RequestKind::Hdr | RequestKind::Xhdr =>
        overview_text(facts.kind, args, state),
        RequestKind::Capabilities => CAPABILITIES_RESPONSE,
        RequestKind::Help => HELP_RESPONSE,
        RequestKind::ModeReader => MODE_READER_RESPONSE,
        RequestKind::Quit => QUIT_RESPONSE,
        _ => UNKNOWN_COMMAND_RESPONSE,
    }
}

/// The answer to a command.
pub open spec fn reply_text(
    facts: CommandFacts,
    config: ServerConfig,
    state: SessionState,
    now: u64,
) -> Seq<u8> {
    match refusal(facts, state) {
        Some(text) => text.spec_bytes(),
        None => if retrieves(facts.kind) {
            retrieved_text(facts, config, state)
        } else if facts.kind == RequestKind::Date {
            date::date_response(now as int)
        } else {
            fixed_text(facts, state, now).spec_bytes()
        },
    }
}

/// What the session remembers after a command.
pub open spec fn state_after(facts: CommandFacts, state: SessionState) -> SessionState {
    if refusal(facts, state) is Some {
        state
    } else {
        match facts.kind {
            RequestKind::Article | RequestKind::Head | RequestKind::Stat | RequestKind::Body =>
            if facts.message_id is Some {
                state
            } else {
                SessionState {
                    current_article: Some(chosen_article(facts.article_id, state)),
                    ..state
                }
            },
            RequestKind::Group => SessionState {
                group_selected: true,
                selected_group: groups::group_named(facts.args),
                current_article: Some(1),
            },
            RequestKind::ListGroup => SessionState {
                group_selected: true,
                selected_group: Some(listgroup_target(facts.args, state)),
                current_article: Some(1),
            },
            RequestKind::Last => SessionState {
                current_article: Some((state.current_article->0 - 1) as u64),
                ..state
            },
            RequestKind::Next => SessionState {
                current_article: Some((state.current_article->0 + 1) as u64),
                ..state
            },
            _ => state,
        }
    }
}

/// The answer is a stored article, if the store has it.
pub open spec fn needs_stored_article(
    facts: CommandFacts,
    config: ServerConfig,
    state: SessionState,
) -> bool {
    facts.kind == RequestKind::Article && config.article_dir is Some && refusal(facts, state)
        is None
}

/// The counters after a command and so many bytes of answer.
pub open spec fn counted(stats: SessionStats, kind: RequestKind, sent: int) -> SessionStats {
    SessionStats {
        commands: stats.commands.wrapping_add(1),
        article_requests: if kind == RequestKind::Article || kind == RequestKind::Head || kind
            == RequestKind::Stat {
            stats.article_requests.wrapping_add(1)
        } else {
            stats.article_requests
        },
        body_requests: if kind == RequestKind::Body {
            stats.body_requests.wrapping_add(1)
        } else {
            stats.body_requests
        },
        bytes_sent: stats.bytes_sent.wrapping_add(sent as u64),
        ..stats
    }
}

/// An answer: one of the fixed texts, one that the settings hold, or one that was made for it.
#[derive(Debug)]
pub enum Reply<'a> {
    Text(&'static str),
    Canned(&'a [u8]),
    Built(Vec<u8>),
}

impl<'a> View for Reply<'a> {
    type V = Seq<u8>;

    open spec fn view(&self) -> Seq<u8> {
        match self {
            Reply::Text(text) => text.spec_bytes(),
            Reply::Canned(bytes) => bytes@,
            Reply::Built(bytes) => bytes@,
        }
    }
}

impl<'a> Reply<'a> {
    pub fn as_bytes(&self) -> (bytes: &[u8])
        ensures
            bytes@ == self@,
    {
        match self {
            Reply::Text(text) => text.as_bytes(),
            Reply::Canned(bytes) => bytes,
            Reply::Built(bytes) => bytes.as_slice(),
        }
    }
}

/// What a command asks of the connection.
#[derive(Debug)]
pub enum CommandAction<'a> {
    /// Send the answer, and close the connection where asked to.
    Send { reply: Reply<'a>, close: bool },
    /// Look in the store for the article, by its number first, then by its message-id.
    Lookup { article_id: Option<u64>, message_id: Option<MessageId> },
}

/// The message-id of a lookup is the one that the command names.
pub open spec fn same_id(id: Option<MessageId>, wanted: Option<Seq<u8>>) -> bool {
    match id {
        Some(message_id) => wanted == Some(message_id@),
        None => wanted is None,
    }
}

fn retrieve_by_message_id(kind: RequestKind, id: &MessageId, config: &ServerConfig) -> (response:
    Vec<u8>)
    ensures
        response@ == message_id_text(kind, id@, *config),
{
    match kind {
        RequestKind::Article => build_message_id_article_response(id, config.article_bytes),
        RequestKind::Head => build_message_id_head_response(id),
        RequestKind::Stat => build_message_id_stat_response(id),
        _ => build_message_id_body_response(id, config.body_bytes),
    }
}

fn retrieve_by_number<'a>(kind: RequestKind, article_id: u64, config: &'a ServerConfig) -> (reply:
    Reply<'a>)
    ensures
        reply@ == numbered_text(kind, article_id, *config),
{
    if article_id == 1 {
        match kind {
            RequestKind::Article => Reply::Canned(config.article_response()),
            RequestKind::Head => Reply::Canned(config.head_response()),
            RequestKind::Stat => Reply::Canned(config.stat_response()),
            _ => Reply::Canned(config.body_response()),
        }
    } else {
        match kind {
            RequestKind::Article => Reply::Built(
                build_selected_article_response(article_id, config.article_bytes),
            ),
            RequestKind::Head => Reply::Built(build_selected_head_response(article_id)),
            RequestKind::Stat => Reply::Built(build_selected_stat_response(article_id)),
            _ => Reply::Built(build_selected_body_response(article_id, config.body_bytes)),
        }
    }
}

/// The answer to a command that retrieves an article, when it is not refused.
fn retrieve<'a>(
    command: &ParsedCommand,
    message_id: Option<MessageId>,
    config: &'a ServerConfig,
    state: &mut SessionState,
) -> (reply: Reply<'a>)
    ensures
        reply@ == (match message_id {
            Some(id) => message_id_text(command.kind, id@, *config),
            None => numbered_text(
                command.kind,
                chosen_article(command.article_id, *old(state)),
                *config,
            ),
        }),
        *final(state) == (if message_id is Some {
            *old(state)
        } else {
            SessionState {
                current_article: Some(chosen_article(command.article_id, *old(state))),
                ..*old(state)
            }
        }),
{
    match message_id {
        Some(id) => Reply::Built(retrieve_by_message_id(command.kind, &id, config)),
        None => {
            let article_id: u64 = match command.article_id {
                Some(id) => id,
                None => match state.current_article {
                    Some(id) => id,
                    None => 1,
                },
            };
            state.current_article = Some(article_id);
            retrieve_by_number(command.kind, article_id, config)
        },
    }
}

/// The answer to `GROUP`.
fn select_group(args: &[u8], state: &mut SessionState) -> (text: &'static str)
    ensures
        match groups::group_named(args@) {
            Some(group) => text == groups::group_text(group) && *final(state) == (SessionState {
                group_selected: true,
                selected_group: Some(group),
                current_article: Some(1),
            }),
            None => text == NO_SUCH_GROUP_RESPONSE && *final(state) == *old(state),
        },
{
    match fixture_group_from_name(args) {
        Some(group) => {
            state.group_selected = true;
            state.selected_group = Some(group);
            state.current_article = Some(1);
            group_response_for_group(group)
        },
        None => NO_SUCH_GROUP_RESPONSE,
    }
}

/// The answer to `LISTGROUP`.
fn list_group(args: &[u8], state: &mut SessionState) -> (text: &'static str)
    ensures
        match groups::listgroup_error(args@, old(state).group_selected) {
            Some(error) => text == error && *final(state) == *old(state),
            None => text == groups::listgroup_text(
                args@,
                Some(listgroup_target(args@, *old(state))),
            ) && *final(state) == (SessionState {
                group_selected: true,
                selected_group: Some(listgroup_target(args@, *old(state))),
                current_article: Some(1),
            }),
        },
{
    match listgroup_state_error(args, state) {
        Some(error) => error,
        None => {
            let group: FixtureGroup = match listgroup_selected_group(args, state.selected_group) {
                Some(group) => group,
                None => FixtureGroup::AltTest,
            };
            state.group_selected = true;
            state.selected_group = Some(group);
            state.current_article = Some(1);
            listgroup_response_for_args(args, Some(group))
        },
    }
}

/// The answer to `LAST`.
fn move_back(state: &mut SessionState) -> (text: &'static str)
    ensures
        match last_error(*old(state)) {
            Some(error) => text == error && *final(state) == *old(state),
            None => text == groups::last_text((old(state).current_article->0 - 1) as u64)
                && *final(state) == (SessionState {
                current_article: Some((old(state).current_article->0 - 1) as u64),
                ..*old(state)
            }),
        },
{
    if !state.group_selected {
        return NO_GROUP_SELECTED_RESPONSE;
    }
    match state.current_article {
        Some(article_id) => if article_id <= 1 {
            NO_PREVIOUS_ARTICLE_RESPONSE
        } else {
            state.current_article = Some(article_id - 1);
            last_response_for_article(article_id - 1)
        },
        None => NO_CURRENT_ARTICLE_RESPONSE,
    }
}

/// The answer to `NEXT`.
fn move_on(state: &mut SessionState) -> (text: &'static str)
    ensures
        match next_error(*old(state)) {
            Some(error) => text == error && *final(state) == *old(state),
            None => text == groups::next_text((old(state).current_article->0 + 1) as u64)
                && *final(state) == (SessionState {
                current_article: Some((old(state).current_article->0 + 1) as u64),
                ..*old(state)
            }),
        },
{
    if !state.group_selected {
        return NO_GROUP_SELECTED_RESPONSE;
    }
    match state.current_article {
        Some(article_id) => if article_id >= state.article_count() {
            NO_NEXT_ARTICLE_RESPONSE
        } else {
            state.current_article = Some(article_id + 1);
            next_response_for_article(article_id + 1)
        },
        None => NO_CURRENT_ARTICLE_RESPONSE,
    }
}

/// The answer to `OVER`, `XOVER`, `HDR` and `XHDR`.
fn look_over(
    kind: RequestKind,
    args: &[u8],
    article_id: Option<u64>,
    has_message_id: bool,
    state: &SessionState,
) -> (text: &'static str)
    requires
        looks_over(kind),
    ensures
        text == (match overview::overview_error(kind, args@, article_id, has_message_id, *state) {
            Some(error) => error,
            None => overview_text(kind, args@, *state),
        }),
{
    if let Some(error) = overview_selector_error(kind, args, article_id, has_message_id, state) {
        return error;
    }
    let count: u64 = state.article_count();
    match kind {
        RequestKind::Over => {
            let resolved: Vec<u8> = current_overview_args(args, state);
            over_response_within(resolved.as_slice(), count)
        },
        RequestKind::Xover => {
            let resolved: Vec<u8> = current_overview_args(args, state);
            xover_response_within(resolved.as_slice(), count)
        },
        RequestKind::Hdr => {
            let resolved: Vec<u8> = current_header_args(args, state);
            hdr_response_within(resolved.as_slice(), count)
        },
        _ => {
            let resolved: Vec<u8> = current_header_args(args, state);
            xhdr_response_within(resolved.as_slice(), count)
        },
    }
}

/// The answer to a command that retrieves no article and asks for no date.
fn answer(command: &ParsedCommand, args: &[u8], state: &mut SessionState, now: u64) -> (text:
    &'static str)
    requires
        !retrieves(command.kind),
        command.kind != RequestKind::Date,
    ensures
        forall|facts: CommandFacts|
            facts.kind == command.kind && facts.args == args@ && facts.article_id
                == command.article_id && facts.names_message_id == (command.message_id is Some)
                && facts.syntax_error == command.syntax_error && facts.line_too_long
                == command.line_too_long ==> {
                &&& *final(state) == #[trigger] state_after(facts, *old(state))
                &&& text == (match refusal(facts, *old(state)) {
                    Some(error) => error,
                    None => fixed_text(facts, *old(state), now),
                })
            },
{
    let kind: RequestKind = command.kind;
    match kind {
        RequestKind::List => LIST_RESPONSE,
        RequestKind::ListActive => list_active_response(list_variant_wildmat_args(kind, args)),
        RequestKind::ListActiveTimes => list_active_times_response(
            list_variant_wildmat_args(kind, args),
        ),
        RequestKind::ListNewsgroups => list_newsgroups_response(
            list_variant_wildmat_args(kind, args),
        ),
        RequestKind::ListOverviewFmt => LIST_OVERVIEW_FMT_RESPONSE,
        RequestKind::ListHeaders => LIST_HEADERS_RESPONSE,
        RequestKind::ListDistribPats => LIST_DISTRIB_PATS_RESPONSE,
        RequestKind::Group => select_group(args, state),
        RequestKind::ListGroup => list_group(args, state),
        RequestKind::Last => move_back(state),
        RequestKind::Next => move_on(state),
        RequestKind::NewGroups => newgroups_response(args, utc_year(now)),
        RequestKind::NewNews => newnews_response(args, utc_year(now)),
        RequestKind::Post => POSTING_NOT_PERMITTED_RESPONSE,
        RequestKind::Ihave => ARTICLE_NOT_WANTED_RESPONSE,
        RequestKind::Check
        | RequestKind::TakeThis
        | RequestKind::AuthInfo
        | RequestKind::StartTls => COMMAND_UNAVAILABLE_RESPONSE,
        RequestKind::AuthInfoUser | RequestKind::AuthInfoPass => TLS_REQUIRED_RESPONSE,
        RequestKind::Over | RequestKind::Xover | RequestKind::Hdr | RequestKind::Xhdr => look_over(
            kind,
            args,
            command.article_id,
            command.message_id.is_some(),
            state,
        ),
        RequestKind::Capabilities => CAPABILITIES_RESPONSE,
        RequestKind::Help => HELP_RESPONSE,
        RequestKind::ModeReader => MODE_READER_RESPONSE,
        RequestKind::Quit => QUIT_RESPONSE,
        _ => if !command.syntax_error {
            UNKNOWN_COMMAND_RESPONSE
        } else if command.line_too_long {
            LINE_TOO_LONG_RESPONSE
        } else {
            SYNTAX_ERROR_RESPONSE
        },
    }
}

/// Handles one command of a batch at the moment `now`, in seconds since 1970. The counters wrap
/// around.
pub fn handle_command<'a>(
    command: &ParsedCommand,
    lines: Option<&CommandLineBatch>,
    config: &'a ServerConfig,
    stats: &mut SessionStats,
    state: &mut SessionState,
    now: u64,
) -> (action: CommandAction<'a>)
    requires
        lines is Some ==> command.line_slot < MAX_SERVER_PIPELINE_DEPTH,
        commands::place_in_row(*command),
    ensures
        match action {
            CommandAction::Send { reply, close } => {
                &&& !needs_stored_article(facts_of(*command, lines), *config, *old(state))
                &&& reply@ == reply_text(facts_of(*command, lines), *config, *old(state), now)
                &&& close == (command.kind == RequestKind::Quit)
                &&& *final(state) == state_after(facts_of(*command, lines), *old(state))
                &&& *final(stats) == counted(*old(stats), command.kind, reply@.len() as int)
            },
            CommandAction::Lookup { article_id, message_id } => {
                &&& needs_stored_article(facts_of(*command, lines), *config, *old(state))
                &&& article_id == command.article_id
                &&& same_id(message_id, facts_of(*command, lines).message_id)
                &&& *final(state) == *old(state)
                &&& *final(stats) == counted(*old(stats), command.kind, 0)
            },
        },
{
    let ghost facts = facts_of(*command, lines);
    stats.commands = stats.commands.wrapping_add(1);
    let args: &[u8] = match command_args(command, lines) {
        Some(args) => args,
        None => {
            let empty: &[u8] = "".as_bytes();
            proof {
                reveal_strlit("");
                assert("".is_ascii());
                assert(empty@ =~= Seq::<u8>::empty());
            }
            empty
        },
    };
    assert(args@ == facts.args);
    let reply: Reply<'a> = match command.kind {
        RequestKind::Article | RequestKind::Head | RequestKind::Stat | RequestKind::Body => {
            if command.kind == RequestKind::Body {
                stats.body_requests = stats.body_requests.wrapping_add(1);
            } else {
                stats.article_requests = stats.article_requests.wrapping_add(1);
            }
            match article_selector_error(
                args,
                command.article_id,
                command.message_id.is_some(),
                state,
                true,
            ) {
                Some(error) => Reply::Text(error),
                None => {
                    let message_id: Option<MessageId> = command_message_id(command, lines);
                    if command.kind == RequestKind::Article && config.article_dir.is_some() {
                        return CommandAction::Lookup { article_id: command.article_id, message_id };
                    }
                    retrieve(command, message_id, config, state)
                },
            }
        },
        RequestKind::Date => Reply::Built(date_response_for_unix_seconds(now)),
        _ => Reply::Text(answer(command, args, state, now)),
    };
    let sent: usize = reply.as_bytes().len();
    stats.bytes_sent = stats.bytes_sent.wrapping_add(sent as u64);
    CommandAction::Send { reply, close: command.kind == RequestKind::Quit }
}

/// What is sent when the store does not have the article.
pub open spec fn not_found_text(article_id: Option<u64>, has_message_id: bool) -> &'static str {
    if has_message_id {
        NO_ARTICLE_MESSAGE_ID_RESPONSE
    } else if article_id is Some {
        NO_ARTICLE_NUMBER_RESPONSE
    } else {
        NO_CURRENT_ARTICLE_RESPONSE
    }
}

pub fn article_not_found_response(article_id: Option<u64>, has_message_id: bool) -> (text:
    &'static str)
    ensures
        text == not_found_text(article_id, has_message_id),
{
    if has_message_id {
        NO_ARTICLE_MESSAGE_ID_RESPONSE
    } else if article_id.is_some() {
        NO_ARTICLE_NUMBER_RESPONSE
    } else {
        NO_CURRENT_ARTICLE_RESPONSE
    }
}

/// Ends a lookup. A found article becomes the current one where it was asked for by number; for
/// one that was not found there is an answer to send.
pub fn finish_lookup(
    found: bool,
    article_id: Option<u64>,
    has_message_id: bool,
    stats: &mut SessionStats,
    state: &mut SessionState,
) -> (answer: Option<&'static str>)
    ensures
        answer == (if found {
            None
        } else {
            Some(not_found_text(article_id, has_message_id))
        }),
        *final(state) == (if found && article_id is Some {
            SessionState { current_article: article_id, ..*old(state) }
        } else {
            *old(state)
        }),
        *final(stats) == (SessionStats {
            bytes_sent: if found {
                old(stats).bytes_sent
            } else {
                old(stats).bytes_sent.wrapping_add(
                    not_found_text(article_id, has_message_id).spec_bytes().len() as u64,
                )
            },
            ..*old(stats)
        }),
{
    if found {
        if article_id.is_some() {
            state.current_article = article_id;
        }
        None
    } else {
        let text: &'static str = article_not_found_response(article_id, has_message_id);
        stats.bytes_sent = stats.bytes_sent.wrapping_add(text.as_bytes().len() as u64);
        Some(text)
    }
}

/// What a session does after a batch.
#[derive(Debug, Clone, Copy, PartialEq, Eq, Structural)]
pub enum BatchOutcome {
    Continue,
    Close,
}

impl BatchOutcome {
    pub fn should_close(self) -> (close: bool)
        ensures
            close == (self == BatchOutcome::Close),
    {
        match self {
            BatchOutcome::Continue => false,
            BatchOutcome::Close => true,
        }
    }
}

/// The answer to a request without a session, as far as it is one of the fixed texts.
pub open spec fn lone_text(line: Seq<u8>, now: u64) -> &'static str {
    let kind = request_line::request_kind(line);
    let args = request_line::request_args(line);
    match kind {
        RequestKind::List => LIST_RESPONSE,
        RequestKind::ListActive => listing::list_active_text(listing::list_wildmat(kind, args)),
        RequestKind::ListActiveTimes => listing::list_active_times_text(
            listing::list_wildmat(kind, args),
        ),
        RequestKind::ListNewsgroups => listing::list_newsgroups_text(
            listing::list_wildmat(kind, args),
        ),
        RequestKind::ListOverviewFmt => LIST_OVERVIEW_FMT_RESPONSE,
        RequestKind::ListHeaders => LIST_HEADERS_RESPONSE,
        RequestKind::ListDistribPats => LIST_DISTRIB_PATS_RESPONSE,
        RequestKind::Group => groups::group_text_for(args),
        RequestKind::ListGroup => groups::listgroup_text(args, None),
        RequestKind::Last => LAST_RESPONSE,
        RequestKind::Next => NEXT_RESPONSE,
        RequestKind::NewGroups => NEWGROUPS_RESPONSE,
        RequestKind::NewNews => listing::newnews_text(args, date::year_of(now as int)),
        RequestKind::Post => POSTING_NOT_PERMITTED_RESPONSE,
        RequestKind::Ihave => ARTICLE_NOT_WANTED_RESPONSE,
        RequestKind::Check
        | RequestKind::TakeThis
        | RequestKind::AuthInfo
        | RequestKind::StartTls => COMMAND_UNAVAILABLE_RESPONSE,
        RequestKind::AuthInfoUser | RequestKind::AuthInfoPass => TLS_REQUIRED_RESPONSE,
        RequestKind::Over => overview::over_text(args, groups::group_size(FixtureGroup::AltTest)),
        RequestKind::Xover => overview::xover_text(args, groups::group_size(FixtureGroup::AltTest)),
        RequestKind::Hdr => overview::hdr_text(args, groups::group_size(FixtureGroup::AltTest)),
        RequestKind::Xhdr => overview::xhdr_text(args, groups::group_size(FixtureGroup::AltTest)),
        RequestKind::Capabilities => CAPABILITIES_RESPONSE,
        RequestKind::Help => HELP_RESPONSE,
        RequestKind::ModeReader => MODE_READER_RESPONSE,
        RequestKind::Quit => QUIT_RESPONSE,
        _ => unknown_text(commands::is_syntax_error(line), false),
    }
}

/// The answer to a request without a session. `stored` is what the store has for it.
pub open spec fn lone_reply(
    line: Seq<u8>,
    config: ServerConfig,
    now: u64,
    stored: Option<Seq<u8>>,
) -> Seq<u8> {
    let kind = request_line::request_kind(line);
    let article_id = text::article_id_arg(request_line::request_args(line));
    let message_id = request_line::request_message_id(line);
    if kind == RequestKind::Date {
        date::date_response(now as int)
    } else if kind == RequestKind::Article && config.article_dir is Some {
        match stored {
            Some(response) => response,
            None => not_found_text(article_id, message_id is Some).spec_bytes(),
        }
    } else if retrieves(kind) {
        match message_id {
            Some(id) => message_id_text(kind, id, config),
            None => numbered_text(
                kind,
                match article_id {
                    Some(id) => id,
                    None => 1,
                },
                config,
            ),
        }
    } else {
        lone_text(line, now).spec_bytes()
    }
}

fn answer_alone(request: &RequestLine, now: u64) -> (text: &'static str)
    ensures
        text == lone_text(request.spec_line(), now),
{
    let kind: RequestKind = request.kind();
    let args: &[u8] = request.args();
    match kind {
        RequestKind::List => LIST_RESPONSE,
        RequestKind::ListActive => list_active_response(list_variant_wildmat_args(kind, args)),
        RequestKind::ListActiveTimes => list_active_times_response(
            list_variant_wildmat_args(kind, args),
        ),
        RequestKind::ListNewsgroups => list_newsgroups_response(
            list_variant_wildmat_args(kind, args),
        ),
        RequestKind::ListOverviewFmt => LIST_OVERVIEW_FMT_RESPONSE,
        RequestKind::ListHeaders => LIST_HEADERS_RESPONSE,
        RequestKind::ListDistribPats => LIST_DISTRIB_PATS_RESPONSE,
        RequestKind::Group => group_response_for_args(args),
        RequestKind::ListGroup => listgroup_response_for_args(args, None),
        RequestKind::Last => LAST_RESPONSE,
        RequestKind::Next => NEXT_RESPONSE,
        RequestKind::NewGroups => NEWGROUPS_RESPONSE,
        RequestKind::NewNews => newnews_response(args, utc_year(now)),
        RequestKind::Post => POSTING_NOT_PERMITTED_RESPONSE,
        RequestKind::Ihave => ARTICLE_NOT_WANTED_RESPONSE,
        RequestKind::Check
        | RequestKind::TakeThis
        | RequestKind::AuthInfo
        | RequestKind::StartTls => COMMAND_UNAVAILABLE_RESPONSE,
        RequestKind::AuthInfoUser | RequestKind::AuthInfoPass => TLS_REQUIRED_RESPONSE,
        RequestKind::Over => over_response_for_args(args),
        RequestKind::Xover => xover_response_for_args(args),
        RequestKind::Hdr => hdr_response_for_args(args),
        RequestKind::Xhdr => xhdr_response_for_args(args),
        RequestKind::Capabilities => CAPABILITIES_RESPONSE,
        RequestKind::Help => HELP_RESPONSE,
        RequestKind::ModeReader => MODE_READER_RESPONSE,
        RequestKind::Quit => QUIT_RESPONSE,
        _ => if is_known_request_syntax_error(request) {
            SYNTAX_ERROR_RESPONSE
        } else {
            UNKNOWN_COMMAND_RESPONSE
        },
    }
}

/// Appends the answer to one request to `output`, at the moment `now`, in seconds since 1970, and
/// says whether the connection is to be closed. `stored` is what the store has for the request,
/// where there is a store. The counters wrap around.
pub fn process_request_to_buffer(
    request: RequestLine,
    config: &ServerConfig,
    stats: &mut Stats,
    output: &mut Vec<u8>,
    now: u64,
    stored: Option<&[u8]>,
) -> (close: bool)
    ensures
        close == (request_line::request_kind(request.spec_line()) == RequestKind::Quit),
        final(output)@ == old(output)@ + lone_reply(
            request.spec_line(),
            *config,
            now,
            bytes::opt_view(stored),
        ),
        ({
            let kind = request_line::request_kind(request.spec_line());
            let sent = lone_reply(request.spec_line(), *config, now, bytes::opt_view(stored)).len();
            *final(stats) == (Stats {
                commands: old(stats).commands.wrapping_add(1),
                article_requests: if kind == RequestKind::Article || kind == RequestKind::Head
                    || kind == RequestKind::Stat {
                    old(stats).article_requests.wrapping_add(1)
                } else {
                    old(stats).article_requests
                },
                body_requests: if kind == RequestKind::Body {
                    old(stats).body_requests.wrapping_add(1)
                } else {
                    old(stats).body_requests
                },
                bytes_sent: old(stats).bytes_sent.wrapping_add(sent as u64),
                ..*old(stats)
            })
        }),
{
    let kind: RequestKind = request.kind();
    stats.commands = stats.commands.wrapping_add(1);
    let reply: Reply = match kind {
        RequestKind::Article | RequestKind::Head | RequestKind::Stat | RequestKind::Body => {
            if kind == RequestKind::Body {
                stats.body_requests = stats.body_requests.wrapping_add(1);
            } else {
                stats.article_requests = stats.article_requests.wrapping_add(1);
            }
            let article_id: Option<u64> = parse_article_id_arg(request.args());
            let message_id: Option<MessageId> = request.message_id();
            if kind == RequestKind::Article && config.article_dir.is_some() {
                match stored {
                    Some(response) => Reply::Canned(response),
                    None => Reply::Text(
                        article_not_found_response(article_id, message_id.is_some()),
                    ),
                }
            } else {
                match message_id {
                    Some(id) => Reply::Built(retrieve_by_message_id(kind, &id, config)),
                    None => {
                        let number: u64 = match article_id {
                            Some(id) => id,
                            None => 1,
                        };
                        retrieve_by_number(kind, number, config)
                    },
                }
            }
        },
        RequestKind::Date => Reply::Built(date_response_for_unix_seconds(now)),
        _ => Reply::Text(answer_alone(&request, now)),
    };
    let response: &[u8] = reply.as_bytes();
    stats.bytes_sent = stats.bytes_sent.wrapping_add(response.len() as u64);
    output.extend_from_slice(response);
    kind == RequestKind::Quit
}

/// A refused command leaves the session as it was.
pub proof fn law_refusal_changes_nothing(facts: CommandFacts, state: SessionState)
    requires
        refusal(facts, state) is Some,
    ensures
        state_after(facts, state) == state,
{
}

/// Picking an article by its message-id leaves the session as it was.
pub proof fn law_message_id_changes_nothing(facts: CommandFacts, state: SessionState)
    requires
        retrieves(facts.kind),
        facts.message_id is Some,
    ensures
        state_after(facts, state) == state,
{
}

/// Only commands that select a group or move in it change the session.
pub proof fn law_other_commands_change_nothing(facts: CommandFacts, state: SessionState)
    requires
        !retrieves(facts.kind),
        facts.kind != RequestKind::Group && facts.kind != RequestKind::ListGroup,
        facts.kind != RequestKind::Last && facts.kind != RequestKind::Next,
    ensures
        state_after(facts, state) == state,
{
}

/// A group that was selected has its first article as the current one.
pub proof fn law_selected_group_starts_at_first(facts: CommandFacts, state: SessionState)
    requires
        facts.kind == RequestKind::Group || facts.kind == RequestKind::ListGroup,
        refusal(facts, state) is None,
    ensures
        state_after(facts, state).group_selected,
        state_after(facts, state).selected_group is Some,
        state_after(facts, state).current_article == Some(1u64),
{
}

/// The current article is one of those in reach.
pub open spec fn is_in_reach(state: SessionState) -> bool {
    match state.current_article {
        Some(id) => 1 <= id <= groups::articles_in_reach(state),
        None => true,
    }
}

/// A number that a line names to retrieve an article is positive.
pub proof fn law_named_article_is_positive(line: Seq<u8>, line_slot: int)
    requires
        retrieves(commands::command_of(line, line_slot).kind),
    ensures
        commands::command_of(line, line_slot).article_id matches Some(id) ==> id >= 1,
{
    let args = request_line::request_words(line);
    assert(request_line::is_article_args(args)) by {
        lemma_article_args(request_line::request_verb(line), args);
    }
    request_line::lemma_args_of_one_word(line);
    if args.len() == 0 {
        assert(text::article_id_arg(Seq::<u8>::empty()) is None) by {
            text::lemma_no_article_id();
        }
    } else if values::is_article_number(args[0]) {
        lemma_article_word(args[0]);
        assert(bytes::is_digit(args[0][0]));
        text::lemma_article_id_of_visible(args[0]);
        bytes::law_decimal_of_number(args[0]);
    } else {
        let id = args[0];
        lemma_article_word(id);
        assert(!bytes::is_digit(id[0]));
        text::lemma_article_id_of_visible(id);
    }
}

/// Only well-formed arguments make a line retrieve an article.
proof fn lemma_article_args(verb: Seq<u8>, args: Seq<Seq<u8>>)
    requires
        retrieves(request_line::kind_for(verb, args)),
    ensures
        request_line::is_article_args(args),
{
}

/// A line that retrieves an article holds no zero byte, and only visible bytes as its argument.
proof fn lemma_retrieving_line(line: Seq<u8>)
    requires
        retrieves(request_line::request_kind(line)),
    ensures
        !bytes::has_byte(line, 0),
        forall|i: int|
            0 <= i < request_line::request_args(line).len() ==> 0x21
                <= #[trigger] request_line::request_args(line)[i] < 0x7f,
{
    let body = terminator::line_body(line);
    let verb = request_line::request_verb(line);
    let args = request_line::request_words(line);
    let verb_end = request_line::blank_from(body, 0);
    let start = request_line::args_start(line);
    let end = request_line::trimmed_len(body, start, body.len() as int);
    lemma_article_args(verb, args);
    lemma_article_verb(verb, args);
    request_line::lemma_blank_from(body, 0);
    request_line::lemma_word_from(body, verb_end);
    request_line::lemma_trimmed_len(body, start, body.len() as int);
    request_line::lemma_args_of_one_word(line);
    if args.len() == 1 {
        lemma_article_word(args[0]);
    }
    assert forall|i: int| 0 <= i < line.len() implies line[i] != 0 by {
        if i < body.len() {
            assert(line[i] == body[i]);
            if i < verb_end {
                assert(verb[i] == body[i]);
            } else if i < start {
                assert(request_line::is_blank(body[i]));
            } else if i < end {
                assert(request_line::request_args(line)[i - start] == body[i]);
                assert(request_line::request_args(line).len() == end - start);
            } else {
                assert(request_line::is_blank(body[i]));
            }
        } else {
            assert(terminator::crlf_at(line, line.len() - 2));
        }
    }
}

proof fn lemma_article_verb(verb: Seq<u8>, args: Seq<Seq<u8>>)
    requires
        retrieves(request_line::kind_for(verb, args)),
    ensures
        forall|i: int| 0 <= i < verb.len() ==> #[trigger] verb[i] != 0,
{
    reveal_strlit("ARTICLE");
    reveal_strlit("HEAD");
    reveal_strlit("STAT");
    reveal_strlit("BODY");
    assert("ARTICLE".is_ascii());
    assert("HEAD".is_ascii());
    assert("STAT".is_ascii());
    assert("BODY".is_ascii());
}

proof fn lemma_article_word(word: Seq<u8>)
    requires
        values::is_article_number(word) || values::is_message_id(word),
    ensures
        forall|i: int| 0 <= i < word.len() ==> 0x21 <= #[trigger] word[i] < 0x7f,
{
    assert forall|i: int| 0 <= i < word.len() implies 0x21 <= #[trigger] word[i] < 0x7f by {
        if values::is_article_number(word) {
            assert(bytes::is_digit(word[i]));
        } else if 0 < i < word.len() - 1 {
            assert(values::is_graphic(word.subrange(1, word.len() - 1)[i - 1]));
        }
    }
}

/// Every line keeps the current article among those in reach, whatever `row` held before the line
/// was copied to it.
pub proof fn law_current_article_stays_in_reach(
    line: Seq<u8>,
    line_slot: int,
    row: Seq<u8>,
    lines: &CommandLineBatch,
    state: SessionState,
)
    requires
        is_in_reach(state),
        0 <= line_slot < MAX_SERVER_PIPELINE_DEPTH,
        line.len() <= row.len(),
        lines@[line_slot] == commands::overwritten(row, line),
    ensures
        is_in_reach(
            state_after(facts_of(commands::command_of(line, line_slot), Some(lines)), state),
        ),
{
    let command = commands::command_of(line, line_slot);
    if retrieves(command.kind) {
        law_named_article_is_positive(line, line_slot);
        if command.article_id is Some {
            lemma_retrieving_line(line);
            text::lemma_no_article_id();
            assert(request_line::request_args(line).len() == 0 ==> request_line::request_args(line)
                =~= Seq::<u8>::empty());
            commands::lemma_copied_line_has_args(row, line);
        }
    }
}

/// A session starts with no article at all.
pub proof fn law_new_session_is_in_reach()
    ensures
        is_in_reach(
            SessionState { group_selected: false, selected_group: None, current_article: None },
        ),
{
}

/// `LAST` undoes `NEXT`.
pub proof fn law_last_undoes_next(next: CommandFacts, last: CommandFacts, state: SessionState)
    requires
        is_in_reach(state),
        next.kind == RequestKind::Next,
        last.kind == RequestKind::Last,
        refusal(next, state) is None,
    ensures
        refusal(last, state_after(next, state)) is None,
        state_after(last, state_after(next, state)) == state,
{
}

/// `NEXT` undoes `LAST`.
pub proof fn law_next_undoes_last(next: CommandFacts, last: CommandFacts, state: SessionState)
    requires
        is_in_reach(state),
        next.kind == RequestKind::Next,
        last.kind == RequestKind::Last,
        refusal(last, state) is None,
    ensures
        refusal(next, state_after(last, state)) is None,
        state_after(next, state_after(last, state)) == state,
{
}

/// An article that was picked by its number is the one that later commands without arguments
/// retrieve.
pub proof fn law_picked_article_is_current(
    pick: CommandFacts,
    again: CommandFacts,
    config: ServerConfig,
    state: SessionState,
    now: u64,
)
    requires
        retrieves(pick.kind),
        retrieves(again.kind),
        pick.message_id is None,
        pick.article_id is Some,
        pick.args.len() > 0,
        refusal(pick, state) is None,
        again.args.len() == 0,
        again.article_id is None,
        again.message_id is None,
    ensures
        reply_text(again, config, state_after(pick, state), now) == numbered_text(
            again.kind,
            pick.article_id->0,
            config,
        ),
        state_after(again, state_after(pick, state)) == state_after(pick, state),
{
}

} // verus!
