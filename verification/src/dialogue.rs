//! What a client can count on in its dialogue with the server: which article, group or refusal each
//! command is answered with, and what the session remembers of it.
use crate::answers;
use crate::bytes;
use crate::commands;
use crate::commands::CommandLineBatch;
use crate::date;
use crate::generate;
use crate::groups;
use crate::groups::{FixtureGroup, SessionState};
use crate::listing;
use crate::overview;
use crate::request_line;
use crate::request_line::RequestKind;
use crate::responses::{
    ARTICLE_NOT_WANTED_RESPONSE, CAPABILITIES_RESPONSE, COMMAND_UNAVAILABLE_RESPONSE,
    HDR_FIELD_UNAVAILABLE_RESPONSE, HELP_RESPONSE, LINE_TOO_LONG_RESPONSE,
    LIST_DISTRIB_PATS_RESPONSE, LIST_HEADERS_RESPONSE, LIST_OVERVIEW_FMT_RESPONSE,
    MODE_READER_RESPONSE, NEWGROUPS_EMPTY_RESPONSE, NEWGROUPS_RESPONSE, NEWNEWS_EMPTY_RESPONSE,
    NEWNEWS_RESPONSE, NO_ARTICLES_IN_RANGE_RESPONSE, NO_ARTICLE_MESSAGE_ID_RESPONSE,
    NO_ARTICLE_NUMBER_RESPONSE, NO_CURRENT_ARTICLE_RESPONSE, NO_GROUP_SELECTED_RESPONSE,
    NO_NEXT_ARTICLE_RESPONSE, NO_PREVIOUS_ARTICLE_RESPONSE, NO_SUCH_GROUP_RESPONSE,
    POSTING_NOT_PERMITTED_RESPONSE, QUIT_RESPONSE, SYNTAX_ERROR_RESPONSE, TLS_REQUIRED_RESPONSE,
    UNKNOWN_COMMAND_RESPONSE,
};
use crate::server_config::{ServerConfig, SessionStats, MAX_SERVER_PIPELINE_DEPTH};
use crate::session;
use crate::session::CommandFacts;
use crate::terminator;
use crate::text;
use crate::values;
use vstd::prelude::*;
use vstd::string::StringSliceAdditionalSpecFns;

verus! {

/// The word is without blanks.
pub open spec fn is_one_word(word: Seq<u8>) -> bool {
    forall|i: int|
        0 <= i < word.len() ==> #[trigger] word[i] != bytes::SPACE && word[i] != bytes::TAB
}

/// `GROUP` with the name of a group answers with the line of that group, and selects it and its
/// first article, whatever was selected before.
pub proof fn law_group_selects_the_group_it_names(
    facts: CommandFacts,
    group: FixtureGroup,
    config: ServerConfig,
    state: SessionState,
    now: u64,
)
    requires
        facts.kind == RequestKind::Group,
        groups::group_named(facts.args) == Some(group),
    ensures
        session::reply_text(facts, config, state, now) == groups::group_text(group).spec_bytes(),
        session::state_after(facts, state) == (SessionState {
            group_selected: true,
            selected_group: Some(group),
            current_article: Some(1),
        }),
{
}

/// `GROUP` and `LISTGROUP` with the name of no group are refused and select nothing.
pub proof fn law_unknown_groups_are_refused(
    facts: CommandFacts,
    at: int,
    config: ServerConfig,
    state: SessionState,
    now: u64,
)
    requires
        facts.kind == RequestKind::Group || facts.kind == RequestKind::ListGroup,
        groups::group_named(facts.args) is None,
        is_one_word(facts.args),
        0 <= at < facts.args.len(),
        !(48 <= facts.args[at] <= 57) && facts.args[at] != 45,
    ensures
        session::reply_text(facts, config, state, now) == NO_SUCH_GROUP_RESPONSE.spec_bytes(),
        session::state_after(facts, state) == state,
{
    groups::law_listgroup_refuses_unknown_groups(
        facts.args,
        at,
        state.selected_group,
        state.group_selected,
    );
}

/// `LISTGROUP` with the name of a group answers with the line of that group and the numbers of its
/// articles in the range, and selects it and its first article, whatever was selected before.
pub proof fn law_listgroup_selects_the_group_it_names(
    facts: CommandFacts,
    name: Seq<u8>,
    range: Option<Seq<u8>>,
    group: FixtureGroup,
    config: ServerConfig,
    state: SessionState,
    now: u64,
)
    requires
        facts.kind == RequestKind::ListGroup,
        groups::group_named(name) == Some(group),
        match range {
            Some(text) => text.len() > 0 && is_one_word(text) && facts.args == name
                + seq![bytes::SPACE] + text,
            None => facts.args == name,
        },
    ensures
        session::reply_text(facts, config, state, now) == groups::group_text(group).spec_bytes()
            + groups::number_lines(
            range,
            groups::group_size(group) as nat,
            groups::group_size(group),
        ) + ".\r\n".spec_bytes(),
        session::state_after(facts, state) == (SessionState {
            group_selected: true,
            selected_group: Some(group),
            current_article: Some(1),
        }),
{
    let text = match range {
        Some(text) => text,
        None => seq![49u8],
    };
    groups::law_listgroup_lists_the_group_it_names(
        name,
        group,
        text,
        state.selected_group,
        state.group_selected,
    );
    groups::law_listgroup_lists_the_group_it_names(
        name,
        group,
        text,
        Some(group),
        state.group_selected,
    );
    groups::law_listgroup_lists_the_range(group, range);
}

/// `LISTGROUP` without a name lists the selected group and keeps it selected.
pub proof fn law_listgroup_without_a_name_keeps_the_group(
    facts: CommandFacts,
    group: FixtureGroup,
    config: ServerConfig,
    state: SessionState,
    now: u64,
)
    requires
        facts.kind == RequestKind::ListGroup,
        forall|i: int|
            0 <= i < facts.args.len() ==> 48 <= #[trigger] facts.args[i] <= 57 || facts.args[i]
                == 45,
        state.selected_group == Some(group),
    ensures
        !state.group_selected ==> session::reply_text(facts, config, state, now)
            == NO_GROUP_SELECTED_RESPONSE.spec_bytes(),
        state.group_selected ==> session::reply_text(facts, config, state, now)
            == groups::group_text(group).spec_bytes() + groups::number_lines(
            if facts.args.len() == 0 {
                None
            } else {
                Some(facts.args)
            },
            groups::group_size(group) as nat,
            groups::group_size(group),
        ) + ".\r\n".spec_bytes(),
        state.group_selected ==> session::state_after(facts, state) == (SessionState {
            group_selected: true,
            selected_group: Some(group),
            current_article: Some(1),
        }),
{
    groups::law_listgroup_without_a_name_lists_the_selected_group(facts.args, Some(group));
    let range = if facts.args.len() == 0 {
        None
    } else {
        Some(facts.args)
    };
    groups::law_listgroup_lists_the_range(group, range);
}

/// `NEXT` makes the article behind the current one the current one and answers with its number. It
/// is refused without a group, without a current article and at the last article.
pub proof fn law_next_moves_on_by_one(
    facts: CommandFacts,
    config: ServerConfig,
    state: SessionState,
    now: u64,
)
    requires
        facts.kind == RequestKind::Next,
        session::is_in_reach(state),
    ensures
        session::refusal(facts, state) == (if !state.group_selected {
            Some(NO_GROUP_SELECTED_RESPONSE)
        } else if state.current_article is None {
            Some(NO_CURRENT_ARTICLE_RESPONSE)
        } else if state.current_article->0 == groups::articles_in_reach(state) {
            Some(NO_NEXT_ARTICLE_RESPONSE)
        } else {
            None
        }),
        session::refusal(facts, state) is None ==> {
            let id = (state.current_article->0 + 1) as u64;
            &&& session::state_after(facts, state) == (SessionState {
                current_article: Some(id),
                ..state
            })
            &&& bytes::starts_with(
                session::reply_text(facts, config, state, now),
                "223 ".spec_bytes() + bytes::decimal(id as nat) + " <".spec_bytes(),
            )
        },
{
    lemma_move_texts();
}

/// `LAST` makes the article before the current one the current one and answers with its number. It
/// is refused without a group, without a current article and at the first article.
pub proof fn law_last_moves_back_by_one(
    facts: CommandFacts,
    config: ServerConfig,
    state: SessionState,
    now: u64,
)
    requires
        facts.kind == RequestKind::Last,
        session::is_in_reach(state),
    ensures
        session::refusal(facts, state) == (if !state.group_selected {
            Some(NO_GROUP_SELECTED_RESPONSE)
        } else if state.current_article is None {
            Some(NO_CURRENT_ARTICLE_RESPONSE)
        } else if state.current_article->0 == 1 {
            Some(NO_PREVIOUS_ARTICLE_RESPONSE)
        } else {
            None
        }),
        session::refusal(facts, state) is None ==> {
            let id = (state.current_article->0 - 1) as u64;
            &&& session::state_after(facts, state) == (SessionState {
                current_article: Some(id),
                ..state
            })
            &&& bytes::starts_with(
                session::reply_text(facts, config, state, now),
                "223 ".spec_bytes() + bytes::decimal(id as nat) + " <".spec_bytes(),
            )
        },
{
    lemma_move_texts();
}

/// The answers of `NEXT` and `LAST` start with the number of the article.
proof fn lemma_move_texts()
    ensures
        forall|id: u64|
            2 <= id <= 3 ==> bytes::starts_with(
                (#[trigger] groups::next_text(id)).spec_bytes(),
                "223 ".spec_bytes() + bytes::decimal(id as nat) + " <".spec_bytes(),
            ),
        forall|id: u64|
            1 <= id <= 2 ==> bytes::starts_with(
                (#[trigger] groups::last_text(id)).spec_bytes(),
                "223 ".spec_bytes() + bytes::decimal(id as nat) + " <".spec_bytes(),
            ),
{
    reveal_strlit("223 ");
    reveal_strlit(" <");
    reveal_strlit("223 1 <prev@alt.test> article retrieved - request text separately\r\n");
    reveal_strlit("223 2 <next@alt.test> article retrieved - request text separately\r\n");
    reveal_strlit("223 2 <article.2@alt.test> article retrieved - request text separately\r\n");
    reveal_strlit("223 3 <article.3@alt.test> article retrieved - request text separately\r\n");
    assert("223 ".is_ascii() && " <".is_ascii());
    assert(groups::next_text(2).is_ascii() && groups::next_text(3).is_ascii());
    assert(groups::last_text(1).is_ascii() && groups::last_text(2).is_ascii());
    let start = "223 ".spec_bytes();
    let open = " <".spec_bytes();
    assert(bytes::decimal(1) =~= seq![49u8]);
    assert(bytes::decimal(2) =~= seq![50u8]);
    assert(bytes::decimal(3) =~= seq![51u8]);
    assert(groups::next_text(2).spec_bytes().subrange(0, 7) =~= start + seq![50u8] + open);
    assert(groups::next_text(3).spec_bytes().subrange(0, 7) =~= start + seq![51u8] + open);
    assert(groups::last_text(1).spec_bytes().subrange(0, 7) =~= start + seq![49u8] + open);
    assert(groups::last_text(2).spec_bytes().subrange(0, 7) =~= start + seq![50u8] + open);
}

/// The status code and what is said behind the message-id, for each command that retrieves.
pub open spec fn code_of(kind: RequestKind) -> &'static str {
    match kind {
        RequestKind::Article => "220 ",
        RequestKind::Head => "221 ",
        RequestKind::Body => "222 ",
        _ => "223 ",
    }
}

/// A command that retrieves an article by its number is refused without a group and beyond the
/// articles of the group. Otherwise its answer carries the number and the message-id of that
/// article, and the article becomes the current one.
pub proof fn law_article_by_number(
    facts: CommandFacts,
    number: u64,
    config: ServerConfig,
    state: SessionState,
    now: u64,
)
    requires
        session::retrieves(facts.kind),
        facts.args.len() > 0,
        facts.article_id == Some(number),
        !facts.names_message_id,
        facts.message_id is None,
        config.is_prepared(),
    ensures
        session::refusal(facts, state) == (if !state.group_selected {
            Some(NO_GROUP_SELECTED_RESPONSE)
        } else if number > groups::articles_in_reach(state) {
            Some(NO_ARTICLE_NUMBER_RESPONSE)
        } else {
            None
        }),
        session::refusal(facts, state) is None ==> {
            &&& bytes::starts_with(
                session::reply_text(facts, config, state, now),
                generate::article_line(
                    code_of(facts.kind),
                    number as nat,
                    generate::article_message_id(number as nat),
                ) + " ".spec_bytes(),
            )
            &&& session::state_after(facts, state) == (SessionState {
                current_article: Some(number),
                ..state
            })
        },
{
    answers::law_first_article_is_like_the_others(facts.kind, number, config);
    lemma_made_text_starts(
        facts.kind,
        number as nat,
        generate::article_message_id(number as nat),
        config,
    );
}

/// A command that retrieves an article by its message-id is refused only where the message-id says
/// that the article is missing, with a group or without one. Otherwise its answer carries that
/// message-id and no number, and the current article stays.
pub proof fn law_article_by_message_id(
    facts: CommandFacts,
    id: Seq<u8>,
    config: ServerConfig,
    state: SessionState,
    now: u64,
)
    requires
        session::retrieves(facts.kind),
        facts.args == id,
        facts.article_id is None,
        facts.names_message_id,
        facts.message_id == Some(id),
        values::is_message_id(id),
    ensures
        session::refusal(facts, state) == (if bytes::has_run(id, "missing".spec_bytes()) {
            Some(NO_ARTICLE_MESSAGE_ID_RESPONSE)
        } else {
            None
        }),
        session::refusal(facts, state) is None ==> bytes::starts_with(
            session::reply_text(facts, config, state, now),
            generate::article_line(code_of(facts.kind), 0, id) + " ".spec_bytes(),
        ),
        session::state_after(facts, state) == state,
{
    lemma_made_text_starts(facts.kind, 0, id, config);
}

/// A command that retrieves an article and names none is about the current one, as if it named
/// the number of that.
pub proof fn law_article_without_argument_is_the_current_one(
    facts: CommandFacts,
    named: CommandFacts,
    config: ServerConfig,
    state: SessionState,
    now: u64,
)
    requires
        session::retrieves(facts.kind),
        session::is_in_reach(state),
        facts.args.len() == 0,
        facts.article_id is None,
        facts.message_id is None,
        named.kind == facts.kind,
        named.args.len() > 0,
        named.article_id == state.current_article,
        !named.names_message_id,
        named.message_id is None,
    ensures
        session::refusal(facts, state) == (if !state.group_selected {
            Some(NO_GROUP_SELECTED_RESPONSE)
        } else if state.current_article is None {
            Some(NO_CURRENT_ARTICLE_RESPONSE)
        } else {
            None
        }),
        session::refusal(facts, state) is None ==> {
            &&& session::reply_text(facts, config, state, now) == session::reply_text(
                named,
                config,
                state,
                now,
            )
            &&& session::state_after(facts, state) == state
        },
{
}

/// What is made for an article starts with its code, its number and its message-id.
proof fn lemma_made_text_starts(kind: RequestKind, number: nat, id: Seq<u8>, config: ServerConfig)
    requires
        session::retrieves(kind),
        values::is_message_id(id) || id == generate::article_message_id(number),
    ensures
        bytes::starts_with(
            answers::made_text(kind, number, id, config),
            generate::article_line(code_of(kind), number, id) + " ".spec_bytes(),
        ),
{
    reveal_strlit(" ");
    reveal_strlit(" article follows\r\n");
    reveal_strlit(" article retrieved\r\n");
    reveal_strlit(" body follows\r\n");
    reveal_strlit("\r\n");
    assert(" ".is_ascii() && " article follows\r\n".is_ascii());
    assert(" article retrieved\r\n".is_ascii() && " body follows\r\n".is_ascii());
    assert("\r\n".is_ascii());
    generate::law_answers_are_about_the_article(number, id, config.article_bytes as int);
    generate::law_answers_are_about_the_article(number, id, config.body_bytes as int);
    let text = answers::made_text(kind, number, id, config);
    let start = generate::article_line(code_of(kind), number, id);
    let wanted = start + " ".spec_bytes();
    match kind {
        RequestKind::Article => {
            let prefix = start + " article follows\r\n".spec_bytes() + generate::article_headers(id)
                + "\r\n".spec_bytes();
            assert(prefix.subrange(prefix.len() - 2, prefix.len() as int) =~= "\r\n".spec_bytes());
            generate::lemma_generated_starts(prefix, config.article_bytes as int);
            assert(text.subrange(0, prefix.len() as int) == prefix);
            assert(prefix.subrange(0, wanted.len() as int) =~= wanted);
            assert(text.subrange(0, wanted.len() as int) =~= text.subrange(
                0,
                prefix.len() as int,
            ).subrange(0, wanted.len() as int));
        },
        RequestKind::Body => {
            let prefix = start + " body follows\r\n".spec_bytes();
            assert(prefix.subrange(prefix.len() - 2, prefix.len() as int) =~= "\r\n".spec_bytes());
            generate::lemma_generated_starts(prefix, config.body_bytes as int);
            assert(text.subrange(0, prefix.len() as int) == prefix);
            assert(prefix.subrange(0, wanted.len() as int) =~= wanted);
            assert(text.subrange(0, wanted.len() as int) =~= text.subrange(
                0,
                prefix.len() as int,
            ).subrange(0, wanted.len() as int));
        },
        _ => {
            assert(text.subrange(0, wanted.len() as int) =~= wanted);
        },
    }
}

/// What is made for an article by `ARTICLE` and `BODY` has the size that the settings ask for: at
/// least so many bytes before its dot line, and less than a body line more.
pub proof fn law_articles_have_the_configured_size(
    number: u64,
    id: Seq<u8>,
    config: ServerConfig,
)
    requires
        2 * id.len() + 300 <= config.article_bytes,
        id.len() + 100 <= config.body_bytes,
    ensures
        config.article_bytes + 3 <= answers::made_text(
            RequestKind::Article,
            number as nat,
            id,
            config,
        ).len() < config.article_bytes + 83,
        config.body_bytes + 3 <= answers::made_text(
            RequestKind::Body,
            number as nat,
            id,
            config,
        ).len() < config.body_bytes + 83,
        session::message_id_text(RequestKind::Article, id, config) == answers::made_text(
            RequestKind::Article,
            0,
            id,
            config,
        ),
        session::message_id_text(RequestKind::Body, id, config) == answers::made_text(
            RequestKind::Body,
            0,
            id,
            config,
        ),
{
    reveal_strlit(" ");
    reveal_strlit("220 ");
    reveal_strlit("222 ");
    reveal_strlit(" article follows\r\n");
    reveal_strlit(" body follows\r\n");
    reveal_strlit("\r\n");
    reveal_strlit(
        "Path: nntpbench.local!mock\r\nFrom: Bench User <bench@nntpbench.local>\r\nNewsgroups: alt.binaries.bench\r\nSubject: nntpbench synthetic article\r\nMessage-ID: ",
    );
    reveal_strlit("\r\nDate: Fri, 15 May 2026 00:00:00 +0000\r\n");
    assert(" ".is_ascii() && "220 ".is_ascii() && "222 ".is_ascii() && "\r\n".is_ascii());
    assert(" article follows\r\n".is_ascii() && " body follows\r\n".is_ascii());
    assert(generate::SYNTHETIC_HEADERS.is_ascii() && generate::SYNTHETIC_DATE.is_ascii());
    generate::law_answers_are_about_the_article(number as nat, id, config.article_bytes as int);
    generate::law_answers_are_about_the_article(number as nat, id, config.body_bytes as int);
    generate::lemma_body_line();
    bytes::lemma_decimal_len(number as nat);
    let article = generate::article_line("220 ", number as nat, id)
        + " article follows\r\n".spec_bytes() + generate::article_headers(id)
        + "\r\n".spec_bytes();
    let body = generate::article_line("222 ", number as nat, id) + " body follows\r\n".spec_bytes();
    assert(article.subrange(article.len() - 2, article.len() as int) =~= "\r\n".spec_bytes());
    assert(body.subrange(body.len() - 2, body.len() as int) =~= "\r\n".spec_bytes());
    generate::law_generated_near_target(article, config.article_bytes as int);
    generate::law_generated_near_target(body, config.body_bytes as int);
}

/// `OVER` and `XOVER` without an argument are about the current article, as if they named its
/// number.
pub proof fn law_over_without_argument_is_about_the_current_article(
    facts: CommandFacts,
    number: u64,
    config: ServerConfig,
    state: SessionState,
    now: u64,
)
    requires
        facts.kind == RequestKind::Over || facts.kind == RequestKind::Xover,
        facts.args.len() == 0,
        facts.article_id is None,
        !facts.names_message_id,
        state.current_article == Some(number),
        session::is_in_reach(state),
    ensures
        !state.group_selected ==> session::refusal(facts, state) == Some(
            NO_GROUP_SELECTED_RESPONSE,
        ),
        state.group_selected ==> session::refusal(facts, state) is None,
        ({
            let named = CommandFacts {
                args: bytes::decimal(number as nat),
                article_id: Some(number),
                ..facts
            };
            session::reply_text(facts, config, state, now) == session::reply_text(
                named,
                config,
                state,
                now,
            )
        }),
{
    lemma_number_selector(number);
}

/// A number is a selector without an angle bracket and without a dash.
proof fn lemma_number_selector(number: u64)
    ensures
        bytes::decimal(number as nat).len() > 0,
        is_one_word(bytes::decimal(number as nat)),
        !overview::names_message_id(bytes::decimal(number as nat)),
        !bytes::has_byte(bytes::decimal(number as nat), 45),
        bytes::all_digits(bytes::decimal(number as nat)),
        bytes::number(bytes::decimal(number as nat)) == Some(number),
{
    let digits = bytes::decimal(number as nat);
    bytes::lemma_decimal(number as nat);
    bytes::law_number_of_decimal(number);
    overview::law_message_id_selectors_start_with_a_bracket(digits);
    assert(bytes::is_digit(digits[0]));
    assert forall|i: int| 0 <= i < digits.len() implies #[trigger] digits[i] != bytes::SPACE
        && digits[i] != bytes::TAB && digits[i] != 45 by {
        assert(bytes::is_digit(digits[i]));
    }
}

/// `HDR` and `XHDR` with a header alone are about the current article, as if its number stood
/// behind the header.
pub proof fn law_header_alone_is_about_the_current_article(
    facts: CommandFacts,
    number: u64,
    config: ServerConfig,
    state: SessionState,
    now: u64,
)
    requires
        facts.kind == RequestKind::Hdr || facts.kind == RequestKind::Xhdr,
        is_one_word(facts.args),
        facts.article_id is None,
        !facts.names_message_id,
        state.current_article == Some(number),
        session::is_in_reach(state),
    ensures
        ({
            let named = CommandFacts {
                args: facts.args + seq![bytes::SPACE] + bytes::decimal(number as nat),
                ..facts
            };
            session::reply_text(facts, config, state, now) == session::reply_text(
                named,
                config,
                state,
                now,
            )
        }),
{
    let digits = bytes::decimal(number as nat);
    lemma_number_selector(number);
    bytes::law_fields_of_two_words(facts.args, bytes::SPACE, digits);
}

/// The header or metadata item can be queried.
pub open spec fn is_queried_header(name: Seq<u8>) -> bool {
    ||| bytes::same_letters(name, ":bytes".spec_bytes())
    ||| bytes::same_letters(name, ":lines".spec_bytes())
    ||| bytes::same_letters(name, "Subject".spec_bytes())
    ||| bytes::same_letters(name, "From".spec_bytes())
    ||| bytes::same_letters(name, "Date".spec_bytes())
    ||| bytes::same_letters(name, "Message-ID".spec_bytes())
    ||| bytes::same_letters(name, "References".spec_bytes())
}

/// A header query for a header that the server does not have is refused, whatever it selects.
pub proof fn law_unknown_headers_are_refused(
    facts: CommandFacts,
    name: Seq<u8>,
    selector: Seq<u8>,
    state: SessionState,
)
    requires
        facts.kind == RequestKind::Hdr || facts.kind == RequestKind::Xhdr,
        name.len() > 0,
        is_one_word(name),
        is_one_word(selector),
        facts.args == name || facts.args == name + seq![bytes::SPACE] + selector,
    ensures
        session::refusal(facts, state) == Some(HDR_FIELD_UNAVAILABLE_RESPONSE)
            <==> !is_queried_header(name),
{
    bytes::law_fields_of_two_words(name, bytes::SPACE, selector);
    lemma_other_refusals();
}

/// The refusal of an unknown header is not the same as another.
proof fn lemma_other_refusals()
    ensures
        HDR_FIELD_UNAVAILABLE_RESPONSE != NO_GROUP_SELECTED_RESPONSE,
        HDR_FIELD_UNAVAILABLE_RESPONSE != NO_CURRENT_ARTICLE_RESPONSE,
        HDR_FIELD_UNAVAILABLE_RESPONSE != NO_ARTICLES_IN_RANGE_RESPONSE,
        HDR_FIELD_UNAVAILABLE_RESPONSE != NO_ARTICLE_NUMBER_RESPONSE,
        HDR_FIELD_UNAVAILABLE_RESPONSE != NO_ARTICLE_MESSAGE_ID_RESPONSE,
{
    reveal_strlit("503 HDR field unavailable\r\n");
    reveal_strlit("412 no newsgroup selected\r\n");
    reveal_strlit("420 no current article selected\r\n");
    reveal_strlit("423 no articles in that range\r\n");
    reveal_strlit("423 no article with that number\r\n");
    reveal_strlit("430 no article with that message-id\r\n");
    assert(HDR_FIELD_UNAVAILABLE_RESPONSE@[0] == '5');
    assert(NO_GROUP_SELECTED_RESPONSE@[0] == '4');
    assert(NO_CURRENT_ARTICLE_RESPONSE@[0] == '4');
    assert(NO_ARTICLES_IN_RANGE_RESPONSE@[0] == '4');
    assert(NO_ARTICLE_NUMBER_RESPONSE@[0] == '4');
    assert(NO_ARTICLE_MESSAGE_ID_RESPONSE@[0] == '4');
}

/// The arguments of a look at articles: the selector itself, or a header and the selector.
pub open spec fn looks_at(facts: CommandFacts, header: Seq<u8>, selector: Seq<u8>) -> bool {
    if facts.kind == RequestKind::Hdr || facts.kind == RequestKind::Xhdr {
        &&& header.len() > 0
        &&& is_one_word(header)
        &&& is_queried_header(header)
        &&& facts.args == header + seq![bytes::SPACE] + selector
    } else {
        &&& facts.kind == RequestKind::Over || facts.kind == RequestKind::Xover
        &&& facts.args == selector
    }
}

proof fn lemma_looks_at(facts: CommandFacts, header: Seq<u8>, selector: Seq<u8>)
    requires
        looks_at(facts, header, selector),
        selector.len() > 0,
        is_one_word(selector),
    ensures
        overview::selector_of(facts.kind, facts.args) == Some(selector),
        !overview::asks_current(facts.kind, facts.args),
        overview::is_header_query(facts.kind) ==> overview::is_supported_field(
            bytes::first_field(facts.args),
        ),
{
    if overview::is_header_query(facts.kind) {
        bytes::law_fields_of_two_words(header, bytes::SPACE, selector);
    }
}

/// A look at a range of articles is refused without a group, and where no article of the group lies
/// in the range.
pub proof fn law_look_at_a_range(
    facts: CommandFacts,
    header: Seq<u8>,
    first: u64,
    last: Option<u64>,
    state: SessionState,
)
    requires
        looks_at(facts, header, groups::range_text(first, last)),
        facts.article_id is None,
        !facts.names_message_id,
    ensures
        session::refusal(facts, state) == (if !state.group_selected {
            Some(NO_GROUP_SELECTED_RESPONSE)
        } else if first > groups::articles_in_reach(state) || (last matches Some(end) && (end
            < first || end == 0)) {
            Some(NO_ARTICLES_IN_RANGE_RESPONSE)
        } else {
            None
        }),
{
    let selector = groups::range_text(first, last);
    let digits = bytes::decimal(first as nat);
    lemma_number_selector(first);
    if let Some(end) = last {
        lemma_number_selector(end);
    }
    let at = digits.len() as int;
    assert(selector[0] == digits[0]);
    assert(bytes::is_digit(digits[0]));
    overview::law_message_id_selectors_start_with_a_bracket(selector);
    assert(selector[at] == 45);
    assert(bytes::has_byte(selector, 45));
    assert(!bytes::all_digits(selector)) by {
        assert(!bytes::is_digit(selector[at]));
    }
    assert(is_one_word(selector)) by {
        assert forall|i: int| 0 <= i < selector.len() implies #[trigger] selector[i] != bytes::SPACE
            && selector[i] != bytes::TAB by {
            if i < at {
                assert(selector[i] == digits[i]);
            } else if i > at {
                assert(selector[i] == bytes::decimal(last->0 as nat)[i - at - 1]);
            }
        }
    }
    lemma_looks_at(facts, header, selector);
    let end = match last {
        Some(end) => end,
        None => 0,
    };
    groups::law_range_selects_what_it_reaches(first, end, groups::articles_in_reach(state));
}

/// A look at one article by its number is refused without a group and beyond its articles.
pub proof fn law_look_at_a_number(
    facts: CommandFacts,
    header: Seq<u8>,
    number: u64,
    state: SessionState,
)
    requires
        looks_at(facts, header, bytes::decimal(number as nat)),
        facts.article_id is None || facts.article_id == Some(number),
        !facts.names_message_id,
    ensures
        session::refusal(facts, state) == (if !state.group_selected {
            Some(NO_GROUP_SELECTED_RESPONSE)
        } else if number > groups::articles_in_reach(state) {
            Some(NO_ARTICLE_NUMBER_RESPONSE)
        } else {
            None
        }),
{
    lemma_number_selector(number);
    lemma_looks_at(facts, header, bytes::decimal(number as nat));
}

/// A look at one article by its message-id needs no group, and is refused only where the message-id
/// says that the article is missing.
pub proof fn law_look_at_a_message_id(
    facts: CommandFacts,
    header: Seq<u8>,
    id: Seq<u8>,
    state: SessionState,
)
    requires
        looks_at(facts, header, id),
        values::is_message_id(id),
        facts.article_id is None,
    ensures
        session::refusal(facts, state) == (if bytes::has_run(facts.args, "missing".spec_bytes()) {
            Some(NO_ARTICLE_MESSAGE_ID_RESPONSE)
        } else {
            None
        }),
{
    overview::law_message_id_selectors_start_with_a_bracket(id);
    assert(is_one_word(id)) by {
        assert forall|i: int| 0 <= i < id.len() implies #[trigger] id[i] != bytes::SPACE && id[i]
            != bytes::TAB by {
            if 0 < i < id.len() - 1 {
                assert(values::is_graphic(id.subrange(1, id.len() - 1)[i - 1]));
            }
        }
    }
    assert(!bytes::is_digit(id[0]));
    lemma_looks_at(facts, header, id);
}

/// A command of a session that was staged in a fresh row is taken for what its line says: the kind,
/// the arguments, the number and the message-id.
pub proof fn law_staged_line_is_what_it_says(
    line: Seq<u8>,
    line_slot: int,
    row: Seq<u8>,
    lines: &CommandLineBatch,
)
    requires
        0 <= line_slot < MAX_SERVER_PIPELINE_DEPTH,
        line.len() <= row.len() <= 512,
        !bytes::has_byte(line, 0),
        line.len() < row.len() ==> row[line.len() as int] == 0,
        lines@[line_slot] == commands::overwritten(row, line),
    ensures
        ({
            let facts = session::facts_of(commands::command_of(line, line_slot), Some(lines));
            &&& facts.kind == request_line::request_kind(line)
            &&& facts.args == request_line::request_args(line)
            &&& facts.article_id == text::article_id_arg(request_line::request_args(line))
            &&& facts.message_id == request_line::request_message_id(line)
            &&& facts.names_message_id == (request_line::request_message_id(line) is Some)
        }),
{
    let command = commands::command_of(line, line_slot);
    commands::law_args_of_copied_line(row, line);
    if request_line::request_message_id(line) is Some {
        let id = request_line::request_message_id(line)->0;
        let body = terminator::line_body(line);
        let verb_end = request_line::blank_from(body, 0);
        let start = request_line::args_start(line);
        request_line::lemma_blank_from(body, 0);
        request_line::lemma_word_from(body, verb_end);
        request_line::lemma_blank_from(body, start);
        assert(request_line::words(body, verb_end)[0] == id);
        assert(start < body.len());
        let end = request_line::blank_from(body, start);
        assert(id == body.subrange(start, end));
        let held = lines@[line_slot];
        assert(held.subrange(start, end) =~= id);
    }
}

/// What a client is told of an article that the store does not have goes by how it asked: by the
/// message-id, by the number, or for the current one.
pub proof fn law_missing_article_is_answered_as_asked(
    article_id: Option<u64>,
    has_message_id: bool,
)
    ensures
        session::not_found_text(article_id, true) == "430 no article with that message-id\r\n",
        article_id is Some ==> session::not_found_text(article_id, false)
            == "423 no article with that number\r\n",
        article_id is None ==> session::not_found_text(article_id, false)
            == "420 no current article selected\r\n",
{
}

/// Each command counts once, as a request for an article or for a body where it is one, and with
/// the bytes of its answer.
pub proof fn law_command_counts_once(stats: SessionStats, kind: RequestKind, sent: u64)
    requires
        stats.commands < u64::MAX,
        stats.article_requests < u64::MAX,
        stats.body_requests < u64::MAX,
        stats.bytes_sent + sent <= u64::MAX,
    ensures
        ({
            let after = session::counted(stats, kind, sent as int);
            let retrieved = after.article_requests - stats.article_requests;
            let bodies = after.body_requests - stats.body_requests;
            &&& after.commands == stats.commands + 1
            &&& after.bytes_sent == stats.bytes_sent + sent
            &&& after.pipeline_batches == stats.pipeline_batches
            &&& retrieved + bodies == (if session::retrieves(kind) {
                1int
            } else {
                0int
            })
            &&& bodies == (if kind == RequestKind::Body {
                1int
            } else {
                0int
            })
        }),
{
}

/// A request without a session is answered as in a session that has selected the larger group and
/// its first article, where that session would not refuse it. `NEWGROUPS`, `LAST` and `NEXT` are
/// left out: they have one answer each.
#[verifier::spinoff_prover]
pub proof fn law_lone_request_is_answered_as_in_a_session(
    line: Seq<u8>,
    facts: CommandFacts,
    config: ServerConfig,
    now: u64,
)
    requires
        facts.kind == request_line::request_kind(line),
        facts.args == request_line::request_args(line),
        facts.article_id == text::article_id_arg(request_line::request_args(line)),
        facts.message_id == request_line::request_message_id(line),
        facts.kind != RequestKind::NewGroups,
        facts.kind != RequestKind::Last && facts.kind != RequestKind::Next,
        facts.kind == RequestKind::Hdr || facts.kind == RequestKind::Xhdr ==> bytes::second_field(
            facts.args,
        ) is Some,
        config.article_dir is None,
    ensures
        ({
            let state = SessionState {
                group_selected: true,
                selected_group: Some(FixtureGroup::AltTest),
                current_article: Some(1),
            };
            session::refusal(facts, state) is None ==> session::lone_reply(line, config, now, None)
                == session::reply_text(facts, config, state, now)
        }),
{
    lemma_first_selector();
}

/// The first article is selected by its number as by nothing.
proof fn lemma_first_selector()
    ensures
        overview::over_text(bytes::decimal(1), 3) == overview::over_text(Seq::empty(), 3),
        overview::xover_text(bytes::decimal(1), 3) == overview::xover_text(Seq::empty(), 3),
{
    lemma_number_selector(1);
    groups::law_range_covers_what_it_spans(1, 1, 1);
    groups::law_range_covers_what_it_spans(1, 1, 2);
}

proof fn lemma_fixed_codes()
    ensures
        bytes::starts_with(LIST_OVERVIEW_FMT_RESPONSE.spec_bytes(), "215 ".spec_bytes()),
        bytes::starts_with(LIST_HEADERS_RESPONSE.spec_bytes(), "215 ".spec_bytes()),
        bytes::starts_with(LIST_DISTRIB_PATS_RESPONSE.spec_bytes(), "215 ".spec_bytes()),
        bytes::starts_with(CAPABILITIES_RESPONSE.spec_bytes(), "101 ".spec_bytes()),
        bytes::starts_with(HELP_RESPONSE.spec_bytes(), "100 ".spec_bytes()),
        bytes::starts_with(MODE_READER_RESPONSE.spec_bytes(), "201 ".spec_bytes()),
        bytes::starts_with(QUIT_RESPONSE.spec_bytes(), "205 ".spec_bytes()),
{
    reveal_strlit("100 ");
    assert("100 ".is_ascii());
    reveal_strlit("101 ");
    assert("101 ".is_ascii());
    reveal_strlit("201 ");
    assert("201 ".is_ascii());
    reveal_strlit("205 ");
    assert("205 ".is_ascii());
    reveal_strlit("215 ");
    assert("215 ".is_ascii());
    assert(bytes::starts_with(LIST_OVERVIEW_FMT_RESPONSE.spec_bytes(), "215 ".spec_bytes())) by {
        reveal_strlit("215 Order of fields in overview database\r\nSubject:\r\nFrom:\r\nDate:\r\nMessage-ID:\r\nReferences:\r\n:bytes\r\n:lines\r\n.\r\n");
        assert(LIST_OVERVIEW_FMT_RESPONSE.is_ascii());
        assert(LIST_OVERVIEW_FMT_RESPONSE.spec_bytes().subrange(0, 4) =~= "215 ".spec_bytes());
    }
    assert(bytes::starts_with(LIST_HEADERS_RESPONSE.spec_bytes(), "215 ".spec_bytes())) by {
        reveal_strlit("215 headers supported\r\n:bytes\r\n:lines\r\nSubject\r\nFrom\r\nDate\r\nMessage-ID\r\nReferences\r\n.\r\n");
        assert(LIST_HEADERS_RESPONSE.is_ascii());
        assert(LIST_HEADERS_RESPONSE.spec_bytes().subrange(0, 4) =~= "215 ".spec_bytes());
    }
    assert(bytes::starts_with(LIST_DISTRIB_PATS_RESPONSE.spec_bytes(), "215 ".spec_bytes())) by {
        reveal_strlit("215 distribution patterns\r\n1:*:world\r\n2:*.local:local\r\n.\r\n");
        assert(LIST_DISTRIB_PATS_RESPONSE.is_ascii());
        assert(LIST_DISTRIB_PATS_RESPONSE.spec_bytes().subrange(0, 4) =~= "215 ".spec_bytes());
    }
    assert(bytes::starts_with(CAPABILITIES_RESPONSE.spec_bytes(), "101 ".spec_bytes())) by {
        reveal_strlit("101 Capability list:\r\nVERSION 2\r\nREADER\r\nMODE-READER\r\nLIST ACTIVE ACTIVE.TIMES DISTRIB.PATS NEWSGROUPS OVERVIEW.FMT HEADERS\r\nOVER MSGID\r\nHDR\r\nNEWNEWS\r\nAUTHINFO\r\n.\r\n");
        assert(CAPABILITIES_RESPONSE.is_ascii());
        assert(CAPABILITIES_RESPONSE.spec_bytes().subrange(0, 4) =~= "101 ".spec_bytes());
    }
    assert(bytes::starts_with(HELP_RESPONSE.spec_bytes(), "100 ".spec_bytes())) by {
        reveal_strlit("100 help text follows\r\nARTICLE\r\nAUTHINFO\r\nBODY\r\nCAPABILITIES\r\nCHECK\r\nDATE\r\nGROUP\r\nHDR\r\nHEAD\r\nHELP\r\nIHAVE\r\nLAST\r\nLIST\r\nLISTGROUP\r\nMODE READER\r\nNEWGROUPS\r\nNEWNEWS\r\nNEXT\r\nOVER\r\nPOST\r\nQUIT\r\nSTARTTLS\r\nSTAT\r\nTAKETHIS\r\nXHDR\r\nXOVER\r\n.\r\n");
        assert(HELP_RESPONSE.is_ascii());
        assert(HELP_RESPONSE.spec_bytes().subrange(0, 4) =~= "100 ".spec_bytes());
    }
    assert(bytes::starts_with(MODE_READER_RESPONSE.spec_bytes(), "201 ".spec_bytes())) by {
        reveal_strlit("201 posting not permitted\r\n");
        assert(MODE_READER_RESPONSE.is_ascii());
        assert(MODE_READER_RESPONSE.spec_bytes().subrange(0, 4) =~= "201 ".spec_bytes());
    }
    assert(bytes::starts_with(QUIT_RESPONSE.spec_bytes(), "205 ".spec_bytes())) by {
        reveal_strlit("205 closing connection\r\n");
        assert(QUIT_RESPONSE.is_ascii());
        assert(QUIT_RESPONSE.spec_bytes().subrange(0, 4) =~= "205 ".spec_bytes());
    }
}

proof fn lemma_refusal_codes()
    ensures
        bytes::starts_with(POSTING_NOT_PERMITTED_RESPONSE.spec_bytes(), "440 ".spec_bytes()),
        bytes::starts_with(ARTICLE_NOT_WANTED_RESPONSE.spec_bytes(), "435 ".spec_bytes()),
        bytes::starts_with(COMMAND_UNAVAILABLE_RESPONSE.spec_bytes(), "502 ".spec_bytes()),
        bytes::starts_with(TLS_REQUIRED_RESPONSE.spec_bytes(), "483 ".spec_bytes()),
        bytes::starts_with(UNKNOWN_COMMAND_RESPONSE.spec_bytes(), "500 ".spec_bytes()),
        bytes::starts_with(LINE_TOO_LONG_RESPONSE.spec_bytes(), "501 ".spec_bytes()),
        bytes::starts_with(SYNTAX_ERROR_RESPONSE.spec_bytes(), "501 ".spec_bytes()),
{
    reveal_strlit("435 ");
    assert("435 ".is_ascii());
    reveal_strlit("440 ");
    assert("440 ".is_ascii());
    reveal_strlit("483 ");
    assert("483 ".is_ascii());
    reveal_strlit("500 ");
    assert("500 ".is_ascii());
    reveal_strlit("501 ");
    assert("501 ".is_ascii());
    reveal_strlit("502 ");
    assert("502 ".is_ascii());
    assert(bytes::starts_with(POSTING_NOT_PERMITTED_RESPONSE.spec_bytes(), "440 ".spec_bytes())) by {
        reveal_strlit("440 posting not permitted\r\n");
        assert(POSTING_NOT_PERMITTED_RESPONSE.is_ascii());
        assert(POSTING_NOT_PERMITTED_RESPONSE.spec_bytes().subrange(0, 4) =~= "440 ".spec_bytes());
    }
    assert(bytes::starts_with(ARTICLE_NOT_WANTED_RESPONSE.spec_bytes(), "435 ".spec_bytes())) by {
        reveal_strlit("435 article not wanted\r\n");
        assert(ARTICLE_NOT_WANTED_RESPONSE.is_ascii());
        assert(ARTICLE_NOT_WANTED_RESPONSE.spec_bytes().subrange(0, 4) =~= "435 ".spec_bytes());
    }
    assert(bytes::starts_with(COMMAND_UNAVAILABLE_RESPONSE.spec_bytes(), "502 ".spec_bytes())) by {
        reveal_strlit("502 command unavailable\r\n");
        assert(COMMAND_UNAVAILABLE_RESPONSE.is_ascii());
        assert(COMMAND_UNAVAILABLE_RESPONSE.spec_bytes().subrange(0, 4) =~= "502 ".spec_bytes());
    }
    assert(bytes::starts_with(TLS_REQUIRED_RESPONSE.spec_bytes(), "483 ".spec_bytes())) by {
        reveal_strlit("483 command unavailable until TLS has been negotiated\r\n");
        assert(TLS_REQUIRED_RESPONSE.is_ascii());
        assert(TLS_REQUIRED_RESPONSE.spec_bytes().subrange(0, 4) =~= "483 ".spec_bytes());
    }
    assert(bytes::starts_with(UNKNOWN_COMMAND_RESPONSE.spec_bytes(), "500 ".spec_bytes())) by {
        reveal_strlit("500 unknown command\r\n");
        assert(UNKNOWN_COMMAND_RESPONSE.is_ascii());
        assert(UNKNOWN_COMMAND_RESPONSE.spec_bytes().subrange(0, 4) =~= "500 ".spec_bytes());
    }
    assert(bytes::starts_with(LINE_TOO_LONG_RESPONSE.spec_bytes(), "501 ".spec_bytes())) by {
        reveal_strlit("501 command line too long\r\n");
        assert(LINE_TOO_LONG_RESPONSE.is_ascii());
        assert(LINE_TOO_LONG_RESPONSE.spec_bytes().subrange(0, 4) =~= "501 ".spec_bytes());
    }
    assert(bytes::starts_with(SYNTAX_ERROR_RESPONSE.spec_bytes(), "501 ".spec_bytes())) by {
        reveal_strlit("501 command syntax error\r\n");
        assert(SYNTAX_ERROR_RESPONSE.is_ascii());
        assert(SYNTAX_ERROR_RESPONSE.spec_bytes().subrange(0, 4) =~= "501 ".spec_bytes());
    }
}

/// The status code of the answer to each command that is not refused.
pub open spec fn answer_code(kind: RequestKind) -> &'static str {
    match kind {
        RequestKind::Article => "220 ",
        RequestKind::Head => "221 ",
        RequestKind::Body => "222 ",
        RequestKind::Stat | RequestKind::Last | RequestKind::Next => "223 ",
        RequestKind::Group | RequestKind::ListGroup => "211 ",
        RequestKind::NewGroups => "231 ",
        RequestKind::NewNews => "230 ",
        RequestKind::Over | RequestKind::Xover => "224 ",
        RequestKind::Hdr => "225 ",
        RequestKind::Xhdr => "221 ",
        RequestKind::Capabilities => "101 ",
        RequestKind::Help => "100 ",
        RequestKind::Date => "111 ",
        RequestKind::ModeReader => "201 ",
        RequestKind::Quit => "205 ",
        _ => "215 ",
    }
}

/// A text that goes on behind another starts as that does.
proof fn lemma_starts(text: Seq<u8>, head: Seq<u8>, code: Seq<u8>)
    requires
        bytes::starts_with(text, head),
        bytes::starts_with(head, code),
    ensures
        bytes::starts_with(text, code),
{
    assert(text.subrange(0, code.len() as int) =~= text.subrange(0, head.len() as int).subrange(
        0,
        code.len() as int,
    ));
}

/// Every command that is not refused is answered with the status of that command.
#[verifier::spinoff_prover]
pub proof fn law_every_command_has_its_status(
    facts: CommandFacts,
    config: ServerConfig,
    state: SessionState,
    now: u64,
)
    requires
        session::refusal(facts, state) is None,
        session::is_in_reach(state),
        facts.message_id matches Some(id) ==> values::is_message_id(id),
        config.is_prepared(),
    ensures
        bytes::starts_with(
            session::reply_text(facts, config, state, now),
            answer_code(facts.kind).spec_bytes(),
        ),
{
    let reply = session::reply_text(facts, config, state, now);
    let code = answer_code(facts.kind).spec_bytes();
    match facts.kind {
        RequestKind::Article | RequestKind::Head | RequestKind::Stat | RequestKind::Body => {
            lemma_retrieved_status(facts, config, state, now);
        },
        RequestKind::List | RequestKind::ListActive => {
            lemma_list_status(listing::list_wildmat(facts.kind, facts.args));
            lemma_list_status(Seq::empty());
        },
        RequestKind::ListActiveTimes | RequestKind::ListNewsgroups => {
            lemma_list_status(listing::list_wildmat(facts.kind, facts.args));
        },
        RequestKind::Group | RequestKind::ListGroup => {
            lemma_group_status(facts, config, state, now);
        },
        RequestKind::Last | RequestKind::Next => {
            lemma_move_status(facts, config, state, now);
        },
        RequestKind::NewGroups | RequestKind::NewNews => {
            lemma_news_codes();
        },
        RequestKind::Over | RequestKind::Xover | RequestKind::Hdr | RequestKind::Xhdr => {
            lemma_look_status(facts, config, state, now);
        },
        RequestKind::Date => {
            reveal_strlit("111 ");
            assert("111 ".is_ascii());
            assert(reply.subrange(0, 4) =~= code);
        },
        _ => {
            lemma_fixed_codes();
        },
    }
}

proof fn lemma_retrieved_status(
    facts: CommandFacts,
    config: ServerConfig,
    state: SessionState,
    now: u64,
)
    requires
        session::retrieves(facts.kind),
        session::refusal(facts, state) is None,
        facts.message_id matches Some(id) ==> values::is_message_id(id),
        config.is_prepared(),
    ensures
        bytes::starts_with(
            session::reply_text(facts, config, state, now),
            answer_code(facts.kind).spec_bytes(),
        ),
{
    let (number, id) = match facts.message_id {
        Some(id) => (0nat, id),
        None => {
            let number = session::chosen_article(facts.article_id, state);
            answers::law_first_article_is_like_the_others(facts.kind, number, config);
            (number as nat, generate::article_message_id(number as nat))
        },
    };
    lemma_made_text_starts(facts.kind, number, id, config);
    let code = code_of(facts.kind).spec_bytes();
    let head = generate::article_line(code_of(facts.kind), number, id) + " ".spec_bytes();
    assert(head.subrange(0, code.len() as int) =~= code);
    lemma_starts(answers::made_text(facts.kind, number, id, config), head, code);
}

proof fn lemma_list_status(patterns: Seq<u8>)
    ensures
        bytes::starts_with(
            listing::list_active_text(patterns).spec_bytes(),
            "215 ".spec_bytes(),
        ),
        bytes::starts_with(
            listing::list_active_times_text(patterns).spec_bytes(),
            "215 ".spec_bytes(),
        ),
        bytes::starts_with(
            listing::list_newsgroups_text(patterns).spec_bytes(),
            "215 ".spec_bytes(),
        ),
{
    listing::law_list_active_lists_the_selected_groups(patterns);
    listing::law_list_active_times_lists_the_selected_groups(patterns);
    listing::law_list_newsgroups_lists_the_selected_groups(patterns);
    reveal_strlit("215 ");
    reveal_strlit("215 list of newsgroups follows\r\n");
    reveal_strlit("215 information follows\r\n");
    assert("215 ".is_ascii() && "215 list of newsgroups follows\r\n".is_ascii());
    assert("215 information follows\r\n".is_ascii());
    assert(listing::list_active_text(patterns).spec_bytes().subrange(0, 4)
        =~= "215 ".spec_bytes());
    assert(listing::list_active_times_text(patterns).spec_bytes().subrange(0, 4)
        =~= "215 ".spec_bytes());
    assert(listing::list_newsgroups_text(patterns).spec_bytes().subrange(0, 4)
        =~= "215 ".spec_bytes());
}

proof fn lemma_group_status(
    facts: CommandFacts,
    config: ServerConfig,
    state: SessionState,
    now: u64,
)
    requires
        facts.kind == RequestKind::Group || facts.kind == RequestKind::ListGroup,
        session::refusal(facts, state) is None,
    ensures
        bytes::starts_with(session::reply_text(facts, config, state, now), "211 ".spec_bytes()),
{
    let reply = session::reply_text(facts, config, state, now);
    let code = "211 ".spec_bytes();
    let group = if facts.kind == RequestKind::Group {
        groups::group_named(facts.args)->0
    } else {
        session::listgroup_target(facts.args, state)
    };
    let head = groups::group_text(group).spec_bytes();
    groups::law_group_line_counts_its_articles(group);
    assert(head.subrange(0, code.len() as int) =~= code);
    if facts.kind == RequestKind::ListGroup {
        groups::law_listgroup_lists_the_range(group, groups::listgroup_range(facts.args));
        assert(groups::listed_group(facts.args, Some(group)) == Some(group));
        assert(reply.subrange(0, head.len() as int) =~= head);
        lemma_starts(reply, head, code);
    }
}

proof fn lemma_move_status(
    facts: CommandFacts,
    config: ServerConfig,
    state: SessionState,
    now: u64,
)
    requires
        facts.kind == RequestKind::Last || facts.kind == RequestKind::Next,
        session::refusal(facts, state) is None,
        session::is_in_reach(state),
    ensures
        bytes::starts_with(session::reply_text(facts, config, state, now), "223 ".spec_bytes()),
{
    let code = "223 ".spec_bytes();
    let current = state.current_article->0;
    let id = if facts.kind == RequestKind::Last {
        law_last_moves_back_by_one(facts, config, state, now);
        (current - 1) as nat
    } else {
        law_next_moves_on_by_one(facts, config, state, now);
        (current + 1) as nat
    };
    let head = code + bytes::decimal(id) + " <".spec_bytes();
    assert(head.subrange(0, code.len() as int) =~= code);
    lemma_starts(session::reply_text(facts, config, state, now), head, code);
}

proof fn lemma_news_codes()
    ensures
        bytes::starts_with(NEWGROUPS_RESPONSE.spec_bytes(), "231 ".spec_bytes()),
        bytes::starts_with(NEWGROUPS_EMPTY_RESPONSE.spec_bytes(), "231 ".spec_bytes()),
        bytes::starts_with(NEWNEWS_RESPONSE.spec_bytes(), "230 ".spec_bytes()),
        bytes::starts_with(NEWNEWS_EMPTY_RESPONSE.spec_bytes(), "230 ".spec_bytes()),
{
    reveal_strlit("231 ");
    reveal_strlit("230 ");
    assert("231 ".is_ascii() && "230 ".is_ascii());
    assert(bytes::starts_with(NEWGROUPS_RESPONSE.spec_bytes(), "231 ".spec_bytes())) by {
        reveal_strlit("231 list of new newsgroups follows\r\ncomp.lang.rust 0000000001 0000000001 y\r\nalt.test 0000000003 0000000001 y\r\n.\r\n");
        assert(NEWGROUPS_RESPONSE.is_ascii());
        assert(NEWGROUPS_RESPONSE.spec_bytes().subrange(0, 4) =~= "231 ".spec_bytes());
    }
    assert(bytes::starts_with(NEWGROUPS_EMPTY_RESPONSE.spec_bytes(), "231 ".spec_bytes())) by {
        reveal_strlit("231 list of new newsgroups follows\r\n.\r\n");
        assert(NEWGROUPS_EMPTY_RESPONSE.is_ascii());
        assert(NEWGROUPS_EMPTY_RESPONSE.spec_bytes().subrange(0, 4) =~= "231 ".spec_bytes());
    }
    assert(bytes::starts_with(NEWNEWS_RESPONSE.spec_bytes(), "230 ".spec_bytes())) by {
        reveal_strlit("230 list of new articles follows\r\n<one@alt.test>\r\n<two@alt.test>\r\n.\r\n");
        assert(NEWNEWS_RESPONSE.is_ascii());
        assert(NEWNEWS_RESPONSE.spec_bytes().subrange(0, 4) =~= "230 ".spec_bytes());
    }
    assert(bytes::starts_with(NEWNEWS_EMPTY_RESPONSE.spec_bytes(), "230 ".spec_bytes())) by {
        reveal_strlit("230 list of new articles follows\r\n.\r\n");
        assert(NEWNEWS_EMPTY_RESPONSE.is_ascii());
        assert(NEWNEWS_EMPTY_RESPONSE.spec_bytes().subrange(0, 4) =~= "230 ".spec_bytes());
    }
}

proof fn lemma_look_status(
    facts: CommandFacts,
    config: ServerConfig,
    state: SessionState,
    now: u64,
)
    requires
        session::looks_over(facts.kind),
        session::refusal(facts, state) is None,
    ensures
        bytes::starts_with(
            session::reply_text(facts, config, state, now),
            answer_code(facts.kind).spec_bytes(),
        ),
{
    let count = groups::articles_in_reach(state);
    let over = overview::overview_args(facts.args, state.current_article);
    let header = overview::header_args(facts.args, state.current_article);
    overview::law_looks_are_answered_with_their_line(over, count);
    overview::law_looks_are_answered_with_their_line(header, count);
    reveal_strlit("224 ");
    reveal_strlit("225 ");
    reveal_strlit("221 ");
    reveal_strlit("224 Overview information follows\r\n");
    reveal_strlit("225 headers follow\r\n");
    reveal_strlit("221 headers follow\r\n");
    assert("224 ".is_ascii() && "225 ".is_ascii() && "221 ".is_ascii());
    assert(overview::OVER_HEAD.is_ascii() && overview::HDR_HEAD.is_ascii());
    assert(overview::XHDR_HEAD.is_ascii());
    assert(overview::OVER_HEAD.spec_bytes().subrange(0, 4) =~= "224 ".spec_bytes());
    assert(overview::HDR_HEAD.spec_bytes().subrange(0, 4) =~= "225 ".spec_bytes());
    assert(overview::XHDR_HEAD.spec_bytes().subrange(0, 4) =~= "221 ".spec_bytes());
    let reply = session::reply_text(facts, config, state, now);
    match facts.kind {
        RequestKind::Over | RequestKind::Xover => lemma_starts(
            reply,
            overview::OVER_HEAD.spec_bytes(),
            "224 ".spec_bytes(),
        ),
        RequestKind::Hdr => lemma_starts(
            reply,
            overview::HDR_HEAD.spec_bytes(),
            "225 ".spec_bytes(),
        ),
        _ => lemma_starts(reply, overview::XHDR_HEAD.spec_bytes(), "221 ".spec_bytes()),
    }
}

/// What the server does not do it refuses, always and with the status for it: posting, taking
/// articles, authentication without encryption, and encryption. A line that is no command is an
/// unknown command, or a syntax error where it starts with a known verb.
pub proof fn law_unsupported_commands_are_refused(
    facts: CommandFacts,
    config: ServerConfig,
    state: SessionState,
    now: u64,
)
    ensures
        ({
            let reply = session::reply_text(facts, config, state, now);
            &&& facts.kind == RequestKind::Post ==> bytes::starts_with(reply, "440 ".spec_bytes())
            &&& facts.kind == RequestKind::Ihave ==> bytes::starts_with(reply, "435 ".spec_bytes())
            &&& facts.kind == RequestKind::Check || facts.kind == RequestKind::TakeThis || facts.kind
                == RequestKind::StartTls || facts.kind == RequestKind::AuthInfo
                ==> bytes::starts_with(reply, "502 ".spec_bytes())
            &&& facts.kind == RequestKind::AuthInfoUser || facts.kind == RequestKind::AuthInfoPass
                ==> bytes::starts_with(reply, "483 ".spec_bytes())
            &&& facts.kind == RequestKind::Unknown && !facts.syntax_error ==> bytes::starts_with(
                reply,
                "500 ".spec_bytes(),
            )
            &&& facts.kind == RequestKind::Unknown && facts.syntax_error ==> bytes::starts_with(
                reply,
                "501 ".spec_bytes(),
            )
        }),
{
    lemma_refusal_codes();
}

/// A line that is too long is answered as such, whatever the session has selected.
pub proof fn law_long_lines_are_answered(
    lines: Option<&CommandLineBatch>,
    slot: int,
    config: ServerConfig,
    state: SessionState,
    now: u64,
)
    ensures
        session::reply_text(
            session::facts_of(
                commands::command_of("DATE too-long\n".spec_bytes(), slot),
                lines,
            ),
            config,
            state,
            now,
        ) == "501 command line too long\r\n".spec_bytes(),
{
    let line = "DATE too-long\n".spec_bytes();
    reveal_strlit("DATE too-long\n");
    reveal_strlit("DATE");
    assert("DATE too-long\n".is_ascii() && "DATE".is_ascii());
    request_line::law_only_whole_lines_are_commands(line);
    let word = "DATE".spec_bytes();
    let rest = line.subrange(5, line.len() as int);
    assert(line =~= word + seq![32u8] + rest);
    commands::law_first_word_ends_at_white_space(word, 32, rest);
    assert(bytes::same_letters(word, "DATE".spec_bytes()));
    assert(commands::is_known_verb(commands::leading_word(line)));
}

/// Each `LIST` command is answered with its own listing, by the wildmat behind its keyword.
pub proof fn law_list_commands_are_answered_with_their_listing(
    facts: CommandFacts,
    keyword: Seq<u8>,
    patterns: Seq<u8>,
    config: ServerConfig,
    state: SessionState,
    now: u64,
)
    requires
        patterns.len() > 0,
        patterns[0] != bytes::SPACE && patterns[0] != bytes::TAB,
        facts.args == keyword + seq![bytes::SPACE] + patterns,
    ensures
        facts.kind == RequestKind::ListActive && bytes::same_letters(keyword, "ACTIVE".spec_bytes())
            ==> session::reply_text(facts, config, state, now) == listing::list_active_text(
            patterns,
        ).spec_bytes(),
        facts.kind == RequestKind::ListActiveTimes && bytes::same_letters(
            keyword,
            "ACTIVE.TIMES".spec_bytes(),
        ) ==> session::reply_text(facts, config, state, now)
            == listing::list_active_times_text(patterns).spec_bytes(),
        facts.kind == RequestKind::ListNewsgroups && bytes::same_letters(
            keyword,
            "NEWSGROUPS".spec_bytes(),
        ) ==> session::reply_text(facts, config, state, now)
            == listing::list_newsgroups_text(patterns).spec_bytes(),
        facts.kind == RequestKind::List ==> session::reply_text(facts, config, state, now)
            == listing::list_active_text(Seq::empty()).spec_bytes(),
{
    if (facts.kind == RequestKind::ListActive && bytes::same_letters(keyword, "ACTIVE".spec_bytes()))
        || (facts.kind == RequestKind::ListActiveTimes && bytes::same_letters(
        keyword,
        "ACTIVE.TIMES".spec_bytes(),
    )) || (facts.kind == RequestKind::ListNewsgroups && bytes::same_letters(
        keyword,
        "NEWSGROUPS".spec_bytes(),
    )) {
        listing::law_wildmat_stands_behind_the_keyword(facts.kind, keyword, patterns);
    }
}

/// What a session always refuses, a request without a session is refused with the same answer.
pub proof fn law_lone_requests_are_refused_alike(
    line: Seq<u8>,
    facts: CommandFacts,
    config: ServerConfig,
    state: SessionState,
    now: u64,
    stored: Option<Seq<u8>>,
)
    requires
        facts.kind == request_line::request_kind(line),
        facts.syntax_error <==> commands::is_syntax_error(line),
        !facts.line_too_long,
        facts.kind == RequestKind::Post || facts.kind == RequestKind::Ihave || facts.kind
            == RequestKind::Check || facts.kind == RequestKind::TakeThis || facts.kind
            == RequestKind::AuthInfo || facts.kind == RequestKind::AuthInfoUser || facts.kind
            == RequestKind::AuthInfoPass || facts.kind == RequestKind::StartTls || facts.kind
            == RequestKind::Unknown,
    ensures
        session::lone_reply(line, config, now, stored) == session::reply_text(
            facts,
            config,
            state,
            now,
        ),
{
}

/// A request for an article without a session is answered from the store where there is one, and is
/// refused where the store has no such article. Other requests do not ask the store.
pub proof fn law_lone_articles_come_from_the_store(
    line: Seq<u8>,
    config: ServerConfig,
    now: u64,
    text: Seq<u8>,
)
    requires
        config.article_dir is Some,
    ensures
        request_line::request_kind(line) == RequestKind::Article ==> {
            &&& session::lone_reply(line, config, now, Some(text)) == text
            &&& bytes::starts_with(session::lone_reply(line, config, now, None), "4".spec_bytes())
        },
        request_line::request_kind(line) != RequestKind::Article ==> session::lone_reply(
            line,
            config,
            now,
            Some(text),
        ) == session::lone_reply(line, config, now, None),
{
    lemma_article_refusals();
}

proof fn lemma_article_refusals()
    ensures
        bytes::starts_with(NO_GROUP_SELECTED_RESPONSE.spec_bytes(), "4".spec_bytes()),
        bytes::starts_with(NO_CURRENT_ARTICLE_RESPONSE.spec_bytes(), "4".spec_bytes()),
        bytes::starts_with(NO_ARTICLE_NUMBER_RESPONSE.spec_bytes(), "4".spec_bytes()),
        bytes::starts_with(NO_ARTICLE_MESSAGE_ID_RESPONSE.spec_bytes(), "4".spec_bytes()),
{
    reveal_strlit("4");
    reveal_strlit("412 no newsgroup selected\r\n");
    reveal_strlit("420 no current article selected\r\n");
    reveal_strlit("423 no article with that number\r\n");
    reveal_strlit("430 no article with that message-id\r\n");
    assert("4".is_ascii() && NO_GROUP_SELECTED_RESPONSE.is_ascii());
    assert(NO_CURRENT_ARTICLE_RESPONSE.is_ascii() && NO_ARTICLE_NUMBER_RESPONSE.is_ascii());
    assert(NO_ARTICLE_MESSAGE_ID_RESPONSE.is_ascii());
    assert(NO_GROUP_SELECTED_RESPONSE.spec_bytes().subrange(0, 1) =~= "4".spec_bytes());
    assert(NO_CURRENT_ARTICLE_RESPONSE.spec_bytes().subrange(0, 1) =~= "4".spec_bytes());
    assert(NO_ARTICLE_NUMBER_RESPONSE.spec_bytes().subrange(0, 1) =~= "4".spec_bytes());
    assert(NO_ARTICLE_MESSAGE_ID_RESPONSE.spec_bytes().subrange(0, 1) =~= "4".spec_bytes());
}

/// The store is asked exactly where a whole article would be sent: for `ARTICLE`, where it is not
/// refused. `HEAD`, `BODY` and `STAT` do not ask it.
pub proof fn law_store_is_asked_for_whole_articles(
    facts: CommandFacts,
    config: ServerConfig,
    state: SessionState,
    now: u64,
)
    requires
        facts.message_id matches Some(id) ==> values::is_message_id(id),
        session::is_in_reach(state),
        config.is_prepared(),
    ensures
        session::needs_stored_article(facts, config, state) <==> config.article_dir is Some
            && facts.kind == RequestKind::Article && bytes::starts_with(
            session::reply_text(facts, config, state, now),
            "220 ".spec_bytes(),
        ),
{
    if facts.kind == RequestKind::Article {
        if session::refusal(facts, state) is None {
            law_every_command_has_its_status(facts, config, state, now);
        } else {
            lemma_article_refusals();
            let reply = session::reply_text(facts, config, state, now);
            reveal_strlit("4");
            reveal_strlit("220 ");
            assert("4".is_ascii() && "220 ".is_ascii());
            assert(reply.subrange(0, 1)[0] == reply[0]);
            if bytes::starts_with(reply, "220 ".spec_bytes()) {
                assert(reply.subrange(0, 4)[0] == reply[0]);
            }
        }
    }
}

/// Without a session, `LAST` moves back from the second article of the larger group and `NEXT` moves
/// on from its first one. `NEWGROUPS` lists the groups as for any date that is not far ahead.
pub proof fn law_lone_moves(
    line: Seq<u8>,
    facts: CommandFacts,
    config: ServerConfig,
    now: u64,
    stored: Option<Seq<u8>>,
)
    requires
        facts.kind == request_line::request_kind(line),
    ensures
        ({
            let state = SessionState {
                group_selected: true,
                selected_group: Some(FixtureGroup::AltTest),
                current_article: Some(
                    if facts.kind == RequestKind::Last {
                        2u64
                    } else {
                        1u64
                    },
                ),
            };
            let early = match date::date_key(bytes::first_field(facts.args), date::year_of(now as int)) {
                Some(key) => key < 99_991_231,
                None => true,
            };
            facts.kind == RequestKind::Last || facts.kind == RequestKind::Next || (facts.kind
                == RequestKind::NewGroups && early) ==> session::lone_reply(
                line,
                config,
                now,
                stored,
            ) == session::reply_text(facts, config, state, now)
        }),
{
}

/// The commands about the server itself have one answer each, whatever the session has selected and
/// whatever stands behind them. The news are answered by their arguments and the present year, and
/// `DATE` by the present moment.
pub proof fn law_answers_about_the_server(
    facts: CommandFacts,
    config: ServerConfig,
    state: SessionState,
    now: u64,
)
    ensures
        ({
            let reply = session::reply_text(facts, config, state, now);
            let year = date::year_of(now as int);
            &&& facts.kind == RequestKind::Capabilities ==> reply
                == CAPABILITIES_RESPONSE.spec_bytes()
            &&& facts.kind == RequestKind::Help ==> reply == HELP_RESPONSE.spec_bytes()
            &&& facts.kind == RequestKind::ModeReader ==> reply == MODE_READER_RESPONSE.spec_bytes()
            &&& facts.kind == RequestKind::Quit ==> reply == QUIT_RESPONSE.spec_bytes()
            &&& facts.kind == RequestKind::ListOverviewFmt ==> reply
                == LIST_OVERVIEW_FMT_RESPONSE.spec_bytes()
            &&& facts.kind == RequestKind::ListHeaders ==> reply
                == LIST_HEADERS_RESPONSE.spec_bytes()
            &&& facts.kind == RequestKind::ListDistribPats ==> reply
                == LIST_DISTRIB_PATS_RESPONSE.spec_bytes()
            &&& facts.kind == RequestKind::NewGroups ==> reply == listing::newgroups_text(
                facts.args,
                year,
            ).spec_bytes()
            &&& facts.kind == RequestKind::NewNews ==> reply == listing::newnews_text(
                facts.args,
                year,
            ).spec_bytes()
            &&& facts.kind == RequestKind::Date ==> reply == date::date_response(now as int)
        }),
{
}

} // verus!
