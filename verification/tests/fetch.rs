//! One request of the command line, as it goes over the wire.
use nntpbench::fetch::{fetch_options, ClientOptions};
use nntpbench::response::{response_frame_end, response_status, FrameStatus};
use nntpbench::responses::{
    AUTHINFO_RESPONSE, CHECK_RESPONSE, GROUP_RESPONSE, HDR_RESPONSE, HELP_RESPONSE, IHAVE_RESPONSE,
    LAST_RESPONSE, LISTGROUP_RESPONSE, LIST_ACTIVE_TIMES_RESPONSE, LIST_DISTRIB_PATS_RESPONSE,
    LIST_HEADERS_RESPONSE, LIST_NEWSGROUPS_RESPONSE, LIST_OVERVIEW_FMT_RESPONSE, LIST_RESPONSE,
    NEWGROUPS_RESPONSE, NEWNEWS_RESPONSE, NEXT_RESPONSE, OVER_RESPONSE, POST_RESPONSE,
    QUIT_RESPONSE, STARTTLS_RESPONSE, TAKETHIS_RESPONSE, XHDR_RESPONSE, XOVER_RESPONSE,
};
use nntpbench::{fetch_request, ClientError, FetchArgs, FetchRequestKind, RequestKind};

fn test_fetch_args() -> FetchArgs {
    FetchArgs {
        request: FetchRequestKind::Article,
        message_id: Some("bench@test".to_string()),
        article_body: None,
        auth_value: None,
        header: None,
        group: None,
        wildmat: None,
        date: None,
        time: None,
        gmt: true,
        selector: None,
        read_buffer_bytes: 256 * 1024,
        pipeline_depth: 64,
    }
}

/// The request goes out as `wire`, and the answer is one response to it, with this status.
fn exchange(args: &FetchArgs, wire: &[u8], answer: &[u8]) -> (RequestKind, u16) {
    let request = fetch_request(args).unwrap();
    let mut sent = Vec::new();
    request.write_wire_to(&mut sent);
    assert_eq!(String::from_utf8_lossy(&sent), String::from_utf8_lossy(wire));
    assert_eq!(
        response_frame_end(request.kind(), answer),
        FrameStatus::CompleteAt(answer.len())
    );
    (request.kind(), response_status(answer).unwrap())
}

#[test]
fn fetch_response_uses_client_connection_path() {
    let mut args = test_fetch_args();
    args.request = FetchRequestKind::Body;
    args.message_id = Some("client-fetch@test".to_string());
    args.read_buffer_bytes = 64;

    let response = exchange(
        &args,
        b"BODY <client-fetch@test>\r\n",
        b"222 1 <client-fetch@test> body follows\r\nbody payload\r\n.\r\n",
    );

    assert_eq!(response.0, RequestKind::Body);
    assert_eq!(response.1, 222);
}

#[test]
fn fetch_response_supports_head_and_stat_requests() {
    let mut head_args = test_fetch_args();
    head_args.request = FetchRequestKind::Head;
    head_args.message_id = Some("client-head@test".to_string());
    let head = exchange(
        &head_args,
        b"HEAD <client-head@test>\r\n",
        b"221 1 <client-head@test> article retrieved\r\nSubject: Head\r\n.\r\n",
    );
    assert_eq!(head.0, RequestKind::Head);
    assert_eq!(head.1, 221);

    let mut stat_args = test_fetch_args();
    stat_args.request = FetchRequestKind::Stat;
    stat_args.message_id = Some("client-stat@test".to_string());
    let stat = exchange(
        &stat_args,
        b"STAT <client-stat@test>\r\n",
        b"223 1 <client-stat@test> article retrieved\r\n",
    );
    assert_eq!(stat.0, RequestKind::Stat);
    assert_eq!(stat.1, 223);
}

#[test]
fn fetch_response_rejects_invalid_message_id() {
    let mut args = test_fetch_args();
    args.message_id = Some("<bad id>".to_string());

    let err = fetch_request(&args).unwrap_err();
    assert_eq!(err, ClientError::InvalidMessageId);
}

#[test]
fn fetch_response_rejects_invalid_article_selector() {
    let mut args = test_fetch_args();
    args.message_id = None;
    args.selector = Some("0001".to_string());

    let err = fetch_request(&args).unwrap_err();
    assert_eq!(err, ClientError::InvalidArticleSelector);
}

#[test]
fn fetch_response_clamps_pipeline_depth_for_client_engine() {
    let mut args = test_fetch_args();
    args.message_id = Some("clamp@test".to_string());
    args.pipeline_depth = 0;

    let response = exchange(
        &args,
        b"ARTICLE <clamp@test>\r\n",
        b"220 1 <clamp@test> article follows\r\nSubject: Clamp\r\n\r\nbody\r\n.\r\n",
    );
    assert_eq!(response.1, 220);
}

#[test]
fn fetch_response_supports_general_request_kinds_without_message_id() {
    let mut list_args = test_fetch_args();
    list_args.request = FetchRequestKind::List;
    list_args.message_id = None;
    let list = exchange(&list_args, b"LIST\r\n", LIST_RESPONSE.as_bytes());
    assert_eq!(list.0, RequestKind::List);
    assert_eq!(list.1, 215);

    let mut help_args = test_fetch_args();
    help_args.request = FetchRequestKind::Help;
    help_args.message_id = None;
    let help = exchange(&help_args, b"HELP\r\n", HELP_RESPONSE.as_bytes());
    assert_eq!(help.0, RequestKind::Help);
    assert_eq!(help.1, 100);

    let mut capabilities_args = test_fetch_args();
    capabilities_args.request = FetchRequestKind::Capabilities;
    capabilities_args.message_id = None;
    let capabilities = exchange(
        &capabilities_args,
        b"CAPABILITIES\r\n",
        b"101 Capability list:\r\nVERSION 2\r\nREADER\r\n.\r\n",
    );
    assert_eq!(capabilities.0, RequestKind::Capabilities);
    assert_eq!(capabilities.1, 101);

    let mut date_args = test_fetch_args();
    date_args.request = FetchRequestKind::Date;
    date_args.message_id = None;
    let date = exchange(&date_args, b"DATE\r\n", b"111 20260515120000\r\n");
    assert_eq!(date.0, RequestKind::Date);
    assert_eq!(date.1, 111);

    let mut mode_reader_args = test_fetch_args();
    mode_reader_args.request = FetchRequestKind::ModeReader;
    mode_reader_args.message_id = None;
    let mode_reader = exchange(
        &mode_reader_args,
        b"MODE READER\r\n",
        b"201 posting not permitted\r\n",
    );
    assert_eq!(mode_reader.0, RequestKind::ModeReader);
    assert_eq!(mode_reader.1, 201);

    let mut quit_args = test_fetch_args();
    quit_args.request = FetchRequestKind::Quit;
    quit_args.message_id = None;
    let quit = exchange(&quit_args, b"QUIT\r\n", QUIT_RESPONSE.as_bytes());
    assert_eq!(quit.0, RequestKind::Quit);
    assert_eq!(quit.1, 205);
}

#[test]
fn fetch_response_supports_list_subcommand_request_kinds() {
    let mut list_active_args = test_fetch_args();
    list_active_args.request = FetchRequestKind::ListActive;
    list_active_args.message_id = None;
    let list_active = exchange(&list_active_args, b"LIST ACTIVE\r\n", LIST_RESPONSE.as_bytes());
    assert_eq!(list_active.0, RequestKind::ListActive);
    assert_eq!(list_active.1, 215);

    let mut list_active_times_args = test_fetch_args();
    list_active_times_args.request = FetchRequestKind::ListActiveTimes;
    list_active_times_args.message_id = None;
    let list_active_times = exchange(
        &list_active_times_args,
        b"LIST ACTIVE.TIMES\r\n",
        LIST_ACTIVE_TIMES_RESPONSE.as_bytes(),
    );
    assert_eq!(list_active_times.0, RequestKind::ListActiveTimes);
    assert_eq!(list_active_times.1, 215);

    let mut list_active_times_wildmat_args = test_fetch_args();
    list_active_times_wildmat_args.request = FetchRequestKind::ListActiveTimes;
    list_active_times_wildmat_args.message_id = None;
    list_active_times_wildmat_args.wildmat = Some("comp.lang.*".to_string());
    let list_active_times_wildmat = exchange(
        &list_active_times_wildmat_args,
        b"LIST ACTIVE.TIMES comp.lang.*\r\n",
        LIST_ACTIVE_TIMES_RESPONSE.as_bytes(),
    );
    assert_eq!(
        list_active_times_wildmat.0,
        RequestKind::ListActiveTimes
    );
    assert_eq!(list_active_times_wildmat.1, 215);

    let mut list_newsgroups_args = test_fetch_args();
    list_newsgroups_args.request = FetchRequestKind::ListNewsgroups;
    list_newsgroups_args.message_id = None;
    let list_newsgroups = exchange(
        &list_newsgroups_args,
        b"LIST NEWSGROUPS\r\n",
        LIST_NEWSGROUPS_RESPONSE.as_bytes(),
    );
    assert_eq!(list_newsgroups.0, RequestKind::ListNewsgroups);
    assert_eq!(list_newsgroups.1, 215);

    let mut list_newsgroups_wildmat_args = test_fetch_args();
    list_newsgroups_wildmat_args.request = FetchRequestKind::ListNewsgroups;
    list_newsgroups_wildmat_args.message_id = None;
    list_newsgroups_wildmat_args.wildmat = Some("comp.lang.*".to_string());
    let list_newsgroups_wildmat = exchange(
        &list_newsgroups_wildmat_args,
        b"LIST NEWSGROUPS comp.lang.*\r\n",
        LIST_NEWSGROUPS_RESPONSE.as_bytes(),
    );
    assert_eq!(list_newsgroups_wildmat.0, RequestKind::ListNewsgroups);
    assert_eq!(list_newsgroups_wildmat.1, 215);

    let mut list_overview_fmt_args = test_fetch_args();
    list_overview_fmt_args.request = FetchRequestKind::ListOverviewFmt;
    list_overview_fmt_args.message_id = None;
    let list_overview_fmt = exchange(
        &list_overview_fmt_args,
        b"LIST OVERVIEW.FMT\r\n",
        LIST_OVERVIEW_FMT_RESPONSE.as_bytes(),
    );
    assert_eq!(list_overview_fmt.0, RequestKind::ListOverviewFmt);
    assert_eq!(list_overview_fmt.1, 215);

    let mut list_headers_args = test_fetch_args();
    list_headers_args.request = FetchRequestKind::ListHeaders;
    list_headers_args.message_id = None;
    let list_headers = exchange(
        &list_headers_args,
        b"LIST HEADERS\r\n",
        LIST_HEADERS_RESPONSE.as_bytes(),
    );
    assert_eq!(list_headers.0, RequestKind::ListHeaders);
    assert_eq!(list_headers.1, 215);

    let mut list_distrib_pats_args = test_fetch_args();
    list_distrib_pats_args.request = FetchRequestKind::ListDistribPats;
    list_distrib_pats_args.message_id = None;
    let list_distrib_pats = exchange(
        &list_distrib_pats_args,
        b"LIST DISTRIB.PATS\r\n",
        LIST_DISTRIB_PATS_RESPONSE.as_bytes(),
    );
    assert_eq!(list_distrib_pats.0, RequestKind::ListDistribPats);
    assert_eq!(list_distrib_pats.1, 215);
}

#[test]
fn fetch_response_supports_header_query_request_kinds() {
    let mut hdr_range_args = test_fetch_args();
    hdr_range_args.request = FetchRequestKind::Hdr;
    hdr_range_args.message_id = None;
    hdr_range_args.header = Some("Subject".to_string());
    hdr_range_args.selector = Some("1-10".to_string());
    let hdr_range = exchange(&hdr_range_args, b"HDR Subject 1-10\r\n", HDR_RESPONSE.as_bytes());
    assert_eq!(hdr_range.0, RequestKind::Hdr);
    assert_eq!(hdr_range.1, 225);

    let mut hdr_message_id_args = test_fetch_args();
    hdr_message_id_args.request = FetchRequestKind::Hdr;
    hdr_message_id_args.message_id = None;
    hdr_message_id_args.header = Some("Message-ID".to_string());
    hdr_message_id_args.selector = Some("<headers@test>".to_string());
    let hdr_message_id = exchange(
        &hdr_message_id_args,
        b"HDR Message-ID <headers@test>\r\n",
        HDR_RESPONSE.as_bytes(),
    );
    assert_eq!(hdr_message_id.0, RequestKind::Hdr);
    assert_eq!(hdr_message_id.1, 225);

    let mut xhdr_range_args = test_fetch_args();
    xhdr_range_args.request = FetchRequestKind::Xhdr;
    xhdr_range_args.message_id = None;
    xhdr_range_args.header = Some("Subject".to_string());
    xhdr_range_args.selector = Some("1-10".to_string());
    let xhdr_range = exchange(
        &xhdr_range_args,
        b"XHDR Subject 1-10\r\n",
        XHDR_RESPONSE.as_bytes(),
    );
    assert_eq!(xhdr_range.0, RequestKind::Xhdr);
    assert_eq!(xhdr_range.1, 221);

    let mut xhdr_message_id_args = test_fetch_args();
    xhdr_message_id_args.request = FetchRequestKind::Xhdr;
    xhdr_message_id_args.message_id = None;
    xhdr_message_id_args.header = Some("Message-ID".to_string());
    xhdr_message_id_args.selector = Some("<headers@test>".to_string());
    let xhdr_message_id = exchange(
        &xhdr_message_id_args,
        b"XHDR Message-ID <headers@test>\r\n",
        XHDR_RESPONSE.as_bytes(),
    );
    assert_eq!(xhdr_message_id.0, RequestKind::Xhdr);
    assert_eq!(xhdr_message_id.1, 221);

    let mut hdr_metadata_args = test_fetch_args();
    hdr_metadata_args.request = FetchRequestKind::Hdr;
    hdr_metadata_args.message_id = None;
    hdr_metadata_args.header = Some(":bytes".to_string());
    hdr_metadata_args.selector = Some("1".to_string());
    let hdr_metadata = exchange(&hdr_metadata_args, b"HDR :bytes 1\r\n", HDR_RESPONSE.as_bytes());
    assert_eq!(hdr_metadata.0, RequestKind::Hdr);
    assert_eq!(hdr_metadata.1, 225);
}

#[test]
fn fetch_response_supports_overview_request_kinds() {
    let mut over_range_args = test_fetch_args();
    over_range_args.request = FetchRequestKind::Over;
    over_range_args.message_id = None;
    over_range_args.selector = Some("1-10".to_string());
    let over_range = exchange(&over_range_args, b"OVER 1-10\r\n", OVER_RESPONSE.as_bytes());
    assert_eq!(over_range.0, RequestKind::Over);
    assert_eq!(over_range.1, 224);

    let mut over_message_id_args = test_fetch_args();
    over_message_id_args.request = FetchRequestKind::Over;
    over_message_id_args.message_id = None;
    over_message_id_args.selector = Some("<overview@test>".to_string());
    let over_message_id = exchange(
        &over_message_id_args,
        b"OVER <overview@test>\r\n",
        OVER_RESPONSE.as_bytes(),
    );
    assert_eq!(over_message_id.0, RequestKind::Over);
    assert_eq!(over_message_id.1, 224);

    let mut xover_range_args = test_fetch_args();
    xover_range_args.request = FetchRequestKind::Xover;
    xover_range_args.message_id = None;
    xover_range_args.selector = Some("1-10".to_string());
    let xover_range = exchange(&xover_range_args, b"XOVER 1-10\r\n", XOVER_RESPONSE.as_bytes());
    assert_eq!(xover_range.0, RequestKind::Xover);
    assert_eq!(xover_range.1, 224);

    let mut xover_message_id_args = test_fetch_args();
    xover_message_id_args.request = FetchRequestKind::Xover;
    xover_message_id_args.message_id = None;
    xover_message_id_args.selector = Some("<overview@test>".to_string());
    let xover_message_id = exchange(
        &xover_message_id_args,
        b"XOVER <overview@test>\r\n",
        XOVER_RESPONSE.as_bytes(),
    );
    assert_eq!(xover_message_id.0, RequestKind::Xover);
    assert_eq!(xover_message_id.1, 224);
}

#[test]
fn fetch_response_supports_group_navigation_and_discovery_request_kinds() {
    let mut group_args = test_fetch_args();
    group_args.request = FetchRequestKind::Group;
    group_args.message_id = None;
    group_args.group = Some("alt.test".to_string());
    let group = exchange(&group_args, b"GROUP alt.test\r\n", GROUP_RESPONSE.as_bytes());
    assert_eq!(group.0, RequestKind::Group);
    assert_eq!(group.1, 211);

    let mut listgroup_args = test_fetch_args();
    listgroup_args.request = FetchRequestKind::Listgroup;
    listgroup_args.message_id = None;
    listgroup_args.group = None;
    let listgroup = exchange(&listgroup_args, b"LISTGROUP\r\n", LISTGROUP_RESPONSE.as_bytes());
    assert_eq!(listgroup.0, RequestKind::ListGroup);
    assert_eq!(listgroup.1, 211);

    let mut listgroup_range_args = test_fetch_args();
    listgroup_range_args.request = FetchRequestKind::Listgroup;
    listgroup_range_args.message_id = None;
    listgroup_range_args.group = None;
    listgroup_range_args.selector = Some("1-".to_string());
    let listgroup_range = exchange(
        &listgroup_range_args,
        b"LISTGROUP 1-\r\n",
        LISTGROUP_RESPONSE.as_bytes(),
    );
    assert_eq!(listgroup_range.0, RequestKind::ListGroup);
    assert_eq!(listgroup_range.1, 211);

    let mut listgroup_group_args = test_fetch_args();
    listgroup_group_args.request = FetchRequestKind::Listgroup;
    listgroup_group_args.message_id = None;
    listgroup_group_args.group = Some("alt.test".to_string());
    listgroup_group_args.selector = Some("1-10".to_string());
    let listgroup_group = exchange(
        &listgroup_group_args,
        b"LISTGROUP alt.test 1-10\r\n",
        LISTGROUP_RESPONSE.as_bytes(),
    );
    assert_eq!(listgroup_group.0, RequestKind::ListGroup);
    assert_eq!(listgroup_group.1, 211);

    let mut last_args = test_fetch_args();
    last_args.request = FetchRequestKind::Last;
    last_args.message_id = None;
    let last = exchange(&last_args, b"LAST\r\n", LAST_RESPONSE.as_bytes());
    assert_eq!(last.0, RequestKind::Last);
    assert_eq!(last.1, 223);

    let mut next_args = test_fetch_args();
    next_args.request = FetchRequestKind::Next;
    next_args.message_id = None;
    let next = exchange(&next_args, b"NEXT\r\n", NEXT_RESPONSE.as_bytes());
    assert_eq!(next.0, RequestKind::Next);
    assert_eq!(next.1, 223);

    let mut newgroups_args = test_fetch_args();
    newgroups_args.request = FetchRequestKind::Newgroups;
    newgroups_args.message_id = None;
    newgroups_args.date = Some("20260101".to_string());
    newgroups_args.time = Some("000000".to_string());
    let newgroups = exchange(
        &newgroups_args,
        b"NEWGROUPS 20260101 000000 GMT\r\n",
        NEWGROUPS_RESPONSE.as_bytes(),
    );
    assert_eq!(newgroups.0, RequestKind::NewGroups);
    assert_eq!(newgroups.1, 231);

    let mut newnews_args = test_fetch_args();
    newnews_args.request = FetchRequestKind::Newnews;
    newnews_args.message_id = None;
    newnews_args.wildmat = Some("comp.lang.*,alt.test".to_string());
    newnews_args.date = Some("20260101".to_string());
    newnews_args.time = Some("000000".to_string());
    newnews_args.gmt = false;
    let newnews = exchange(
        &newnews_args,
        b"NEWNEWS comp.lang.*,alt.test 20260101 000000\r\n",
        NEWNEWS_RESPONSE.as_bytes(),
    );
    assert_eq!(newnews.0, RequestKind::NewNews);
    assert_eq!(newnews.1, 230);
}

#[test]
fn fetch_response_supports_remaining_rfc_request_kinds() {
    let mut post_args = test_fetch_args();
    post_args.request = FetchRequestKind::Post;
    post_args.message_id = None;
    let post = exchange(&post_args, b"POST\r\n", POST_RESPONSE.as_bytes());
    assert_eq!(post.0, RequestKind::Post);
    assert_eq!(post.1, 340);

    let mut ihave_args = test_fetch_args();
    ihave_args.request = FetchRequestKind::Ihave;
    ihave_args.message_id = Some("ihave@test".to_string());
    let ihave = exchange(&ihave_args, b"IHAVE <ihave@test>\r\n", IHAVE_RESPONSE.as_bytes());
    assert_eq!(ihave.0, RequestKind::Ihave);
    assert_eq!(ihave.1, 335);

    let mut check_args = test_fetch_args();
    check_args.request = FetchRequestKind::Check;
    check_args.message_id = Some("check@test".to_string());
    let check = exchange(&check_args, b"CHECK <check@test>\r\n", CHECK_RESPONSE.as_bytes());
    assert_eq!(check.0, RequestKind::Check);
    assert_eq!(check.1, 238);

    let mut takethis_args = test_fetch_args();
    takethis_args.request = FetchRequestKind::Takethis;
    takethis_args.message_id = Some("take@test".to_string());
    takethis_args.article_body = Some("Subject: Taken\r\n\r\n.dot line\r\npayload".to_string());
    let takethis = exchange(
        &takethis_args,
        b"TAKETHIS <take@test>\r\nSubject: Taken\r\n\r\n..dot line\r\npayload\r\n.\r\n",
        TAKETHIS_RESPONSE.as_bytes(),
    );
    assert_eq!(takethis.0, RequestKind::TakeThis);
    assert_eq!(takethis.1, 239);

    let mut auth_user_args = test_fetch_args();
    auth_user_args.request = FetchRequestKind::AuthinfoUser;
    auth_user_args.message_id = None;
    auth_user_args.auth_value = Some("bench-user".to_string());
    let auth_user = exchange(
        &auth_user_args,
        b"AUTHINFO USER bench-user\r\n",
        AUTHINFO_RESPONSE.as_bytes(),
    );
    assert_eq!(auth_user.0, RequestKind::AuthInfoUser);
    assert_eq!(auth_user.1, 281);

    let mut auth_pass_args = test_fetch_args();
    auth_pass_args.request = FetchRequestKind::AuthinfoPass;
    auth_pass_args.message_id = None;
    auth_pass_args.auth_value = Some("bench-pass".to_string());
    let auth_pass = exchange(
        &auth_pass_args,
        b"AUTHINFO PASS bench-pass\r\n",
        AUTHINFO_RESPONSE.as_bytes(),
    );
    assert_eq!(auth_pass.0, RequestKind::AuthInfoPass);
    assert_eq!(auth_pass.1, 281);

    let mut starttls_args = test_fetch_args();
    starttls_args.request = FetchRequestKind::Starttls;
    starttls_args.message_id = None;
    let starttls = exchange(&starttls_args, b"STARTTLS\r\n", STARTTLS_RESPONSE.as_bytes());
    assert_eq!(starttls.0, RequestKind::StartTls);
    assert_eq!(starttls.1, 382);
}

#[test]
fn fetch_response_rejects_missing_message_id_for_message_id_only_requests() {
    let mut args = test_fetch_args();
    args.request = FetchRequestKind::Ihave;
    args.message_id = None;
    assert_eq!(fetch_request(&args).unwrap_err(), ClientError::MissingMessageId);
}

#[test]
fn fetch_response_rejects_range_selector_for_article_style_requests() {
    let mut args = test_fetch_args();
    args.message_id = None;
    args.selector = Some("1-10".to_string());

    assert_eq!(fetch_request(&args).unwrap_err(), ClientError::InvalidArticleSelector);
}

#[test]
fn fetch_response_supports_article_request_current_and_numeric_selector() {
    let mut current_args = test_fetch_args();
    current_args.message_id = None;
    current_args.selector = None;
    let current = exchange(
        &current_args,
        b"ARTICLE\r\n",
        b"220 1 <article.1@nntpbench.local> article follows\r\nSubject: Current\r\n\r\nbody\r\n.\r\n",
    );
    assert_eq!(current.0, RequestKind::Article);
    assert_eq!(current.1, 220);

    let mut numeric_args = test_fetch_args();
    numeric_args.request = FetchRequestKind::Body;
    numeric_args.message_id = None;
    numeric_args.selector = Some("42".to_string());
    let numeric = exchange(
        &numeric_args,
        b"BODY 42\r\n",
        b"222 42 <article.42@nntpbench.local> body follows\r\nbody\r\n.\r\n",
    );
    assert_eq!(numeric.0, RequestKind::Body);
    assert_eq!(numeric.1, 222);
}

#[test]
fn fetch_response_rejects_missing_header_query_arguments() {
    let mut args = test_fetch_args();
    args.request = FetchRequestKind::Hdr;
    args.message_id = None;
    args.header = None;
    args.selector = Some("1-10".to_string());
    assert_eq!(fetch_request(&args).unwrap_err(), ClientError::MissingHeaderName);

    args.header = Some("Subject".to_string());
    args.selector = None;
    assert_eq!(fetch_request(&args).unwrap_err(), ClientError::MissingArticleSelector);
}

#[test]
fn fetch_response_rejects_missing_overview_selector() {
    let mut args = test_fetch_args();
    args.request = FetchRequestKind::Over;
    args.message_id = None;
    args.selector = None;

    assert_eq!(fetch_request(&args).unwrap_err(), ClientError::MissingArticleSelector);
}

#[test]
fn fetch_response_rejects_missing_group_argument() {
    let mut args = test_fetch_args();
    args.request = FetchRequestKind::Group;
    args.message_id = None;
    args.group = None;

    assert_eq!(fetch_request(&args).unwrap_err(), ClientError::MissingGroupName);
}

#[test]
fn fetch_response_rejects_invalid_listgroup_range() {
    let mut args = test_fetch_args();
    args.request = FetchRequestKind::Listgroup;
    args.message_id = None;
    args.group = Some("alt.test".to_string());
    args.selector = Some("-10".to_string());

    assert_eq!(fetch_request(&args).unwrap_err(), ClientError::InvalidListGroupRange);
}

#[test]
fn fetch_response_rejects_missing_discovery_arguments() {
    let mut newgroups_args = test_fetch_args();
    newgroups_args.request = FetchRequestKind::Newgroups;
    newgroups_args.message_id = None;
    newgroups_args.date = None;
    newgroups_args.time = Some("000000".to_string());
    assert_eq!(fetch_request(&newgroups_args).unwrap_err(), ClientError::MissingDate);

    newgroups_args.date = Some("20260101".to_string());
    newgroups_args.time = None;
    assert_eq!(fetch_request(&newgroups_args).unwrap_err(), ClientError::MissingTime);

    let mut newnews_args = test_fetch_args();
    newnews_args.request = FetchRequestKind::Newnews;
    newnews_args.message_id = None;
    newnews_args.wildmat = None;
    newnews_args.date = Some("20260101".to_string());
    newnews_args.time = Some("000000".to_string());
    assert_eq!(fetch_request(&newnews_args).unwrap_err(), ClientError::MissingWildmat);
}

#[test]
fn fetch_response_rejects_missing_remaining_rfc_arguments() {
    let mut takethis_args = test_fetch_args();
    takethis_args.request = FetchRequestKind::Takethis;
    takethis_args.article_body = None;
    assert_eq!(fetch_request(&takethis_args).unwrap_err(), ClientError::MissingArticleBody);

    let mut auth_args = test_fetch_args();
    auth_args.request = FetchRequestKind::AuthinfoUser;
    auth_args.message_id = None;
    auth_args.auth_value = None;
    assert_eq!(fetch_request(&auth_args).unwrap_err(), ClientError::MissingAuthInfoValue);

    auth_args.auth_value = Some("bench user".to_string());
    assert_eq!(fetch_request(&auth_args).unwrap_err(), ClientError::InvalidAuthInfoValue);
}

#[test]
fn fetch_options_stay_within_their_bounds() {
    let mut args = test_fetch_args();
    args.read_buffer_bytes = 1;
    args.pipeline_depth = 0;
    assert_eq!(
        fetch_options(&args),
        ClientOptions { read_buffer_bytes: 5, pipeline_depth: 1 }
    );
    args.read_buffer_bytes = 64;
    args.pipeline_depth = 5000;
    assert_eq!(
        fetch_options(&args),
        ClientOptions { read_buffer_bytes: 64, pipeline_depth: 4096 }
    );
}

#[test]
fn fetch_request_says_what_is_wrong_with_a_value() {
    let mut args = test_fetch_args();
    args.message_id = None;

    args.request = FetchRequestKind::Hdr;
    args.header = Some("Bad Header".to_string());
    args.selector = Some("1".to_string());
    assert_eq!(fetch_request(&args).unwrap_err(), ClientError::InvalidHeaderName);
    args.header = Some("Subject".to_string());
    args.selector = Some("x".to_string());
    assert_eq!(fetch_request(&args).unwrap_err(), ClientError::InvalidArticleSelector);

    args.request = FetchRequestKind::Group;
    args.group = Some("alt!test".to_string());
    assert_eq!(fetch_request(&args).unwrap_err(), ClientError::InvalidGroupName);

    args.request = FetchRequestKind::Newnews;
    args.wildmat = Some("alt[".to_string());
    args.date = Some("20260101".to_string());
    args.time = Some("000000".to_string());
    assert_eq!(fetch_request(&args).unwrap_err(), ClientError::InvalidWildmat);
    args.wildmat = Some("alt.*".to_string());
    args.date = Some("20260230".to_string());
    assert_eq!(fetch_request(&args).unwrap_err(), ClientError::InvalidDate);
    args.date = Some("20260101".to_string());
    args.time = Some("240000".to_string());
    assert_eq!(fetch_request(&args).unwrap_err(), ClientError::InvalidTime);
}

#[test]
fn requests_know_their_article_and_message_id() {
    let mut args = test_fetch_args();
    let request = fetch_request(&args).unwrap();
    assert!(request.article_ref().is_some());
    assert_eq!(request.message_id().unwrap().as_str(), "<bench@test>");
    args.request = FetchRequestKind::Check;
    let request = fetch_request(&args).unwrap();
    assert!(request.article_ref().is_none());
    assert_eq!(request.message_id().unwrap().as_str(), "<bench@test>");
    args.request = FetchRequestKind::Date;
    let request = fetch_request(&args).unwrap();
    assert!(request.message_id().is_none());
}

#[test]
fn responses_end_where_their_kind_says() {
    let listgroup = b"211 1 1 1 alt.test\r\n1\r\n.\r\n";
    assert_eq!(
        response_frame_end(RequestKind::ListGroup, listgroup),
        FrameStatus::CompleteAt(listgroup.len())
    );
    assert_eq!(
        response_frame_end(RequestKind::Group, listgroup),
        FrameStatus::CompleteAt(b"211 1 1 1 alt.test\r\n".len())
    );
    assert_eq!(
        response_frame_end(RequestKind::Body, b"222 1 <a@b> body\r\nhalf"),
        FrameStatus::NeedMore
    );
    assert_eq!(response_frame_end(RequestKind::Body, b"222body\r\n.\r\n"), FrameStatus::Invalid);
    assert_eq!(response_frame_end(RequestKind::Date, &[b'1'; 600]), FrameStatus::TooLong);
    assert_eq!(response_status(b"430 none\r\n"), Some(430));
    assert_eq!(response_status(b"43 none\r\n"), None);
}
