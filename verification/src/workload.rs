//! The requests that a client sends to load a server.
use crate::bytes;
use crate::bytes::decimal_bytes;
use crate::fetch::ClientError;
use crate::generate;
use crate::message_id;
use crate::message_id::MessageId;
use crate::request;
use crate::request::{ArticleRef, Request};
use crate::request_line::RequestKind;
use crate::responses::CRLF;
use crate::text::{decode, joined_within};
use crate::values;
use crate::values::MAX_ARTICLE_NUMBER;
use vstd::prelude::*;
use vstd::string::StringSliceAdditionalSpecFns;

verus! {

#[derive(Debug, Clone, Copy, PartialEq, Eq, Structural)]
pub enum ClientCommandMix {
    Article,
    Body,
    Alternate,
}

/// The command for a number: under `Alternate` every even number asks for a body, every odd one
/// for an article.
pub open spec fn command_for(id: u64, mix: ClientCommandMix) -> ClientCommandMix {
    match mix {
        ClientCommandMix::Alternate => if id % 2 == 0 {
            ClientCommandMix::Body
        } else {
            ClientCommandMix::Article
        },
        _ => mix,
    }
}

pub fn client_command_kind(id: u64, mix: ClientCommandMix) -> (kind: ClientCommandMix)
    ensures
        kind == command_for(id, mix),
        kind != ClientCommandMix::Alternate,
{
    match mix {
        ClientCommandMix::Alternate => if id.is_multiple_of(2) {
            ClientCommandMix::Body
        } else {
            ClientCommandMix::Article
        },
        ClientCommandMix::Article => ClientCommandMix::Article,
        ClientCommandMix::Body => ClientCommandMix::Body,
    }
}

/// The commands of two numbers in a row differ under `Alternate` and are the same otherwise.
pub proof fn law_alternate_alternates(id: u64, mix: ClientCommandMix)
    ensures
        command_for(id, mix) != command_for(id.wrapping_add(1), mix) <==> mix
            == ClientCommandMix::Alternate,
{
}

/// The kind of request for a command.
pub open spec fn request_kind_of(command: ClientCommandMix) -> RequestKind {
    if command == ClientCommandMix::Article {
        RequestKind::Article
    } else {
        RequestKind::Body
    }
}

pub fn request_kind_for_client_command(command_id: u64, mix: ClientCommandMix) -> (kind:
    RequestKind)
    ensures
        kind == request_kind_of(command_for(command_id, mix)),
{
    match client_command_kind(command_id, mix) {
        ClientCommandMix::Article => RequestKind::Article,
        _ => RequestKind::Body,
    }
}

/// Message-ids that the requests go through. There is at least one.
#[derive(Debug)]
pub struct SegmentSet {
    pub ids: Vec<MessageId>,
}

impl View for SegmentSet {
    type V = Seq<Seq<u8>>;

    open spec fn view(&self) -> Seq<Seq<u8>> {
        Seq::new(self.ids@.len(), |i: int| self.ids@[i]@)
    }
}

impl SegmentSet {
    pub open spec fn wf(&self) -> bool {
        self.ids@.len() > 0
    }
}

/// The place among `len` message-ids that a request takes: clients take turns, each starting at
/// its own index. The sum wraps around.
pub open spec fn segment_index(
    client_index: usize,
    total_clients: usize,
    request_index: u64,
    len: usize,
) -> usize {
    client_index.wrapping_add((request_index as usize).wrapping_mul(total_clients)) % len
}

pub fn segment_ref_for_request(
    segments: &SegmentSet,
    client_index: usize,
    total_clients: usize,
    request_index: u64,
) -> (id: &MessageId)
    requires
        segments.wf(),
    ensures
        id@ == segments@[segment_index(
            client_index,
            total_clients,
            request_index,
            segments.ids.len(),
        ) as int],
{
    let index: usize = client_index.wrapping_add(
        (request_index as usize).wrapping_mul(total_clients),
    ) % segments.ids.len();
    &segments.ids[index]
}

/// The message-id of a request without a number or a segment.
pub open spec fn synthetic_id(command_id: u64) -> Seq<u8> {
    "<bench.".spec_bytes() + bytes::decimal(command_id as nat) + "@nntpbench.local>".spec_bytes()
}

/// It is a message-id, and fits its buffer.
proof fn lemma_synthetic_id(command_id: u64)
    ensures
        values::is_message_id(synthetic_id(command_id)),
        "<bench.".spec_bytes().len() == 7,
        "@nntpbench.local>".spec_bytes().len() == 17,
        1 <= bytes::decimal(command_id as nat).len() <= 20,
{
    reveal_strlit("<bench.");
    assert("<bench.".is_ascii());
    bytes::lemma_decimal_len(command_id as nat);
    generate::lemma_numbered_message_id("<bench.", command_id as nat);
}

fn synthetic_message_id(command_id: u64) -> (id: Result<MessageId, ClientError>)
    ensures
        id matches Ok(found) && found@ == synthetic_id(command_id),
{
    let digits: Vec<u8> = decimal_bytes(command_id);
    proof {
        lemma_synthetic_id(command_id);
        bytes::lemma_decimal(command_id as nat);
        assert forall|i: int| 0 <= i < digits@.len() implies #[trigger] digits@[i] < 0x80 by {
            assert(bytes::is_digit(digits@[i]));
        }
        values::lemma_ascii_is_utf8(digits@);
    }
    if let Some(number) = decode(digits.as_slice()) {
        if let Some(start) = joined_within::<64>("<bench.", number) {
            proof {
                message_id::lemma_encode_concat("<bench."@, number@);
                message_id::lemma_encode_concat(start@, "@nntpbench.local>"@);
            }
            if let Some(text) = joined_within::<64>(start.as_str(), "@nntpbench.local>") {
                if let Ok(id) = MessageId::from_shared(text) {
                    return Ok(id);
                }
            }
        }
    }
    Err(ClientError::InvalidMessageId)
}

/// What a request picks its article by: a segment where there are some, the number where it is
/// an article number, and a message-id made of the number otherwise.
pub open spec fn workload_selector(
    command_id: u64,
    request_index: u64,
    segments: Option<Seq<Seq<u8>>>,
    client_index: usize,
    total_clients: usize,
) -> Seq<u8> {
    match segments {
        Some(ids) => ids[segment_index(
            client_index,
            total_clients,
            request_index,
            ids.len() as usize,
        ) as int],
        None => if 1 <= command_id <= MAX_ARTICLE_NUMBER {
            bytes::decimal(command_id as nat)
        } else {
            synthetic_id(command_id)
        },
    }
}

/// The line of a request.
pub open spec fn workload_line(command: ClientCommandMix, selector: Seq<u8>) -> Seq<u8> {
    (if command == ClientCommandMix::Article {
        "ARTICLE "
    } else {
        "BODY "
    }).spec_bytes() + selector + CRLF.spec_bytes()
}

pub open spec fn segments_view(segments: Option<&SegmentSet>) -> Option<Seq<Seq<u8>>> {
    match segments {
        Some(set) => Some(set@),
        None => None,
    }
}

fn append_client_request(buffer: &mut Vec<u8>, kind: ClientCommandMix, selector: &[u8])
    requires
        kind != ClientCommandMix::Alternate,
    ensures
        final(buffer)@ == old(buffer)@ + workload_line(kind, selector@),
{
    let ghost before = buffer@;
    match kind {
        ClientCommandMix::Article => buffer.extend_from_slice("ARTICLE ".as_bytes()),
        _ => buffer.extend_from_slice("BODY ".as_bytes()),
    }
    buffer.extend_from_slice(selector);
    buffer.extend_from_slice(CRLF.as_bytes());
    assert(buffer@ =~= before + workload_line(kind, selector@));
}

fn append_client_number_request(buffer: &mut Vec<u8>, kind: ClientCommandMix, number: u64) -> (done:
    Result<(), ClientError>)
    requires
        kind != ClientCommandMix::Alternate,
    ensures
        done is Ok,
        final(buffer)@ == old(buffer)@ + workload_line(kind, bytes::decimal(number as nat)),
{
    let digits: Vec<u8> = decimal_bytes(number);
    append_client_request(buffer, kind, digits.as_slice());
    Ok(())
}

/// Appends the next request of the workload. It never fails.
pub fn append_client_workload_request(
    buffer: &mut Vec<u8>,
    command_id: u64,
    request_index: u64,
    mix: ClientCommandMix,
    segments: Option<&SegmentSet>,
    client_index: usize,
    total_clients: usize,
) -> (kind: Result<RequestKind, ClientError>)
    requires
        segments matches Some(set) ==> set.wf(),
    ensures
        kind matches Ok(found) && found == request_kind_of(command_for(command_id, mix)),
        final(buffer)@ == old(buffer)@ + workload_line(
            command_for(command_id, mix),
            workload_selector(
                command_id,
                request_index,
                segments_view(segments),
                client_index,
                total_clients,
            ),
        ),
{
    let command: ClientCommandMix = client_command_kind(command_id, mix);
    let kind: RequestKind = request_kind_for_client_command(command_id, mix);
    if let Some(set) = segments {
        let id: &MessageId = segment_ref_for_request(
            set,
            client_index,
            total_clients,
            request_index,
        );
        append_client_request(buffer, command, id.as_bytes());
        return Ok(kind);
    }
    if 1 <= command_id && command_id <= MAX_ARTICLE_NUMBER {
        append_client_number_request(buffer, command, command_id)?;
        return Ok(kind);
    }
    match synthetic_message_id(command_id) {
        Ok(id) => {
            append_client_request(buffer, command, id.as_bytes());
            Ok(kind)
        },
        Err(error) => Err(error),
    }
}

/// The next request of the workload. It never fails, and its line is the one that
/// `append_client_workload_request` appends.
pub fn client_request_for_command(
    command_id: u64,
    request_index: u64,
    mix: ClientCommandMix,
    segments: Option<&SegmentSet>,
    client_index: usize,
    total_clients: usize,
) -> (sent: Result<Request, ClientError>)
    requires
        segments matches Some(set) ==> set.wf(),
    ensures
        sent matches Ok(request) && {
            &&& request::is_valid(request)
            &&& request::kind_of(request) == request_kind_of(command_for(command_id, mix))
            &&& request::args_of(request) == seq![
                workload_selector(
                    command_id,
                    request_index,
                    segments_view(segments),
                    client_index,
                    total_clients,
                ),
            ]
            &&& segments is None && 1 <= command_id <= MAX_ARTICLE_NUMBER ==> picks_number(
                request,
                command_id,
            )
        },
{
    let article_ref: ArticleRef = match segments {
        Some(set) => {
            let id: &MessageId = segment_ref_for_request(
                set,
                client_index,
                total_clients,
                request_index,
            );
            let bytes: &[u8] = id.as_bytes();
            assert(values::is_message_id(bytes@));
            ArticleRef::MessageId(id.clone())
        },
        None => if 1 <= command_id && command_id <= MAX_ARTICLE_NUMBER {
            ArticleRef::Number(command_id)
        } else {
            proof {
                lemma_synthetic_id(command_id);
            }
            match synthetic_message_id(command_id) {
                Ok(id) => ArticleRef::MessageId(id),
                Err(error) => {
                    return Err(error);
                },
            }
        },
    };
    match client_command_kind(command_id, mix) {
        ClientCommandMix::Article => Ok(Request::Article { article_ref }),
        _ => Ok(Request::Body { article_ref }),
    }
}

/// The request picks its article by this number.
pub open spec fn picks_number(sent: Request, number: u64) -> bool {
    match sent {
        Request::Article { article_ref } | Request::Body { article_ref } => article_ref
            == ArticleRef::Number(number),
        _ => false,
    }
}

/// The request for a number, without segments.
pub fn bench_client_request_for_command(
    command_id: u64,
    request_index: u64,
    mix: ClientCommandMix,
) -> (sent: Result<Request, ClientError>)
    ensures
        sent matches Ok(request) && {
            &&& request::is_valid(request)
            &&& request::kind_of(request) == request_kind_of(command_for(command_id, mix))
            &&& request::args_of(request) == seq![
                workload_selector(command_id, request_index, None, 0, 1),
            ]
            &&& 1 <= command_id <= MAX_ARTICLE_NUMBER ==> picks_number(request, command_id)
        },
{
    client_request_for_command(command_id, request_index, mix, None, 0, 1)
}

/// The request for a segment.
pub fn bench_client_segment_request_for_command(
    segment_message_id: MessageId,
    mix: ClientCommandMix,
) -> (sent: Result<Request, ClientError>)
    requires
        mix != ClientCommandMix::Alternate,
    ensures
        sent == Ok::<Request, ClientError>(
            if mix == ClientCommandMix::Article {
                Request::Article { article_ref: ArticleRef::MessageId(segment_message_id) }
            } else {
                Request::Body { article_ref: ArticleRef::MessageId(segment_message_id) }
            },
        ),
{
    match mix {
        ClientCommandMix::Article => Ok(
            Request::Article { article_ref: ArticleRef::MessageId(segment_message_id) },
        ),
        _ => Ok(Request::Body { article_ref: ArticleRef::MessageId(segment_message_id) }),
    }
}

/// Both ways of making a request of the workload send the same bytes.
pub proof fn law_workload_line_is_wire(
    sent: Request,
    command: ClientCommandMix,
    selector: Seq<u8>,
)
    requires
        command != ClientCommandMix::Alternate,
        request::kind_of(sent) == request_kind_of(command),
        request::args_of(sent) == seq![selector],
    ensures
        request::wire_of(sent) == workload_line(command, selector),
{
    reveal_strlit("ARTICLE");
    reveal_strlit("ARTICLE ");
    reveal_strlit("BODY");
    reveal_strlit("BODY ");
    assert("ARTICLE".is_ascii());
    assert("ARTICLE ".is_ascii());
    assert("BODY".is_ascii());
    assert("BODY ".is_ascii());
    let args = request::args_of(sent);
    assert(args.drop_first() =~= Seq::<Seq<u8>>::empty());
    assert(request::spaced(args.drop_first()) =~= Seq::<u8>::empty());
    assert(request::spaced(args) =~= seq![bytes::SPACE] + selector);
    assert("ARTICLE ".spec_bytes() =~= "ARTICLE".spec_bytes() + seq![bytes::SPACE]);
    assert("BODY ".spec_bytes() =~= "BODY".spec_bytes() + seq![bytes::SPACE]);
    assert(request::wire_of(sent) =~= workload_line(command, selector));
}

/// The share of one connection: as even as can be, the first ones getting one more.
pub open spec fn share(total: int, connections: int, index: int) -> int {
    total / connections + (if index < total % connections {
        1int
    } else {
        0int
    })
}

/// A share is a part of the whole.
pub proof fn lemma_share_fits(total: int, connections: int, index: int)
    requires
        total >= 0,
        connections > 0,
        index >= 0,
    ensures
        0 <= share(total, connections, index) <= total,
{
    assert(0 <= total / connections <= total) by (nonlinear_arith)
        requires
            total >= 0,
            connections > 0,
    ;
    assert(total % connections > 0 ==> total / connections < total) by (nonlinear_arith)
        requires
            total >= 0,
            connections > 0,
    ;
}

pub fn requests_for_connection(total: u64, connections: usize, index: usize) -> (requests: u64)
    requires
        total > 0 ==> connections > 0,
    ensures
        total == 0 ==> requests == 0,
        total > 0 ==> requests == share(total as int, connections as int, index as int),
{
    if total == 0 {
        return 0;
    }
    let base: u64 = total / connections as u64;
    let remainder: u64 = total % connections as u64;
    if (index as u64) < remainder {
        assert(base < total) by (nonlinear_arith)
            requires
                base == total / connections as u64,
                remainder == total % connections as u64,
                remainder > 0,
                connections > 0,
        ;
        base + 1
    } else {
        base
    }
}

/// The shares of the first `count` connections together.
pub open spec fn shares(total: int, connections: int, count: int) -> int
    decreases count,
{
    if count <= 0 {
        0
    } else {
        shares(total, connections, count - 1) + share(total, connections, count - 1)
    }
}

proof fn lemma_shares(total: int, connections: int, count: int)
    requires
        0 <= total,
        0 < connections,
        0 <= count <= connections,
    ensures
        shares(total, connections, count) == count * (total / connections) + (if count < total
            % connections {
            count
        } else {
            total % connections
        }),
    decreases count,
{
    vstd::arithmetic::div_mod::lemma_mod_bound(total, connections);
    if count > 0 {
        lemma_shares(total, connections, count - 1);
        assert(count * (total / connections) == (count - 1) * (total / connections) + total
            / connections) by (nonlinear_arith);
    } else {
        assert(0 * (total / connections) == 0);
    }
}

/// The connections together send exactly the requests that were asked for.
pub proof fn law_shares_add_up(total: int, connections: int)
    requires
        0 <= total,
        0 < connections,
    ensures
        shares(total, connections, connections) == total,
{
    lemma_shares(total, connections, connections);
    vstd::arithmetic::div_mod::lemma_mod_bound(total, connections);
    vstd::arithmetic::div_mod::lemma_fundamental_div_mod(total, connections);
}

/// No share is more than one request away from another.
pub proof fn law_shares_are_even(total: int, connections: int, first: int, second: int)
    requires
        0 <= total,
        0 < connections,
    ensures
        share(total, connections, first) <= share(total, connections, second) + 1,
{
}

/// Under `Article` every request asks for an article, under `Body` for a body, and under
/// `Alternate` the even numbers ask for a body and the odd ones for an article.
pub proof fn law_mix_decides_the_kind(id: u64)
    ensures
        request_kind_of(command_for(id, ClientCommandMix::Article)) == RequestKind::Article,
        request_kind_of(command_for(id, ClientCommandMix::Body)) == RequestKind::Body,
        request_kind_of(command_for(id, ClientCommandMix::Alternate)) == RequestKind::Body <==> id
            % 2 == 0,
        request_kind_of(command_for(id, ClientCommandMix::Alternate)) == RequestKind::Article <==> id
            % 2 == 1,
{
}

/// A place of the list that is the turn of a client in the first pass is the one that it takes.
proof fn lemma_first_pass(client: usize, total: usize, request: u64, len: usize)
    requires
        client < total,
        client + request * total < len,
    ensures
        segment_index(client, total, request, len) == client + request * total,
{
    assert(request <= request * total) by (nonlinear_arith)
        requires
            total >= 1,
    ;
    assert(request as usize == request);
    assert(0 <= request * total <= usize::MAX);
    lemma_product_fits(request as usize, total);
    vstd::arithmetic::div_mod::lemma_small_mod((client + request * total) as nat, len as nat);
}

/// A product that fits does not wrap around.
proof fn lemma_product_fits(a: usize, b: usize)
    requires
        a * b <= usize::MAX,
    ensures
        a.wrapping_mul(b) == a * b,
{
    assert(0 <= a * b) by (nonlinear_arith);
    vstd::arithmetic::div_mod::lemma_small_mod((a * b) as nat, (usize::MAX + 1) as nat);
}

/// In the first pass over the list every place is taken, and by one client only: by the client that
/// the place leaves modulo the number of clients, at the request that it gives divided by that
/// number.
pub proof fn law_first_pass_takes_every_place(total: usize, len: usize, place: usize)
    requires
        0 < total,
        place < len,
    ensures
        segment_index((place % total) as usize, total, (place / total) as u64, len) == place,
        place % total < total,
{
    let client = place as int % total as int;
    let turn = place as int / total as int;
    vstd::arithmetic::div_mod::lemma_fundamental_div_mod(place as int, total as int);
    vstd::arithmetic::div_mod::lemma_mod_bound(place as int, total as int);
    assert(0 <= turn <= place) by (nonlinear_arith)
        requires
            turn == place as int / total as int,
            total > 0,
    ;
    assert(turn * total == total * turn) by (nonlinear_arith);
    lemma_first_pass(client as usize, total, turn as u64, len);
}

/// Two clients never take the same place in the first pass over the list, and neither does one
/// client at two requests.
pub proof fn law_first_pass_takes_no_place_twice(
    total: usize,
    len: usize,
    first: usize,
    first_request: u64,
    second: usize,
    second_request: u64,
)
    requires
        first < total,
        second < total,
        first + first_request * total < len,
        second + second_request * total < len,
        first != second || first_request != second_request,
    ensures
        segment_index(first, total, first_request, len) != segment_index(
            second,
            total,
            second_request,
            len,
        ),
{
    lemma_first_pass(first, total, first_request, len);
    lemma_first_pass(second, total, second_request, len);
    assert(first + first_request * total != second + second_request * total) by (nonlinear_arith)
        requires
            first < total,
            second < total,
            first != second || first_request != second_request,
    ;
}

/// From one request of a client to its next one lie as many places as there are clients, and
/// from one client to the next lies one; behind the last place comes the first again.
pub proof fn law_clients_go_round_the_list(client: usize, total: usize, request: u64, len: usize)
    requires
        0 < len,
        client + 1 + (request + 1) * total <= usize::MAX,
        request + 1 <= usize::MAX,
        request < u64::MAX,
    ensures
        segment_index(0, total, 0, len) == 0,
        segment_index(client, total, (request + 1) as u64, len) == (segment_index(
            client,
            total,
            request,
            len,
        ) + total) % (len as int),
        segment_index((client + 1) as usize, total, request, len) == (segment_index(
            client,
            total,
            request,
            len,
        ) + 1) % (len as int),
        segment_index(client, total, request, len) < len,
{
    let at = client + request * total;
    assert((request + 1) * total == request * total + total) by (nonlinear_arith);
    assert(request * total >= 0) by (nonlinear_arith);
    assert(request as usize == request && (request + 1) as u64 as usize == request + 1);
    lemma_product_fits(request as usize, total);
    lemma_product_fits((request + 1) as usize, total);
    lemma_product_fits(0, total);
    assert(0 * total == 0);
    vstd::arithmetic::div_mod::lemma_small_mod(0, len as nat);
    vstd::arithmetic::div_mod::lemma_add_mod_noop(at, total as int, len as int);
    vstd::arithmetic::div_mod::lemma_add_mod_noop(at, 1, len as int);
    vstd::arithmetic::div_mod::lemma_add_mod_noop(at % len as int, total as int, len as int);
    vstd::arithmetic::div_mod::lemma_add_mod_noop(at % len as int, 1, len as int);
    vstd::arithmetic::div_mod::lemma_mod_twice(at, len as int);
}

/// A request with segments asks for one of them. One without segments asks for its number where
/// that is an article number, and otherwise for a message-id that holds the number.
pub proof fn law_selector_holds_the_number(
    command_id: u64,
    request_index: u64,
    client: usize,
    total: usize,
    ids: Seq<Seq<u8>>,
)
    requires
        0 < ids.len() <= usize::MAX,
    ensures
        ids.contains(workload_selector(command_id, request_index, Some(ids), client, total)),
        ({
            let selector = workload_selector(command_id, request_index, None, client, total);
            if 1 <= command_id <= 2_147_483_647 {
                bytes::number(selector) == Some(command_id)
            } else {
                &&& values::is_message_id(selector)
                &&& selector.len() > 24
                &&& bytes::number(selector.subrange(7, selector.len() - 17)) == Some(command_id)
                &&& selector.take(7) == "<bench.".spec_bytes()
                &&& selector.skip(selector.len() - 17) == "@nntpbench.local>".spec_bytes()
            }
        }),
{
    let at = segment_index(client, total, request_index, ids.len() as usize);
    assert(ids[at as int] == workload_selector(
        command_id,
        request_index,
        Some(ids),
        client,
        total,
    ));
    bytes::law_number_of_decimal(command_id);
    let id = synthetic_id(command_id);
    lemma_synthetic_id(command_id);
    assert(id.subrange(7, id.len() - 17) =~= bytes::decimal(command_id as nat));
    assert(id.take(7) =~= "<bench.".spec_bytes());
    assert(id.skip(id.len() - 17) =~= "@nntpbench.local>".spec_bytes());
}

/// Requests without segments that have different numbers ask for different articles.
pub proof fn law_numbers_ask_for_different_articles(
    first: u64,
    second: u64,
    first_index: u64,
    second_index: u64,
    client: usize,
    total: usize,
)
    requires
        first != second,
    ensures
        workload_selector(first, first_index, None, client, total) != workload_selector(
            second,
            second_index,
            None,
            client,
            total,
        ),
{
    let ids = seq![Seq::<u8>::empty()];
    law_selector_holds_the_number(first, first_index, client, total, ids);
    law_selector_holds_the_number(second, second_index, client, total, ids);
    bytes::lemma_decimal(first as nat);
    bytes::lemma_decimal(second as nat);
    lemma_synthetic_id(first);
    lemma_synthetic_id(second);
    assert(bytes::is_digit(bytes::decimal(first as nat)[0]));
    assert(bytes::is_digit(bytes::decimal(second as nat)[0]));
    assert(synthetic_id(first)[0] == 60 && synthetic_id(second)[0] == 60);
}

/// The connections that get one request more than others are the first ones.
pub proof fn law_first_connections_get_more(total: int, connections: int, first: int, second: int)
    requires
        0 <= total,
        0 < connections,
        first <= second,
    ensures
        share(total, connections, second) <= share(total, connections, first),
{
}

} // verus!
