//! Downloading a list of articles, of which each client takes its turns.
use crate::bytes;
use crate::bytes::{decimal_bytes, index_from, parse_number, GREATER, LESS, LF};
use crate::message_id;
use crate::message_id::MessageId;
use crate::request;
use crate::request::{ArticleRef, InvalidArticleRef};
use crate::segments;
use crate::segments::trim_ascii_line;
use crate::server_config::Stats;
use crate::store;
use crate::store::{store_path, ArticleStoreKey, NameTooLong, MAX_ENCODED_BYTES};
use crate::values;
use crate::values::{check_article_number, MAX_ARTICLE_NUMBER};
use vstd::prelude::*;

verus! {

/// An article of the list, by its number or by its message-id.
#[derive(Debug)]
pub enum ArticleDownloadTarget {
    Number(u64),
    MessageId(MessageId),
}

/// What a target says: a number, or the bytes of a message-id.
pub ghost enum TargetName {
    Number(u64),
    MessageId(Seq<u8>),
}

impl View for ArticleDownloadTarget {
    type V = TargetName;

    open spec fn view(&self) -> TargetName {
        match self {
            ArticleDownloadTarget::Number(number) => TargetName::Number(*number),
            ArticleDownloadTarget::MessageId(id) => TargetName::MessageId(id@),
        }
    }
}

/// The line with this number holds neither an article number nor a message-id.
#[derive(Debug, Clone, Copy, PartialEq, Eq, Structural)]
pub struct InvalidTarget(pub u64);

/// The target that a text names: an article number, or a message-id with its angle brackets or
/// without them.
pub open spec fn named_target(text: Seq<u8>) -> Option<TargetName> {
    if values::is_article_number(text) {
        Some(TargetName::Number(bytes::decimal_value(text) as u64))
    } else if values::is_message_id(message_id::bracketed(text)) {
        Some(TargetName::MessageId(message_id::bracketed(text)))
    } else {
        None
    }
}

fn parse_target(text: &[u8]) -> (target: Option<ArticleDownloadTarget>)
    ensures
        match target {
            Some(found) => named_target(text@) == Some(found@),
            None => named_target(text@) is None,
        },
{
    if check_article_number(text) {
        proof {
            assert(bytes::is_digit(text@[0]));
            assert(bytes::unsigned_digits(text@) == text@);
            bytes::lemma_decimal_nonnegative(text@);
            bytes::law_decimal_of_number(text@);
        }
        if let Some(number) = parse_number(text) {
            return Some(ArticleDownloadTarget::Number(number));
        }
    }
    let id: Option<MessageId> = if text.len() > 0 && text[0] == LESS && text[text.len() - 1]
        == GREATER {
        MessageId::from_bytes(text)
    } else {
        let mut wrapped: Vec<u8> = Vec::new();
        wrapped.push(LESS);
        wrapped.extend_from_slice(text);
        wrapped.push(GREATER);
        assert(wrapped@ =~= message_id::bracketed(text@));
        MessageId::from_bytes(wrapped.as_slice())
    };
    match id {
        Some(id) => Some(ArticleDownloadTarget::MessageId(id)),
        None => None,
    }
}

pub open spec fn target_names(targets: Seq<ArticleDownloadTarget>) -> Seq<TargetName> {
    targets.map_values(|target: ArticleDownloadTarget| target@)
}

/// The targets of the lines from `from` on, of which the first has this number, or the first line
/// that names none. Lines with nothing on them are passed over.
pub open spec fn targets_from(content: Seq<u8>, from: int, number: int) -> Result<
    Seq<TargetName>,
    InvalidTarget,
>
    decreases content.len() - from,
{
    let end = segments::line_end(content, from);
    if from < 0 || from >= content.len() || end <= from {
        Ok(Seq::empty())
    } else {
        let line = segments::trimmed_line(content.subrange(from, end));
        if line.len() == 0 {
            targets_from(content, end, number + 1)
        } else {
            match named_target(line) {
                None => Err(InvalidTarget(number as u64)),
                Some(name) => match targets_from(content, end, number + 1) {
                    Err(error) => Err(error),
                    Ok(rest) => Ok(seq![name] + rest),
                },
            }
        }
    }
}

/// The targets before some that are still to come, or the line that is wrong among the latter.
pub open spec fn before_rest(
    found: Seq<TargetName>,
    rest: Result<Seq<TargetName>, InvalidTarget>,
) -> Result<Seq<TargetName>, InvalidTarget> {
    match rest {
        Ok(names) => Ok(found + names),
        Err(error) => Err(error),
    }
}

/// Reads the content of a file with one target on each line.
pub fn parse_article_targets(content: &[u8]) -> (targets: Result<
    Vec<ArticleDownloadTarget>,
    InvalidTarget,
>)
    ensures
        match targets {
            Ok(list) => targets_from(content@, 0, 1) == Ok::<Seq<TargetName>, InvalidTarget>(
                target_names(list@),
            ),
            Err(error) => targets_from(content@, 0, 1) == Err::<Seq<TargetName>, InvalidTarget>(
                error,
            ),
        },
{
    let mut list: Vec<ArticleDownloadTarget> = Vec::new();
    let mut start: usize = 0;
    let mut number: u64 = 0;
    assert(content.len() == content@.len());
    proof {
        let rest = targets_from(content@, 0, 1);
        if rest is Ok {
            assert(target_names(list@) + rest->Ok_0 =~= rest->Ok_0);
        }
    }
    while start < content.len()
        invariant
            start <= content@.len(),
            content@.len() <= usize::MAX,
            number <= start,
            targets_from(content@, 0, 1) == before_rest(
                target_names(list@),
                targets_from(content@, start as int, number + 1),
            ),
        decreases content@.len() - start,
    {
        let feed: usize = index_from(content, LF, start);
        let end: usize = if feed < content.len() {
            feed + 1
        } else {
            content.len()
        };
        proof {
            bytes::lemma_find_byte(content@, LF, start as int);
        }
        assert(end == segments::line_end(content@, start as int));
        let ghost before = target_names(list@);
        number = number + 1;
        let line: &[u8] = trim_ascii_line(&content[start..end]);
        if line.len() > 0 {
            match parse_target(line) {
                Some(target) => {
                    list.push(target);
                    proof {
                        let rest = targets_from(content@, end as int, number + 1);
                        assert(target_names(list@) =~= before.push(target@));
                        if rest is Ok {
                            assert(before + (seq![target@] + rest->Ok_0) =~= target_names(list@)
                                + rest->Ok_0);
                        }
                    }
                },
                None => {
                    return Err(InvalidTarget(number));
                },
            }
        }
        start = end;
    }
    assert(target_names(list@) + Seq::<TargetName>::empty() =~= target_names(list@));
    Ok(list)
}

/// What to ask the server for.
pub fn article_ref_for_download_target(target: &ArticleDownloadTarget) -> (article_ref: Result<
    ArticleRef,
    InvalidArticleRef,
>)
    ensures
        match article_ref {
            Ok(found) => request::is_valid_ref(found) && match found {
                ArticleRef::Current => false,
                ArticleRef::Number(number) => target@ == TargetName::Number(number),
                ArticleRef::MessageId(id) => target@ == TargetName::MessageId(id@),
            },
            Err(_) => target@ matches TargetName::Number(number) && (number == 0 || number
                > MAX_ARTICLE_NUMBER),
        },
{
    match target {
        ArticleDownloadTarget::Number(number) => ArticleRef::from_number(*number),
        ArticleDownloadTarget::MessageId(id) => Ok(ArticleRef::MessageId(id.clone())),
    }
}

/// The target as messages write it: the number, or the message-id.
pub fn download_target_label(target: &ArticleDownloadTarget) -> (label: Vec<u8>)
    ensures
        label@ == (match target@ {
            TargetName::Number(number) => bytes::decimal(number as nat),
            TargetName::MessageId(id) => id,
        }),
{
    match target {
        ArticleDownloadTarget::Number(number) => decimal_bytes(*number),
        ArticleDownloadTarget::MessageId(id) => {
            let mut label: Vec<u8> = Vec::new();
            label.extend_from_slice(id.as_bytes());
            assert(label@ =~= id@);
            label
        },
    }
}

/// The path of the article in a store.
pub fn article_download_target_path(target: &ArticleDownloadTarget) -> (path: Result<
    Vec<String>,
    NameTooLong,
>)
    ensures
        match target@ {
            TargetName::Number(number) => path matches Ok(parts) && store::path_view(parts@)
                == store::number_path(number),
            TargetName::MessageId(id) => match path {
                Ok(parts) => store::path_view(parts@) == store::message_id_path(id) && 2 * id.len()
                    <= MAX_ENCODED_BYTES,
                Err(_) => 2 * id.len() > MAX_ENCODED_BYTES,
            },
        },
{
    match target {
        ArticleDownloadTarget::Number(number) => store_path(ArticleStoreKey::Number(*number)),
        ArticleDownloadTarget::MessageId(id) => store_path(ArticleStoreKey::MessageId(id)),
    }
}

/// What becomes of an answer to `ARTICLE`.
#[derive(Debug, Clone, Copy, PartialEq, Eq, Structural)]
pub enum ArticleOutcome {
    /// The article came: it is compared and stored.
    Store,
    /// The server does not have it.
    Skip,
    Unexpected(u16),
}

/// The outcome for a status.
pub fn article_outcome(status: u16) -> (outcome: ArticleOutcome)
    ensures
        outcome == (if status == 220 {
            ArticleOutcome::Store
        } else if status == 430 {
            ArticleOutcome::Skip
        } else {
            ArticleOutcome::Unexpected(status)
        }),
        outcome is Store <==> status == 220,
        outcome is Skip <==> status == 430,
        status != 220 && status != 430 ==> outcome == ArticleOutcome::Unexpected(status),
{
    if status == 220 {
        ArticleOutcome::Store
    } else if status == 430 {
        ArticleOutcome::Skip
    } else {
        ArticleOutcome::Unexpected(status)
    }
}

/// The sum, or the largest index where it is beyond that.
pub open spec fn capped(index: int) -> int {
    if index > usize::MAX {
        usize::MAX as int
    } else {
        index
    }
}

/// The places in the list that one client is at. It takes every `stride`-th one.
#[derive(Debug, Clone, Copy)]
pub struct DownloadProgress {
    pub in_flight: usize,
    pub next_send: usize,
    pub next_receive: usize,
}

/// The client may ask for one more place.
pub open spec fn may_send(progress: DownloadProgress, pipeline_depth: usize, targets: usize) -> bool {
    progress.in_flight < pipeline_depth && progress.next_send < targets
}

/// One more place was asked for.
pub open spec fn after_sent(progress: DownloadProgress, stride: usize) -> DownloadProgress {
    DownloadProgress {
        in_flight: (progress.in_flight + 1) as usize,
        next_send: progress.next_send.saturating_add(stride),
        next_receive: progress.next_receive,
    }
}

/// The answer to the oldest request came.
pub open spec fn after_received(progress: DownloadProgress, stride: usize) -> DownloadProgress {
    DownloadProgress {
        in_flight: (progress.in_flight - 1) as usize,
        next_send: progress.next_send,
        next_receive: progress.next_receive.saturating_add(stride),
    }
}

impl DownloadProgress {
    /// The requests in flight are for the places from the next answer on, all of them in the
    /// list.
    pub open spec fn wf(&self, stride: usize, targets: usize) -> bool {
        &&& self.next_send == capped(self.next_receive + self.in_flight * stride)
        &&& self.in_flight > 0 ==> self.next_receive + (self.in_flight - 1) * stride < targets
    }

    pub fn new(client_index: usize) -> (progress: DownloadProgress)
        ensures
            progress == (DownloadProgress {
                in_flight: 0,
                next_send: client_index,
                next_receive: client_index,
            }),
            forall|stride: usize, targets: usize| #[trigger] progress.wf(stride, targets),
    {
        let progress: DownloadProgress = DownloadProgress {
            in_flight: 0,
            next_send: client_index,
            next_receive: client_index,
        };
        assert forall|stride: usize, targets: usize| #[trigger] progress.wf(stride, targets) by {
            assert(0 * stride == 0);
        }
        progress
    }

    /// The place to ask for next, if there is room for one more request.
    pub fn next_target(&self, stopped: bool, pipeline_depth: usize, targets: usize) -> (place: Option<
        usize,
    >)
        ensures
            place == (if !stopped && may_send(*self, pipeline_depth, targets) {
                Some(self.next_send)
            } else {
                None
            }),
    {
        if !stopped && self.in_flight < pipeline_depth && self.next_send < targets {
            Some(self.next_send)
        } else {
            None
        }
    }

    /// The next request was sent.
    pub fn record_sent(&mut self, stride: usize, targets: usize)
        requires
            old(self).wf(stride, targets),
            old(self).next_send < targets,
            old(self).in_flight < usize::MAX,
        ensures
            final(self).wf(stride, targets),
            *final(self) == after_sent(*old(self), stride),
    {
        proof {
            let sent = self.in_flight as int;
            assert((sent + 1) * stride == sent * stride + stride) by (nonlinear_arith);
        }
        self.in_flight = self.in_flight + 1;
        self.next_send = self.next_send.saturating_add(stride);
    }

    /// An answer came: the place that it belongs to, and the counters with it.
    pub fn record_received(
        &mut self,
        stride: usize,
        targets: usize,
        response_bytes: u64,
        stats: &mut Stats,
    ) -> (place: usize)
        requires
            old(self).wf(stride, targets),
            old(self).in_flight > 0,
        ensures
            place == old(self).next_receive,
            place < targets,
            final(self).wf(stride, targets),
            *final(self) == after_received(*old(self), stride),
            *final(stats) == (Stats {
                commands: old(stats).commands.wrapping_add(1),
                article_requests: old(stats).article_requests.wrapping_add(1),
                bytes_sent: old(stats).bytes_sent.wrapping_add(response_bytes),
                ..*old(stats)
            }),
    {
        let place: usize = self.next_receive;
        proof {
            let more = self.in_flight - 1;
            assert(more * stride >= 0) by (nonlinear_arith)
                requires
                    more >= 0,
            ;
            assert((more + 1) * stride == more * stride + stride) by (nonlinear_arith);
            if more > 0 {
                assert(more * stride == (more - 1) * stride + stride) by (nonlinear_arith);
                assert((more - 1) * stride >= 0) by (nonlinear_arith)
                    requires
                        more >= 1,
                ;
            } else {
                assert(more * stride == 0) by (nonlinear_arith)
                    requires
                        more == 0,
                ;
            }
        }
        self.in_flight = self.in_flight - 1;
        self.next_receive = self.next_receive.saturating_add(stride);
        stats.commands = stats.commands.wrapping_add(1);
        stats.article_requests = stats.article_requests.wrapping_add(1);
        stats.bytes_sent = stats.bytes_sent.wrapping_add(response_bytes);
        place
    }
}

/// What happens to a client while it downloads.
pub ghost enum DownloadEvent {
    /// It asked for the place that `next_target` gave.
    Sent,
    /// The answer to its oldest request came.
    Received,
}

/// A client that has taken part in some events: where it is, which places it asked for, and which
/// places the answers were taken for, in order.
pub ghost struct DownloadRun {
    pub progress: DownloadProgress,
    pub asked: Seq<int>,
    pub answered: Seq<int>,
}

/// The run of a client after the first `count` events. Its steps are those of `record_sent` and
/// `record_received`.
pub open spec fn run_after(
    client: usize,
    stride: usize,
    events: Seq<DownloadEvent>,
    count: int,
) -> DownloadRun
    decreases count,
{
    if count <= 0 {
        DownloadRun {
            progress: DownloadProgress { in_flight: 0, next_send: client, next_receive: client },
            asked: Seq::empty(),
            answered: Seq::empty(),
        }
    } else {
        let before = run_after(client, stride, events, count - 1);
        match events[count - 1] {
            DownloadEvent::Sent => DownloadRun {
                progress: after_sent(before.progress, stride),
                asked: before.asked.push(before.progress.next_send as int),
                answered: before.answered,
            },
            DownloadEvent::Received => DownloadRun {
                progress: after_received(before.progress, stride),
                asked: before.asked,
                answered: before.answered.push(before.progress.next_receive as int),
            },
        }
    }
}

/// Each event was possible when it came: a request where `next_target` gives a place, an answer
/// where a request is in flight.
pub open spec fn is_run(
    client: usize,
    stride: usize,
    pipeline_depth: usize,
    targets: usize,
    events: Seq<DownloadEvent>,
) -> bool {
    forall|i: int|
        0 <= i < events.len() ==> match #[trigger] events[i] {
            DownloadEvent::Sent => may_send(
                run_after(client, stride, events, i).progress,
                pipeline_depth,
                targets,
            ),
            DownloadEvent::Received => run_after(client, stride, events, i).progress.in_flight > 0,
        }
}

/// The places of the list that are the turn of a client, in rising order.
pub open spec fn places_of(client: int, stride: int, targets: int) -> Seq<int> {
    Seq::new(
        if client < targets {
            ((targets - client - 1) / stride + 1) as nat
        } else {
            0
        },
        |turn: int| client + turn * stride,
    )
}

/// A place is the turn of a client exactly where it stands among the places of that client.
pub proof fn law_places_are_the_turns(client: int, stride: int, targets: int, place: int)
    requires
        0 <= client < stride,
        0 <= place < targets,
    ensures
        place % stride == client <==> places_of(client, stride, targets).contains(place),
{
    let places = places_of(client, stride, targets);
    let turn = place / stride;
    assert(place == place % stride + turn * stride && 0 <= turn && 0 <= place % stride < stride)
        by (nonlinear_arith)
        requires
            0 <= place,
            0 < stride,
            turn == place / stride,
    ;
    if place % stride == client {
        assert(turn <= (targets - client - 1) / stride) by (nonlinear_arith)
            requires
                place == client + turn * stride,
                place <= targets - 1,
                0 < stride,
        ;
        assert(places[turn] == place);
    }
    if places.contains(place) {
        let at = choose|at: int| 0 <= at < places.len() && places[at] == place;
        assert(place % stride == client) by (nonlinear_arith)
            requires
                place == client + at * stride,
                0 <= client < stride,
        ;
    }
}

/// What holds of a client at any time: it has asked for its first places in order, and has taken
/// the answers for the first of these.
spec fn run_holds(
    run: DownloadRun,
    client: usize,
    stride: usize,
    pipeline_depth: usize,
    targets: usize,
) -> bool {
    let places = places_of(client as int, stride as int, targets as int);
    let sent = run.asked.len() as int;
    let taken = run.answered.len() as int;
    &&& taken <= sent <= places.len()
    &&& run.asked == places.subrange(0, sent)
    &&& run.answered == places.subrange(0, taken)
    &&& run.progress.in_flight == sent - taken
    &&& run.progress.in_flight <= pipeline_depth
    &&& run.progress.next_send == capped(client + sent * stride)
    &&& run.progress.next_receive == capped(client + taken * stride)
}

/// The place of a turn is in the list exactly where there is such a turn.
proof fn lemma_turn(client: int, stride: int, targets: int, turn: int)
    requires
        0 <= client,
        0 < stride,
        0 <= turn,
    ensures
        client + turn * stride < targets <==> turn < places_of(client, stride, targets).len(),
{
    if client < targets {
        let last = (targets - client - 1) / stride;
        assert(turn <= last <==> turn * stride <= targets - client - 1) by (nonlinear_arith)
            requires
                last == (targets - client - 1) / stride,
                0 < stride,
        ;
    } else {
        assert(turn * stride >= 0) by (nonlinear_arith)
            requires
                0 <= turn,
                0 < stride,
        ;
    }
}

proof fn lemma_run(
    client: usize,
    stride: usize,
    pipeline_depth: usize,
    targets: usize,
    events: Seq<DownloadEvent>,
    count: int,
)
    requires
        stride > 0,
        is_run(client, stride, pipeline_depth, targets, events),
        0 <= count <= events.len(),
    ensures
        run_holds(
            run_after(client, stride, events, count),
            client,
            stride,
            pipeline_depth,
            targets,
        ),
    decreases count,
{
    let places = places_of(client as int, stride as int, targets as int);
    if count == 0 {
        assert(0 * stride == 0);
        assert(places.subrange(0, 0) =~= Seq::<int>::empty());
    } else {
        lemma_run(client, stride, pipeline_depth, targets, events, count - 1);
        let before = run_after(client, stride, events, count - 1);
        let after = run_after(client, stride, events, count);
        let sent = before.asked.len() as int;
        let taken = before.answered.len() as int;
        lemma_turn(client as int, stride as int, targets as int, sent);
        lemma_turn(client as int, stride as int, targets as int, taken);
        assert((sent + 1) * stride == sent * stride + stride) by (nonlinear_arith);
        assert((taken + 1) * stride == taken * stride + stride) by (nonlinear_arith);
        assert(sent * stride >= 0 && taken * stride >= 0) by (nonlinear_arith)
            requires
                sent >= 0,
                taken >= 0,
                stride > 0,
        ;
        match events[count - 1] {
            DownloadEvent::Sent => {
                assert(may_send(before.progress, pipeline_depth, targets));
                assert(after.asked =~= places.subrange(0, sent + 1));
            },
            DownloadEvent::Received => {
                assert(before.progress.in_flight > 0);
                assert(after.answered =~= places.subrange(0, taken + 1));
            },
        }
    }
}

/// At any time of its run a client has asked once, and in rising order, for the first places of
/// its turn, no more than the pipeline holds are unanswered, and each answer was taken for the
/// place that it answers: the first for the first, and so on. When nothing is in flight and
/// nothing is left to ask for, all the places of its turn have been asked for and answered.
pub proof fn law_download_asks_for_each_place_once(
    client: usize,
    stride: usize,
    pipeline_depth: usize,
    targets: usize,
    events: Seq<DownloadEvent>,
)
    requires
        stride > 0,
        pipeline_depth > 0,
        is_run(client, stride, pipeline_depth, targets, events),
    ensures
        ({
            let run = run_after(client, stride, events, events.len() as int);
            let places = places_of(client as int, stride as int, targets as int);
            let sent = run.asked.len() as int;
            let taken = run.answered.len() as int;
            &&& taken <= sent <= places.len()
            &&& sent - taken <= pipeline_depth
            &&& run.asked == places.subrange(0, sent)
            &&& run.answered == run.asked.subrange(0, taken)
            &&& run.progress.in_flight == 0 && !may_send(run.progress, pipeline_depth, targets)
                ==> run.asked == places && run.answered == places
        }),
{
    let run = run_after(client, stride, events, events.len() as int);
    let places = places_of(client as int, stride as int, targets as int);
    let sent = run.asked.len() as int;
    let taken = run.answered.len() as int;
    lemma_run(client, stride, pipeline_depth, targets, events, events.len() as int);
    lemma_turn(client as int, stride as int, targets as int, sent);
    assert(run.answered =~= run.asked.subrange(0, taken));
    if run.progress.in_flight == 0 && !may_send(run.progress, pipeline_depth, targets) {
        assert(run.asked =~= places);
        assert(run.answered =~= places);
    }
}

/// Every place is the turn of one of the clients.
pub proof fn law_every_place_is_taken(place: int, stride: int) -> (client_and_turn: (int, int))
    requires
        0 <= place,
        0 < stride,
    ensures
        0 <= client_and_turn.0 < stride,
        0 <= client_and_turn.1,
        place == client_and_turn.0 + client_and_turn.1 * stride,
{
    assert(0 <= place % stride < stride && 0 <= place / stride && place == place % stride + (place
        / stride) * stride) by (nonlinear_arith)
        requires
            0 <= place,
            0 < stride,
    ;
    (place % stride, place / stride)
}

/// Two clients of one group of clients never take the same place.
pub proof fn law_clients_take_different_places(
    first: int,
    second: int,
    stride: int,
    first_turn: int,
    second_turn: int,
)
    requires
        0 <= first < stride,
        0 <= second < stride,
        first != second,
    ensures
        first + first_turn * stride != second + second_turn * stride,
{
    assert(first + first_turn * stride != second + second_turn * stride) by (nonlinear_arith)
        requires
            0 <= first < stride,
            0 <= second < stride,
            first != second,
    ;
}

/// A number names the article with that number, and a message-id, with its angle brackets or without
/// them, the article with that message-id.
pub proof fn law_target_is_what_it_names(number: u64, id: Seq<u8>)
    requires
        1 <= number <= 2_147_483_647,
        values::is_message_id(id),
    ensures
        named_target(bytes::decimal(number as nat)) == Some(TargetName::Number(number)),
        named_target(id) == Some(TargetName::MessageId(id)),
        named_target(id.subrange(1, id.len() - 1)) == Some(TargetName::MessageId(id)),
{
    let digits = bytes::decimal(number as nat);
    bytes::lemma_decimal(number as nat);
    values::law_article_numbers(digits, number as nat);
    let content = id.subrange(1, id.len() - 1);
    assert(!bytes::is_digit(id[0]));
    assert(content.len() > 0 && content[0] != 60);
    assert(message_id::bracketed(content) =~= id);
    let at = bytes::find_byte(content, bytes::AT, 0);
    bytes::lemma_find_byte(content, bytes::AT, 0);
    assert(!bytes::is_digit(content[at]));
}

proof fn lemma_targets_shift(prefix: Seq<u8>, content: Seq<u8>, from: int, number: int)
    requires
        0 <= from <= content.len(),
    ensures
        targets_from(prefix + content, prefix.len() + from, number) == targets_from(
            content,
            from,
            number,
        ),
    decreases content.len() - from,
{
    segments::lemma_line_end_shift(prefix, content, from);
    let whole = prefix + content;
    let shift = prefix.len() as int;
    let end = segments::line_end(content, from);
    if from < content.len() {
        assert(whole.subrange(shift + from, shift + end) =~= content.subrange(from, end));
        lemma_targets_shift(prefix, content, end, number + 1);
    }
}

/// The targets of a file are that of its first line, if anything stands on it, and then those of the
/// other lines; a line that names no article is an error with the number of the line.
pub proof fn law_targets_go_line_by_line(
    text: Seq<u8>,
    end: Seq<u8>,
    rest: Seq<u8>,
    number: u64,
)
    requires
        end == seq![10u8] || end == seq![13u8, 10u8],
        forall|i: int| 0 <= i < text.len() ==> #[trigger] text[i] != 10,
        text.len() > 0 ==> text[0] != 32 && text[0] != 9 && text.last() != 32 && text.last() != 9
            && text.last() != 13,
    ensures
        targets_from(Seq::empty(), 0, number as int) == Ok::<Seq<TargetName>, InvalidTarget>(
            Seq::empty(),
        ),
        targets_from(text + end + rest, 0, number as int) == (if text.len() == 0 {
            targets_from(rest, 0, number + 1)
        } else {
            match (named_target(text), targets_from(rest, 0, number + 1)) {
                (None, _) => Err(InvalidTarget(number)),
                (_, Err(error)) => Err(error),
                (Some(name), Ok(names)) => Ok(seq![name] + names),
            }
        }),
{
    let line = text + end;
    assert(text + end + rest =~= line + rest);
    segments::lemma_first_line_end(line, rest);
    lemma_targets_shift(line, rest, 0, number + 1);
    let none = Seq::<u8>::empty();
    if text.len() > 0 {
        assert(text.last() != 10);
        segments::law_trimming_takes_off_blanks(none, text, end);
        assert(none + text + end =~= line);
    } else {
        segments::law_trimming_takes_off_blanks(none, seq![49u8], end);
        assert(line =~= end);
    }
}

/// Only the numbers of articles and message-ids, with or without their brackets, name a target.
pub proof fn law_other_texts_name_no_target(text: Seq<u8>)
    ensures
        match named_target(text) {
            Some(TargetName::Number(number)) => 1 <= number <= 2_147_483_647 && text
                == bytes::decimal(number as nat),
            Some(TargetName::MessageId(id)) => values::is_message_id(id) && (text == id || text
                == id.subrange(1, id.len() - 1)),
            None => !values::is_message_id(text) && !values::is_article_number(text),
        },
{
    if values::is_article_number(text) {
        values::law_article_numbers(text, bytes::decimal_value(text) as nat);
    } else {
        message_id::law_brackets_may_be_left_out(text);
        let id = message_id::bracketed(text);
        if id != text {
            assert(id.subrange(1, id.len() - 1) =~= text);
        }
    }
}

} // verus!
