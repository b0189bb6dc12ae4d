//! The client: its settings, and how it keeps requests in flight.
use crate::bytes;
use crate::fetch::ClientError;
use crate::request_line::RequestKind;
use crate::server_config::Stats;
use crate::terminator::TERMINATOR_TAIL_SIZE;
use crate::values;
use crate::values::check_auth_value;
use crate::workload;
use crate::workload::{
    append_client_workload_request, client_command_kind, request_kind_for_client_command,
    requests_for_connection, ClientCommandMix, SegmentSet,
};
use vstd::prelude::*;
use vstd::string::StringSliceAdditionalSpecFns;
use vstd::utf8;

verus! {

/// The deepest pipeline of a connection.
pub const MAX_CLIENT_PIPELINE_DEPTH: usize = 4096;

/// The settings that a client is started with.
#[derive(Debug)]
pub struct ClientArgs {
    /// Target ports that the clients rotate across.
    pub ports: Vec<u16>,
    /// AUTHINFO USER value sent once per connection before workload requests.
    pub auth_user: Option<String>,
    /// AUTHINFO PASS value sent once per connection before workload requests.
    pub auth_pass: Option<String>,
    /// File of articles to fetch.
    pub article_ids: Option<String>,
    /// Directory tree where fetched articles are stored.
    pub article_output_dir: Option<String>,
    /// Directory tree with the articles that are expected.
    pub article_verify_dir: Option<String>,
    /// Total requests to complete. Use 0 to disable this limit.
    pub requests: u64,
    /// Received bytes to complete. Use 0 to disable this limit.
    pub transfer_bytes: u64,
    /// Seconds to run. Use 0 to disable this limit.
    pub duration_secs: u64,
    /// Concurrent connections.
    pub connections: usize,
    /// Offset used when this process owns a shard of the total client set.
    pub client_offset: usize,
    /// Total clients across all cooperating processes. Use 0 to mean the connections.
    pub total_clients: usize,
    /// Maximum in-flight requests allowed on each connection.
    pub pipeline_depth: usize,
    pub command_mix: ClientCommandMix,
    /// First numeric article id used for per-request accounting.
    pub start_id: u64,
    /// Per-connection read buffer size.
    pub read_buffer_bytes: usize,
    pub nodelay: bool,
    pub socket_recv_buffer: usize,
    pub socket_send_buffer: usize,
    pub csv: bool,
    pub stats_interval_secs: u64,
}

/// Why settings cannot be used.
#[derive(Debug, Clone, Copy, PartialEq, Eq, Structural)]
pub enum ConfigError {
    InvalidAuthUser,
    InvalidAuthPass,
    /// Articles to fetch, but no place to store them.
    OutputDirRequired,
    /// A place to store articles, but none to fetch.
    IdsRequiredForOutput,
    /// Articles to expect, but none to fetch.
    IdsRequiredForVerify,
}

#[derive(Debug)]
pub struct ClientConfig {
    pub ports: Vec<u16>,
    pub segments: Option<SegmentSet>,
    pub auth_user: Option<String>,
    pub auth_pass: Option<String>,
    pub article_ids: Option<String>,
    pub article_output_dir: Option<String>,
    pub article_verify_dir: Option<String>,
    pub requests: u64,
    pub transfer_bytes: u64,
    pub duration_secs: u64,
    pub connections: usize,
    pub client_offset: usize,
    pub total_clients: usize,
    pub pipeline_depth: usize,
    pub command_mix: ClientCommandMix,
    pub start_id: u64,
    pub read_buffer_bytes: usize,
    pub nodelay: bool,
    pub socket_recv_buffer: usize,
    pub socket_send_buffer: usize,
    pub csv: bool,
    pub stats_interval_secs: u64,
}

/// The value can be sent with `AUTHINFO`, or there is none.
pub open spec fn is_auth_setting(value: Option<String>) -> bool {
    match value {
        Some(text) => values::is_auth_value(utf8::encode_utf8(text@)),
        None => true,
    }
}

fn validate_client_auth_value(value: &Option<String>) -> (valid: bool)
    ensures
        valid == is_auth_setting(*value),
{
    match value {
        Some(text) => check_auth_value(text.as_str().as_bytes()),
        None => true,
    }
}

/// What is wrong with the settings, if anything is.
pub open spec fn config_error(args: ClientArgs) -> Option<ConfigError> {
    if !is_auth_setting(args.auth_user) {
        Some(ConfigError::InvalidAuthUser)
    } else if !is_auth_setting(args.auth_pass) {
        Some(ConfigError::InvalidAuthPass)
    } else if args.article_ids is Some && args.article_output_dir is None {
        Some(ConfigError::OutputDirRequired)
    } else if args.article_ids is None && args.article_output_dir is Some {
        Some(ConfigError::IdsRequiredForOutput)
    } else if args.article_ids is None && args.article_verify_dir is Some {
        Some(ConfigError::IdsRequiredForVerify)
    } else {
        None
    }
}

/// The connections of this process, at least one.
pub open spec fn connections_of(args: ClientArgs) -> usize {
    if args.connections == 0 {
        1
    } else {
        args.connections
    }
}

impl ClientConfig {
    /// The settings within their bounds. `segments` are those of the file that the settings name.
    pub fn from_args(args: ClientArgs, segments: Option<SegmentSet>) -> (config: Result<
        ClientConfig,
        ConfigError,
    >)
        ensures
            match config {
                Err(error) => config_error(args) == Some(error),
                Ok(config) => {
                    &&& config_error(args) is None
                    &&& config == (ClientConfig {
                        ports: args.ports,
                        segments,
                        auth_user: args.auth_user,
                        auth_pass: args.auth_pass,
                        article_ids: args.article_ids,
                        article_output_dir: args.article_output_dir,
                        article_verify_dir: args.article_verify_dir,
                        requests: args.requests,
                        transfer_bytes: args.transfer_bytes,
                        duration_secs: args.duration_secs,
                        connections: connections_of(args),
                        client_offset: args.client_offset,
                        total_clients: if args.total_clients == 0 {
                            connections_of(args)
                        } else {
                            args.total_clients
                        },
                        pipeline_depth: if args.pipeline_depth == 0 {
                            1
                        } else if args.pipeline_depth > MAX_CLIENT_PIPELINE_DEPTH {
                            MAX_CLIENT_PIPELINE_DEPTH
                        } else {
                            args.pipeline_depth
                        },
                        command_mix: args.command_mix,
                        start_id: args.start_id,
                        read_buffer_bytes: if args.read_buffer_bytes < TERMINATOR_TAIL_SIZE {
                            TERMINATOR_TAIL_SIZE
                        } else {
                            args.read_buffer_bytes
                        },
                        nodelay: args.nodelay,
                        socket_recv_buffer: args.socket_recv_buffer,
                        socket_send_buffer: args.socket_send_buffer,
                        csv: args.csv,
                        stats_interval_secs: args.stats_interval_secs,
                    })
                },
            },
    {
        if !validate_client_auth_value(&args.auth_user) {
            return Err(ConfigError::InvalidAuthUser);
        }
        if !validate_client_auth_value(&args.auth_pass) {
            return Err(ConfigError::InvalidAuthPass);
        }
        if args.article_ids.is_some() && args.article_output_dir.is_none() {
            return Err(ConfigError::OutputDirRequired);
        }
        if args.article_ids.is_none() && args.article_output_dir.is_some() {
            return Err(ConfigError::IdsRequiredForOutput);
        }
        if args.article_ids.is_none() && args.article_verify_dir.is_some() {
            return Err(ConfigError::IdsRequiredForVerify);
        }
        let connections: usize = if args.connections == 0 {
            1
        } else {
            args.connections
        };
        let total_clients: usize = if args.total_clients == 0 {
            connections
        } else {
            args.total_clients
        };
        let pipeline_depth: usize = if args.pipeline_depth == 0 {
            1
        } else if args.pipeline_depth > MAX_CLIENT_PIPELINE_DEPTH {
            MAX_CLIENT_PIPELINE_DEPTH
        } else {
            args.pipeline_depth
        };
        let read_buffer_bytes: usize = if args.read_buffer_bytes < TERMINATOR_TAIL_SIZE {
            TERMINATOR_TAIL_SIZE
        } else {
            args.read_buffer_bytes
        };
        Ok(
            ClientConfig {
                ports: args.ports,
                segments,
                auth_user: args.auth_user,
                auth_pass: args.auth_pass,
                article_ids: args.article_ids,
                article_output_dir: args.article_output_dir,
                article_verify_dir: args.article_verify_dir,
                requests: args.requests,
                transfer_bytes: args.transfer_bytes,
                duration_secs: args.duration_secs,
                connections,
                client_offset: args.client_offset,
                total_clients,
                pipeline_depth,
                command_mix: args.command_mix,
                start_id: args.start_id,
                read_buffer_bytes,
                nodelay: args.nodelay,
                socket_recv_buffer: args.socket_recv_buffer,
                socket_send_buffer: args.socket_send_buffer,
                csv: args.csv,
                stats_interval_secs: args.stats_interval_secs,
            },
        )
    }

    /// The port that a client connects to in place of the usual one. Clients rotate across the
    /// ports.
    pub fn endpoint_port(&self, global_index: usize) -> (port: Option<u16>)
        ensures
            port == (if self.ports@.len() == 0 {
                None
            } else {
                Some(self.ports@[global_index as int % self.ports@.len() as int])
            }),
    {
        if self.ports.len() == 0 {
            None
        } else {
            Some(self.ports[global_index % self.ports.len()])
        }
    }
}

/// A size for a socket buffer, where it fits in 32 bits.
pub fn socket_buffer_size_u32(size: usize) -> (fitting: Option<u32>)
    ensures
        match fitting {
            Some(value) => value == size,
            None => size > u32::MAX,
        },
{
    if size <= 0xffff_ffff {
        Some(size as u32)
    } else {
        None
    }
}

/// One connection of the workload.
#[derive(Debug, Clone, Copy)]
pub struct ClientSession {
    pub port: Option<u16>,
    pub client_index: usize,
    pub total_clients: usize,
    /// The connection sends `requests` requests and no more. A share of none is a limit too.
    pub limited: bool,
    pub requests: u64,
    pub transfer_bytes: u64,
    pub next_id: u64,
    pub pipeline_depth: usize,
    pub command_mix: ClientCommandMix,
    pub read_buffer_bytes: usize,
}

/// How far a connection has come. The counts wrap around.
#[derive(Debug, Clone, Copy)]
pub struct PipelineProgress {
    pub in_flight: usize,
    pub issued: u64,
    pub received: u64,
}

/// The line of the request with an index.
pub open spec fn line_at(
    session: ClientSession,
    segments: Option<Seq<Seq<u8>>>,
    request_index: u64,
) -> Seq<u8> {
    let command_id = session.next_id.wrapping_add(request_index);
    workload::workload_line(
        workload::command_for(command_id, session.command_mix),
        workload::workload_selector(
            command_id,
            request_index,
            segments,
            session.client_index,
            session.total_clients,
        ),
    )
}

/// The lines of `count` requests, the first of which has the index `issued`.
pub open spec fn lines_from(
    session: ClientSession,
    segments: Option<Seq<Seq<u8>>>,
    issued: u64,
    count: nat,
) -> Seq<u8>
    decreases count,
{
    if count == 0 {
        Seq::empty()
    } else {
        lines_from(session, segments, issued, (count - 1) as nat) + line_at(
            session,
            segments,
            issued.wrapping_add((count - 1) as u64),
        )
    }
}

/// How many requests can be sent: as many as the pipeline has room for and the limit leaves.
pub open spec fn fill_count(session: ClientSession, progress: PipelineProgress) -> nat {
    let room = session.pipeline_depth - progress.in_flight;
    let left = if session.limited {
        session.requests - progress.issued
    } else {
        room
    };
    if room <= 0 || left <= 0 {
        0
    } else if room < left {
        room as nat
    } else {
        left as nat
    }
}

impl ClientSession {
    /// The session of a client. Its requests are limited, unless neither the whole run nor the
    /// session has a number of them.
    pub fn new(config: &ClientConfig, global_index: usize, start_id: u64, requests: u64) -> (session:
        ClientSession)
        ensures
            session == (ClientSession {
                port: if config.ports@.len() == 0 {
                    None
                } else {
                    Some(config.ports@[global_index as int % config.ports@.len() as int])
                },
                client_index: global_index,
                total_clients: config.total_clients,
                limited: config.requests != 0 || requests != 0,
                requests,
                transfer_bytes: config.transfer_bytes,
                next_id: start_id,
                pipeline_depth: config.pipeline_depth,
                command_mix: config.command_mix,
                read_buffer_bytes: config.read_buffer_bytes,
            }),
    {
        ClientSession {
            port: config.endpoint_port(global_index),
            client_index: global_index,
            total_clients: config.total_clients,
            limited: config.requests != 0 || requests != 0,
            requests,
            transfer_bytes: config.transfer_bytes,
            next_id: start_id,
            pipeline_depth: config.pipeline_depth,
            command_mix: config.command_mix,
            read_buffer_bytes: config.read_buffer_bytes,
        }
    }

    /// Puts the next requests into `buffer` and says how many. Nothing is sent once the work is
    /// stopped, and nothing once the wanted bytes have come.
    pub fn fill_pipeline(
        &self,
        segments: Option<&SegmentSet>,
        buffer: &mut Vec<u8>,
        progress: &PipelineProgress,
        stats: &Stats,
        stopped: bool,
    ) -> (filled: Result<usize, ClientError>)
        requires
            segments matches Some(set) ==> set.wf(),
        ensures
            ({
                let limited = self.transfer_bytes != 0 && stats.bytes_sent >= self.transfer_bytes;
                let count = if stopped || limited {
                    0
                } else {
                    fill_count(*self, *progress)
                };
                &&& filled == Ok::<usize, ClientError>(count as usize)
                &&& count <= usize::MAX
                &&& count > 0 ==> progress.in_flight + count <= self.pipeline_depth
                &&& final(buffer)@ == (if stopped {
                    old(buffer)@
                } else {
                    lines_from(*self, workload::segments_view(segments), progress.issued, count)
                })
            }),
    {
        if stopped {
            return Ok(0);
        }
        buffer.clear();
        let mut filled: usize = 0;
        if stats.transfer_limit_reached(self.transfer_bytes) {
            assert(buffer@ =~= Seq::<u8>::empty());
            return Ok(0);
        }
        let ghost count = fill_count(*self, *progress);
        assert(buffer@ =~= lines_from(
            *self,
            workload::segments_view(segments),
            progress.issued,
            0,
        ));
        while filled < self.pipeline_depth && progress.in_flight < self.pipeline_depth - filled && (
        !self.limited || progress.issued.wrapping_add(filled as u64) < self.requests)
            invariant
                segments matches Some(set) ==> set.wf(),
                count == fill_count(*self, *progress),
                filled <= count <= self.pipeline_depth,
                buffer@ == lines_from(
                    *self,
                    workload::segments_view(segments),
                    progress.issued,
                    filled as nat,
                ),
            decreases count - filled,
        {
            let request_index: u64 = progress.issued.wrapping_add(filled as u64);
            let command_id: u64 = self.next_id.wrapping_add(request_index);
            append_client_workload_request(
                buffer,
                command_id,
                request_index,
                self.command_mix,
                segments,
                self.client_index,
                self.total_clients,
            )?;
            filled = filled + 1;
        }
        Ok(filled)
    }

    /// The pipeline is filled up again when so few requests are in flight.
    pub fn pipeline_refill_low_water(&self) -> (low: usize)
        ensures
            low == (if self.pipeline_depth < 2 {
                1
            } else {
                self.pipeline_depth as int / 2
            }),
    {
        let half: usize = self.pipeline_depth / 2;
        if half < 1 {
            1
        } else {
            half
        }
    }

    /// Few enough requests are in flight to fill the pipeline up again.
    pub fn wants_refill(&self, progress: &PipelineProgress) -> (wanted: bool)
        ensures
            wanted == (progress.in_flight <= 1 || progress.in_flight <= self.pipeline_depth as int
                / 2),
            progress.in_flight == 0 ==> wanted,
            2 * progress.in_flight <= self.pipeline_depth ==> wanted,
            2 * progress.in_flight > self.pipeline_depth && progress.in_flight > 1 ==> !wanted,
    {
        progress.in_flight <= self.pipeline_refill_low_water()
    }

    /// The kind of the response that comes next.
    pub fn next_response_kind(&self, progress: &PipelineProgress) -> (kind: RequestKind)
        ensures
            kind == workload::request_kind_of(
                workload::command_for(
                    self.next_id.wrapping_add(progress.received),
                    self.command_mix,
                ),
            ),
            forall|segments: Option<Seq<Seq<u8>>>|
                kind == RequestKind::Article <==> #[trigger] line_at(
                    *self,
                    segments,
                    progress.received,
                )[0] == 65,
    {
        proof {
            assert forall|segments: Option<Seq<Seq<u8>>>|
                workload::request_kind_of(
                    workload::command_for(
                        self.next_id.wrapping_add(progress.received),
                        self.command_mix,
                    ),
                ) == RequestKind::Article <==> #[trigger] line_at(
                    *self,
                    segments,
                    progress.received,
                )[0] == 65 by {
                law_answers_are_read_as_they_were_asked(*self, segments, progress.received);
            }
        }
        request_kind_for_client_command(
            self.next_id.wrapping_add(progress.received),
            self.command_mix,
        )
    }
}

/// Some requests were sent.
pub open spec fn after_filled(progress: PipelineProgress, filled: nat) -> PipelineProgress {
    PipelineProgress {
        in_flight: (progress.in_flight + filled) as usize,
        issued: progress.issued.wrapping_add(filled as u64),
        received: progress.received,
    }
}

/// The response to the oldest request has come.
pub open spec fn after_response(progress: PipelineProgress) -> PipelineProgress {
    PipelineProgress {
        in_flight: (progress.in_flight - 1) as usize,
        issued: progress.issued,
        received: progress.received.wrapping_add(1),
    }
}

impl PipelineProgress {
    /// Every request in flight is one that was issued and not answered yet.
    pub open spec fn wf(&self) -> bool {
        self.issued == self.received.wrapping_add(self.in_flight as u64)
    }

    pub fn new() -> (progress: PipelineProgress)
        ensures
            progress == (PipelineProgress { in_flight: 0, issued: 0, received: 0 }),
            progress.wf(),
    {
        PipelineProgress { in_flight: 0, issued: 0, received: 0 }
    }

    /// Some requests were sent. More than one of them is a batch.
    pub fn record_filled(&mut self, filled: usize, stats: &mut Stats)
        requires
            old(self).wf(),
            old(self).in_flight + filled <= usize::MAX,
        ensures
            final(self).wf(),
            *final(self) == after_filled(*old(self), filled as nat),
            *final(stats) == (Stats {
                pipeline_batches: if filled > 1 {
                    old(stats).pipeline_batches.wrapping_add(1)
                } else {
                    old(stats).pipeline_batches
                },
                ..*old(stats)
            }),
    {
        self.in_flight = self.in_flight + filled;
        self.issued = self.issued.wrapping_add(filled as u64);
        if filled > 1 {
            stats.pipeline_batches = stats.pipeline_batches.wrapping_add(1);
        }
    }

    /// The response to the oldest request has come.
    pub fn record_response(&mut self, session: &ClientSession, response_bytes: u64, stats: &mut Stats)
        requires
            old(self).wf(),
            old(self).in_flight > 0,
        ensures
            final(self).wf(),
            *final(self) == after_response(*old(self)),
            ({
                let command = workload::command_for(
                    session.next_id.wrapping_add(old(self).received),
                    session.command_mix,
                );
                *final(stats) == (Stats {
                    bytes_sent: old(stats).bytes_sent.wrapping_add(response_bytes),
                    commands: old(stats).commands.wrapping_add(1),
                    article_requests: if command == ClientCommandMix::Article {
                        old(stats).article_requests.wrapping_add(1)
                    } else {
                        old(stats).article_requests
                    },
                    body_requests: if command == ClientCommandMix::Body {
                        old(stats).body_requests.wrapping_add(1)
                    } else {
                        old(stats).body_requests
                    },
                    ..*old(stats)
                })
            }),
    {
        let command_id: u64 = session.next_id.wrapping_add(self.received);
        self.in_flight = self.in_flight - 1;
        self.received = self.received.wrapping_add(1);
        stats.bytes_sent = stats.bytes_sent.wrapping_add(response_bytes);
        stats.commands = stats.commands.wrapping_add(1);
        match client_command_kind(command_id, session.command_mix) {
            ClientCommandMix::Article => {
                stats.article_requests = stats.article_requests.wrapping_add(1);
            },
            _ => {
                stats.body_requests = stats.body_requests.wrapping_add(1);
            },
        }
    }
}

/// A pipeline that is filled as far as it can be holds no more requests than it may.
pub proof fn law_pipeline_stays_within_depth(session: ClientSession, progress: PipelineProgress)
    requires
        progress.in_flight <= session.pipeline_depth,
    ensures
        progress.in_flight + fill_count(session, progress) <= session.pipeline_depth,
{
}

/// The connection has not sent more than it may, and no more is in flight than it may be.
pub open spec fn in_bounds(session: ClientSession, progress: PipelineProgress) -> bool {
    &&& progress.wf()
    &&& progress.in_flight <= session.pipeline_depth
    &&& session.limited ==> progress.issued <= session.requests
}

/// A connection starts within its bounds, filling its pipeline keeps it there, and so does an
/// answer: no more requests are ever sent than were asked for, and none by a connection whose
/// share is none.
pub proof fn law_requests_stay_within_limit(session: ClientSession, progress: PipelineProgress)
    requires
        in_bounds(session, progress),
    ensures
        in_bounds(session, PipelineProgress { in_flight: 0, issued: 0, received: 0 }),
        in_bounds(session, after_filled(progress, fill_count(session, progress))),
        session.limited ==> progress.issued + fill_count(session, progress) <= session.requests,
        session.limited && session.requests == 0 ==> fill_count(session, progress) == 0,
        progress.in_flight > 0 ==> in_bounds(session, after_response(progress)),
{
}

/// The connection has nothing in flight and nothing left to send.
pub open spec fn is_finished(session: ClientSession, progress: PipelineProgress) -> bool {
    progress.in_flight == 0 && fill_count(session, progress) == 0
}

/// A limited connection that has finished has sent exactly its requests, and has an answer to
/// each of them.
pub proof fn law_finished_session_sent_its_share(session: ClientSession, progress: PipelineProgress)
    requires
        in_bounds(session, progress),
        session.limited,
        session.pipeline_depth > 0,
        is_finished(session, progress),
    ensures
        progress.issued == session.requests,
        progress.received == session.requests,
{
}

/// A connection without requests in flight has an answer to each request that it issued.
pub proof fn law_idle_pipeline_is_answered(progress: PipelineProgress)
    requires
        progress.wf(),
        progress.in_flight == 0,
    ensures
        progress.received == progress.issued,
{
}

/// The requests of the connection with this place in the process.
pub open spec fn requests_at(config: ClientConfig, connection: int) -> int {
    if config.requests == 0 {
        0
    } else {
        workload::share(
            config.requests as int,
            config.total_clients as int,
            config.client_offset + connection,
        )
    }
}

/// The first number of a connection: behind those of the connections before it. It wraps around.
pub open spec fn start_id_at(config: ClientConfig, connection: int) -> u64
    decreases connection,
{
    if connection <= 0 {
        config.start_id
    } else {
        start_id_at(config, connection - 1).wrapping_add(requests_at(config, connection - 1) as u64)
    }
}

/// The session of the connection with this place in the process.
pub open spec fn session_at(config: ClientConfig, connection: int) -> ClientSession {
    let global_index = (config.client_offset + connection) as usize;
    ClientSession {
        port: if config.ports@.len() == 0 {
            None
        } else {
            Some(config.ports@[global_index as int % config.ports@.len() as int])
        },
        client_index: global_index,
        total_clients: config.total_clients,
        limited: config.requests != 0,
        requests: requests_at(config, connection) as u64,
        transfer_bytes: config.transfer_bytes,
        next_id: start_id_at(config, connection),
        pipeline_depth: config.pipeline_depth,
        command_mix: config.command_mix,
        read_buffer_bytes: config.read_buffer_bytes,
    }
}

/// The sessions of this process.
pub fn plan_sessions(config: &ClientConfig) -> (sessions: Vec<ClientSession>)
    requires
        config.total_clients > 0,
        config.client_offset + config.connections <= usize::MAX,
    ensures
        sessions@ == Seq::new(config.connections as nat, |i: int| session_at(*config, i)),
{
    let mut sessions: Vec<ClientSession> = Vec::new();
    let mut next_start_id: u64 = config.start_id;
    let mut connection: usize = 0;
    while connection < config.connections
        invariant
            config.total_clients > 0,
            config.client_offset + config.connections <= usize::MAX,
            connection <= config.connections,
            next_start_id == start_id_at(*config, connection as int),
            sessions@ == Seq::new(connection as nat, |i: int| session_at(*config, i)),
        decreases config.connections - connection,
    {
        let global_index: usize = config.client_offset + connection;
        let requests: u64 = requests_for_connection(
            config.requests,
            config.total_clients,
            global_index,
        );
        assert(requests == requests_at(*config, connection as int));
        sessions.push(ClientSession::new(config, global_index, next_start_id, requests));
        next_start_id = next_start_id.wrapping_add(requests);
        connection = connection + 1;
        assert(sessions@ =~= Seq::new(connection as nat, |i: int| session_at(*config, i)));
    }
    sessions
}

/// The requests of the first `count` connections of a process that has all the clients.
pub open spec fn requests_before(config: ClientConfig, count: int) -> int
    decreases count,
{
    if count <= 0 {
        0
    } else {
        requests_before(config, count - 1) + requests_at(config, count - 1)
    }
}

proof fn lemma_requests_before(config: ClientConfig, count: int)
    requires
        config.requests > 0,
        config.client_offset == 0,
        count <= config.total_clients,
    ensures
        requests_before(config, count) == workload::shares(
            config.requests as int,
            config.total_clients as int,
            count,
        ),
    decreases count,
{
    if count > 0 {
        lemma_requests_before(config, count - 1);
    }
}

/// What the connections up to `count` have sent.
pub open spec fn sent_before(progress: Seq<PipelineProgress>, count: int) -> int
    decreases count,
{
    if count <= 0 {
        0
    } else {
        sent_before(progress, count - 1) + progress[count - 1].issued
    }
}

proof fn lemma_sent_before(config: ClientConfig, progress: Seq<PipelineProgress>, count: int)
    requires
        config.requests > 0,
        config.total_clients > 0,
        config.pipeline_depth > 0,
        config.client_offset + config.connections <= usize::MAX,
        count <= progress.len() == config.connections,
        forall|i: int|
            0 <= i < progress.len() ==> in_bounds(session_at(config, i), #[trigger] progress[i])
                && is_finished(session_at(config, i), progress[i]),
    ensures
        sent_before(progress, count) == requests_before(config, count),
    decreases count,
{
    if count > 0 {
        lemma_sent_before(config, progress, count - 1);
        let session = session_at(config, count - 1);
        law_finished_session_sent_its_share(session, progress[count - 1]);
        workload::lemma_share_fits(
            config.requests as int,
            config.total_clients as int,
            config.client_offset + count - 1,
        );
    }
}

/// When the connections of a process that has all the clients have finished, they have together
/// sent exactly the requests that were asked for, however few those are.
pub proof fn law_sessions_send_all_requests(config: ClientConfig, progress: Seq<PipelineProgress>)
    requires
        config.requests > 0,
        config.client_offset == 0,
        config.total_clients > 0,
        config.pipeline_depth > 0,
        config.connections == config.total_clients,
        progress.len() == config.connections,
        forall|i: int|
            0 <= i < progress.len() ==> in_bounds(session_at(config, i), #[trigger] progress[i])
                && is_finished(session_at(config, i), progress[i]),
    ensures
        sent_before(progress, progress.len() as int) == config.requests,
{
    lemma_sent_before(config, progress, progress.len() as int);
    lemma_requests_before(config, config.connections as int);
    workload::law_shares_add_up(config.requests as int, config.total_clients as int);
}

/// A pipeline is filled as far as it can be: until it is full, or until the connection has sent all
/// of its requests, and never further than either.
pub proof fn law_pipeline_is_filled_up(session: ClientSession, progress: PipelineProgress)
    requires
        progress.in_flight <= session.pipeline_depth,
        session.limited ==> progress.issued <= session.requests,
    ensures
        ({
            let count = fill_count(session, progress);
            &&& progress.in_flight + count <= session.pipeline_depth
            &&& session.limited ==> progress.issued + count <= session.requests
            &&& progress.in_flight + count == session.pipeline_depth || (session.limited
                && progress.issued + count == session.requests)
        }),
{
}

/// The requests of two fills are those of one fill with as many.
pub proof fn law_fills_join(
    session: ClientSession,
    segments: Option<Seq<Seq<u8>>>,
    issued: u64,
    first: nat,
    second: nat,
)
    requires
        issued + first + second <= u64::MAX,
    ensures
        lines_from(session, segments, issued, first + second) == lines_from(
            session,
            segments,
            issued,
            first,
        ) + lines_from(session, segments, (issued + first) as u64, second),
        lines_from(session, segments, issued, 0) == Seq::<u8>::empty(),
        lines_from(session, segments, issued, 1) == line_at(session, segments, issued),
    decreases second,
{
    let head = lines_from(session, segments, issued, first);
    let next = (issued + first) as u64;
    reveal_with_fuel(lines_from, 2);
    assert(lines_from(session, segments, issued, 1) =~= line_at(session, segments, issued));
    if second == 0 {
        assert(head + lines_from(session, segments, next, 0) =~= head);
    } else {
        let fewer = (second - 1) as nat;
        law_fills_join(session, segments, issued, first, fewer);
        let last = (issued + first + second - 1) as u64;
        assert(issued.wrapping_add((first + second - 1) as u64) == last);
        assert(next.wrapping_add(fewer as u64) == last);
        assert((first + second - 1) as nat == first + fewer);
        assert(head + (lines_from(session, segments, next, fewer) + line_at(
            session,
            segments,
            last,
        )) =~= (head + lines_from(session, segments, next, fewer)) + line_at(
            session,
            segments,
            last,
        ));
    }
}

/// The requests of a connection number up from its first number, and each asks for the article or
/// the body with its number, as the mix says.
pub proof fn law_requests_number_up(session: ClientSession, index: u64)
    requires
        1 <= session.next_id + index <= 2_147_483_647,
    ensures
        line_at(session, None, index) == (if session.command_mix == ClientCommandMix::Article || (
        session.command_mix == ClientCommandMix::Alternate && (session.next_id + index) % 2 == 1) {
            "ARTICLE "
        } else {
            "BODY "
        }).spec_bytes() + bytes::decimal((session.next_id + index) as nat)
            + "\r\n".spec_bytes(),
{
}

proof fn lemma_start_id(config: ClientConfig, connection: int)
    requires
        config.total_clients > 0,
        config.start_id + requests_before(config, connection) <= u64::MAX,
    ensures
        start_id_at(config, connection) == config.start_id + requests_before(config, connection),
        requests_before(config, connection) >= 0,
    decreases connection,
{
    if connection > 0 {
        if config.requests > 0 {
            workload::lemma_share_fits(
                config.requests as int,
                config.total_clients as int,
                config.client_offset + connection - 1,
            );
        }
        lemma_start_id(config, connection - 1);
    }
}

/// No two connections of a process send a request with the same number.
pub proof fn law_connections_use_different_numbers(
    config: ClientConfig,
    first: int,
    second: int,
    first_request: int,
    second_request: int,
)
    requires
        config.total_clients > 0,
        0 <= first < second,
        0 <= first_request < requests_at(config, first),
        0 <= second_request,
        config.start_id + requests_before(config, second) <= u64::MAX,
    ensures
        start_id_at(config, first) + first_request < start_id_at(config, second) + second_request,
        config.start_id <= start_id_at(config, first),
{
    lemma_requests_grow(config, first + 1, second);
    lemma_start_id(config, second);
    lemma_start_id(config, first + 1);
    lemma_start_id(config, first);
}

proof fn lemma_requests_grow(config: ClientConfig, low: int, high: int)
    requires
        config.total_clients > 0,
        0 <= low <= high,
    ensures
        requests_before(config, low) <= requests_before(config, high),
        requests_before(config, low - 1) <= requests_before(config, low),
    decreases high,
{
    if low > 0 && config.requests > 0 {
        workload::lemma_share_fits(
            config.requests as int,
            config.total_clients as int,
            config.client_offset + low - 1,
        );
    }
    if low < high {
        lemma_requests_grow(config, low, high - 1);
        if config.requests > 0 {
            workload::lemma_share_fits(
                config.requests as int,
                config.total_clients as int,
                config.client_offset + high - 1,
            );
        }
    }
}

/// The connections of a process take their places among all clients from its offset on, and the
/// ports in turn.
pub proof fn law_connections_take_their_turn(config: ClientConfig, connection: int)
    requires
        0 <= connection,
        config.client_offset + connection <= usize::MAX,
    ensures
        session_at(config, connection).client_index == config.client_offset + connection,
        session_at(config, connection).total_clients == config.total_clients,
        session_at(config, connection).port is None <==> config.ports@.len() == 0,
        config.ports@.len() > 0 ==> session_at(config, connection).port == Some(
            config.ports@[(config.client_offset + connection) % config.ports@.len() as int],
        ),
        session_at(config, connection).limited <==> config.requests > 0,
{
}

/// How many requests a client sends does not depend on the process that it runs in.
pub proof fn law_shares_do_not_depend_on_the_process(
    config: ClientConfig,
    other: ClientConfig,
    connection: int,
    other_connection: int,
)
    requires
        config.requests == other.requests,
        config.total_clients == other.total_clients,
        config.client_offset + connection == other.client_offset + other_connection,
    ensures
        requests_at(config, connection) == requests_at(other, other_connection),
{
}

/// A configuration is refused exactly where a user or a password cannot be sent, or where a list of
/// articles and the directory for them are not given together.
pub proof fn law_refused_configurations(args: ClientArgs)
    ensures
        config_error(args) is None <==> {
            &&& args.auth_user matches Some(user) ==> values::is_auth_value(
                utf8::encode_utf8(user@),
            )
            &&& args.auth_pass matches Some(pass) ==> values::is_auth_value(
                utf8::encode_utf8(pass@),
            )
            &&& args.article_ids is Some <==> args.article_output_dir is Some
            &&& args.article_verify_dir is Some ==> args.article_ids is Some
        },
        config_error(args) == Some(ConfigError::InvalidAuthUser) ==> args.auth_user is Some
            && !values::is_auth_value(utf8::encode_utf8(args.auth_user->0@)),
        config_error(args) == Some(ConfigError::InvalidAuthPass) ==> args.auth_pass is Some
            && !values::is_auth_value(utf8::encode_utf8(args.auth_pass->0@)),
        config_error(args) == Some(ConfigError::OutputDirRequired) ==> args.article_ids is Some
            && args.article_output_dir is None,
        config_error(args) == Some(ConfigError::IdsRequiredForOutput) ==> args.article_ids is None
            && args.article_output_dir is Some,
        config_error(args) == Some(ConfigError::IdsRequiredForVerify) ==> args.article_ids is None
            && args.article_output_dir is None && args.article_verify_dir is Some,
{
}

/// There is always at least one connection, and as many as are asked for.
pub proof fn law_connections_are_as_asked(args: ClientArgs)
    ensures
        connections_of(args) >= 1,
        args.connections >= 1 ==> connections_of(args) == args.connections,
        args.connections == 0 ==> connections_of(args) == 1,
{
}

/// An answer is read as that of the request that was sent in its place.
pub proof fn law_answers_are_read_as_they_were_asked(
    session: ClientSession,
    segments: Option<Seq<Seq<u8>>>,
    index: u64,
)
    ensures
        ({
            let line = line_at(session, segments, index);
            let kind = workload::request_kind_of(
                workload::command_for(session.next_id.wrapping_add(index), session.command_mix),
            );
            &&& kind == RequestKind::Article <==> line[0] == 65
            &&& kind == RequestKind::Body <==> line[0] == 66
        }),
{
    reveal_strlit("ARTICLE ");
    reveal_strlit("BODY ");
    assert("ARTICLE ".is_ascii() && "BODY ".is_ascii());
    assert("ARTICLE ".spec_bytes()[0] == 65 && "BODY ".spec_bytes()[0] == 66);
    assert("ARTICLE ".spec_bytes().len() == 8 && "BODY ".spec_bytes().len() == 5);
}

} // verus!
