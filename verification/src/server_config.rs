//! The settings of the server and its counters.
use crate::generate;
use crate::generate::build_generated_response;
use crate::responses::{ARTICLE_RESPONSE_PREFIX, BODY_RESPONSE_PREFIX, HEAD_RESPONSE, STAT_RESPONSE};
use vstd::prelude::*;
use vstd::string::StringSliceAdditionalSpecFns;

verus! {

/// The most commands that one batch holds.
pub const MAX_SERVER_PIPELINE_DEPTH: usize = 1024;

/// The settings that a server is started with.
#[derive(Debug)]
pub struct ServerArgs {
    /// Approximate body bytes returned for BODY.
    pub body_bytes: usize,
    /// Approximate full article bytes returned for ARTICLE, including headers.
    pub article_bytes: usize,
    /// Directory tree with complete ARTICLE responses.
    pub article_dir: Option<String>,
    /// Maximum concurrent accepted sessions.
    pub max_connections: usize,
    /// Maximum complete commands consumed from one pipelined read batch.
    pub max_pipeline_depth: usize,
    pub nodelay: bool,
    pub socket_recv_buffer: usize,
    pub socket_send_buffer: usize,
    pub stats_interval_secs: u64,
    /// Flush after each response.
    pub flush: bool,
    /// Pending write buffer used to coalesce small responses.
    pub pending_write_bytes: usize,
}

#[derive(Debug)]
pub struct ServerConfig {
    pub body_bytes: usize,
    pub article_bytes: usize,
    pub body_response: Vec<u8>,
    pub article_response: Vec<u8>,
    pub article_dir: Option<String>,
    pub max_connections: usize,
    pub max_pipeline_depth: usize,
    pub stats_interval_secs: u64,
    pub flush: bool,
    pub pending_write_bytes: usize,
    pub nodelay: bool,
    pub socket_recv_buffer: usize,
    pub socket_send_buffer: usize,
}

impl ServerConfig {
    /// The answer to `BODY` for article 1.
    pub open spec fn body_text(&self) -> Seq<u8> {
        self.body_response@
    }

    /// The answer to `ARTICLE` for article 1.
    pub open spec fn article_text(&self) -> Seq<u8> {
        self.article_response@
    }

    /// The two answers have the sizes that the settings ask for.
    pub open spec fn is_prepared(&self) -> bool {
        &&& self.body_text() == generate::generated(
            BODY_RESPONSE_PREFIX.spec_bytes(),
            self.body_bytes as int,
        )
        &&& self.article_text() == generate::generated(
            ARTICLE_RESPONSE_PREFIX.spec_bytes(),
            self.article_bytes as int,
        )
    }

    pub fn from_args(args: ServerArgs) -> (config: ServerConfig)
        ensures
            config.is_prepared(),
            config.body_text() == generate::generated(
                BODY_RESPONSE_PREFIX.spec_bytes(),
                args.body_bytes as int,
            ),
            config.article_text() == generate::generated(
                ARTICLE_RESPONSE_PREFIX.spec_bytes(),
                args.article_bytes as int,
            ),
            config.body_bytes == args.body_bytes,
            config.article_bytes == args.article_bytes,
            config.article_dir == args.article_dir,
            config.max_connections == args.max_connections,
            config.max_pipeline_depth == (if args.max_pipeline_depth < 1 {
                1
            } else if args.max_pipeline_depth > 1024 {
                1024
            } else {
                args.max_pipeline_depth as int
            }),
            1 <= config.max_pipeline_depth <= MAX_SERVER_PIPELINE_DEPTH,
            1 <= args.max_pipeline_depth <= MAX_SERVER_PIPELINE_DEPTH ==> config.max_pipeline_depth
                == args.max_pipeline_depth,
            1 <= config.pending_write_bytes,
            1 <= args.pending_write_bytes ==> config.pending_write_bytes
                == args.pending_write_bytes,
            config.stats_interval_secs == args.stats_interval_secs,
            config.flush == args.flush,
            config.pending_write_bytes == (if args.pending_write_bytes < 1 {
                1
            } else {
                args.pending_write_bytes as int
            }),
            config.nodelay == args.nodelay,
            config.socket_recv_buffer == args.socket_recv_buffer,
            config.socket_send_buffer == args.socket_send_buffer,
    {
        let body_response: Vec<u8> = build_generated_response(
            BODY_RESPONSE_PREFIX.as_bytes(),
            args.body_bytes,
        );
        let article_response: Vec<u8> = build_generated_response(
            ARTICLE_RESPONSE_PREFIX.as_bytes(),
            args.article_bytes,
        );
        let max_pipeline_depth: usize = if args.max_pipeline_depth < 1 {
            1
        } else if args.max_pipeline_depth > MAX_SERVER_PIPELINE_DEPTH {
            MAX_SERVER_PIPELINE_DEPTH
        } else {
            args.max_pipeline_depth
        };
        let pending_write_bytes: usize = if args.pending_write_bytes < 1 {
            1
        } else {
            args.pending_write_bytes
        };
        ServerConfig {
            body_bytes: args.body_bytes,
            article_bytes: args.article_bytes,
            body_response,
            article_response,
            article_dir: args.article_dir,
            max_connections: args.max_connections,
            max_pipeline_depth,
            stats_interval_secs: args.stats_interval_secs,
            flush: args.flush,
            pending_write_bytes,
            nodelay: args.nodelay,
            socket_recv_buffer: args.socket_recv_buffer,
            socket_send_buffer: args.socket_send_buffer,
        }
    }

    pub fn head_response(&self) -> (response: &[u8])
        ensures
            response@ == HEAD_RESPONSE.spec_bytes(),
    {
        HEAD_RESPONSE.as_bytes()
    }

    pub fn stat_response(&self) -> (response: &[u8])
        ensures
            response@ == STAT_RESPONSE.spec_bytes(),
    {
        STAT_RESPONSE.as_bytes()
    }

    pub fn body_response(&self) -> (response: &[u8])
        ensures
            response@ == self.body_text(),
    {
        self.body_response.as_slice()
    }

    pub fn article_response(&self) -> (response: &[u8])
        ensures
            response@ == self.article_text(),
    {
        self.article_response.as_slice()
    }
}

/// The counters of the whole process. Times are nanoseconds since a moment that the caller
/// picks.
#[derive(Debug)]
pub struct Stats {
    pub started: u64,
    pub accepted_connections: u64,
    pub refused_connections: u64,
    pub active_connections: usize,
    pub commands: u64,
    pub pipeline_batches: u64,
    pub article_requests: u64,
    pub body_requests: u64,
    pub bytes_sent: u64,
    pub errors: u64,
}

/// The counters of one session.
#[derive(Debug, Clone, Copy)]
pub struct SessionStats {
    pub commands: u64,
    pub pipeline_batches: u64,
    pub article_requests: u64,
    pub body_requests: u64,
    pub bytes_sent: u64,
}

/// The counters at one moment.
#[derive(Debug, Clone, Copy)]
pub struct Snapshot {
    pub at: u64,
    pub accepted_connections: u64,
    pub refused_connections: u64,
    pub active_connections: usize,
    pub commands: u64,
    pub pipeline_batches: u64,
    pub article_requests: u64,
    pub body_requests: u64,
    pub bytes_sent: u64,
    pub errors: u64,
}

/// What the counters grew by between two snapshots, and over which time.
#[derive(Debug, Clone, Copy)]
pub struct SnapshotGrowth {
    pub window: u64,
    pub connections: u64,
    pub commands: u64,
    pub article_requests: u64,
    pub body_requests: u64,
    pub bytes_sent: u64,
}

impl SessionStats {
    pub fn new() -> (stats: SessionStats)
        ensures
            stats == (SessionStats {
                commands: 0,
                pipeline_batches: 0,
                article_requests: 0,
                body_requests: 0,
                bytes_sent: 0,
            }),
    {
        SessionStats {
            commands: 0,
            pipeline_batches: 0,
            article_requests: 0,
            body_requests: 0,
            bytes_sent: 0,
        }
    }

    /// Counts bytes that were sent.
    pub fn count_sent(&mut self, bytes: u64)
        ensures
            *final(self) == (SessionStats {
                bytes_sent: old(self).bytes_sent.wrapping_add(bytes),
                ..*old(self)
            }),
    {
        self.bytes_sent = self.bytes_sent.wrapping_add(bytes);
    }

    /// Counts a batch where it holds more than one command.
    pub fn count_batch(&mut self, commands: usize)
        ensures
            *final(self) == (SessionStats {
                pipeline_batches: if commands > 1 {
                    old(self).pipeline_batches.wrapping_add(1)
                } else {
                    old(self).pipeline_batches
                },
                ..*old(self)
            }),
    {
        if commands > 1 {
            self.pipeline_batches = self.pipeline_batches.wrapping_add(1);
        }
    }
}

impl Stats {
    pub fn new(started: u64) -> (stats: Stats)
        ensures
            stats == (Stats {
                started,
                accepted_connections: 0,
                refused_connections: 0,
                active_connections: 0,
                commands: 0,
                pipeline_batches: 0,
                article_requests: 0,
                body_requests: 0,
                bytes_sent: 0,
                errors: 0,
            }),
    {
        Stats {
            started,
            accepted_connections: 0,
            refused_connections: 0,
            active_connections: 0,
            commands: 0,
            pipeline_batches: 0,
            article_requests: 0,
            body_requests: 0,
            bytes_sent: 0,
            errors: 0,
        }
    }

    pub fn snapshot(&self, at: u64) -> (snapshot: Snapshot)
        ensures
            snapshot == (Snapshot {
                at,
                accepted_connections: self.accepted_connections,
                refused_connections: self.refused_connections,
                active_connections: self.active_connections,
                commands: self.commands,
                pipeline_batches: self.pipeline_batches,
                article_requests: self.article_requests,
                body_requests: self.body_requests,
                bytes_sent: self.bytes_sent,
                errors: self.errors,
            }),
    {
        Snapshot {
            at,
            accepted_connections: self.accepted_connections,
            refused_connections: self.refused_connections,
            active_connections: self.active_connections,
            commands: self.commands,
            pipeline_batches: self.pipeline_batches,
            article_requests: self.article_requests,
            body_requests: self.body_requests,
            bytes_sent: self.bytes_sent,
            errors: self.errors,
        }
    }

    /// Adds what a session counted. The counters wrap around.
    pub fn add_session(&mut self, session: &SessionStats)
        ensures
            *final(self) == (Stats {
                commands: old(self).commands.wrapping_add(session.commands),
                pipeline_batches: old(self).pipeline_batches.wrapping_add(
                    session.pipeline_batches,
                ),
                article_requests: old(self).article_requests.wrapping_add(
                    session.article_requests,
                ),
                body_requests: old(self).body_requests.wrapping_add(session.body_requests),
                bytes_sent: old(self).bytes_sent.wrapping_add(session.bytes_sent),
                ..*old(self)
            }),
            old(self).commands + session.commands <= u64::MAX ==> final(self).commands
                == old(self).commands + session.commands,
            old(self).pipeline_batches + session.pipeline_batches <= u64::MAX
                ==> final(self).pipeline_batches == old(self).pipeline_batches
                + session.pipeline_batches,
            old(self).article_requests + session.article_requests <= u64::MAX
                ==> final(self).article_requests == old(self).article_requests
                + session.article_requests,
            old(self).body_requests + session.body_requests <= u64::MAX
                ==> final(self).body_requests == old(self).body_requests + session.body_requests,
            old(self).bytes_sent + session.bytes_sent <= u64::MAX ==> final(self).bytes_sent
                == old(self).bytes_sent + session.bytes_sent,
            final(self).active_connections == old(self).active_connections,
    {
        self.commands = self.commands.wrapping_add(session.commands);
        self.pipeline_batches = self.pipeline_batches.wrapping_add(session.pipeline_batches);
        self.article_requests = self.article_requests.wrapping_add(session.article_requests);
        self.body_requests = self.body_requests.wrapping_add(session.body_requests);
        self.bytes_sent = self.bytes_sent.wrapping_add(session.bytes_sent);
    }

    /// A connection beyond the most that are allowed was turned away.
    pub fn count_refused(&mut self)
        ensures
            *final(self) == (Stats {
                refused_connections: old(self).refused_connections.wrapping_add(1),
                ..*old(self)
            }),
    {
        self.refused_connections = self.refused_connections.wrapping_add(1);
    }

    /// A connection was opened.
    pub fn count_opened(&mut self)
        ensures
            *final(self) == (Stats {
                accepted_connections: old(self).accepted_connections.wrapping_add(1),
                active_connections: old(self).active_connections.wrapping_add(1),
                ..*old(self)
            }),
            old(self).active_connections < usize::MAX ==> final(self).active_connections
                == old(self).active_connections + 1,
            final(self).refused_connections == old(self).refused_connections,
    {
        self.accepted_connections = self.accepted_connections.wrapping_add(1);
        self.active_connections = self.active_connections.wrapping_add(1);
    }

    /// A connection was closed, after an error or without one.
    pub fn count_closed(&mut self, failed: bool)
        ensures
            *final(self) == (Stats {
                active_connections: old(self).active_connections.wrapping_sub(1),
                errors: if failed {
                    old(self).errors.wrapping_add(1)
                } else {
                    old(self).errors
                },
                ..*old(self)
            }),
            old(self).active_connections > 0 ==> final(self).active_connections + 1
                == old(self).active_connections,
            final(self).accepted_connections == old(self).accepted_connections,
            !failed ==> final(self).errors == old(self).errors,
    {
        if failed {
            self.errors = self.errors.wrapping_add(1);
        }
        self.active_connections = self.active_connections.wrapping_sub(1);
    }

    /// The wanted number of bytes has been transferred. Zero wants no number.
    pub fn transfer_limit_reached(&self, transfer_bytes: u64) -> (reached: bool)
        ensures
            reached == (transfer_bytes != 0 && self.bytes_sent >= transfer_bytes),
            transfer_bytes == 0 ==> !reached,
            transfer_bytes > 0 ==> (!reached <==> self.bytes_sent < transfer_bytes),
    {
        transfer_bytes != 0 && self.bytes_sent >= transfer_bytes
    }
}

impl Snapshot {
    /// What the counters grew by since `previous`, or since `started` and zero without one.
    pub fn growth_since(&self, started: u64, previous: Option<Snapshot>) -> (growth: SnapshotGrowth)
        ensures
            growth == (match previous {
                Some(before) => SnapshotGrowth {
                    window: self.at.wrapping_sub(before.at),
                    connections: self.accepted_connections.wrapping_sub(
                        before.accepted_connections,
                    ),
                    commands: self.commands.wrapping_sub(before.commands),
                    article_requests: self.article_requests.wrapping_sub(before.article_requests),
                    body_requests: self.body_requests.wrapping_sub(before.body_requests),
                    bytes_sent: self.bytes_sent.wrapping_sub(before.bytes_sent),
                },
                None => SnapshotGrowth {
                    window: self.at.wrapping_sub(started),
                    connections: self.accepted_connections,
                    commands: self.commands,
                    article_requests: self.article_requests,
                    body_requests: self.body_requests,
                    bytes_sent: self.bytes_sent,
                },
            }),
            previous matches Some(before) ==> {
                &&& before.at <= self.at ==> before.at + growth.window == self.at
                &&& before.accepted_connections <= self.accepted_connections
                    ==> before.accepted_connections + growth.connections
                    == self.accepted_connections
                &&& before.commands <= self.commands ==> before.commands + growth.commands
                    == self.commands
                &&& before.article_requests <= self.article_requests ==> before.article_requests
                    + growth.article_requests == self.article_requests
                &&& before.body_requests <= self.body_requests ==> before.body_requests
                    + growth.body_requests == self.body_requests
                &&& before.bytes_sent <= self.bytes_sent ==> before.bytes_sent + growth.bytes_sent
                    == self.bytes_sent
            },
            previous is None && started <= self.at ==> started + growth.window == self.at,
    {
        match previous {
            Some(before) => SnapshotGrowth {
                window: self.at.wrapping_sub(before.at),
                connections: self.accepted_connections.wrapping_sub(before.accepted_connections),
                commands: self.commands.wrapping_sub(before.commands),
                article_requests: self.article_requests.wrapping_sub(before.article_requests),
                body_requests: self.body_requests.wrapping_sub(before.body_requests),
                bytes_sent: self.bytes_sent.wrapping_sub(before.bytes_sent),
            },
            None => SnapshotGrowth {
                window: self.at.wrapping_sub(started),
                connections: self.accepted_connections,
                commands: self.commands,
                article_requests: self.article_requests,
                body_requests: self.body_requests,
                bytes_sent: self.bytes_sent,
            },
        }
    }
}

} // verus!
