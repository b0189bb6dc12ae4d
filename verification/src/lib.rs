//! A mock NNTP server and client workload, with the protocol decisions verified.
pub mod agreement;
pub mod answers;
pub mod auth;
pub mod batch;
pub mod bytes;
pub mod client;
pub mod commands;
pub mod date;
pub mod dialogue;
pub mod download;
pub mod fetch;
pub mod generate;
pub mod groups;
pub mod listing;
pub mod message_id;
pub mod overview;
pub mod pending;
pub mod process_stats;
pub mod request;
pub mod request_line;
pub mod response;
pub mod responses;
pub mod segments;
pub mod server_config;
pub mod session;
pub mod store;
pub mod terminator;
pub mod text;
pub mod transfer;
pub mod values;
pub mod wildmat;
pub mod workload;

pub use batch::{for_each_request_line_in_batch, RequestBatch};
pub use client::{ClientArgs, ClientConfig, ClientSession};
pub use fetch::{fetch_request, ClientError, FetchArgs, FetchRequestKind};
pub use generate::{generate_article, generate_body};
pub use message_id::MessageId;
pub use request::{ArticleRef, Request};
pub use request_line::{RequestKind, RequestLine};
pub use server_config::{ServerArgs, ServerConfig, SessionStats, Snapshot, Stats};
pub use session::process_request_to_buffer;
pub use workload::{
    bench_client_request_for_command, bench_client_segment_request_for_command, ClientCommandMix,
    SegmentSet,
};
