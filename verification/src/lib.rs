//! Client side of a resumable upload: a byte stream is cut into bounded chunks
//! and written to a remote endpoint one chunk at a time, each write addressed
//! by the running byte offset.

pub mod chunking;
pub mod client;
pub mod config;
pub mod error;
pub mod headers;
pub mod processor;
pub mod queue;
pub mod source;
pub mod transfer;
pub mod transport;

pub use client::Client;
pub use config::{Config, CHUNK_SIZE, QUEUE_CAPACITY};
pub use error::Error;
pub use headers::{chunk_headers, decimal_digits, default_headers, TUS_VERSION};
pub use processor::{cut_chunk, Processor, Production};
pub use queue::TransferQueue;
pub use source::{MemorySource, ReadFault, Source};
pub use transfer::{Phase, Transfer};
pub use transport::{MemoryEndpoint, Reply, Transport, TransportFault, NO_CONTENT};
