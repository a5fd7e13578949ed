//! A streaming load-and-split pipeline: a pull-based stream reads a text
//! source one line at a time, optionally splits each line into bounded
//! chunks, buffers the pieces, and yields them one by one as `Document`
//! values in strict source order.

pub mod document_loaders;
pub mod schemas;
pub mod text_splitter;
pub mod trim;

pub use document_loaders::{LoaderError, ReadEvent, Step, TxtLoader, TxtLoaderStream};
pub use schemas::Document;
pub use text_splitter::{ChunkSplitter, TextSplitter, TextSplitterError};
