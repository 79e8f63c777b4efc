//! A crawler core for a content-addressed HTTP gateway: a deduplicating work
//! queue, the analysis of fetched pages, and an in-memory inverted index.

pub mod collections;
pub mod html;
pub mod index_queue;
pub mod index_result;
pub mod laws;
pub mod links;
pub mod page;
pub mod ranking;
pub mod text;

pub use index_queue::IndexQueue;
pub use index_result::IndexResult;
