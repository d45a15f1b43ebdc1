//! Resumable firmware downloads: the footer of a partial file, the ranges that
//! are still to be fetched, and the decisions of the download workers.

pub mod bits;
pub mod chunk;
pub mod cipher;
pub mod cover;
pub mod download;
pub mod footer;
pub mod info;
pub mod pool;
pub mod ranges;
pub mod tracker;
