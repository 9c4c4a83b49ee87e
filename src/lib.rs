//! A personal note store: notes with timestamps, a query engine combining
//! keyword and date filters, import deduplication and Markdown export.

pub mod text;
pub mod time;
pub mod query;
pub mod error;
pub mod note;
pub mod order;
pub mod digest;
pub mod export;
pub mod store;
pub mod config;
pub mod commands;
