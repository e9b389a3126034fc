//! Grounding of chat messages with web search results: query shaping,
//! source collection and context rendering, with verified contracts.

pub mod text;
pub mod query;
pub mod sources;
pub mod message;
pub mod keys;
pub mod context;
