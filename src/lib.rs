//! Resolution of a free-text query to a market symbol, and extraction of quote
//! fields from a retrieved quote page.

pub mod extract;
pub mod index;
pub mod page;
pub mod resolve;
pub mod retrieval;
pub mod text;
pub mod trie;
