//! Querying JSON documents by example: a query document mirrors the shape of
//! the data it selects, and says for each field whether to return it, to
//! constrain it, or both.
pub mod number;
pub mod text;
pub mod json;
pub mod json_text;
pub mod parser;
pub mod executor;
pub mod store;
pub mod server;
pub mod laws;
