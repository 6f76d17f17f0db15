//! Client-side FetchXML query engine: root-tag editing, response decoding and
//! the cursor-based paging state machine, with their contracts proved by Verus.

pub mod auth;
pub mod client;
pub mod entity;
pub mod error;
pub mod fetchxml;
pub mod json;
pub mod metadata;
pub mod paging;
pub mod parse;
pub mod rootedit;
pub mod text;
