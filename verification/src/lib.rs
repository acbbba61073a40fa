//! Conversation graphs of Bluesky posts: identifiers, the graph model, the
//! crawl state machine, and the lenses that render a graph as text.
pub mod strings;
pub mod uri;
pub mod model;
pub mod ordered_map;
pub mod api;
pub mod text;
pub mod lens;
pub mod collections;
pub mod crawler;
pub mod json;
pub mod route;
pub mod storage;
pub mod cache;
pub mod mcp;
