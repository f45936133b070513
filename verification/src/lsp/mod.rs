//! Language Server Protocol support: the data model and the transport's
//! framing and wire normalisation.

pub mod types;
pub mod json;
pub mod transport;
pub mod parse;
pub mod hierarchy;
pub mod tokens;
pub mod symbols;
pub mod encode;
pub mod session;
pub mod client;
pub mod manager;
