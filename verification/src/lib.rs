//! Core of a small TCP chat service: the dispatcher that keeps the book of
//! named clients and routes their messages, the wire framing that clients use
//! to announce themselves, and the decisions taken on each socket read.

pub mod peer;
pub mod text;
pub mod protocol;
pub mod dispatcher;
pub mod link;
pub mod keyed;
pub mod connections;
