//! A single request sent by hand: its input, its output, the client's
//! settings and the log of what was sent.

pub mod client;
pub mod history;
pub mod request;
pub mod response;
pub mod websocket;
