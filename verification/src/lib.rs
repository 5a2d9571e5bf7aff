//! Typed requests for a JSON-over-HTTP bot messaging API.
//!
//! A request is a builder: a value that holds the fields of one API call,
//! turns itself into a transport-ready HTTP request and names the strategy
//! by which the reply is unwrapped. Nothing here performs I/O: the caller
//! hands the request to a transport of its choice and hands the bytes of the
//! reply back.
//!
//! - [`types`]: what a request refers to: chats, messages, parse modes and
//!   reply markups, and the conversions that let other values stand for a
//!   chat or a message.
//! - [`requests`]: the contract that every request meets, the strategies for
//!   writing a request and reading a reply, and the request that sends a
//!   photo.
//! - [`json`]: JSON values, their compact text, and the reading of JSON
//!   text.

pub mod json;
pub mod requests;
pub mod types;
