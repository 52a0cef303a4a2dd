//! Couscous: a small chat service in front of large language models.
//!
//! The library holds the decisions of the service: which configuration the
//! environment gives, how chats are registered, saved and restored, how a
//! model session frames the streamed parts of a reply, and how the chat
//! handler relays them to the client. The program around it performs the
//! I/O (files, the environment, model backends and the network) and hands
//! the library plain values.
pub mod chat;
pub mod driver;
pub mod env;
pub mod history;
pub mod registry;
pub mod session;
pub mod signal;
