//! An interactive chat-completion client's verified core: the event bus
//! that fans independent producers into one ordered stream, the streaming
//! decoder that reassembles record lines from arbitrarily cut byte chunks,
//! the completion-client session with its per-invocation framing, and the
//! request/response data model.
pub mod app;
pub mod bus;
pub mod client;
pub mod decoder;
pub mod json;
pub mod llm;
pub mod request;
