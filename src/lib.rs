//! Query suggestions and a one-shot response cache for a launcher that talks
//! to a remote conversational service.
pub mod cache;
pub mod engine;
pub mod ranking;
pub mod response;
pub mod text;
