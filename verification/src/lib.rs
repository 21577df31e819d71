//! Client core for a dynamic-DNS updater: building the provider's update URL,
//! interpreting the provider's XML response, and classifying each update
//! cycle's outcome.
//!
//! The update cycle itself is plain: a GET against the provider's endpoint,
//! whose reply, an HTTP status and an XML body, is read and classified by
//! `response::interpret`. Everything around that call (the environment, the
//! socket, the clock, the endless loop) stays outside the library and hands
//! plain values in.

pub mod config;
pub mod request;
pub mod response;
pub mod text;
pub mod xml;
