//! Network interception and request-lifecycle engine for a browser
//! automation client: correlates protocol events into tracked requests,
//! decides which paused requests are blocked, answers auth challenges and
//! emits the minimal set of protocol mode commands.

pub mod ads;
pub mod laws;
pub mod model;
pub mod network;
pub mod policy;
pub mod text;
