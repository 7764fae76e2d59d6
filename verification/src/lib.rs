//! A session server for short-lived "micro-app" sessions behind a chat
//! transport: inbound text selects, starts, feeds and stops hosted programs,
//! and each program's replies are routed back to the user who owns the
//! session. The session manager, the command dispatcher, the wire-frame
//! codec and the protocol's JSON shapes are verified; the event loop around
//! them performs the actions the manager asks for.
pub mod app;
pub mod appstate;
pub mod codec;
pub mod comm;
pub mod laws;
pub mod protocol;
pub mod strmap;
pub mod strutil;
