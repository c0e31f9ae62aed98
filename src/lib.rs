//! Session state of a multi-room piano relay: clients, channels with a
//! transferable crown, a per-client note quota, bans, the channel directory,
//! and the handlers of the client protocol. Every handler maps the registry and
//! one inbound event to the registry after it and the frames to send.
pub mod events;
pub mod handlers;
pub mod laws;
pub mod quota;
pub mod server;
pub mod text;
pub mod types;
pub mod utils;
