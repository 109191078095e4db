//! Session and routing engine of a room-based line chat server.
//!
//! The library holds the server's shared state (who is connected and in
//! which room, and each room's recent history) and decides, for every
//! connection, handshake, input line and disconnection, which messages go
//! to the shared broadcast bus and which to a single session's private
//! queue. Sockets, tasks and channels live with the caller.
mod history;
mod message;
mod registry;
mod server;
mod text;

pub use history::{capped, lemma_history_keeps_newest, replay, HistoryStore, HISTORY_CAP};
pub use message::{opt_view, ChatMessage, Handshake, MessageType};
pub use registry::{lemma_name_reuse, members, RegisterError, Registry, Session};
pub use server::{
    admin_name, appended, bus_reaches, default_room, joined_text, lemma_bus_follows_room,
    lemma_join_replays_history, lemma_private_stays_private, parse_command, parses_to,
    queued_for, replays, should_deliver, visible, ChatServer, Command, Delivery, HandshakeError,
};
pub use text::{
    alnum, ascii_alnum, is_command, join_from, joined, plain_name, starts_with_slash, trim_of, valid_name,
    valid_username, words_of, MAX_NAME_LEN,
};
