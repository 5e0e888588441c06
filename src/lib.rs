//! A rendezvous signaling broker: two clients that share a passphrase are
//! paired, given complementary roles, and their signaling messages are relayed
//! between them through per-session topics.

pub mod protocol;
pub mod session;
pub mod store;
