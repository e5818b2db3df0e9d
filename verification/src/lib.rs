//! A client-server chat in which each client agrees on a secret number with the
//! server by Diffie-Hellman exchange and then encrypts its messages with it.
//!
//! The library holds the computing core of the chat: the ciphers, the key
//! exchange, the choice of the public parameters, the messages, and the
//! protocol state machines of the client and of the server.

pub mod cipher;
pub mod key_exchange;
pub mod parameters;
pub mod messages;
pub mod protocol;
pub mod client;
pub mod server;
